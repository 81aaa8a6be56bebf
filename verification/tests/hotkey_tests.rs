use umbra::hotkey::{
    debouncing, hook_decision, is_supported_hotkey, key_to_vk, parse_hotkey, update_hotkey, HookAction,
    HotkeyDef, KeyEvent, WM_KEYDOWN, WM_KEYUP,
};

fn def(vk: u16, alt: bool, ctrl: bool, shift: bool, win: bool) -> HotkeyDef {
    HotkeyDef { vk, alt, ctrl, shift, win }
}

#[test]
fn parses_supported_hotkeys() {
    assert_eq!(parse_hotkey("Alt+Space"), Some(def(0x20, true, false, false, false)));
    assert_eq!(parse_hotkey("Ctrl+Shift+P"), Some(def(0x50, false, true, true, false)));
    assert_eq!(parse_hotkey("Alt+7"), Some(def(0x37, true, false, false, false)));
    assert_eq!(parse_hotkey("Ctrl+F1"), Some(def(0x70, false, true, false, false)));
    assert_eq!(parse_hotkey("Super+F12"), Some(def(0x7B, false, false, false, true)));
    assert_eq!(parse_hotkey("Ctrl+Alt+ArrowUp"), Some(def(0x26, true, true, false, false)));
    assert_eq!(parse_hotkey(" ctrl + q "), Some(def(0x51, false, true, false, false)));
}

#[test]
fn rejects_hotkeys_the_hook_cannot_trigger() {
    for bad in ["", "Space", "Alt", "Ctrl+", "Ctrl+F13", "Ctrl+F0", "Ctrl+-", "Ctrl+/", "Alt+Й", "Ctrl+A+B", "Ctrl+Numpad1"] {
        assert_eq!(parse_hotkey(bad), None, "{bad}");
    }
}

#[test]
fn key_names_map_to_virtual_keys() {
    let k = |s: &str| key_to_vk(&s.chars().collect::<Vec<char>>());
    assert_eq!(k("enter"), Some(0x0D));
    assert_eq!(k("tab"), Some(0x09));
    assert_eq!(k("esc"), Some(0x1B));
    assert_eq!(k("escape"), Some(0x1B));
    assert_eq!(k("left"), Some(0x25));
    assert_eq!(k("arrowdown"), Some(0x28));
    assert_eq!(k("right"), Some(0x27));
    assert_eq!(k("f"), Some(0x46));
    assert_eq!(k("f09"), Some(0x78));
    assert_eq!(k("f12"), Some(0x7B));
    assert_eq!(k("0"), Some(0x30));
    assert_eq!(k("f99999"), None);
    assert_eq!(k("é"), None);
    assert_eq!(k(""), None);
}

#[test]
fn modifier_aliases_are_understood() {
    assert_eq!(parse_hotkey("control+meta+x"), Some(def(0x58, false, true, false, true)));
    assert_eq!(parse_hotkey("Win+Cmd+Command+Enter"), Some(def(0x0D, false, false, false, true)));
    assert_eq!(parse_hotkey("Shift+Tab"), Some(def(0x09, false, false, true, false)));
    assert!(is_supported_hotkey("Alt+Space"));
    assert!(!is_supported_hotkey("Alt+Space+Tab"));
}

#[test]
fn unparsable_configured_hotkey_falls_back_to_alt_space() {
    let mut current = def(0, false, false, false, false);
    update_hotkey(&mut current, "Ctrl+F13");
    assert_eq!(current, def(0x20, true, false, false, false));
    update_hotkey(&mut current, "Ctrl+Shift+K");
    assert_eq!(current, def(0x4B, false, true, true, false));
}

fn event(message: u32, vk_code: u32, alt: bool) -> KeyEvent {
    KeyEvent {
        code: 0,
        message,
        vk_code,
        flags: if alt { 0x20 } else { 0 },
        alt_state: 0,
        ctrl_state: 0,
        shift_state: 0,
        lwin_state: 0,
        rwin_state: 0,
    }
}

#[test]
fn hook_triggers_once_and_swallows_the_key_up() {
    let hotkey = def(0x20, true, false, false, false);
    let mut suppress = false;
    assert_eq!(hook_decision(&hotkey, &mut suppress, &event(WM_KEYDOWN, 0x20, true), false), HookAction::Trigger);
    assert!(suppress);
    assert_eq!(hook_decision(&hotkey, &mut suppress, &event(WM_KEYDOWN, 0x20, true), true), HookAction::Swallow);
    assert_eq!(hook_decision(&hotkey, &mut suppress, &event(WM_KEYUP, 0x20, false), false), HookAction::Swallow);
    assert!(!suppress);
    assert_eq!(hook_decision(&hotkey, &mut suppress, &event(WM_KEYUP, 0x20, false), false), HookAction::Pass);
    assert_eq!(hook_decision(&hotkey, &mut suppress, &event(WM_KEYDOWN, 0x20, false), false), HookAction::Pass);
    assert_eq!(hook_decision(&hotkey, &mut suppress, &event(WM_KEYDOWN, 0x41, true), false), HookAction::Pass);
    let mut ctrl = event(WM_KEYDOWN, 0x20, true);
    ctrl.ctrl_state = -32768;
    assert_eq!(hook_decision(&hotkey, &mut suppress, &ctrl, false), HookAction::Pass);
}

#[test]
fn function_key_numbers_are_read_as_decimal() {
    assert_eq!(parse_hotkey("Ctrl+F05"), Some(def(0x74, false, true, false, false)));
    assert_eq!(parse_hotkey("Ctrl+F012"), Some(def(0x7B, false, true, false, false)));
    assert_eq!(parse_hotkey("Ctrl+F99999"), None);
    assert_eq!(parse_hotkey("Ctrl+F1a"), None);
    assert_eq!(parse_hotkey("Ctrl+F"), Some(def(0x46, false, true, false, false)));
}

#[test]
fn the_order_of_hotkey_parts_does_not_matter() {
    assert_eq!(parse_hotkey("Shift+Ctrl+P"), parse_hotkey("P+Ctrl+Shift"));
    assert_eq!(parse_hotkey("Space+Alt"), Some(def(0x20, true, false, false, false)));
    assert_eq!(parse_hotkey("A+Ctrl+B"), None);
}

#[test]
fn the_case_of_hotkey_letters_does_not_matter() {
    for h in ["ctrl+shift+p", "alt+space", "super+f4", "ctrl+arrowup"] {
        assert_eq!(parse_hotkey(h), parse_hotkey(&h.to_ascii_uppercase()), "{h}");
    }
    assert_eq!(parse_hotkey("CONTROL+ENTER"), Some(def(0x0D, false, true, false, false)));
}

#[test]
fn the_hotkey_is_debounced_for_a_quarter_second() {
    assert!(debouncing(0));
    assert!(debouncing(249_999_999));
    assert!(!debouncing(250_000_000));
    assert!(!debouncing(1_000_000_000));
}
