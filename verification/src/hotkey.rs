//! Global hotkey: parsing the configured text (`"Alt+Space"`) into a virtual
//! key and modifier set, and the decision the low-level keyboard hook takes
//! for each key event.
use vstd::prelude::*;

use crate::text::{
    all_ascii, ascii_lower, ascii_upper, chars_eq, chars_of, is_ascii_alpha, is_ascii_digit,
    is_white_space, str_to_lowercase, str_trim, string_of, to_lowercase, trim, trim_end_ws,
    trim_start_ws,
};

verus! {

/// A hotkey the keyboard hook can trigger: one virtual key plus modifiers.
#[derive(Clone, Copy, Debug, PartialEq, Eq, Structural)]
pub struct HotkeyDef {
    pub vk: u16,
    pub alt: bool,
    pub ctrl: bool,
    pub shift: bool,
    pub win: bool,
}

/// The hotkey with no key and no modifier.
pub open spec fn no_hotkey() -> HotkeyDef {
    HotkeyDef { vk: 0, alt: false, ctrl: false, shift: false, win: false }
}

/// The hotkey used when the configured one cannot be parsed.
pub const DEFAULT_HOTKEY: &'static str = "alt+space";

// ---------------------------------------------------------------------------
// Specification
// ---------------------------------------------------------------------------
/// Decimal value of a sequence of ASCII digits.
pub open spec fn digits_value(s: Seq<char>) -> nat
    decreases s.len(),
{
    if s.len() == 0 {
        0
    } else {
        digits_value(s.drop_last()) * 10 + ((s.last() as nat) - ('0' as nat)) as nat
    }
}

/// What `u16::from_str` returns: an optional `+` followed by one or more
/// decimal digits whose value fits in 16 bits.
pub open spec fn spec_parse_u16(s: Seq<char>) -> Option<u16> {
    digits_u16(if s.len() > 0 && s[0] == '+' { s.skip(1) } else { s })
}

/// The value of one or more decimal digits when it fits in 16 bits.
pub open spec fn digits_u16(d: Seq<char>) -> Option<u16> {
    if d.len() > 0 && (forall|i: int| 0 <= i < d.len() ==> is_ascii_digit(#[trigger] d[i]))
        && digits_value(d) <= 65535 {
        Some(digits_value(d) as u16)
    } else {
        None
    }
}

/// Virtual-key code of one (lowercase) key name, if the hook supports it.
pub open spec fn key_vk(key: Seq<char>) -> Option<u16> {
    if key == "space"@ {
        Some(0x20)
    } else if key == "enter"@ {
        Some(0x0D)
    } else if key == "tab"@ {
        Some(0x09)
    } else if key == "esc"@ || key == "escape"@ {
        Some(0x1B)
    } else if key == "left"@ || key == "arrowleft"@ {
        Some(0x25)
    } else if key == "up"@ || key == "arrowup"@ {
        Some(0x26)
    } else if key == "right"@ || key == "arrowright"@ {
        Some(0x27)
    } else if key == "down"@ || key == "arrowdown"@ {
        Some(0x28)
    } else if key.len() == 1 && is_ascii_alpha(key[0]) {
        Some(ascii_upper(key[0]) as u16)
    } else if key.len() == 1 && is_ascii_digit(key[0]) {
        Some(key[0] as u16)
    } else if key.len() >= 1 && key[0] == 'f' {
        match spec_parse_u16(key.skip(1)) {
            Some(n) => if 1 <= n <= 12 {
                Some((0x70 + n - 1) as u16)
            } else {
                None
            },
            None => None,
        }
    } else {
        None
    }
}

/// `s` cut at every `sep`; `n` separators give `n + 1` parts.
pub open spec fn split_on(s: Seq<char>, sep: char) -> Seq<Seq<char>>
    decreases s.len(),
{
    if s.len() == 0 {
        seq![Seq::<char>::empty()]
    } else if s.last() == sep {
        split_on(s.drop_last(), sep).push(Seq::<char>::empty())
    } else {
        let p = split_on(s.drop_last(), sep);
        p.update(p.len() - 1, p.last().push(s.last()))
    }
}

/// Whether `part` names a modifier, and which.
pub open spec fn is_alt_name(part: Seq<char>) -> bool {
    part == "alt"@
}

pub open spec fn is_ctrl_name(part: Seq<char>) -> bool {
    part == "ctrl"@ || part == "control"@
}

pub open spec fn is_shift_name(part: Seq<char>) -> bool {
    part == "shift"@
}

pub open spec fn is_win_name(part: Seq<char>) -> bool {
    part == "super"@ || part == "meta"@ || part == "win"@ || part == "cmd"@ || part
        == "command"@
}

/// One step of reading a hotkey: a modifier name sets its flag, the first
/// other part must be a key, any further key spoils the hotkey.
pub open spec fn apply_part(def: HotkeyDef, part: Seq<char>) -> Option<HotkeyDef> {
    if is_alt_name(part) {
        Some(HotkeyDef { alt: true, ..def })
    } else if is_ctrl_name(part) {
        Some(HotkeyDef { ctrl: true, ..def })
    } else if is_shift_name(part) {
        Some(HotkeyDef { shift: true, ..def })
    } else if is_win_name(part) {
        Some(HotkeyDef { win: true, ..def })
    } else if def.vk == 0 {
        match key_vk(part) {
            Some(vk) => Some(HotkeyDef { vk, ..def }),
            None => None,
        }
    } else {
        None
    }
}

/// Reading the parts left to right, starting from no hotkey.
pub open spec fn fold_parts(parts: Seq<Seq<char>>) -> Option<HotkeyDef>
    decreases parts.len(),
{
    if parts.len() == 0 {
        Some(no_hotkey())
    } else {
        match fold_parts(parts.drop_last()) {
            Some(d) => apply_part(d, parts.last()),
            None => None,
        }
    }
}

/// The parts of a trimmed, lowercased hotkey text: split at `+`, each part
/// trimmed again.
pub open spec fn lowered_parts(lowered: Seq<char>) -> Seq<Seq<char>> {
    split_on(lowered, '+').map_values(|p: Seq<char>| str_trim(p))
}

/// The parts of a hotkey text: trimmed, lowercased, split at `+`, each part
/// trimmed again.
pub open spec fn hotkey_parts(text: Seq<char>) -> Seq<Seq<char>> {
    lowered_parts(str_to_lowercase(str_trim(text)))
}

/// The hotkey that trimmed, lowercased parts denote: it needs a key and at
/// least one modifier.
pub open spec fn parse_lowered(lowered: Seq<char>) -> Option<HotkeyDef> {
    match fold_parts(lowered_parts(lowered)) {
        Some(d) => if d.vk != 0 && (d.alt || d.ctrl || d.shift || d.win) {
            Some(d)
        } else {
            None
        },
        None => None,
    }
}

/// The hotkey a text denotes.
pub open spec fn spec_parse_hotkey(text: Seq<char>) -> Option<HotkeyDef> {
    parse_lowered(str_to_lowercase(str_trim(text)))
}

/// The hotkey an ASCII text denotes, its letters lowered the ASCII way.
pub open spec fn spec_parse_ascii_hotkey(text: Seq<char>) -> Option<HotkeyDef> {
    parse_lowered(str_trim(text.map_values(|c: char| ascii_lower(c))))
}

/// The hotkey in force for a configured text: the configured one, else the
/// default `alt+space`, else nothing.
pub open spec fn effective_hotkey(configured: Seq<char>) -> HotkeyDef {
    match spec_parse_hotkey(configured) {
        Some(d) => d,
        None => match spec_parse_hotkey(DEFAULT_HOTKEY@) {
            Some(d) => d,
            None => no_hotkey(),
        },
    }
}

// ---------------------------------------------------------------------------
// Implementation
// ---------------------------------------------------------------------------
/// Appending a digit to a run of digits multiplies its value by ten and
/// adds the digit.
proof fn lemma_digits_push(s: Seq<char>, i: int, j: int)
    requires
        0 <= i <= j < s.len(),
    ensures
        digits_value(s.subrange(i, j + 1)) == digits_value(s.subrange(i, j)) * 10 + ((s[j] as nat)
            - ('0' as nat)) as nat,
{
    let t = s.subrange(i, j + 1);
    assert(t.drop_last() =~= s.subrange(i, j));
    assert(t.last() == s[j]);
}

/// The value of a run of digits is at least that of any of its prefixes.
proof fn lemma_digits_prefix(s: Seq<char>, k: int)
    requires
        0 <= k <= s.len(),
        forall|i: int| 0 <= i < s.len() ==> is_ascii_digit(#[trigger] s[i]),
    ensures
        digits_value(s.take(k)) <= digits_value(s),
    decreases s.len(),
{
    if k == s.len() {
        assert(s.take(k) =~= s);
    } else {
        let p = s.drop_last();
        assert forall|i: int| 0 <= i < p.len() implies is_ascii_digit(#[trigger] p[i]) by {
            assert(p[i] == s[i]);
        }
        lemma_digits_prefix(p, k);
        assert(p.take(k) =~= s.take(k));
    }
}

/// The number written in `s` as `u16::from_str` reads it: an optional `+`
/// followed by one or more decimal digits whose value fits in 16 bits.
fn parse_u16(s: &[char]) -> (r: Option<u16>)
    ensures
        r == spec_parse_u16(s@),
{
    let mut i: usize = 0;
    if s.len() > 0 && s[0] == '+' {
        i = 1;
    }
    let ghost d = if s@.len() > 0 && s@[0] == '+' {
        s@.skip(1)
    } else {
        s@
    };
    proof {
        assert(d =~= s@.subrange(i as int, s@.len() as int));
    }
    if i >= s.len() {
        return None;
    }
    let mut v: u32 = 0;
    let mut j: usize = i;
    proof {
        assert(s@.subrange(i as int, i as int) =~= Seq::<char>::empty());
    }
    while j < s.len()
        invariant
            i <= j <= s@.len(),
            d == s@.subrange(i as int, s@.len() as int),
            spec_parse_u16(s@) == digits_u16(d),
            v as nat == digits_value(s@.subrange(i as int, j as int)),
            v <= 65535,
            forall|k: int| i <= k < j ==> is_ascii_digit(#[trigger] s@[k]),
        decreases s@.len() - j,
    {
        let c = s[j];
        if !('0' <= c && c <= '9') {
            proof {
                assert(d[j - i] == c);
                assert(!is_ascii_digit(d[j - i]));
            }
            return None;
        }
        let nv: u32 = v * 10 + ((c as u32) - ('0' as u32));
        proof {
            lemma_digits_push(s@, i as int, j as int);
        }
        if nv > 65535 {
            proof {
                if forall|k: int| 0 <= k < d.len() ==> is_ascii_digit(#[trigger] d[k]) {
                    lemma_digits_prefix(d, j + 1 - i);
                    assert(d.take(j + 1 - i) =~= s@.subrange(i as int, j + 1));
                }
            }
            return None;
        }
        v = nv;
        j = j + 1;
    }
    proof {
        assert(s@.subrange(i as int, j as int) == d);
        assert forall|k: int| 0 <= k < d.len() implies is_ascii_digit(#[trigger] d[k]) by {
            assert(d[k] == s@[i + k]);
        }
    }
    Some(v as u16)
}

/// `s` cut at every occurrence of `sep`.
pub fn split_chars(s: &[char], sep: char) -> (parts: Vec<Vec<char>>)
    ensures
        parts@.len() == split_on(s@, sep).len(),
        forall|i: int| 0 <= i < parts@.len() ==> #[trigger] parts@[i]@ == split_on(s@, sep)[i],
{
    let mut parts: Vec<Vec<char>> = Vec::new();
    let mut cur: Vec<char> = Vec::new();
    let mut i: usize = 0;
    while i < s.len()
        invariant
            i <= s@.len(),
            parts@.len() + 1 == split_on(s@.take(i as int), sep).len(),
            forall|k: int|
                0 <= k < parts@.len() ==> #[trigger] parts@[k]@ == split_on(s@.take(i as int), sep)[k],
            cur@ == split_on(s@.take(i as int), sep).last(),
        decreases s@.len() - i,
    {
        proof {
            let t = s@.take(i + 1);
            assert(t.drop_last() == s@.take(i as int));
            assert(t.last() == s@[i as int]);
        }
        if s[i] == sep {
            parts.push(cur);
            cur = Vec::new();
        } else {
            cur.push(s[i]);
        }
        i = i + 1;
    }
    parts.push(cur);
    proof {
        assert(s@.take(s@.len() as int) == s@);
    }
    parts
}

/// A `Vec<char>` holding the characters of a string literal or slice.
fn literal(s: &str) -> (r: Vec<char>)
    ensures
        r@ == s@,
{
    chars_of(s)
}

/// Virtual-key code of one (lowercase) key name.
pub fn key_to_vk(key: &[char]) -> (r: Option<u16>)
    ensures
        r == key_vk(key@),
{
    if chars_eq(key, literal("space").as_slice()) {
        return Some(0x20);
    }
    if chars_eq(key, literal("enter").as_slice()) {
        return Some(0x0D);
    }
    if chars_eq(key, literal("tab").as_slice()) {
        return Some(0x09);
    }
    if chars_eq(key, literal("esc").as_slice()) || chars_eq(key, literal("escape").as_slice()) {
        return Some(0x1B);
    }
    if chars_eq(key, literal("left").as_slice()) || chars_eq(key, literal("arrowleft").as_slice()) {
        return Some(0x25);
    }
    if chars_eq(key, literal("up").as_slice()) || chars_eq(key, literal("arrowup").as_slice()) {
        return Some(0x26);
    }
    if chars_eq(key, literal("right").as_slice()) || chars_eq(key, literal("arrowright").as_slice()) {
        return Some(0x27);
    }
    if chars_eq(key, literal("down").as_slice()) || chars_eq(key, literal("arrowdown").as_slice()) {
        return Some(0x28);
    }
    if key.len() == 1 {
        let c = key[0];
        if ('a' <= c && c <= 'z') || ('A' <= c && c <= 'Z') {
            let code = c as u32;
            let up = if 'a' <= c && c <= 'z' { code - 32 } else { code };
            proof {
                assert(ascii_upper(c) as u32 == up);
            }
            return Some(up as u16);
        }
        if '0' <= c && c <= '9' {
            return Some(c as u16);
        }
    }
    if key.len() >= 1 && key[0] == 'f' {
        let mut rest: Vec<char> = Vec::new();
        let mut i: usize = 1;
        while i < key.len()
            invariant
                1 <= i <= key@.len(),
                rest@ == key@.subrange(1, i as int),
            decreases key@.len() - i,
        {
            rest.push(key[i]);
            i = i + 1;
        }
        proof {
            assert(rest@ == key@.skip(1));
        }
        match parse_u16(rest.as_slice()) {
            Some(n) => {
                if 1 <= n && n <= 12 {
                    return Some(0x70 + n - 1);
                } else {
                    return None;
                }
            },
            None => {
                return None;
            },
        }
    }
    None
}

/// Whether `part` equals the literal `name`.
fn is_named(part: &[char], name: &str) -> (r: bool)
    ensures
        r == (part@ == name@),
{
    chars_eq(part, literal(name).as_slice())
}

/// One reading step, as `apply_part` states it.
fn apply_part_exec(def: HotkeyDef, part: &[char]) -> (r: Option<HotkeyDef>)
    ensures
        r == apply_part(def, part@),
{
    if is_named(part, "alt") {
        Some(HotkeyDef { alt: true, ..def })
    } else if is_named(part, "ctrl") || is_named(part, "control") {
        Some(HotkeyDef { ctrl: true, ..def })
    } else if is_named(part, "shift") {
        Some(HotkeyDef { shift: true, ..def })
    } else if is_named(part, "super") || is_named(part, "meta") || is_named(part, "win")
        || is_named(part, "cmd") || is_named(part, "command") {
        Some(HotkeyDef { win: true, ..def })
    } else if def.vk == 0 {
        match key_to_vk(part) {
            Some(vk) => Some(HotkeyDef { vk, ..def }),
            None => None,
        }
    } else {
        None
    }
}

/// Reads a hotkey text such as `"Ctrl+Shift+P"`; `None` when the hook
/// could not trigger it (no key, no modifier, two keys, unknown key).
pub fn parse_hotkey(hotkey: &str) -> (r: Option<HotkeyDef>)
    ensures
        r == spec_parse_hotkey(hotkey@),
        all_ascii(hotkey@) ==> r == spec_parse_ascii_hotkey(hotkey@),
        r matches Some(d) ==> d.vk != 0 && (d.alt || d.ctrl || d.shift || d.win),
{
    let trimmed = trim(hotkey);
    let lowered = to_lowercase(trimmed);
    proof {
        if all_ascii(hotkey@) {
            lemma_trim_keeps_ascii(hotkey@);
            lemma_trim_lower_commute(hotkey@);
            assert(spec_parse_hotkey(hotkey@) == spec_parse_ascii_hotkey(hotkey@));
        }
    }
    let chars = chars_of(lowered.as_str());
    let raw_parts = split_chars(chars.as_slice(), '+');
    let ghost parts = hotkey_parts(hotkey@);
    let mut def = HotkeyDef { vk: 0, alt: false, ctrl: false, shift: false, win: false };
    let mut i: usize = 0;
    while i < raw_parts.len()
        invariant
            i <= raw_parts@.len(),
            raw_parts@.len() == parts.len(),
            parts == split_on(lowered@, '+').map_values(|p: Seq<char>| str_trim(p)),
            parts == hotkey_parts(hotkey@),
            all_ascii(hotkey@) ==> spec_parse_hotkey(hotkey@) == spec_parse_ascii_hotkey(hotkey@),
            forall|k: int|
                0 <= k < raw_parts@.len() ==> #[trigger] raw_parts@[k]@ == split_on(lowered@, '+')[k],
            fold_parts(parts.take(i as int)) == Some(def),
        decreases raw_parts@.len() - i,
    {
        let part_text = string_of(raw_parts[i].as_slice());
        let part = chars_of(trim(part_text.as_str()));
        proof {
            assert(part@ == parts[i as int]);
            assert(parts.take(i + 1).drop_last() == parts.take(i as int));
            assert(parts.take(i + 1).last() == parts[i as int]);
        }
        match apply_part_exec(def, part.as_slice()) {
            Some(d) => {
                def = d;
            },
            None => {
                proof {
                    lemma_fold_none_extends(parts, (i + 1) as int);
                }
                return None;
            },
        }
        i = i + 1;
    }
    proof {
        assert(parts.take(parts.len() as int) == parts);
    }
    if def.vk != 0 && (def.alt || def.ctrl || def.shift || def.win) {
        Some(def)
    } else {
        None
    }
}

/// Once reading fails, reading more parts cannot succeed.
proof fn lemma_fold_none_extends(parts: Seq<Seq<char>>, n: int)
    requires
        0 <= n <= parts.len(),
        fold_parts(parts.take(n)) is None,
    ensures
        fold_parts(parts) is None,
    decreases parts.len() - n,
{
    if n < parts.len() {
        assert(parts.take(n + 1).drop_last() == parts.take(n));
        lemma_fold_none_extends(parts, n + 1);
    } else {
        assert(parts.take(n) == parts);
    }
}

/// Whether the keyboard hook can trigger this hotkey text.
pub fn is_supported_hotkey(hotkey: &str) -> (r: bool)
    ensures
        r == (spec_parse_hotkey(hotkey@) is Some),
{
    parse_hotkey(hotkey).is_some()
}

/// Sets the hotkey in force from the configured text: the configured one if
/// it parses, else the default `alt+space`, which is Alt+Space.
pub fn update_hotkey(current: &mut HotkeyDef, configured: &str)
    ensures
        *final(current) == effective_hotkey(configured@),
        spec_parse_hotkey(configured@) is None ==> *final(current) == (HotkeyDef {
            vk: 0x20,
            alt: true,
            ctrl: false,
            shift: false,
            win: false,
        }),
{
    proof {
        law_default_hotkey_is_alt_space();
    }
    let def = match parse_hotkey(configured) {
        Some(d) => d,
        None => match parse_hotkey(DEFAULT_HOTKEY) {
            Some(d) => d,
            None => HotkeyDef { vk: 0, alt: false, ctrl: false, shift: false, win: false },
        },
    };
    *current = def;
}

// ---------------------------------------------------------------------------
// Keyboard hook decisions
// ---------------------------------------------------------------------------
/// After a trigger, the hotkey is ignored for this many milliseconds.
pub const DEBOUNCE_MS: u64 = 250;

/// Whether the hotkey is still being debounced `since_trigger_ns`
/// nanoseconds after it last triggered: less than `DEBOUNCE_MS`
/// milliseconds have passed.
pub fn debouncing(since_trigger_ns: u128) -> (r: bool)
    ensures
        r == (since_trigger_ns < DEBOUNCE_MS * 1_000_000),
{
    since_trigger_ns < (DEBOUNCE_MS as u128) * 1_000_000
}

/// Window messages a low-level keyboard hook receives.
pub const WM_KEYDOWN: u32 = 0x0100;
pub const WM_KEYUP: u32 = 0x0101;
pub const WM_SYSKEYDOWN: u32 = 0x0104;
pub const WM_SYSKEYUP: u32 = 0x0105;

/// One key event as the hook sees it, with the state of the modifier keys
/// (`GetAsyncKeyState` values) at that moment.
#[derive(Clone, Copy, Debug, PartialEq, Eq, Structural)]
pub struct KeyEvent {
    pub code: i32,
    pub message: u32,
    pub vk_code: u32,
    pub flags: u32,
    pub alt_state: i16,
    pub ctrl_state: i16,
    pub shift_state: i16,
    pub lwin_state: i16,
    pub rwin_state: i16,
}

/// What the hook does with an event.
#[derive(Clone, Copy, Debug, PartialEq, Eq, Structural)]
pub enum HookAction {
    /// Hand the event on to the next hook.
    Pass,
    /// Swallow the event.
    Swallow,
    /// Swallow the event and toggle the launcher window.
    Trigger,
}

/// A key reported by `GetAsyncKeyState` is held when its top bit is set.
pub open spec fn held(state: i16) -> bool {
    (state as u16) & 0x8000u16 != 0
}

/// Whether the modifiers held during `ev` are exactly those of `hotkey`.
pub open spec fn modifiers_match(hotkey: HotkeyDef, ev: KeyEvent) -> bool {
    let alt = (ev.flags & 0x20u32) != 0 || held(ev.alt_state);
    let ctrl = held(ev.ctrl_state);
    let shift = held(ev.shift_state);
    let win = held(ev.lwin_state) || held(ev.rwin_state);
    alt == hotkey.alt && ctrl == hotkey.ctrl && shift == hotkey.shift && win == hotkey.win
}

/// The hook's decision and the new "swallow the next key-up" flag.
/// `debouncing` is whether the last trigger is less than 250 ms old.
pub open spec fn hook_outcome(
    hotkey: HotkeyDef,
    suppress_keyup: bool,
    ev: KeyEvent,
    debouncing: bool,
) -> (HookAction, bool) {
    if ev.code >= 0 && hotkey.vk != 0 && (ev.vk_code as u16) == hotkey.vk {
        if ev.message == WM_KEYUP || ev.message == WM_SYSKEYUP {
            if suppress_keyup {
                (HookAction::Swallow, false)
            } else {
                (HookAction::Pass, suppress_keyup)
            }
        } else if ev.message == WM_KEYDOWN || ev.message == WM_SYSKEYDOWN {
            if modifiers_match(hotkey, ev) {
                if debouncing {
                    (HookAction::Swallow, suppress_keyup)
                } else {
                    (HookAction::Trigger, true)
                }
            } else {
                (HookAction::Pass, suppress_keyup)
            }
        } else {
            (HookAction::Pass, suppress_keyup)
        }
    } else {
        (HookAction::Pass, suppress_keyup)
    }
}

fn is_held(state: i16) -> (r: bool)
    ensures
        r == held(state),
{
    (state as u16) & 0x8000u16 != 0
}

/// Decides what the keyboard hook does with one event and updates the
/// "swallow the next key-up" flag.  On `Trigger` the caller records the
/// trigger time and shows or hides the window.
pub fn hook_decision(
    hotkey: &HotkeyDef,
    suppress_keyup: &mut bool,
    ev: &KeyEvent,
    debouncing: bool,
) -> (r: HookAction)
    ensures
        (r, *final(suppress_keyup)) == hook_outcome(*hotkey, *old(suppress_keyup), *ev, debouncing),
{
    if ev.code >= 0 && hotkey.vk != 0 && (ev.vk_code as u16) == hotkey.vk {
        if ev.message == WM_KEYUP || ev.message == WM_SYSKEYUP {
            if *suppress_keyup {
                *suppress_keyup = false;
                return HookAction::Swallow;
            }
        } else if ev.message == WM_KEYDOWN || ev.message == WM_SYSKEYDOWN {
            let alt_down = (ev.flags & 0x20) != 0 || is_held(ev.alt_state);
            let ctrl_down = is_held(ev.ctrl_state);
            let shift_down = is_held(ev.shift_state);
            let win_down = is_held(ev.lwin_state) || is_held(ev.rwin_state);
            if alt_down == hotkey.alt && ctrl_down == hotkey.ctrl && shift_down == hotkey.shift
                && win_down == hotkey.win {
                if debouncing {
                    return HookAction::Swallow;
                }
                *suppress_keyup = true;
                return HookAction::Trigger;
            }
        }
    }
    HookAction::Pass
}

/// Law: once the hotkey has triggered, the key-up of its key is swallowed
/// exactly once, and the flag is cleared again.
pub proof fn law_trigger_swallows_one_keyup(
    hotkey: HotkeyDef,
    suppress_keyup: bool,
    down: KeyEvent,
    up: KeyEvent,
)
    requires
        hook_outcome(hotkey, suppress_keyup, down, false).0 == HookAction::Trigger,
        up.code >= 0,
        up.vk_code == down.vk_code,
        up.message == WM_KEYUP || up.message == WM_SYSKEYUP,
    ensures
        hook_outcome(hotkey, hook_outcome(hotkey, suppress_keyup, down, false).1, up, false)
            == (HookAction::Swallow, false),
        hook_outcome(hotkey, false, up, false) == (HookAction::Pass, false),
{
}

/// Law: events of other keys are never swallowed and leave the flag as is.
pub proof fn law_other_keys_pass(hotkey: HotkeyDef, suppress_keyup: bool, ev: KeyEvent, debouncing: bool)
    requires
        (ev.vk_code as u16) != hotkey.vk,
    ensures
        hook_outcome(hotkey, suppress_keyup, ev, debouncing) == (HookAction::Pass, suppress_keyup),
{
}

/// A key name never stands for virtual-key code 0 (the code of "no key").
proof fn lemma_key_vk_nonzero(key: Seq<char>)
    ensures
        key_vk(key) matches Some(v) ==> v != 0,
{
    if key.len() == 1 && is_ascii_alpha(key[0]) && !(key == "space"@ || key == "enter"@ || key
        == "tab"@ || key == "esc"@ || key == "escape"@ || key == "left"@ || key == "arrowleft"@
        || key == "up"@ || key == "arrowup"@ || key == "right"@ || key == "arrowright"@ || key
        == "down"@ || key == "arrowdown"@) {
        let c = key[0];
        if 'a' <= c && c <= 'z' {
            assert(97 <= (c as u32) <= 122);
            assert(((c as u32) - 32) as char as u16 >= 65);
        } else {
            assert(65 <= (c as u32) <= 90);
        }
    }
}

/// Reading one more part after `o` (nothing once reading has failed).
pub open spec fn read_part(o: Option<HotkeyDef>, part: Seq<char>) -> Option<HotkeyDef> {
    match o {
        Some(d) => apply_part(d, part),
        None => None,
    }
}

proof fn lemma_read_parts_commute(o: Option<HotkeyDef>, a: Seq<char>, b: Seq<char>)
    ensures
        read_part(read_part(o, a), b) == read_part(read_part(o, b), a),
{
    lemma_key_vk_nonzero(a);
    lemma_key_vk_nonzero(b);
}

/// Swapping two neighbouring parts of a hotkey does not change what the
/// parts denote: the order of modifiers and key does not matter.
pub proof fn law_part_order_irrelevant(parts: Seq<Seq<char>>, j: int)
    requires
        0 <= j,
        j + 1 < parts.len(),
    ensures
        fold_parts(parts) == fold_parts(parts.update(j, parts[j + 1]).update(j + 1, parts[j])),
    decreases parts.len(),
{
    let swapped = parts.update(j, parts[j + 1]).update(j + 1, parts[j]);
    assert(fold_parts(parts) == read_part(fold_parts(parts.drop_last()), parts.last()));
    assert(fold_parts(swapped) == read_part(fold_parts(swapped.drop_last()), swapped.last()));
    if j + 2 == parts.len() {
        assert(fold_parts(parts.drop_last()) == read_part(
            fold_parts(parts.drop_last().drop_last()),
            parts.drop_last().last(),
        ));
        assert(fold_parts(swapped.drop_last()) == read_part(
            fold_parts(swapped.drop_last().drop_last()),
            swapped.drop_last().last(),
        ));
        let base = parts.drop_last().drop_last();
        assert(parts.drop_last().drop_last() =~= swapped.drop_last().drop_last());
        assert(swapped.drop_last().last() == parts.last());
        assert(swapped.last() == parts.drop_last().last());
        lemma_read_parts_commute(fold_parts(base), parts.drop_last().last(), parts.last());
    } else {
        law_part_order_irrelevant(parts.drop_last(), j);
        assert(parts.drop_last().update(j, parts[j + 1]).update(j + 1, parts[j]) =~= swapped.drop_last());
        assert(swapped.last() == parts.last());
    }
}

/// Lowering a character the ASCII way keeps it white space or not.
proof fn lemma_lower_white_space(c: char)
    ensures
        is_white_space(ascii_lower(c)) == is_white_space(c),
{
    if 'A' <= c && c <= 'Z' {
        assert(65 <= (c as u32) <= 90);
        assert((((c as u32) + 32) as char) as u32 == (c as u32) + 32);
    }
}

proof fn lemma_trim_start_lower(s: Seq<char>)
    ensures
        trim_start_ws(s).map_values(|c: char| ascii_lower(c)) == trim_start_ws(
            s.map_values(|c: char| ascii_lower(c)),
        ),
    decreases s.len(),
{
    let m = s.map_values(|c: char| ascii_lower(c));
    if s.len() > 0 {
        lemma_lower_white_space(s[0]);
        assert(m[0] == ascii_lower(s[0]));
        if is_white_space(s[0]) {
            assert(m.skip(1) =~= s.skip(1).map_values(|c: char| ascii_lower(c)));
            lemma_trim_start_lower(s.skip(1));
        }
    } else {
        assert(m =~= s.map_values(|c: char| ascii_lower(c)));
    }
}

proof fn lemma_trim_end_lower(s: Seq<char>)
    ensures
        trim_end_ws(s).map_values(|c: char| ascii_lower(c)) == trim_end_ws(
            s.map_values(|c: char| ascii_lower(c)),
        ),
    decreases s.len(),
{
    let m = s.map_values(|c: char| ascii_lower(c));
    if s.len() > 0 {
        lemma_lower_white_space(s.last());
        assert(m.last() == ascii_lower(s.last()));
        if is_white_space(s.last()) {
            assert(m.drop_last() =~= s.drop_last().map_values(|c: char| ascii_lower(c)));
            lemma_trim_end_lower(s.drop_last());
        }
    }
}

/// Trimming and lowering the ASCII way can be done in either order.
proof fn lemma_trim_lower_commute(s: Seq<char>)
    ensures
        str_trim(s).map_values(|c: char| ascii_lower(c)) == str_trim(
            s.map_values(|c: char| ascii_lower(c)),
        ),
{
    lemma_trim_start_lower(s);
    lemma_trim_end_lower(trim_start_ws(s));
}

proof fn lemma_trim_start_ascii(s: Seq<char>)
    requires
        all_ascii(s),
    ensures
        all_ascii(trim_start_ws(s)),
    decreases s.len(),
{
    if s.len() > 0 && is_white_space(s[0]) {
        assert forall|i: int| 0 <= i < s.skip(1).len() implies (#[trigger] s.skip(1)[i] as u32) < 0x80 by {
            assert(s.skip(1)[i] == s[i + 1]);
        }
        lemma_trim_start_ascii(s.skip(1));
    }
}

proof fn lemma_trim_end_ascii(s: Seq<char>)
    requires
        all_ascii(s),
    ensures
        all_ascii(trim_end_ws(s)),
    decreases s.len(),
{
    if s.len() > 0 && is_white_space(s.last()) {
        assert forall|i: int| 0 <= i < s.drop_last().len() implies (#[trigger] s.drop_last()[i] as u32) < 0x80 by {
            assert(s.drop_last()[i] == s[i]);
        }
        lemma_trim_end_ascii(s.drop_last());
    }
}

/// Trimming ASCII text leaves ASCII text.
proof fn lemma_trim_keeps_ascii(s: Seq<char>)
    requires
        all_ascii(s),
    ensures
        all_ascii(str_trim(s)),
{
    lemma_trim_start_ascii(s);
    lemma_trim_end_ascii(trim_start_ws(s));
}

/// The case of the letters of an ASCII hotkey text does not matter: the
/// text in capitals denotes the same hotkey.
pub proof fn law_hotkey_case_irrelevant(text: Seq<char>)
    ensures
        spec_parse_ascii_hotkey(text) == spec_parse_ascii_hotkey(
            text.map_values(|c: char| ascii_upper(c)),
        ),
{
    let up = text.map_values(|c: char| ascii_upper(c));
    assert forall|i: int| 0 <= i < text.len() implies ascii_lower(#[trigger] up[i]) == ascii_lower(
        text[i],
    ) by {
        let c = text[i];
        if 'a' <= c && c <= 'z' {
            assert(97 <= (c as u32) <= 122);
            assert((((c as u32) - 32) as char) as u32 == (c as u32) - 32);
        } else if 'A' <= c && c <= 'Z' {
        }
    }
    assert(up.map_values(|c: char| ascii_lower(c)) =~= text.map_values(|c: char| ascii_lower(c)));
}

/// The default hotkey text denotes Alt+Space.
pub proof fn law_default_hotkey_is_alt_space()
    ensures
        all_ascii(DEFAULT_HOTKEY@),
        spec_parse_ascii_hotkey(DEFAULT_HOTKEY@) == Some(
            HotkeyDef { vk: 0x20, alt: true, ctrl: false, shift: false, win: false },
        ),
{
    reveal_strlit("alt+space");
    reveal_strlit("alt");
    reveal_strlit("ctrl");
    reveal_strlit("control");
    reveal_strlit("shift");
    reveal_strlit("super");
    reveal_strlit("meta");
    reveal_strlit("win");
    reveal_strlit("cmd");
    reveal_strlit("command");
    reveal_strlit("space");
    let t = seq!['a', 'l', 't', '+', 's', 'p', 'a', 'c', 'e'];
    assert(DEFAULT_HOTKEY@ =~= t);
    assert(all_ascii(t));
    assert(t.map_values(|c: char| ascii_lower(c)) =~= t);
    assert(trim_start_ws(t) == t);
    assert(trim_end_ws(t) == t);
    let alt = seq!['a', 'l', 't'];
    let space = seq!['s', 'p', 'a', 'c', 'e'];
    assert(split_on(t.take(0), '+') =~~= seq![Seq::<char>::empty()]);
    assert(t.take(1).drop_last() =~= t.take(0));
    assert(split_on(t.take(1), '+') =~~= seq![seq!['a']]);
    assert(t.take(2).drop_last() =~= t.take(1));
    assert(split_on(t.take(2), '+') =~~= seq![seq!['a', 'l']]);
    assert(t.take(3).drop_last() =~= t.take(2));
    assert(split_on(t.take(3), '+') =~~= seq![alt]);
    assert(t.take(4).drop_last() =~= t.take(3));
    assert(split_on(t.take(4), '+') =~~= seq![alt, Seq::<char>::empty()]);
    assert(t.take(5).drop_last() =~= t.take(4));
    assert(split_on(t.take(5), '+') =~~= seq![alt, seq!['s']]);
    assert(t.take(6).drop_last() =~= t.take(5));
    assert(split_on(t.take(6), '+') =~~= seq![alt, seq!['s', 'p']]);
    assert(t.take(7).drop_last() =~= t.take(6));
    assert(split_on(t.take(7), '+') =~~= seq![alt, seq!['s', 'p', 'a']]);
    assert(t.take(8).drop_last() =~= t.take(7));
    assert(split_on(t.take(8), '+') =~~= seq![alt, seq!['s', 'p', 'a', 'c']]);
    assert(t.take(9).drop_last() =~= t.take(8));
    assert(t.take(9) =~= t);
    assert(split_on(t, '+') =~~= seq![alt, space]);
    assert(trim_start_ws(alt) == alt);
    assert(trim_end_ws(alt) == alt);
    assert(trim_start_ws(space) == space);
    assert(trim_end_ws(space) == space);
    let parts = lowered_parts(t);
    assert(parts =~~= seq![alt, space]);
    assert(parts.drop_last() =~~= seq![alt]);
    assert(parts.drop_last().drop_last() =~~= Seq::<Seq<char>>::empty());
    assert(alt == "alt"@);
    assert(space == "space"@);
    assert(fold_parts(parts.drop_last().drop_last()) == Some(no_hotkey()));
    assert(parts.drop_last().last() == alt);
    assert(is_alt_name(alt));
    assert(fold_parts(parts.drop_last()) == Some(
        HotkeyDef { vk: 0, alt: true, ctrl: false, shift: false, win: false },
    ));
    assert(space != "shift"@) by {
        assert(space[1] != "shift"@[1]);
    }
    assert(space != "super"@) by {
        assert(space[1] != "super"@[1]);
    }
    assert(parts.last() == space);
    assert(key_vk(space) == Some(0x20u16));
    assert(fold_parts(parts) == Some(
        HotkeyDef { vk: 0x20, alt: true, ctrl: false, shift: false, win: false },
    ));
}

/// A key-down of the hotkey's key, delivered as `WM_KEYDOWN` or as
/// `WM_SYSKEYDOWN` (what Windows sends while Alt is down), with exactly the
/// hotkey's modifiers held (Alt read from the event's flags or the key
/// state), triggers the launcher and arms the swallowing of the key-up;
/// while debouncing it is swallowed and nothing else changes.
pub proof fn law_hotkey_press_triggers(
    hotkey: HotkeyDef,
    suppress_keyup: bool,
    ev: KeyEvent,
)
    requires
        ev.code >= 0,
        hotkey.vk != 0,
        (ev.vk_code as u16) == hotkey.vk,
        ev.message == WM_KEYDOWN || ev.message == WM_SYSKEYDOWN,
        ((ev.flags & 0x20u32) != 0 || held(ev.alt_state)) == hotkey.alt,
        held(ev.ctrl_state) == hotkey.ctrl,
        held(ev.shift_state) == hotkey.shift,
        (held(ev.lwin_state) || held(ev.rwin_state)) == hotkey.win,
    ensures
        hook_outcome(hotkey, suppress_keyup, ev, false) == (HookAction::Trigger, true),
        hook_outcome(hotkey, suppress_keyup, ev, true) == (HookAction::Swallow, suppress_keyup),
{
}

/// A key-down of the hotkey's key whose held modifiers differ from the
/// hotkey's passes on untouched.
pub proof fn law_other_modifiers_pass(
    hotkey: HotkeyDef,
    suppress_keyup: bool,
    ev: KeyEvent,
    debouncing: bool,
)
    requires
        ev.message == WM_KEYDOWN || ev.message == WM_SYSKEYDOWN,
        !(((ev.flags & 0x20u32) != 0 || held(ev.alt_state)) == hotkey.alt && held(ev.ctrl_state)
            == hotkey.ctrl && held(ev.shift_state) == hotkey.shift && (held(ev.lwin_state) || held(
            ev.rwin_state,
        )) == hotkey.win),
    ensures
        hook_outcome(hotkey, suppress_keyup, ev, debouncing) == (HookAction::Pass, suppress_keyup),
{
}

/// Each named key stands for its virtual-key code: Space, Enter, Tab,
/// Escape and the four arrow keys, under each of their names.
pub proof fn law_named_keys()
    ensures
        key_vk("space"@) == Some(0x20u16),
        key_vk("enter"@) == Some(0x0Du16),
        key_vk("tab"@) == Some(0x09u16),
        key_vk("esc"@) == Some(0x1Bu16),
        key_vk("escape"@) == Some(0x1Bu16),
        key_vk("left"@) == Some(0x25u16),
        key_vk("arrowleft"@) == Some(0x25u16),
        key_vk("up"@) == Some(0x26u16),
        key_vk("arrowup"@) == Some(0x26u16),
        key_vk("right"@) == Some(0x27u16),
        key_vk("arrowright"@) == Some(0x27u16),
        key_vk("down"@) == Some(0x28u16),
        key_vk("arrowdown"@) == Some(0x28u16),
{
    reveal_strlit("space");
    reveal_strlit("enter");
    reveal_strlit("tab");
    reveal_strlit("esc");
    reveal_strlit("escape");
    reveal_strlit("left");
    reveal_strlit("arrowleft");
    reveal_strlit("up");
    reveal_strlit("arrowup");
    reveal_strlit("right");
    reveal_strlit("arrowright");
    reveal_strlit("down");
    reveal_strlit("arrowdown");
    assert("space"@.len() == 5);
    assert("enter"@.len() == 5);
    assert("tab"@.len() == 3);
    assert("esc"@.len() == 3);
    assert("escape"@.len() == 6);
    assert("left"@.len() == 4);
    assert("arrowleft"@.len() == 9);
    assert("up"@.len() == 2);
    assert("arrowup"@.len() == 7);
    assert("right"@.len() == 5);
    assert("arrowright"@.len() == 10);
    assert("down"@.len() == 4);
    assert("arrowdown"@.len() == 9);
    assert("enter"@[0] != "space"@[0]);
    assert("esc"@[0] != "tab"@[0]);
    assert("right"@[0] != "space"@[0]);
    assert("right"@[0] != "enter"@[0]);
    assert("down"@[0] != "left"@[0]);
    assert("arrowdown"@[5] != "arrowleft"@[5]);
}

proof fn lemma_fkey_one_digit(t: Seq<char>, c: char)
    requires
        t =~= seq!['f', c],
        '1' <= c <= '9',
    ensures
        key_vk(t) == Some((0x70 + ((c as u32) - ('0' as u32)) - 1) as u16),
{
    reveal_strlit("space");
    reveal_strlit("enter");
    reveal_strlit("tab");
    reveal_strlit("esc");
    reveal_strlit("escape");
    reveal_strlit("left");
    reveal_strlit("arrowleft");
    reveal_strlit("up");
    reveal_strlit("arrowup");
    reveal_strlit("right");
    reveal_strlit("arrowright");
    reveal_strlit("down");
    reveal_strlit("arrowdown");
    assert(t != "space"@) by { if t.len() == "space"@.len() { assert(t[0] != "space"@[0]); } }
    assert(t != "enter"@) by { if t.len() == "enter"@.len() { assert(t[0] != "enter"@[0]); } }
    assert(t != "tab"@) by { if t.len() == "tab"@.len() { assert(t[0] != "tab"@[0]); } }
    assert(t != "esc"@) by { if t.len() == "esc"@.len() { assert(t[0] != "esc"@[0]); } }
    assert(t != "escape"@) by { if t.len() == "escape"@.len() { assert(t[0] != "escape"@[0]); } }
    assert(t != "left"@) by { if t.len() == "left"@.len() { assert(t[0] != "left"@[0]); } }
    assert(t != "arrowleft"@) by { if t.len() == "arrowleft"@.len() { assert(t[0] != "arrowleft"@[0]); } }
    assert(t != "up"@) by { if t.len() == "up"@.len() { assert(t[0] != "up"@[0]); } }
    assert(t != "arrowup"@) by { if t.len() == "arrowup"@.len() { assert(t[0] != "arrowup"@[0]); } }
    assert(t != "right"@) by { if t.len() == "right"@.len() { assert(t[0] != "right"@[0]); } }
    assert(t != "arrowright"@) by { if t.len() == "arrowright"@.len() { assert(t[0] != "arrowright"@[0]); } }
    assert(t != "down"@) by { if t.len() == "down"@.len() { assert(t[0] != "down"@[0]); } }
    assert(t != "arrowdown"@) by { if t.len() == "arrowdown"@.len() { assert(t[0] != "arrowdown"@[0]); } }
    let d = t.skip(1);
    assert(d =~= seq![c]);
    assert(d.drop_last() =~= Seq::<char>::empty());
    assert(d.last() == c);
    assert(is_ascii_digit(d[0]));
    assert(digits_value(d.drop_last()) == 0);
    assert((c as nat) >= ('0' as nat));
    assert(digits_value(d) == (c as nat) - ('0' as nat));
    assert(spec_parse_u16(d) == Some(((c as u32) - ('0' as u32)) as u16));
}

proof fn lemma_fkey_two_digits(t: Seq<char>, c: char)
    requires
        t =~= seq!['f', '1', c],
        '0' <= c <= '2',
    ensures
        key_vk(t) == Some((0x70 + 10 + ((c as u32) - ('0' as u32)) - 1) as u16),
{
    reveal_strlit("space");
    reveal_strlit("enter");
    reveal_strlit("tab");
    reveal_strlit("esc");
    reveal_strlit("escape");
    reveal_strlit("left");
    reveal_strlit("arrowleft");
    reveal_strlit("up");
    reveal_strlit("arrowup");
    reveal_strlit("right");
    reveal_strlit("arrowright");
    reveal_strlit("down");
    reveal_strlit("arrowdown");
    assert(t != "space"@) by { if t.len() == "space"@.len() { assert(t[0] != "space"@[0]); } }
    assert(t != "enter"@) by { if t.len() == "enter"@.len() { assert(t[0] != "enter"@[0]); } }
    assert(t != "tab"@) by { if t.len() == "tab"@.len() { assert(t[0] != "tab"@[0]); } }
    assert(t != "esc"@) by { if t.len() == "esc"@.len() { assert(t[0] != "esc"@[0]); } }
    assert(t != "escape"@) by { if t.len() == "escape"@.len() { assert(t[0] != "escape"@[0]); } }
    assert(t != "left"@) by { if t.len() == "left"@.len() { assert(t[0] != "left"@[0]); } }
    assert(t != "arrowleft"@) by { if t.len() == "arrowleft"@.len() { assert(t[0] != "arrowleft"@[0]); } }
    assert(t != "up"@) by { if t.len() == "up"@.len() { assert(t[0] != "up"@[0]); } }
    assert(t != "arrowup"@) by { if t.len() == "arrowup"@.len() { assert(t[0] != "arrowup"@[0]); } }
    assert(t != "right"@) by { if t.len() == "right"@.len() { assert(t[0] != "right"@[0]); } }
    assert(t != "arrowright"@) by { if t.len() == "arrowright"@.len() { assert(t[0] != "arrowright"@[0]); } }
    assert(t != "down"@) by { if t.len() == "down"@.len() { assert(t[0] != "down"@[0]); } }
    assert(t != "arrowdown"@) by { if t.len() == "arrowdown"@.len() { assert(t[0] != "arrowdown"@[0]); } }
    let d = t.skip(1);
    assert(d =~= seq!['1', c]);
    assert(d.drop_last() =~= seq!['1']);
    assert(seq!['1'].drop_last() =~= Seq::<char>::empty());
    assert(is_ascii_digit(d[0]) && is_ascii_digit(d[1]));
    assert(d.last() == c);
    assert(seq!['1'].last() == '1');
    assert(digits_value(Seq::<char>::empty()) == 0);
    assert(digits_value(seq!['1']) == 1);
    assert(digits_value(d) == 10 + (c as nat) - ('0' as nat));
    assert(spec_parse_u16(d) == Some((10 + (c as u32) - ('0' as u32)) as u16));
}

/// `f1` to `f12` stand for the function keys F1 to F12.
pub proof fn law_function_keys()
    ensures
        key_vk("f1"@) == Some(0x70u16),
        key_vk("f2"@) == Some(0x71u16),
        key_vk("f3"@) == Some(0x72u16),
        key_vk("f4"@) == Some(0x73u16),
        key_vk("f5"@) == Some(0x74u16),
        key_vk("f6"@) == Some(0x75u16),
        key_vk("f7"@) == Some(0x76u16),
        key_vk("f8"@) == Some(0x77u16),
        key_vk("f9"@) == Some(0x78u16),
        key_vk("f10"@) == Some(0x79u16),
        key_vk("f11"@) == Some(0x7Au16),
        key_vk("f12"@) == Some(0x7Bu16),
{
    reveal_strlit("f1");
    reveal_strlit("f2");
    reveal_strlit("f3");
    reveal_strlit("f4");
    reveal_strlit("f5");
    reveal_strlit("f6");
    reveal_strlit("f7");
    reveal_strlit("f8");
    reveal_strlit("f9");
    reveal_strlit("f10");
    reveal_strlit("f11");
    reveal_strlit("f12");
    lemma_fkey_one_digit("f1"@, '1');
    lemma_fkey_one_digit("f2"@, '2');
    lemma_fkey_one_digit("f3"@, '3');
    lemma_fkey_one_digit("f4"@, '4');
    lemma_fkey_one_digit("f5"@, '5');
    lemma_fkey_one_digit("f6"@, '6');
    lemma_fkey_one_digit("f7"@, '7');
    lemma_fkey_one_digit("f8"@, '8');
    lemma_fkey_one_digit("f9"@, '9');
    lemma_fkey_two_digits("f10"@, '0');
    lemma_fkey_two_digits("f11"@, '1');
    lemma_fkey_two_digits("f12"@, '2');
}

/// A single letter stands for its key (the code of its capital), and a
/// single digit for its key (the code of the digit).
pub proof fn law_letter_and_digit_keys(c: char)
    ensures
        'a' <= c <= 'z' ==> key_vk(seq![c]) == Some(((c as u32) - 32) as u16),
        'A' <= c <= 'Z' ==> key_vk(seq![c]) == Some(c as u16),
        '0' <= c <= '9' ==> key_vk(seq![c]) == Some(c as u16),
{
    reveal_strlit("space");
    reveal_strlit("enter");
    reveal_strlit("tab");
    reveal_strlit("esc");
    reveal_strlit("escape");
    reveal_strlit("left");
    reveal_strlit("arrowleft");
    reveal_strlit("up");
    reveal_strlit("arrowup");
    reveal_strlit("right");
    reveal_strlit("arrowright");
    reveal_strlit("down");
    reveal_strlit("arrowdown");
    if 'a' <= c && c <= 'z' {
        assert(97 <= (c as u32) <= 122);
        assert((((c as u32) - 32) as char) as u32 == (c as u32) - 32);
    }
}

} // verus!
