//! User settings: the launcher's configuration record, its defaults, and the
//! rules that clean values before they are stored.
//!
//! Loading and saving the file is the caller's business; every function here
//! works on a `Config` value.  The zoom factor and the theme's opacity and
//! border width are floating point and are kept by the caller.
use vstd::prelude::*;

use crate::text::{
    all_ascii, ascii_lower, chars_of, copy_strings, insert_sorted_unique, is_white_space, str_eq,
    str_to_lowercase, str_to_uppercase, str_trim, strictly_sorted, texts, to_lowercase,
    to_uppercase, trim, trim_end_ws, trim_start_ws,
};

verus! {

/// The stored settings.
pub struct Config {
    pub hotkey: String,
    pub pinned: bool,
    pub pin_x: i32,
    pub pin_y: i32,
    pub align: String,
    pub monitor: i32,
    pub index_excludes: Vec<String>,
    pub disabled_kinds: Vec<u8>,
    pub disabled_drives: Vec<String>,
    pub language: String,
    pub autostart: bool,
    pub theme: ThemeConfig,
}

/// The theme settings (colours, sizes, border), apart from the card opacity
/// and border width, which are floating point.
pub struct ThemeConfig {
    pub accent: String,
    pub card_bg: String,
    pub radius: u32,
    pub card_h: u32,
    pub text: String,
    pub glow: bool,
    pub glow_strength: u32,
    pub border_on: bool,
    pub border_pos: String,
    pub light_mode: bool,
    pub custom_theme: Option<String>,
}

// ---------------------------------------------------------------------------
// Defaults
// ---------------------------------------------------------------------------
/// Folder names that the file index skips unless the user changes the list.
pub open spec fn default_excludes() -> Seq<Seq<char>> {
    seq![
        "windows"@,
        "program files"@,
        "program files (x86)"@,
        "$recycle.bin"@,
        "system volume information"@,
        "recovery"@,
        "perflogs"@,
        "boot"@,
        "efi"@,
        "msocache"@,
        "programdata"@,
        "appdata"@,
        "node_modules"@,
        ".git"@,
        ".github"@,
        "target"@,
        "build"@,
        "dist"@,
        ".vscode"@,
        ".idea"@,
        "vendor"@,
    ]
}

/// The interface language used when none (or an unknown one) is set.
pub fn default_language() -> (r: String)
    ensures
        r@ == "en"@,
{
    String::from_str("en")
}

/// Settings switched on by default.
pub fn default_true() -> (r: bool)
    ensures
        r,
{
    true
}

/// The default window placement: centre of the screen.
pub fn default_align() -> (r: String)
    ensures
        r@ == "cc"@,
{
    String::from_str("cc")
}

/// Borders are drawn by default.
pub fn default_border_on() -> (r: bool)
    ensures
        r,
{
    true
}

/// Borders are drawn inside the card by default.
pub fn default_border_pos() -> (r: String)
    ensures
        r@ == "inner"@,
{
    String::from_str("inner")
}

/// The default list of excluded folder names.
pub fn default_index_excludes() -> (r: Vec<String>)
    ensures
        texts(r@) == default_excludes(),
{
    let mut r: Vec<String> = Vec::new();
    r.push(String::from_str("windows"));
    r.push(String::from_str("program files"));
    r.push(String::from_str("program files (x86)"));
    r.push(String::from_str("$recycle.bin"));
    r.push(String::from_str("system volume information"));
    r.push(String::from_str("recovery"));
    r.push(String::from_str("perflogs"));
    r.push(String::from_str("boot"));
    r.push(String::from_str("efi"));
    r.push(String::from_str("msocache"));
    r.push(String::from_str("programdata"));
    r.push(String::from_str("appdata"));
    r.push(String::from_str("node_modules"));
    r.push(String::from_str(".git"));
    r.push(String::from_str(".github"));
    r.push(String::from_str("target"));
    r.push(String::from_str("build"));
    r.push(String::from_str("dist"));
    r.push(String::from_str(".vscode"));
    r.push(String::from_str(".idea"));
    r.push(String::from_str("vendor"));
    proof {
        assert(texts(r@) =~= default_excludes());
    }
    r
}

/// The default list of excluded folder names, as offered to the settings
/// screen.
pub fn get_default_index_excludes() -> (r: Vec<String>)
    ensures
        texts(r@) == default_excludes(),
{
    default_index_excludes()
}

/// The default theme's settings.
pub open spec fn is_default_theme(t: ThemeConfig) -> bool {
    &&& t.accent@ == "#507090"@
    &&& t.card_bg@ == "#1e1e1e"@
    &&& t.radius == 12
    &&& t.card_h == 52
    &&& t.text@ == "#e3e3e3"@
    &&& !t.glow
    &&& t.glow_strength == 14
    &&& t.border_on
    &&& t.border_pos@ == "inner"@
    &&& !t.light_mode
    &&& t.custom_theme is None
}

impl Default for ThemeConfig {
    fn default() -> (t: Self)
        ensures
            is_default_theme(t),
    {
        ThemeConfig {
            accent: String::from_str("#507090"),
            card_bg: String::from_str("#1e1e1e"),
            radius: 12,
            card_h: 52,
            text: String::from_str("#e3e3e3"),
            glow: false,
            glow_strength: 14,
            border_on: default_border_on(),
            border_pos: default_border_pos(),
            light_mode: false,
            custom_theme: None,
        }
    }
}

/// The settings of a fresh installation.
pub open spec fn is_default_config(c: Config) -> bool {
    &&& c.hotkey@ == Seq::<char>::empty()
    &&& !c.pinned
    &&& c.pin_x == 0
    &&& c.pin_y == 0
    &&& c.align@ == "cc"@
    &&& c.monitor == 0
    &&& texts(c.index_excludes@) == default_excludes()
    &&& c.disabled_kinds@ == Seq::<u8>::empty()
    &&& c.disabled_drives@ == Seq::<String>::empty()
    &&& c.language@ == "en"@
    &&& c.autostart
    &&& is_default_theme(c.theme)
}

impl Default for Config {
    fn default() -> (c: Self)
        ensures
            is_default_config(c),
    {
        Config {
            hotkey: String::new(),
            pinned: false,
            pin_x: 0,
            pin_y: 0,
            align: default_align(),
            monitor: 0,
            index_excludes: default_index_excludes(),
            disabled_kinds: Vec::new(),
            disabled_drives: Vec::new(),
            language: default_language(),
            autostart: default_true(),
            theme: ThemeConfig::default(),
        }
    }
}

// ---------------------------------------------------------------------------
// Theme
// ---------------------------------------------------------------------------
/// A colour written `#rrggbb`.
pub open spec fn is_hex_colour(v: Seq<char>) -> bool {
    v.len() == 7 && v[0] == '#' && forall|i: int|
        1 <= i < 7 ==> crate::text::is_ascii_hex(#[trigger] v[i])
}

/// A colour setting as stored: trimmed and lowercased when it is a
/// `#rrggbb` colour, the fallback otherwise.
pub open spec fn clean_hex(val: Seq<char>, fallback: Seq<char>) -> Seq<char> {
    if is_hex_colour(str_trim(val)) {
        str_trim(val).map_values(|c: char| ascii_lower(c))
    } else {
        fallback
    }
}

/// Cleans a colour setting (see `clean_hex`).
pub fn sanitize_hex(val: &str, fallback: &str) -> (r: String)
    ensures
        r@ == clean_hex(val@, fallback@),
{
    let v = trim(val);
    let c = chars_of(v);
    let mut ok = c.len() == 7 && c[0] == '#';
    if ok {
        let mut i: usize = 1;
        while i < 7
            invariant
                c@.len() == 7,
                1 <= i <= 7,
                ok == forall|k: int| 1 <= k < i ==> crate::text::is_ascii_hex(#[trigger] c@[k]),
            decreases 7 - i,
        {
            let ch = c[i];
            ok = ok && (('0' <= ch && ch <= '9') || ('a' <= ch && ch <= 'f') || ('A' <= ch && ch
                <= 'F'));
            i = i + 1;
        }
    }
    if ok {
        proof {
            assert(all_ascii(v@)) by {
                assert forall|i: int| 0 <= i < v@.len() implies (#[trigger] v@[i] as u32) < 0x80 by {
                    assert(v@[i] == c@[i]);
                    if i > 0 {
                        assert(crate::text::is_ascii_hex(c@[i]));
                    }
                }
            }
        }
        to_lowercase(v)
    } else {
        String::from_str(fallback)
    }
}

/// `x` brought into `[lo, hi]`.
pub open spec fn clamp_u32(x: u32, lo: u32, hi: u32) -> u32 {
    if x < lo {
        lo
    } else if x > hi {
        hi
    } else {
        x
    }
}

fn clamp(x: u32, lo: u32, hi: u32) -> (r: u32)
    requires
        lo <= hi,
    ensures
        r == clamp_u32(x, lo, hi),
{
    if x < lo {
        lo
    } else if x > hi {
        hi
    } else {
        x
    }
}

/// The theme as stored after cleaning `t`.
pub open spec fn theme_clean(t: ThemeConfig, r: ThemeConfig) -> bool {
    &&& r.accent@ == clean_hex(t.accent@, "#507090"@)
    &&& r.card_bg@ == clean_hex(t.card_bg@, "#1e1e1e"@)
    &&& r.text@ == clean_hex(t.text@, "#e3e3e3"@)
    &&& r.radius == clamp_u32(t.radius, 4, 24)
    &&& r.card_h == clamp_u32(t.card_h, 44, 64)
    &&& r.glow_strength == clamp_u32(t.glow_strength, 0, 40)
    &&& r.border_pos@ == (if t.border_pos@ == "inner"@ || t.border_pos@ == "outer"@ {
        t.border_pos@
    } else {
        "inner"@
    })
    &&& r.glow == t.glow
    &&& r.border_on == t.border_on
    &&& r.light_mode == t.light_mode
    &&& opt_text(r.custom_theme) == opt_text(t.custom_theme)
}

/// An optional text, as its characters.
pub open spec fn opt_text(o: Option<String>) -> Option<Seq<char>> {
    match o {
        Some(s) => Some(s@),
        None => None,
    }
}

impl ThemeConfig {
    /// The theme with every colour, size and border position brought into
    /// its accepted range.
    pub fn sanitized(self) -> (r: Self)
        ensures
            theme_clean(self, r),
    {
        let accent = sanitize_hex(self.accent.as_str(), "#507090");
        let card_bg = sanitize_hex(self.card_bg.as_str(), "#1e1e1e");
        let text = sanitize_hex(self.text.as_str(), "#e3e3e3");
        let border_pos = if str_eq(self.border_pos.as_str(), "inner") || str_eq(
            self.border_pos.as_str(),
            "outer",
        ) {
            self.border_pos
        } else {
            String::from_str("inner")
        };
        ThemeConfig {
            accent,
            card_bg,
            radius: clamp(self.radius, 4, 24),
            card_h: clamp(self.card_h, 44, 64),
            text,
            glow: self.glow,
            glow_strength: clamp(self.glow_strength, 0, 40),
            border_on: self.border_on,
            border_pos,
            light_mode: self.light_mode,
            custom_theme: self.custom_theme,
        }
    }
}

/// Two themes hold the same settings.
pub open spec fn same_theme(a: ThemeConfig, b: ThemeConfig) -> bool {
    &&& a.accent@ == b.accent@
    &&& a.card_bg@ == b.card_bg@
    &&& a.radius == b.radius
    &&& a.card_h == b.card_h
    &&& a.text@ == b.text@
    &&& a.glow == b.glow
    &&& a.glow_strength == b.glow_strength
    &&& a.border_on == b.border_on
    &&& a.border_pos@ == b.border_pos@
    &&& a.light_mode == b.light_mode
    &&& opt_text(a.custom_theme) == opt_text(b.custom_theme)
}

fn copy_theme(t: &ThemeConfig) -> (r: ThemeConfig)
    ensures
        same_theme(r, *t),
{
    ThemeConfig {
        accent: t.accent.clone(),
        card_bg: t.card_bg.clone(),
        radius: t.radius,
        card_h: t.card_h,
        text: t.text.clone(),
        glow: t.glow,
        glow_strength: t.glow_strength,
        border_on: t.border_on,
        border_pos: t.border_pos.clone(),
        light_mode: t.light_mode,
        custom_theme: match &t.custom_theme {
            Some(s) => Some(s.clone()),
            None => None,
        },
    }
}

/// The stored theme.
pub fn get_theme(config: &Config) -> (r: ThemeConfig)
    ensures
        same_theme(r, config.theme),
{
    copy_theme(&config.theme)
}

/// Stores a theme after cleaning it, and returns what was stored.
pub fn set_theme(config: &mut Config, theme: ThemeConfig) -> (r: ThemeConfig)
    ensures
        theme_clean(theme, final(config).theme),
        theme_clean(theme, r),
        *final(config) == (Config { theme: final(config).theme, ..*old(config) }),
{
    let clean = theme.sanitized();
    let copy = copy_theme(&clean);
    config.theme = clean;
    copy
}

// ---------------------------------------------------------------------------
// Window pinning and placement
// ---------------------------------------------------------------------------
/// Whether the window is pinned to a fixed position.
pub fn is_pinned(config: &Config) -> (r: bool)
    ensures
        r == config.pinned,
{
    config.pinned
}

/// Pins (or unpins) the window at `(x, y)`.
pub fn set_pinned(config: &mut Config, pinned: bool, x: i32, y: i32)
    ensures
        final(config).pinned == pinned,
        final(config).pin_x == x,
        final(config).pin_y == y,
        *final(config) == (Config {
            pinned: final(config).pinned,
            pin_x: final(config).pin_x,
            pin_y: final(config).pin_y,
            ..*old(config)
        }),
{
    config.pinned = pinned;
    config.pin_x = x;
    config.pin_y = y;
}

/// Where the window is pinned, if it is.
pub fn pinned_position(config: &Config) -> (r: Option<(i32, i32)>)
    ensures
        r == (if config.pinned {
            Some((config.pin_x, config.pin_y))
        } else {
            None
        }),
{
    if config.pinned {
        Some((config.pin_x, config.pin_y))
    } else {
        None
    }
}

/// A placement code: a row letter (`t`, `c`, `b`) then a column letter
/// (`l`, `c`, `r`).
pub open spec fn valid_align(a: Seq<char>) -> bool {
    a.len() == 2 && (a[0] == 't' || a[0] == 'c' || a[0] == 'b') && (a[1] == 'l' || a[1] == 'c'
        || a[1] == 'r')
}

/// Whether `align` is a placement code (see `valid_align`).
pub fn is_valid_align(align: &str) -> (r: bool)
    ensures
        r == valid_align(align@),
{
    let c = chars_of(align);
    c.len() == 2 && (c[0] == 't' || c[0] == 'c' || c[0] == 'b') && (c[1] == 'l' || c[1] == 'c'
        || c[1] == 'r')
}

/// The placement in force: the stored code when it is valid, else `cc`,
/// and the monitor number.
pub fn get_placement(config: &Config) -> (r: (String, i32))
    ensures
        r.0@ == (if valid_align(config.align@) {
            config.align@
        } else {
            "cc"@
        }),
        r.1 == config.monitor,
{
    let align = if is_valid_align(config.align.as_str()) {
        config.align.clone()
    } else {
        default_align()
    };
    (align, config.monitor)
}

/// Stores a placement as given.
pub fn set_placement(config: &mut Config, align: String, monitor: i32)
    ensures
        final(config).align == align,
        final(config).monitor == monitor,
        *final(config) == (Config { align: final(config).align, monitor: final(config).monitor, ..*old(config) }),
{
    config.align = align;
    config.monitor = monitor;
}

// ---------------------------------------------------------------------------
// Language
// ---------------------------------------------------------------------------
/// The interface languages on offer.
pub open spec fn supported_language(l: Seq<char>) -> bool {
    l == "en"@ || l == "ru"@ || l == "ja"@ || l == "de"@
}

/// The language in force: the stored one when supported, else English.
pub fn get_language(config: &Config) -> (r: String)
    ensures
        r@ == (if supported_language(config.language@) {
            config.language@
        } else {
            "en"@
        }),
{
    let l = config.language.as_str();
    if str_eq(l, "en") || str_eq(l, "ru") || str_eq(l, "ja") || str_eq(l, "de") {
        config.language.clone()
    } else {
        default_language()
    }
}

/// The language stored for a request: its lowercase form when it is one
/// of `ru`, `ja`, `de`, else English.
pub open spec fn chosen_language(lang: Seq<char>) -> Seq<char> {
    let l = str_to_lowercase(lang);
    if l == "ru"@ || l == "ja"@ || l == "de"@ {
        l
    } else {
        "en"@
    }
}

/// Stores a language (see `chosen_language`) and returns it.
pub fn set_language(config: &mut Config, lang: &str) -> (r: String)
    ensures
        r@ == chosen_language(lang@),
        final(config).language@ == chosen_language(lang@),
        *final(config) == (Config { language: final(config).language, ..*old(config) }),
{
    let lower = to_lowercase(lang);
    let l = lower.as_str();
    let clean = if str_eq(l, "ru") || str_eq(l, "ja") || str_eq(l, "de") {
        lower.clone()
    } else {
        default_language()
    };
    config.language = clean.clone();
    clean
}

// ---------------------------------------------------------------------------
// Start with the system, hotkey
// ---------------------------------------------------------------------------
/// Whether the launcher starts with the system.
pub fn get_autostart(config: &Config) -> (r: bool)
    ensures
        r == config.autostart,
{
    config.autostart
}

/// Sets whether the launcher starts with the system.
pub fn set_autostart(config: &mut Config, enable: bool)
    ensures
        final(config).autostart == enable,
        *final(config) == (Config { autostart: enable, ..*old(config) }),
{
    config.autostart = enable;
}

/// The configured hotkey text.
pub fn get_hotkey(config: &Config) -> (r: String)
    ensures
        r@ == config.hotkey@,
{
    config.hotkey.clone()
}

/// Stores the hotkey text as given.
pub fn set_hotkey(config: &mut Config, key: &str)
    ensures
        final(config).hotkey@ == key@,
        *final(config) == (Config { hotkey: final(config).hotkey, ..*old(config) }),
{
    config.hotkey = String::from_str(key);
}

// ---------------------------------------------------------------------------
// Index exclusions, disabled result kinds, disabled drives
// ---------------------------------------------------------------------------
/// The number of UTF-8 bytes of a text, as `str::len` reports it.
pub open spec fn byte_len(s: Seq<char>) -> usize {
    vstd::utf8::encode_utf8(s).len() as usize
}

/// An excluded-folder entry as stored: trimmed and lowercased.
pub open spec fn clean_exclude(s: Seq<char>) -> Seq<char> {
    str_to_lowercase(str_trim(s))
}

/// A cleaned entry is kept when it is not empty and shorter than 200 bytes.
pub open spec fn keep_exclude(c: Seq<char>) -> bool {
    c.len() > 0 && byte_len(c) < 200
}

/// The entries kept from the first `n` requested exclusions.
pub open spec fn kept_excludes(xs: Seq<Seq<char>>, n: int) -> Set<Seq<char>> {
    Set::new(
        |c: Seq<char>|
            exists|k: int| 0 <= k < n && c == clean_exclude(#[trigger] xs[k]) && keep_exclude(c),
    )
}

/// The excluded folder names.
pub fn get_index_excludes(config: &Config) -> (r: Vec<String>)
    ensures
        texts(r@) == texts(config.index_excludes@),
{
    copy_strings(&config.index_excludes)
}

/// Stores the excluded folder names: each trimmed and lowercased, empty and
/// over-long ones dropped, sorted, without repeats.
pub fn set_index_excludes(config: &mut Config, excludes: Vec<String>)
    ensures
        strictly_sorted(texts(final(config).index_excludes@)),
        texts(final(config).index_excludes@).to_set() == kept_excludes(
            texts(excludes@),
            excludes@.len() as int,
        ),
        *final(config) == (Config { index_excludes: final(config).index_excludes, ..*old(config) }),
{
    let ghost xs = texts(excludes@);
    let mut clean: Vec<String> = Vec::new();
    let mut i: usize = 0;
    while i < excludes.len()
        invariant
            i <= excludes@.len(),
            xs == texts(excludes@),
            strictly_sorted(texts(clean@)),
            texts(clean@).to_set() == kept_excludes(xs, i as int),
        decreases excludes@.len() - i,
    {
        let c = to_lowercase(trim(excludes[i].as_str()));
        let n = c.as_str().len();
        proof {
            assert(xs[i as int] == excludes@[i as int]@);
        }
        if !c.as_str().is_empty() && n < 200 {
            let ghost before = texts(clean@).to_set();
            insert_sorted_unique(&mut clean, c);
            proof {
                assert(texts(clean@).to_set() =~= kept_excludes(xs, i + 1)) by {
                    assert forall|t: Seq<char>|
                        kept_excludes(xs, i + 1).contains(t) implies texts(
                        clean@,
                    ).to_set().contains(t) by {
                        let k = choose|k: int|
                            0 <= k < i + 1 && t == clean_exclude(#[trigger] xs[k]) && keep_exclude(
                                t,
                            );
                        if k < i {
                            assert(kept_excludes(xs, i as int).contains(t));
                        }
                    }
                    assert forall|t: Seq<char>|
                        texts(clean@).to_set().contains(t) implies kept_excludes(
                        xs,
                        i + 1,
                    ).contains(t) by {
                        if before.contains(t) {
                            let k = choose|k: int|
                                0 <= k < i && t == clean_exclude(#[trigger] xs[k])
                                    && keep_exclude(t);
                            assert(0 <= k < i + 1 && t == clean_exclude(xs[k]) && keep_exclude(t));
                        } else {
                            assert(0 <= i < i + 1 && t == clean_exclude(xs[i as int])
                                && keep_exclude(t));
                        }
                    }
                }
            }
        } else {
            proof {
                assert(kept_excludes(xs, i + 1) =~= kept_excludes(xs, i as int)) by {
                    assert forall|t: Seq<char>|
                        kept_excludes(xs, i + 1).contains(t) implies kept_excludes(
                        xs,
                        i as int,
                    ).contains(t) by {
                        let k = choose|k: int|
                            0 <= k < i + 1 && t == clean_exclude(#[trigger] xs[k]) && keep_exclude(
                                t,
                            );
                        assert(k != i);
                    }
                }
            }
        }
        i = i + 1;
    }
    config.index_excludes = clean;
}

/// Result kinds the user turned off.
pub fn get_disabled_kinds(config: &Config) -> (r: Vec<u8>)
    ensures
        r@ == config.disabled_kinds@,
{
    config.disabled_kinds.clone()
}

/// Every number is smaller than the ones after it.
pub open spec fn strictly_increasing(s: Seq<u8>) -> bool {
    forall|i: int, j: int| 0 <= i < j < s.len() ==> #[trigger] s[i] < #[trigger] s[j]
}

/// Adds `x` to a strictly increasing list, unless it is there already.
fn insert_sorted_u8(v: &mut Vec<u8>, x: u8)
    requires
        strictly_increasing(old(v)@),
    ensures
        strictly_increasing(final(v)@),
        final(v)@.to_set() == old(v)@.to_set().insert(x),
{
    let mut k: usize = 0;
    while k < v.len() && v[k] < x
        invariant
            k <= v@.len(),
            forall|j: int| 0 <= j < k ==> #[trigger] v@[j] < x,
        decreases v@.len() - k,
    {
        k = k + 1;
    }
    if k < v.len() && v[k] == x {
        proof {
            assert(v@.to_set().insert(x) =~= v@.to_set()) by {
                assert(v@.contains(x));
            }
        }
        return;
    }
    let ghost old_v = v@;
    v.insert(k, x);
    proof {
        assert(v@ =~= old_v.insert(k as int, x));
        assert(v@.to_set() =~= old_v.to_set().insert(x)) by {
            assert forall|t: u8| v@.to_set().contains(t) implies old_v.to_set().insert(x).contains(t) by {
                let i = choose|i: int| 0 <= i < v@.len() && v@[i] == t;
                if i < k {
                    assert(old_v[i] == t);
                } else if i > k {
                    assert(old_v[i - 1] == t);
                }
            }
            assert forall|t: u8| old_v.to_set().insert(x).contains(t) implies v@.to_set().contains(t) by {
                if t == x {
                    assert(v@[k as int] == t);
                } else {
                    let i = choose|i: int| 0 <= i < old_v.len() && old_v[i] == t;
                    if i < k {
                        assert(v@[i] == t);
                    } else {
                        assert(v@[i + 1] == t);
                    }
                }
            }
        }
    }
}

/// Stores the turned-off result kinds: only the known kinds (0 to 10),
/// sorted, without repeats.
pub fn set_disabled_kinds(config: &mut Config, kinds: Vec<u8>)
    ensures
        strictly_increasing(final(config).disabled_kinds@),
        final(config).disabled_kinds@.to_set() == kinds@.to_set().filter(|k: u8| k <= 10),
        *final(config) == (Config { disabled_kinds: final(config).disabled_kinds, ..*old(config) }),
{
    let mut clean: Vec<u8> = Vec::new();
    let mut i: usize = 0;
    while i < kinds.len()
        invariant
            i <= kinds@.len(),
            strictly_increasing(clean@),
            clean@.to_set() == kinds@.take(i as int).to_set().filter(|k: u8| k <= 10),
        decreases kinds@.len() - i,
    {
        let k = kinds[i];
        let ghost before = clean@.to_set();
        proof {
            assert(kinds@.take(i + 1) =~= kinds@.take(i as int).push(k));
            kinds@.take(i as int).lemma_push_to_set_commute(k);
        }
        if k <= 10 {
            insert_sorted_u8(&mut clean, k);
            proof {
                assert(clean@.to_set() =~= kinds@.take(i + 1).to_set().filter(|k: u8| k <= 10));
            }
        } else {
            proof {
                assert(clean@.to_set() =~= kinds@.take(i + 1).to_set().filter(|k: u8| k <= 10));
            }
        }
        i = i + 1;
    }
    proof {
        assert(kinds@.take(kinds@.len() as int) =~= kinds@);
    }
    config.disabled_kinds = clean;
}

/// Drives the user excluded from the index.
pub fn get_disabled_drives(config: &Config) -> (r: Vec<String>)
    ensures
        texts(r@) == texts(config.disabled_drives@),
{
    copy_strings(&config.disabled_drives)
}

/// A drive entry as stored: trimmed and uppercased.
pub open spec fn clean_drive(s: Seq<char>) -> Seq<char> {
    str_to_uppercase(str_trim(s))
}

/// The non-empty cleaned entries among the first `n` requested drives.
pub open spec fn kept_drives(xs: Seq<Seq<char>>, n: int) -> Set<Seq<char>> {
    Set::new(
        |c: Seq<char>|
            exists|k: int| 0 <= k < n && c == clean_drive(#[trigger] xs[k]) && c.len() > 0,
    )
}

/// Stores the excluded drives: each trimmed and uppercased, empty ones
/// dropped, sorted, without repeats.
pub fn set_disabled_drives(config: &mut Config, drives: Vec<String>)
    ensures
        strictly_sorted(texts(final(config).disabled_drives@)),
        texts(final(config).disabled_drives@).to_set() == kept_drives(
            texts(drives@),
            drives@.len() as int,
        ),
        *final(config) == (Config { disabled_drives: final(config).disabled_drives, ..*old(config) }),
{
    let ghost xs = texts(drives@);
    let mut clean: Vec<String> = Vec::new();
    let mut i: usize = 0;
    while i < drives.len()
        invariant
            i <= drives@.len(),
            xs == texts(drives@),
            strictly_sorted(texts(clean@)),
            texts(clean@).to_set() == kept_drives(xs, i as int),
        decreases drives@.len() - i,
    {
        let c = to_uppercase(trim(drives[i].as_str()));
        proof {
            assert(xs[i as int] == drives@[i as int]@);
        }
        if !c.as_str().is_empty() {
            let ghost before = texts(clean@).to_set();
            insert_sorted_unique(&mut clean, c);
            proof {
                assert(texts(clean@).to_set() =~= kept_drives(xs, i + 1)) by {
                    assert forall|t: Seq<char>|
                        kept_drives(xs, i + 1).contains(t) implies texts(
                        clean@,
                    ).to_set().contains(t) by {
                        let k = choose|k: int|
                            0 <= k < i + 1 && t == clean_drive(#[trigger] xs[k]) && t.len() > 0;
                        if k < i {
                            assert(kept_drives(xs, i as int).contains(t));
                        }
                    }
                    assert forall|t: Seq<char>|
                        texts(clean@).to_set().contains(t) implies kept_drives(
                        xs,
                        i + 1,
                    ).contains(t) by {
                        if before.contains(t) {
                            let k = choose|k: int|
                                0 <= k < i && t == clean_drive(#[trigger] xs[k]) && t.len() > 0;
                            assert(0 <= k < i + 1 && t == clean_drive(xs[k]) && t.len() > 0);
                        } else {
                            assert(0 <= i < i + 1 && t == clean_drive(xs[i as int]) && t.len()
                                > 0);
                        }
                    }
                }
            }
        } else {
            proof {
                assert(kept_drives(xs, i + 1) =~= kept_drives(xs, i as int)) by {
                    assert forall|t: Seq<char>|
                        kept_drives(xs, i + 1).contains(t) implies kept_drives(
                        xs,
                        i as int,
                    ).contains(t) by {
                        let k = choose|k: int|
                            0 <= k < i + 1 && t == clean_drive(#[trigger] xs[k]) && t.len() > 0;
                        assert(k != i);
                    }
                }
            }
        }
        i = i + 1;
    }
    config.disabled_drives = clean;
}

// ---------------------------------------------------------------------------
// Laws
// ---------------------------------------------------------------------------
/// The language `set_language` stores is always one `get_language` gives
/// back unchanged.
pub proof fn law_stored_language_reads_back(lang: Seq<char>)
    ensures
        supported_language(chosen_language(lang)),
{
}

/// A text whose first and last characters are not white space is its own
/// trimmed form.
proof fn lemma_trim_noop(s: Seq<char>)
    requires
        s.len() > 0,
        !is_white_space(s[0]),
        !is_white_space(s.last()),
    ensures
        str_trim(s) == s,
{
    assert(trim_start_ws(s) == s);
    assert(trim_end_ws(s) == s);
}

/// A cleaned colour is a lowercase `#rrggbb` colour that cleans to itself.
proof fn lemma_clean_hex_idempotent(val: Seq<char>, fallback: Seq<char>)
    requires
        is_hex_colour(fallback),
        fallback.map_values(|c: char| ascii_lower(c)) == fallback,
    ensures
        clean_hex(clean_hex(val, fallback), fallback) == clean_hex(val, fallback),
{
    let c = clean_hex(val, fallback);
    if is_hex_colour(str_trim(val)) {
        let t = str_trim(val);
        assert(c.len() == 7);
        assert(c[0] == '#');
        assert forall|i: int| 1 <= i < 7 implies crate::text::is_ascii_hex(#[trigger] c[i]) by {
            assert(c[i] == ascii_lower(t[i]));
            assert(crate::text::is_ascii_hex(t[i]));
        }
        assert(crate::text::is_ascii_hex(c[6]));
        assert(c.last() == c[6]);
        lemma_trim_noop(c);
        assert(c.map_values(|ch: char| ascii_lower(ch)) =~= c) by {
            assert forall|i: int| 0 <= i < c.len() implies ascii_lower(c[i]) == c[i] by {
                assert(c[i] == ascii_lower(t[i]));
            }
        }
    } else {
        assert(crate::text::is_ascii_hex(fallback[6]));
        assert(fallback.last() == fallback[6]);
        lemma_trim_noop(fallback);
    }
}

/// Cleaning a theme that was already cleaned changes nothing.
pub proof fn law_theme_cleaning_is_idempotent(t: ThemeConfig, once: ThemeConfig, twice: ThemeConfig)
    requires
        theme_clean(t, once),
        theme_clean(once, twice),
    ensures
        twice.accent@ == once.accent@,
        twice.card_bg@ == once.card_bg@,
        twice.text@ == once.text@,
        twice.radius == once.radius,
        twice.card_h == once.card_h,
        twice.glow_strength == once.glow_strength,
        twice.border_pos@ == once.border_pos@,
        twice.glow == once.glow,
        twice.border_on == once.border_on,
        twice.light_mode == once.light_mode,
        opt_text(twice.custom_theme) == opt_text(once.custom_theme),
{
    reveal_strlit("#507090");
    reveal_strlit("#1e1e1e");
    reveal_strlit("#e3e3e3");
    reveal_strlit("inner");
    reveal_strlit("outer");
    assert("#507090"@.map_values(|c: char| ascii_lower(c)) =~= "#507090"@);
    assert("#1e1e1e"@.map_values(|c: char| ascii_lower(c)) =~= "#1e1e1e"@);
    assert("#e3e3e3"@.map_values(|c: char| ascii_lower(c)) =~= "#e3e3e3"@);
    lemma_clean_hex_idempotent(t.accent@, "#507090"@);
    lemma_clean_hex_idempotent(t.card_bg@, "#1e1e1e"@);
    lemma_clean_hex_idempotent(t.text@, "#e3e3e3"@);
}

} // verus!
