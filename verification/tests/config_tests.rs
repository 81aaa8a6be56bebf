use umbra::config::{
    get_theme, get_index_excludes, get_language, get_placement, is_valid_align, sanitize_hex, set_disabled_drives,
    set_disabled_kinds, set_index_excludes, set_language, set_placement, set_theme, Config, ThemeConfig,
};

#[test]
fn align_validation_rejects_bad_values_without_panicking() {
    for ok in ["tl", "cc", "br", "tc"] {
        assert!(is_valid_align(ok), "{ok}");
    }
    for bad in ["", "c", "ccc", "xx", "яя", "cя", "CC"] {
        assert!(!is_valid_align(bad), "{bad}");
    }
}

#[test]
fn defaults_match_a_fresh_installation() {
    let c = Config::default();
    assert!(c.autostart);
    assert_eq!(c.align, "cc");
    assert_eq!(c.language, "en");
    assert!(c.index_excludes.contains(&"node_modules".to_string()));
    assert_eq!(c.theme.accent, "#507090");
    assert_eq!(c.theme.radius, 12);
}

#[test]
fn placement_falls_back_to_centre() {
    let mut c = Config::default();
    set_placement(&mut c, "br".to_string(), 2);
    assert_eq!(get_placement(&c), ("br".to_string(), 2));
    set_placement(&mut c, "zz".to_string(), 1);
    assert_eq!(get_placement(&c), ("cc".to_string(), 1));
}

#[test]
fn language_is_cleaned_and_read_back() {
    let mut c = Config::default();
    assert_eq!(set_language(&mut c, "RU"), "ru");
    assert_eq!(get_language(&c), "ru");
    assert_eq!(set_language(&mut c, "fr"), "en");
    assert_eq!(get_language(&c), "en");
    c.language = "xx".to_string();
    assert_eq!(get_language(&c), "en");
}

#[test]
fn excludes_are_trimmed_lowercased_sorted_and_unique() {
    let mut c = Config::default();
    set_index_excludes(
        &mut c,
        vec![" Build ".to_string(), "node_modules".to_string(), "".to_string(), "build".to_string(), "x".repeat(300)],
    );
    assert_eq!(get_index_excludes(&c), vec!["build".to_string(), "node_modules".to_string()]);
}

#[test]
fn kinds_and_drives_are_cleaned() {
    let mut c = Config::default();
    set_disabled_kinds(&mut c, vec![7, 3, 42, 3, 10, 11]);
    assert_eq!(c.disabled_kinds, vec![3, 7, 10]);
    set_disabled_drives(&mut c, vec![" d:\\ ".to_string(), "C:\\".to_string(), "  ".to_string(), "D:\\".to_string()]);
    assert_eq!(c.disabled_drives, vec!["C:\\".to_string(), "D:\\".to_string()]);
}

#[test]
fn theme_values_are_brought_into_range() {
    assert_eq!(sanitize_hex(" #A0B1C2 ", "#000000"), "#a0b1c2");
    assert_eq!(sanitize_hex("red", "#000000"), "#000000");
    assert_eq!(sanitize_hex("#12345g", "#111111"), "#111111");
    let mut c = Config::default();
    let mut t = ThemeConfig::default();
    t.radius = 100;
    t.card_h = 1;
    t.glow_strength = 99;
    t.border_pos = "middle".to_string();
    t.accent = "#ABCDEF".to_string();
    let stored = set_theme(&mut c, t);
    assert_eq!(stored.radius, 24);
    assert_eq!(stored.card_h, 44);
    assert_eq!(stored.glow_strength, 40);
    assert_eq!(stored.border_pos, "inner");
    assert_eq!(stored.accent, "#abcdef");
    assert_eq!(c.theme.radius, 24);
    assert_eq!(get_theme(&c).accent, "#abcdef");
    assert_eq!(get_theme(&c).border_pos, "inner");
}
