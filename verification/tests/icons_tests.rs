use std::cell::Cell;
use umbra::icons::{
    bgra_to_rgba, get_icon_png_data, icon_png, icon_source, is_precache_done, lnk_target_text, IconCache,
    MAX_ICON_CACHE_SIZE,
};

#[test]
fn cache_returns_what_was_stored_and_evicts_the_least_recent() {
    let mut cache = IconCache::new();
    for i in 0..MAX_ICON_CACHE_SIZE {
        cache.insert(format!("k{i}"), vec![i as u8]);
    }
    assert_eq!(cache.get("k0"), Some(vec![0]));
    cache.insert("new".to_string(), vec![200]);
    assert_eq!(cache.get("k1"), None, "k1 was the least recently used");
    assert_eq!(cache.get("k0"), Some(vec![0]));
    assert_eq!(cache.get("new"), Some(vec![200]));
    cache.insert("new".to_string(), vec![201]);
    assert_eq!(cache.get("new"), Some(vec![201]));
}

#[test]
fn only_programs_and_shortcuts_get_icons() {
    let mut cache = IconCache::new();
    let calls = Cell::new(0);
    let render = |_: &str| {
        calls.set(calls.get() + 1);
        Some(vec![1, 2, 3])
    };
    assert_eq!(get_icon_png_data(&mut cache, "C:\\a\\notes.txt", &render), None);
    assert_eq!(calls.get(), 0);
    assert_eq!(get_icon_png_data(&mut cache, "C:\\a\\App.EXE", &render), Some(vec![1, 2, 3]));
    assert_eq!(get_icon_png_data(&mut cache, "C:\\a\\App.EXE", &render), Some(vec![1, 2, 3]));
    assert_eq!(calls.get(), 1, "the second request is served from the cache");
    assert_eq!(get_icon_png_data(&mut cache, "C:\\a\\x.lnk", |_: &str| None), None);
    assert_eq!(cache.get("C:\\a\\x.lnk"), None);
}

#[test]
fn precache_flag() {
    assert!(!is_precache_done(None));
    let flag = std::sync::atomic::AtomicBool::new(true);
    assert!(is_precache_done(Some(&flag)));
}

#[test]
fn shortcut_icons_come_from_the_target() {
    assert_eq!(icon_source("C:\\s\\Tool.LNK", |_: &str| Some("C:\\t\\tool.exe".to_string())), "C:\\t\\tool.exe");
    assert_eq!(icon_source("C:\\s\\Tool.lnk", |_: &str| None), "C:\\s\\Tool.lnk");
    assert_eq!(icon_source("C:\\s\\tool.exe", |_: &str| Some("other".to_string())), "C:\\s\\tool.exe");
}

#[test]
fn shortcut_target_buffer_is_decoded() {
    let mut buf = [0u16; 16];
    for (i, u) in "C:\\x.exe".encode_utf16().enumerate() {
        buf[i] = u;
    }
    assert_eq!(lnk_target_text(&buf), Some("C:\\x.exe".to_string()));
    assert_eq!(lnk_target_text(&[0u16; 8]), None);
}

#[test]
fn shortcut_target_decoding_replaces_unpaired_surrogates() {
    assert_eq!(lnk_target_text(&[0xD83D, 0xDE00, 0x41, 0, 0]), Some("\u{1F600}A".to_string()));
    assert_eq!(lnk_target_text(&[0xD800, 0x41, 0xDC00, 0]), Some("\u{FFFD}A\u{FFFD}".to_string()));
    assert_eq!(lnk_target_text(&[0x43, 0xD83D]), Some("C\u{FFFD}".to_string()));
}

#[test]
fn bitmap_channels_are_swapped_and_alpha_filled() {
    assert_eq!(bgra_to_rgba(&[1, 2, 3, 0, 4, 5, 6, 0]), vec![3, 2, 1, 255, 6, 5, 4, 255]);
    assert_eq!(bgra_to_rgba(&[1, 2, 3, 0, 4, 5, 6, 9]), vec![3, 2, 1, 0, 6, 5, 4, 9]);
    let png = icon_png(&vec![10u8; 64 * 64 * 4]);
    assert_eq!(&png[..8], &[0x89, b'P', b'N', b'G', 0x0D, 0x0A, 0x1A, 0x0A]);
    assert_ne!(png, vec![10u8; 64 * 64 * 4]);
}
