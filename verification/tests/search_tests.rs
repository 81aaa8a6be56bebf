use std::sync::atomic::{AtomicU32, Ordering};
use umbra::index::{SearchEntry, KIND_APP, KIND_DOCUMENT, KIND_FILE, KIND_FOLDER, KIND_IMAGE};
use umbra::search::{
    finish_search, get_search_variants, is_fuzzy_match, lev_dist, rank_matches, scan_entry, search_index,
    typo_time_left, variant_char_table, version_matches, VariantTable,
};

fn entry(name: &str, path: &str, kind: u8) -> SearchEntry {
    SearchEntry { name_lower: name.to_lowercase(), path: path.to_string(), kind }
}

fn chars(s: &str) -> Vec<char> {
    s.chars().collect()
}

fn tables(q: &str) -> Vec<VariantTable> {
    get_search_variants(&chars(q))
        .into_iter()
        .map(|v| {
            let t = variant_char_table(&v);
            (v, t)
        })
        .collect()
}

#[test]
fn search_finds_matches_and_is_fast() {
    let search_version = AtomicU32::new(0);
    let mut entries = vec![
        entry("chrome", "C:\\apps\\chrome.exe", KIND_APP),
        entry("google chrome", "C:\\sm\\google chrome.lnk", KIND_APP),
        entry("photoshop", "C:\\sm\\photoshop.lnk", KIND_APP),
        entry("spotify", "C:\\sm\\spotify.lnk", KIND_APP),
        entry("documents", "C:\\Users\\x\\Documents", KIND_FOLDER),
        entry("vacation photo", "C:\\pics\\vacation.jpg", KIND_IMAGE),
        entry("москва", "C:\\docs\\москва.txt", KIND_DOCUMENT),
    ];

    for i in 0..300_000 {
        entries.push(entry(
            &format!("отчёт по проекту номер {} — итоговая версия (2)", i),
            &format!("C:\\data\\отчёт_{}_итоговая_версия.dat", i),
            KIND_FILE,
        ));
    }
    let frec_inv = vec![10_000u32; entries.len()];
    let search = |q: &str, version: u32| search_index(&entries, &frec_inv, q, &Vec::new(), &search_version, version);

    search_version.store(1, Ordering::SeqCst);
    let t = std::time::Instant::now();
    let r = search("chrome", 1);
    let el_chrome = t.elapsed();
    assert!(!r.is_empty(), "'chrome' returned no results");

    assert!(r[0].name.contains("chrome"), "first hit must be a chrome match");
    assert!(r.iter().any(|x| x.name == "chrome"), "exact 'chrome' must be present");

    search_version.store(2, Ordering::SeqCst);
    let t = std::time::Instant::now();
    let r2 = search("vjcrdf", 2);
    let el_layout = t.elapsed();
    assert!(!r2.is_empty(), "layout variant 'vjcrdf' returned nothing");

    search_version.store(3, Ordering::SeqCst);
    let t = std::time::Instant::now();
    let r3 = search("spotfy", 3);
    let el_fuzzy = t.elapsed();
    assert!(!r3.is_empty(), "typo 'spotfy' did not match 'spotify'");

    search_version.store(4, Ordering::SeqCst);
    let t = std::time::Instant::now();
    let r4 = search("pohotoshop", 4);
    let el_fuzzy2 = t.elapsed();
    assert!(!r4.is_empty(), "typo 'pohotoshop' did not match 'photoshop'");

    println!(
        "300k entries — chrome: {:?}, layout: {:?}, fuzzy: {:?}, fuzzy2: {:?}",
        el_chrome, el_layout, el_fuzzy, el_fuzzy2
    );
    let max_duration = std::time::Duration::from_millis(1500);
    for el in [el_chrome, el_layout, el_fuzzy, el_fuzzy2] {
        assert!(el < max_duration, "search too slow: {:?}", el);
    }

    search_version.store(100, Ordering::SeqCst);
    let stale = search("chrome", 99);
    assert!(stale.is_empty(), "stale scan must abort immediately");
    search_version.store(101, Ordering::SeqCst);
}

#[test]
fn ranking_prefers_exact_then_prefix_then_substring() {
    let v = AtomicU32::new(7);
    let entries = vec![
        entry("my notes", "C:\\d\\my notes.txt", KIND_DOCUMENT),
        entry("notes", "C:\\d\\notes.txt", KIND_DOCUMENT),
        entry("notes archive", "C:\\d\\notes archive.zip", 7),
        entry("other", "C:\\d\\other.txt", KIND_DOCUMENT),
    ];
    let frec = vec![10_000u32; 4];
    let r = search_index(&entries, &frec, "NOTES", &Vec::new(), &v, 7);
    let names: Vec<&str> = r.iter().map(|x| x.name.as_str()).collect();
    assert_eq!(names, vec!["notes.txt", "notes archive.zip", "my notes.txt"]);
    assert_eq!(r[0].score.primary, 0);
    assert_eq!(r[1].score.primary, 2);
    assert_eq!(r[2].score.primary, 4);
    assert_eq!(r[0].kind, "document");
    assert_eq!(r[1].kind, "archive");
    assert!(search_index(&entries, &frec, "", &Vec::new(), &v, 7).is_empty());
    assert!(search_index(&entries, &frec, "notes", &vec![KIND_DOCUMENT], &v, 7).len() == 1);
}

#[test]
fn apps_are_listed_once_per_name_and_first_by_tier() {
    let v = AtomicU32::new(1);
    let entries = vec![
        entry("code", "C:\\p\\code.exe", KIND_APP),
        entry("code", "C:\\sm\\code.lnk", KIND_APP),
        entry("code", "C:\\sm2\\code.lnk", KIND_APP),
    ];
    let frec = vec![10_000u32, 10_000, 5_000];
    let r = search_index(&entries, &frec, "code", &Vec::new(), &v, 1);
    assert_eq!(r.len(), 1);
    assert_eq!(r[0].path, "C:\\sm2\\code.lnk");
    assert_eq!(r[0].score.tier, 0);
    assert_eq!(r[0].score.frec_inv, 5_000);
}

#[test]
fn results_stop_at_thirty() {
    let v = AtomicU32::new(1);
    let entries: Vec<SearchEntry> =
        (0..50).map(|i| entry(&format!("report {i}"), &format!("/r/report {i}.pdf"), KIND_DOCUMENT)).collect();
    let frec = vec![10_000u32; 50];
    assert_eq!(search_index(&entries, &frec, "report", &Vec::new(), &v, 1).len(), 30);
}

#[test]
fn edit_distance_within_limit() {
    assert_eq!(lev_dist(&chars("kitten"), &chars("sitting"), 3), Some(3));
    assert_eq!(lev_dist(&chars("kitten"), &chars("sitting"), 2), None);
    assert_eq!(lev_dist(&chars(""), &chars("abc"), 5), Some(3));
    assert_eq!(lev_dist(&chars("spotfy"), &chars("spotify"), 1), Some(1));
    assert_eq!(lev_dist(&chars("same"), &chars("same"), 0), Some(0));
    assert_eq!(lev_dist(&chars("abcdef"), &chars("a"), 2), None);
}

#[test]
fn variants_cover_layouts_and_transliteration() {
    let v: Vec<String> = get_search_variants(&chars("vjcrdf")).iter().map(|c| c.iter().collect()).collect();
    assert_eq!(v[0], "vjcrdf");
    assert!(v.contains(&"москва".to_string()));
    let v: Vec<String> = get_search_variants(&chars("москва")).iter().map(|c| c.iter().collect()).collect();
    assert!(v.contains(&"vjcrdf".to_string()));
    assert!(v.contains(&"moskva".to_string()));
    let v: Vec<String> = get_search_variants(&chars("moskva")).iter().map(|c| c.iter().collect()).collect();
    assert!(v.contains(&"москва".to_string()));
    let v = get_search_variants(&chars("123"));
    assert_eq!(v.len(), 1);
}

#[test]
fn fuzzy_match_finds_typos_in_words() {
    assert_eq!(is_fuzzy_match(&chars("spotify"), &tables("spotfy"), 1), Some(1));
    assert_eq!(is_fuzzy_match(&chars("adobe photoshop 2024"), &tables("pohotoshop"), 2), Some(1));
    assert_eq!(is_fuzzy_match(&chars("notepad"), &tables("spotfy"), 1), None);
    assert_eq!(is_fuzzy_match(&chars("spotify"), &tables("sp"), 1), None);
}

#[test]
fn variants_map_the_lowercased_query() {
    let v: Vec<String> = get_search_variants(&chars("VJCRDF")).iter().map(|c| c.iter().collect()).collect();
    assert_eq!(v[0], "VJCRDF");
    assert!(v.contains(&"москва".to_string()));
}

#[test]
fn scanning_an_entry_appends_its_match_only_while_current() {
    let entries = vec![entry("notepad", "C:\\Windows\\notepad.exe", KIND_APP), entry("notes", "C:\\d\\notes", KIND_FOLDER)];
    let q = chars("notepad");
    let variants = tables("notepad");
    let frec = vec![7u32, 7u32];
    let mut picked = Vec::new();
    scan_entry(&mut picked, &entries, 0, &q, &variants, &frec, &vec![], false, true);
    assert!(picked.is_empty());
    scan_entry(&mut picked, &entries, 0, &q, &variants, &frec, &vec![KIND_APP], true, true);
    assert!(picked.is_empty());
    scan_entry(&mut picked, &entries, 0, &q, &variants, &frec, &vec![], true, true);
    assert_eq!(picked.len(), 1);
    assert_eq!(picked[0].5, 0);
    assert_eq!(picked[0].2, 7);
    scan_entry(&mut picked, &entries, 1, &q, &variants, &frec, &vec![], true, true);
    assert_eq!(picked.len(), 1);
}

#[test]
fn a_stale_search_finishes_empty() {
    let entries = vec![entry("notepad", "C:\\Windows\\notepad.exe", KIND_APP)];
    let picked = vec![(0u32, 0u32, 0u32, 7u32, 22u32, 0usize)];
    assert!(finish_search(&entries, picked.clone(), false).is_empty());
    let r = finish_search(&entries, picked, true);
    assert_eq!(r.len(), 1);
    assert_eq!(r[0].path, "C:\\Windows\\notepad.exe");
}

#[test]
fn the_worst_match_is_the_one_left_out() {
    let entries: Vec<SearchEntry> =
        (0..31).map(|i| entry(&format!("doc {i}"), &format!("/d/doc {i}.pdf"), KIND_DOCUMENT)).collect();
    let picked: Vec<(u32, u32, u32, u32, u32, usize)> = (0..31).map(|i| (2u32, 0u32, 31 - i as u32, 5u32, 10u32, i)).collect();
    let r = rank_matches(&entries, picked);
    assert_eq!(r.len(), 30);
    assert!(r.iter().all(|x| x.path != "/d/doc 0.pdf"));
    assert_eq!(r[0].path, "/d/doc 30.pdf");
}

#[test]
fn results_show_distinct_enabled_entries() {
    let v = AtomicU32::new(3);
    let entries = vec![
        entry("report", "/a/report.pdf", KIND_DOCUMENT),
        entry("report", "/b/report.png", KIND_IMAGE),
        entry("report", "/c/report", KIND_FOLDER),
    ];
    let frec = vec![10_000u32; 3];
    let r = search_index(&entries, &frec, "report", &vec![KIND_IMAGE], &v, 3);
    assert_eq!(r.len(), 2);
    assert_ne!(r[0].path, r[1].path);
    assert!(r.iter().all(|x| x.path != "/b/report.png" && !x.pinned && x.icon_data.is_none()));
}

#[test]
fn typo_matching_stays_within_its_window() {
    assert_eq!(is_fuzzy_match(&chars("spotify"), &tables("spotfy"), 0), None);
    assert_eq!(is_fuzzy_match(&chars("calculator"), &tables("calculater"), 2), Some(1));
    let short: Vec<VariantTable> = vec![(chars("ab"), variant_char_table(&chars("ab")))];
    assert_eq!(is_fuzzy_match(&chars("ab"), &short, 3), None);
    let d = is_fuzzy_match(&chars("visual studio code"), &tables("vsiual"), 2);
    assert!(matches!(d, Some(x) if x <= 2));
}

#[test]
fn staleness_and_typo_time_are_decided_from_the_reads() {
    assert!(version_matches(7, 7));
    assert!(!version_matches(8, 7));
    assert!(typo_time_left(0));
    assert!(typo_time_left(250_000_000));
    assert!(!typo_time_left(250_000_001));
}
