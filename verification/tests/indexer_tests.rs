use std::collections::HashMap;
use umbra::index::{SearchEntry, KIND_APP, KIND_DOCUMENT, KIND_FOLDER, KIND_SHORTCUT};
use umbra::indexer::{
    cancel_check_due, progress_due, refresh_due, run_cancelled,
    checked_clean_registry_path, clean_registry_path, dedup_by_path, drive_enabled, enabled_drives, env_var_names,
    exe_entry, expand_env_vars, file_entry, find_exe_in_dir, has_exe_extension, is_inside_system_root, merge_fresh,
    on_disabled_drive, pick_app_exe, registry_entries, start_menu_entry, unconfirmed_app_paths, unique_dirs,
    checked_resolve_uninstall_entry, resolve_uninstall_entry, UninstallEntry,
};

fn entry(name: &str, path: &str, kind: u8) -> SearchEntry {
    SearchEntry { name_lower: name.to_string(), path: path.to_string(), kind }
}

fn expand(value: &str, env: &HashMap<&str, &str>) -> String {
    let values: Vec<Option<String>> =
        env_var_names(value).iter().map(|n| env.get(n.as_str()).map(|v| v.to_string())).collect();
    expand_env_vars(value, &values)
}

#[test]
fn expands_environment_variables_like_reg_expand_sz() {
    let env = HashMap::from([("UMBRA_TEST_DIR", "C:\\Tools")]);
    assert_eq!(expand("%UMBRA_TEST_DIR%\\app.exe,0", &env), "C:\\Tools\\app.exe,0");
    assert_eq!(expand("%UMBRA_MISSING_VAR%\\x", &env), "%UMBRA_MISSING_VAR%\\x");
    assert_eq!(expand("100% done", &env), "100% done");
    assert_eq!(expand("%%", &env), "%%");
    assert_eq!(expand("plain", &env), "plain");
    assert_eq!(env_var_names("%A%x%B%%"), vec!["A".to_string(), "B".to_string()]);
}

#[test]
fn start_menu_keeps_only_shortcuts() {
    let e = start_menu_entry("Google Chrome.lnk", "C:\\sm\\Google Chrome.lnk".to_string()).unwrap();
    assert_eq!(e.name_lower, "google chrome");
    assert_eq!(e.kind, KIND_APP);
    assert!(start_menu_entry("Site.URL", "C:\\sm\\Site.URL".to_string()).is_some());
    assert!(start_menu_entry("desktop.ini", "C:\\sm\\desktop.ini".to_string()).is_none());
}

#[test]
fn walked_files_are_classified_and_named() {
    let e = file_entry("Report.PDF", "C:\\d\\Report.PDF".to_string(), false);
    assert_eq!((e.name_lower.as_str(), e.kind), ("report.pdf", KIND_DOCUMENT));
    let e = file_entry("Setup.exe", "C:\\d\\Setup.exe".to_string(), false);
    assert_eq!((e.name_lower.as_str(), e.kind), ("setup", KIND_APP));
    let e = file_entry("Music", "C:\\d\\Music".to_string(), true);
    assert_eq!((e.name_lower.as_str(), e.kind), ("music", KIND_FOLDER));
    let e = file_entry("a.lnk", "C:\\d\\a.lnk".to_string(), false);
    assert_eq!(e.kind, KIND_SHORTCUT);
    assert_eq!(exe_entry("C:\\Windows\\System32\\notepad.exe".to_string()).name_lower, "notepad");
    assert!(has_exe_extension("app.EXE"));
    assert!(!has_exe_extension("tool.dll"));
    assert!(!has_exe_extension("exe"));
}

#[test]
fn drives_and_program_folders() {
    let disabled = vec!["d:\\".to_string()];
    assert!(on_disabled_drive("D:\\Program Files", &disabled));
    assert!(!on_disabled_drive("C:\\Program Files", &disabled));
    assert!(!drive_enabled("D:\\", &disabled));
    assert!(drive_enabled("C:\\", &disabled));
    assert_eq!(enabled_drives(&vec!["C:\\".to_string(), "D:\\".to_string()], &disabled), vec!["C:\\".to_string()]);
    let dirs = vec![
        ("C:\\Program Files".to_string(), None),
        ("c:\\program files".to_string(), Some(2)),
        ("C:\\Users\\x\\AppData".to_string(), Some(4)),
    ];
    let u = unique_dirs(&dirs);
    assert_eq!(u, vec![("C:\\Program Files".to_string(), None), ("C:\\Users\\x\\AppData".to_string(), Some(4))]);
}

#[test]
fn registry_values_name_program_paths() {
    let exists = |p: &str| ["C:\\A\\app.exe", "C:\\B b\\x.exe", "C:\\Only"].contains(&p);
    assert_eq!(clean_registry_path("\"C:\\A\\app.exe\",0", &exists), Some("C:\\A\\app.exe".to_string()));
    assert_eq!(clean_registry_path("C:\\A\\APP.EXE /uninstall", &|p: &str| p == "C:\\A\\APP.EXE"), Some("C:\\A\\APP.EXE".to_string()));
    assert_eq!(clean_registry_path("C:\\A\\app.exe,1", &exists), Some("C:\\A\\app.exe".to_string()));
    assert_eq!(clean_registry_path("C:\\Only --flag", &exists), Some("C:\\Only".to_string()));
    assert_eq!(clean_registry_path("   ", &exists), None);
    assert_eq!(clean_registry_path("C:\\missing.exe", &exists), None);
    assert_eq!(checked_clean_registry_path("C:\\A\\app.exe", &exists), Some(Some("C:\\A\\app.exe".to_string())));
    assert_eq!(checked_clean_registry_path("x.ln\u{212A}", &exists), None);
}

#[test]
fn app_programs_are_guessed_outside_windows() {
    assert!(is_inside_system_root("C:\\WINDOWS\\System32", Some("C:\\Windows\\")));
    assert!(is_inside_system_root("c:\\windows", Some("C:\\Windows")));
    assert!(!is_inside_system_root("C:\\Windows2", Some("C:\\Windows")));
    assert!(!is_inside_system_root("C:\\Program Files\\WinRAR", None));
    let files = vec!["C:\\W\\uninstall.exe".to_string(), "C:\\W\\WinRAR.exe".to_string(), "C:\\W\\readme.txt".to_string()];
    assert_eq!(pick_app_exe("WinRAR 6.2", &files), Some("C:\\W\\WinRAR.exe".to_string()));
    assert_eq!(pick_app_exe("Something", &vec!["C:\\S\\one.exe".to_string(), "C:\\S\\a.txt".to_string()]), Some("C:\\S\\one.exe".to_string()));
    assert_eq!(pick_app_exe("Something", &files), None);
    assert_eq!(pick_app_exe("Upper", &vec!["C:\\S\\UPPER.EXE".to_string()]), None);
}

#[test]
fn app_exe_is_never_guessed_inside_windows_folder() {
    let system32 = "C:\\Windows\\System32";
    let root = Some("C:\\Windows");
    let listed = |d: &str| vec![format!("{d}\\apphelp.exe")];
    assert!(is_inside_system_root(system32, root));
    assert_eq!(find_exe_in_dir(system32, "Application Compatibility Database", root, true, &listed), None);
    assert!(!is_inside_system_root("C:\\Program Files\\WinRAR", root));
    assert_eq!(
        find_exe_in_dir("C:\\Program Files\\WinRAR", "WinRAR", root, true, &listed),
        Some("C:\\Program Files\\WinRAR\\apphelp.exe".to_string())
    );
    assert_eq!(find_exe_in_dir("C:\\Program Files\\WinRAR", "WinRAR", root, false, &listed), None);
}

#[test]
fn index_keeps_the_first_entry_per_path() {
    let entries = vec![entry("code", "C:\\c.exe", KIND_APP), entry("c", "C:\\c.exe", KIND_APP), entry("d", "C:\\d", KIND_FOLDER)];
    let d = dedup_by_path(&entries);
    assert_eq!(d.len(), 2);
    assert_eq!(d[0].name_lower, "code");
    assert_eq!(d[1].path, "C:\\d");
}

#[test]
fn fresh_scan_replaces_old_entries() {
    let index = vec![
        entry("old", "C:\\a.lnk", KIND_APP),
        entry("gone", "C:\\gone.lnk", KIND_APP),
        entry("doc", "C:\\doc.txt", KIND_DOCUMENT),
        entry("kept", "C:\\kept.exe", KIND_APP),
    ];
    let fresh = vec![entry("new", "C:\\a.lnk", KIND_APP)];
    assert_eq!(unconfirmed_app_paths(&index, &fresh), vec!["C:\\gone.lnk".to_string(), "C:\\kept.exe".to_string()]);
    let merged = merge_fresh(&index, &fresh, &vec!["C:\\gone.lnk".to_string()]);
    let names: Vec<&str> = merged.iter().map(|e| e.name_lower.as_str()).collect();
    assert_eq!(names, vec!["doc", "kept", "new"]);
}

#[test]
fn registry_apps_are_listed_once_by_name_and_path() {
    let names = vec![Some("Foo".to_string()), None, Some("foo".to_string()), Some("Bar".to_string()), Some("Baz".to_string())];
    let resolve = |i: usize| match i {
        0 => Some(("Foo".to_string(), "C:\\foo.exe".to_string())),
        3 => Some(("Bar".to_string(), "C:\\bar.exe".to_string())),
        4 => Some(("Baz".to_string(), "C:\\FOO.EXE".to_string())),
        _ => panic!("application {i} should not be resolved"),
    };
    let r = registry_entries(&names, resolve);
    let got: Vec<(&str, &str)> = r.iter().map(|e| (e.name_lower.as_str(), e.path.as_str())).collect();
    assert_eq!(got, vec![("foo", "C:\\foo.exe"), ("bar", "C:\\bar.exe")]);
}

fn app(name: &str, icon: Option<&str>, location: Option<&str>, uninstall: Option<&str>) -> UninstallEntry {
    UninstallEntry {
        name: Some(name.to_string()),
        icon: icon.map(|s| s.to_string()),
        location: location.map(|s| s.to_string()),
        uninstall: uninstall.map(|s| s.to_string()),
    }
}

#[test]
fn uninstall_entries_resolve_to_programs() {
    let exists = |p: &str| ["C:\\A\\a.exe", "C:\\B", "C:\\U", "C:\\U\\unins.exe"].contains(&p);
    let is_file = |p: &str| p.ends_with(".exe");
    let parent = |p: &str| p.rfind('\\').map(|i| p[..i].to_string());
    let find = |dir: &str, name: &str| Some(format!("{dir}\\{name}.exe"));
    let r = |a: &UninstallEntry| resolve_uninstall_entry(a, &exists, &is_file, &parent, &find);
    assert_eq!(r(&app("App", Some("C:\\A\\a.exe,0"), None, None)), Some(("App".to_string(), "C:\\A\\a.exe".to_string())));
    assert_eq!(r(&app("Bee", None, Some(" \"C:\\B\" "), None)), Some(("Bee".to_string(), "C:\\B\\Bee.exe".to_string())));
    assert_eq!(r(&app("You", None, Some("C:\\missing"), Some("C:\\U\\unins.exe /S"))), Some(("You".to_string(), "C:\\U\\You.exe".to_string())));
    assert_eq!(r(&app("X", Some("C:\\A\\a.exe"), None, None)), None, "a one-byte name is skipped");
    assert_eq!(r(&UninstallEntry { name: None, icon: None, location: None, uninstall: None }), None);
    let no_file = |_: &str| false;
    assert_eq!(resolve_uninstall_entry(&app("App", Some("C:\\A\\a.exe"), None, None), &exists, &no_file, &parent, &find), None);
    assert_eq!(checked_resolve_uninstall_entry(&app("App", Some("x.ln\u{212A}"), None, None), &exists, &is_file, &parent, &find), None);
}

#[test]
fn fast_refresh_drops_only_missing_apps() {
    let index = vec![
        entry("old", "C:\\old.exe", KIND_APP),
        entry("kept", "C:\\kept.exe", KIND_APP),
        entry("d", "C:\\d.txt", KIND_DOCUMENT),
        entry("f", "C:\\f.exe", KIND_APP),
    ];
    let fresh = vec![entry("f new", "C:\\f.exe", KIND_APP)];
    let unconfirmed = unconfirmed_app_paths(&index, &fresh);
    assert_eq!(unconfirmed, vec!["C:\\old.exe".to_string(), "C:\\kept.exe".to_string()]);
    let gone: Vec<String> = unconfirmed.into_iter().filter(|p| p != "C:\\kept.exe").collect();
    let m = merge_fresh(&index, &fresh, &gone);
    let names: Vec<&str> = m.iter().map(|e| e.name_lower.as_str()).collect();
    assert_eq!(names, vec!["kept", "d", "f new"]);
}

#[test]
fn indexing_timing_decisions() {
    assert!(refresh_due(None));
    assert!(!refresh_due(Some(299_999_999_999)));
    assert!(refresh_due(Some(300_000_000_000)));
    assert!(run_cancelled(3, 2));
    assert!(!run_cancelled(2, 2));
    assert!(cancel_check_due(0));
    assert!(cancel_check_due(4096));
    assert!(!cancel_check_due(2047));
    assert!(progress_due(3000, 150));
    assert!(!progress_due(3000, 149));
    assert!(!progress_due(3001, 500));
}
