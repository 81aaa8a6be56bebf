use umbra::index::{derive_display_name, extension_of, file_name_of, KIND_FILE, KIND_FOLDER};

fn name(p: &str) -> Option<String> {
    file_name_of(&p.chars().collect::<Vec<char>>()).map(|v| v.into_iter().collect())
}

#[test]
fn file_names_follow_windows_path_rules() {
    assert_eq!(name("C:\\docs\\report.pdf"), Some("report.pdf".to_string()));
    assert_eq!(name("C:/docs/report.pdf/"), Some("report.pdf".to_string()));
    assert_eq!(name("C:\\docs\\report.pdf\\."), Some("report.pdf".to_string()));
    assert_eq!(name("C:\\docs\\.\\.\\"), Some("docs".to_string()));
    assert_eq!(name("C:\\docs\\.."), None);
    assert_eq!(name("C:foo.txt"), Some("foo.txt".to_string()));
    assert_eq!(name("C:\\"), None);
    assert_eq!(name("."), None);
    assert_eq!(name(""), None);
}

#[test]
fn prefixes_are_not_file_names() {
    assert_eq!(name("\\\\server\\share"), None);
    assert_eq!(name("\\\\server\\share\\"), None);
    assert_eq!(name("\\\\server\\share\\x.txt"), Some("x.txt".to_string()));
    assert_eq!(name("\\\\server"), Some("server".to_string()));
    assert_eq!(name("\\\\.\\COM42"), None);
    assert_eq!(name("\\\\?\\C:\\a\\b.exe"), Some("b.exe".to_string()));
    assert_eq!(name("\\\\?\\C:\\a/b"), Some("a/b".to_string()));
    assert_eq!(name("\\\\?\\C:\\a\\."), None);
    assert_eq!(name("\\\\?\\UNC\\server\\share"), None);
    assert_eq!(name("\\\\?\\UNC\\server\\share\\y.doc"), Some("y.doc".to_string()));
}

#[test]
fn extensions_come_from_the_file_name() {
    let ext = |p: &str| extension_of(&p.chars().collect::<Vec<char>>()).map(|v| v.into_iter().collect::<String>());
    assert_eq!(ext("C:\\a.b\\file.TXT"), Some("TXT".to_string()));
    assert_eq!(ext("C:\\a.b\\file"), None);
    assert_eq!(ext("C:\\dir\\.hidden"), None);
    assert_eq!(ext("C:\\dir\\x.tar.gz\\."), Some("gz".to_string()));
    assert_eq!(derive_display_name("C:\\dir\\Report.pdf", KIND_FILE), derive_display_name("C:\\dir\\Report.pdf\\.", KIND_FILE));
    assert_eq!(derive_display_name("C:\\Games", KIND_FOLDER), "Games");
}
