use umbra::index::{ScoreKey, SearchResult};
use umbra::pins::{add_pin, load_pins, remove_pin, reorder_pins, Pin};

fn result(name: &str, path: &str) -> SearchResult {
    SearchResult {
        name: name.to_string(),
        path: path.to_string(),
        kind: "app".to_string(),
        icon: "app".to_string(),
        pinned: false,
        icon_data: None,
        score: ScoreKey::default(),
    }
}

fn paths(pins: &[Pin]) -> Vec<&str> {
    pins.iter().map(|p| p.path.as_str()).collect()
}

#[test]
fn adding_twice_keeps_one_pin() {
    let mut pins = Vec::new();
    assert!(add_pin(&mut pins, &result("Code", "C:\\code.exe")));
    assert!(!add_pin(&mut pins, &result("Other name", "C:\\code.exe")));
    assert_eq!(pins.len(), 1);
    assert_eq!(pins[0].name, "Code");
    assert_eq!(pins[0].kind, "app");
}

#[test]
fn removing_undoes_adding() {
    let mut pins = Vec::new();
    add_pin(&mut pins, &result("a", "A"));
    add_pin(&mut pins, &result("b", "B"));
    assert!(remove_pin(&mut pins, "B"));
    assert_eq!(paths(&pins), vec!["A"]);
    assert!(!remove_pin(&mut pins, "B"));
    assert_eq!(paths(&load_pins(&pins)), vec!["A"]);
}

#[test]
fn reorder_follows_the_given_paths() {
    let mut pins = Vec::new();
    for p in ["A", "B", "C"] {
        add_pin(&mut pins, &result(p, p));
    }
    assert!(reorder_pins(&mut pins, vec!["C".into(), "A".into(), "B".into()]));
    assert_eq!(paths(&pins), vec!["C", "A", "B"]);
    assert!(!reorder_pins(&mut pins, vec!["C".into(), "A".into()]));
    assert!(!reorder_pins(&mut pins, vec!["C".into(), "A".into(), "X".into()]));
    assert!(!reorder_pins(&mut pins, vec!["C".into(), "A".into(), "A".into()]));
    assert_eq!(paths(&pins), vec!["C", "A", "B"]);
}
