use expenses::history::NameHistoryIndex;

fn entries(list: &[(&str, &[&str])]) -> Vec<(String, Vec<String>)> {
    list.iter()
        .map(|(label, names)| {
            (label.to_string(), names.iter().map(|n| n.to_string()).collect())
        })
        .collect()
}

#[test]
fn category_lookup_is_case_insensitive() {
    let idx = NameHistoryIndex::from_entries(&entries(&[
        ("Transport", &["Taxi", "Metro"]),
        ("Food", &["Bread"]),
    ]));
    assert_eq!(idx.get("TAXI"), Some("Transport".to_string()));
    assert_eq!(idx.get("taxi"), Some("Transport".to_string()));
    assert_eq!(idx.get("Taxi"), Some("Transport".to_string()));
    assert_eq!(idx.get("bReAd"), Some("Food".to_string()));
    assert_eq!(idx.get("Unknown"), None);
}

#[test]
fn list_keeps_original_case_and_first_seen_order() {
    let idx = NameHistoryIndex::from_entries(&entries(&[
        ("Transport", &["Taxi", "Metro"]),
        ("Food", &["Bread"]),
    ]));
    assert_eq!(
        idx.list(),
        vec!["Taxi".to_string(), "Metro".to_string(), "Bread".to_string()]
    );
}

#[test]
fn duplicate_names_keep_first_position_and_last_category() {
    let idx = NameHistoryIndex::from_entries(&entries(&[
        ("Transport", &["Taxi"]),
        ("Business", &["Taxi"]),
    ]));
    // the later write wins the category ...
    assert_eq!(idx.get("taxi"), Some("Business".to_string()));
    // ... while the name list holds the name once, where first seen
    assert_eq!(idx.list(), vec!["Taxi".to_string()]);
}

#[test]
fn duplicates_within_one_entry_collapse() {
    let idx = NameHistoryIndex::from_entries(&entries(&[("Food", &["Tea", "tea", "Tea"])]));
    // "Tea" and "tea" differ as names but fold to the same lookup key
    assert_eq!(idx.list(), vec!["Tea".to_string(), "tea".to_string()]);
    assert_eq!(idx.get("TEA"), Some("Food".to_string()));
}

#[test]
fn empty_configuration_builds_an_empty_index() {
    let idx = NameHistoryIndex::from_entries(&Vec::new());
    assert_eq!(idx.get("anything"), None);
    assert!(idx.list().is_empty());
}
