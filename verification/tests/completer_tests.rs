use expenses::completer::TitleCompleter;

#[test]
fn suggestions_match_literal_prefix_only() {
    let mut c = TitleCompleter::new(vec!["Taxi", "Tea", "Bread", "taxes"]);
    let out = c.get_suggestions("T");
    assert_eq!(out, vec!["Taxi".to_string(), "Tea".to_string()]);
    // the prefix match is case-sensitive on the literal characters
    let out = c.get_suggestions("t");
    assert_eq!(out, vec!["taxes".to_string()]);
    let out = c.get_suggestions("Te");
    assert_eq!(out, vec!["Tea".to_string()]);
    let out = c.get_suggestions("zzz");
    assert!(out.is_empty());
}

#[test]
fn repeated_identical_prefix_is_idempotent() {
    let mut c = TitleCompleter::new(vec!["Taxi", "Tea", "Bread"]);
    let first = c.get_suggestions("T");
    let second = c.get_suggestions("T");
    let third = c.get_suggestions("T");
    assert_eq!(first, second);
    assert_eq!(second, third);
    assert_eq!(first, vec!["Taxi".to_string(), "Tea".to_string()]);
}

#[test]
fn empty_prefix_matches_every_name() {
    // the memo is never observable: the very first query with the
    // empty prefix already sees the complete name list
    let mut c = TitleCompleter::new(vec!["Taxi", "Tea"]);
    let out = c.get_suggestions("");
    assert_eq!(out, vec!["Taxi".to_string(), "Tea".to_string()]);
    // and so does a later one, after the prefix changed in between
    let _ = c.get_suggestions("T");
    let out = c.get_suggestions("");
    assert_eq!(out, vec!["Taxi".to_string(), "Tea".to_string()]);
}

#[test]
fn fresh_completer_completes_the_sole_name() {
    let mut c = TitleCompleter::new(vec!["Taxi"]);
    let r = c.get_completion("", None);
    assert_eq!(r, Some("Taxi".to_string()));
}

#[test]
fn completion_prefers_highlighted_suggestion() {
    let mut c = TitleCompleter::new(vec!["Taxi", "Tea"]);
    let r = c.get_completion("T", Some("Tea".to_string()));
    assert_eq!(r, Some("Tea".to_string()));
}

#[test]
fn completion_takes_sole_match_without_highlight() {
    let mut c = TitleCompleter::new(vec!["Taxi", "Tea"]);
    let r = c.get_completion("Ta", None);
    assert_eq!(r, Some("Taxi".to_string()));
    let r = c.get_completion("T", None);
    assert_eq!(r, None);
    let r = c.get_completion("zzz", None);
    assert_eq!(r, None);
}

#[test]
fn default_completer_knows_no_names() {
    let mut c = TitleCompleter::default();
    assert!(c.get_suggestions("anything").is_empty());
}

#[test]
fn update_input_then_read_suggestions() {
    let mut c = TitleCompleter::new(vec!["Metro", "Market"]);
    c.update_input("Ma");
    let out = c.get_suggestions("Ma");
    assert_eq!(out, vec!["Market".to_string()]);
}
