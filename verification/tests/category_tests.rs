use expenses::category::labels;
use expenses::category::preselect_position;
use expenses::category::Category;
use expenses::category::CategoryCache;

fn directory() -> Vec<Category> {
    vec![
        Category { id: "c1".to_string(), title: Some("Food".to_string()) },
        Category { id: "c2".to_string(), title: Some("Transport".to_string()) },
        Category { id: "c3".to_string(), title: None },
    ]
}

#[test]
fn labels_fall_back_to_untitled() {
    let l = labels(&directory());
    assert_eq!(
        l,
        vec!["Food".to_string(), "Transport".to_string(), "Untitled".to_string()]
    );
}

#[test]
fn preselect_finds_the_exact_label() {
    let cats = directory();
    assert_eq!(preselect_position(&cats, &Some("Transport".to_string())), Some(1));
    assert_eq!(preselect_position(&cats, &Some("Food".to_string())), Some(0));
    assert_eq!(preselect_position(&cats, &Some("Untitled".to_string())), Some(2));
    assert_eq!(preselect_position(&cats, &Some("transport".to_string())), None);
    assert_eq!(preselect_position(&cats, &Some("Nothing".to_string())), None);
    assert_eq!(preselect_position(&cats, &None), None);
}

#[test]
fn cache_fetches_at_most_once() {
    let mut cache = CategoryCache::new();
    let mut fetches = 0;
    for _ in 0..5 {
        if cache.needs_fetch() {
            fetches += 1;
            cache.store(Some(directory()));
        }
        assert_eq!(cache.entries().len(), 3);
    }
    assert_eq!(fetches, 1);
}

#[test]
fn failed_fetch_is_cached_as_empty() {
    let mut cache = CategoryCache::new();
    let mut fetches = 0;
    for _ in 0..3 {
        if cache.needs_fetch() {
            fetches += 1;
            cache.store(None);
        }
        assert!(cache.entries().is_empty());
    }
    // the failure outcome is cached too: no retry within the run
    assert_eq!(fetches, 1);
}
