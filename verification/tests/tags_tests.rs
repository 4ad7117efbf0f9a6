use projector::tags::TagsIndex;

#[test]
fn tagging_then_looking_up() {
    let mut idx = TagsIndex::new();
    idx.add_tag("/p/a", "web");
    idx.add_tag("/p/b", "web");
    idx.add_tag("/p/a", "cli");
    assert!(idx.has_tag("/p/a", "web"));
    assert!(idx.has_tag("/p/a", "cli"));
    assert!(!idx.has_tag("/p/b", "cli"));
    assert_eq!(idx.tags_for_path("/p/a"), vec!["cli".to_string(), "web".to_string()]);
    assert_eq!(idx.paths_for_tag("web"), vec!["/p/a".to_string(), "/p/b".to_string()]);
    assert_eq!(idx.all_tags(), vec!["cli".to_string(), "web".to_string()]);
}

#[test]
fn adding_twice_keeps_one() {
    let mut idx = TagsIndex::new();
    idx.add_tag("/p/a", "web");
    idx.add_tag("/p/a", "web");
    assert_eq!(idx.paths_for_tag("web"), vec!["/p/a".to_string()]);
}

#[test]
fn removing_and_clearing() {
    let mut idx = TagsIndex::new();
    idx.add_tag("/p/a", "web");
    idx.add_tag("/p/a", "cli");
    idx.add_tag("/p/b", "web");
    idx.remove_tag("/p/a", "web");
    assert!(!idx.has_tag("/p/a", "web"));
    assert!(idx.has_tag("/p/b", "web"));
    idx.clear_path("/p/a");
    assert!(idx.tags_for_path("/p/a").is_empty());
    assert_eq!(idx.all_tags(), vec!["web".to_string()]);
    idx.remove_tag("/p/b", "web");
    assert!(idx.all_tags().is_empty());
}

#[test]
fn unknown_tags_have_no_paths() {
    let idx = TagsIndex::new();
    assert!(idx.paths_for_tag("none").is_empty());
    assert!(!idx.has_tag("/x", "none"));
}
