use std::collections::HashSet;

use mqttui::topic::get_parent;
use mqttui::topic_view::is_topic_opened;

#[test]
fn topic_parent_works() {
    assert_eq!(None, get_parent("a"));
    assert_eq!(Some("a"), get_parent("a/b"));
    assert_eq!(Some("a/b"), get_parent("a/b/c"));
    assert_eq!(Some("a/b/c"), get_parent("a/b/c/d"));
}

const ALL_EXAMPLES: [&str; 10] = [
    "a",
    "a/b",
    "a/b/c",
    "a/d",
    "e",
    "e/f",
    "e/f/g",
    "e/f/g/h",
    "e/f/g/h/i",
    "e/j",
];

#[test]
fn topic_view_filter_topics_by_opened_shows_only_top_level() {
    let opened = HashSet::new();
    let actual = ALL_EXAMPLES
        .iter()
        .copied()
        .filter(|entry| is_topic_opened(&opened, entry))
        .collect::<Vec<_>>();
    assert_eq!(actual, ["a", "e"]);
}

#[test]
fn topic_view_filter_topics_by_opened_shows_some() {
    let mut opened = HashSet::new();
    opened.insert("a".to_string());
    let actual = ALL_EXAMPLES
        .iter()
        .copied()
        .filter(|entry| is_topic_opened(&opened, entry))
        .collect::<Vec<_>>();
    assert_eq!(actual, ["a", "a/b", "a/d", "e"]);
}

#[test]
fn topic_view_filter_topics_by_opened_shows_only_when_all_parents_are_opened() {
    let mut opened = HashSet::new();
    opened.insert("a/b".to_string());
    let actual = ALL_EXAMPLES
        .iter()
        .copied()
        .filter(|entry| is_topic_opened(&opened, entry))
        .collect::<Vec<_>>();
    assert_eq!(actual, ["a", "e"]);
}

#[test]
fn topic_view_filter_topics_by_opened_shows_all() {
    let mut opened = HashSet::new();
    opened.insert("a".to_string());
    opened.insert("a/b".to_string());
    opened.insert("e".to_string());
    opened.insert("e/f".to_string());
    opened.insert("e/f/g".to_string());
    opened.insert("e/f/g/h".to_string());

    let actual = ALL_EXAMPLES
        .iter()
        .copied()
        .filter(|entry| is_topic_opened(&opened, entry))
        .collect::<Vec<_>>();
    assert_eq!(actual, ALL_EXAMPLES);
}
