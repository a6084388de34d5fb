use std::collections::HashSet;

use mqttui::topic_logic::{
    build_all_tree_variants, filter_topics_by_opened, get_all_parents, get_leaf, get_parent,
    get_shown_topics, get_topic_depth,
};

const ALL_EXAMPLES: [&str; 10] = [
    "a",
    "a/b",
    "a/b/c",
    "a/d",
    "e",
    "e/f",
    "e/f/g",
    "e/f/g/h",
    "e/f/g/h/i",
    "e/j",
];

#[test]
fn tree_variants_empty_stays_emty() {
    let actual = build_all_tree_variants(&[]);
    assert_eq!(0, actual.len());
}

#[test]
fn tree_variants_shortest_path() {
    let topics = ["foo".to_owned()];
    let actual = build_all_tree_variants(&topics);
    assert_eq!(actual, ["foo"]);
}

#[test]
fn tree_variants_path_gets_splitted() {
    let topics = ["foo/bar".to_owned()];
    let actual = build_all_tree_variants(&topics);
    assert_eq!(actual, ["foo", "foo/bar"]);
}

#[test]
fn tree_variants_dont_duplicate() {
    let topics = ["a/b".to_owned(), "a/b/c".to_owned(), "a/d".to_owned()];
    let actual = build_all_tree_variants(&topics);
    assert_eq!(actual, ["a", "a/b", "a/b/c", "a/d"]);
}

#[test]
fn tree_variants_are_sorted_like_str() {
    let topics = ["b/x".to_owned(), "a/z".to_owned(), "a/B".to_owned(), "ä".to_owned()];
    let actual = build_all_tree_variants(&topics);
    let mut expected = vec!["a", "a/B", "a/z", "b", "b/x", "ä"];
    expected.sort_unstable();
    assert_eq!(actual, expected);
}

#[test]
fn all_parents_works() {
    assert_eq!(get_all_parents("a").len(), 0);
    assert_eq!(get_all_parents("a/b"), ["a"]);
    assert_eq!(get_all_parents("a/b/c"), ["a", "a/b"]);
    assert_eq!(get_all_parents("a/b/c/d"), ["a", "a/b", "a/b/c"]);
}

#[test]
fn topic_logic_parent_works() {
    assert_eq!(None, get_parent("a"));
    assert_eq!(Some("a"), get_parent("a/b"));
    assert_eq!(Some("a/b"), get_parent("a/b/c"));
    assert_eq!(Some("a/b/c"), get_parent("a/b/c/d"));
}

#[test]
fn leaf_works() {
    assert_eq!("a", get_leaf("a"));
    assert_eq!("b", get_leaf("a/b"));
    assert_eq!("c", get_leaf("a/b/c"));
    assert_eq!("d", get_leaf("a/b/c/d"));
}

#[test]
fn topic_depth_works() {
    assert_eq!(0, get_topic_depth("a"));
    assert_eq!(1, get_topic_depth("a/b"));
    assert_eq!(2, get_topic_depth("a/b/c"));
    assert_eq!(3, get_topic_depth("a/b/c/d"));
}

#[test]
fn parents_count_matches_depth_on_unicode() {
    let topic = "wohnzimmer/ä/°C/x";
    assert_eq!(get_all_parents(topic).len(), get_topic_depth(topic));
    assert_eq!(get_all_parents(topic), ["wohnzimmer", "wohnzimmer/ä", "wohnzimmer/ä/°C"]);
    assert_eq!(get_leaf("°C"), "°C");
    assert_eq!(get_leaf("a/"), "");
    assert_eq!(get_parent("/a"), Some(""));
}

#[test]
fn topic_logic_filter_topics_by_opened_shows_only_top_level() {
    let opened = HashSet::new();
    let actual = filter_topics_by_opened(&ALL_EXAMPLES, &opened);
    assert_eq!(actual, ["a", "e"]);
}

#[test]
fn topic_logic_filter_topics_by_opened_shows_some() {
    let mut opened = HashSet::new();
    opened.insert("a".to_string());

    let actual = filter_topics_by_opened(&ALL_EXAMPLES, &opened);
    assert_eq!(actual, ["a", "a/b", "a/d", "e"]);
}

#[test]
fn topic_logic_filter_topics_by_opened_shows_only_when_all_parents_are_opened() {
    let mut opened = HashSet::new();
    opened.insert("a/b".to_string());

    let actual = filter_topics_by_opened(&ALL_EXAMPLES, &opened);
    assert_eq!(actual, ["a", "e"]);
}

#[test]
fn topic_logic_filter_topics_by_opened_shows_all() {
    let mut opened = HashSet::new();
    opened.insert("a".to_string());
    opened.insert("a/b".to_string());
    opened.insert("e".to_string());
    opened.insert("e/f".to_string());
    opened.insert("e/f/g".to_string());
    opened.insert("e/f/g/h".to_string());

    let actual = filter_topics_by_opened(&ALL_EXAMPLES, &opened);
    assert_eq!(actual, ALL_EXAMPLES);
}

#[test]
fn shown_topics_combine_variants_and_filter() {
    let topics = ["e/f/g".to_owned(), "a/b".to_owned()];
    let mut opened = HashSet::new();
    opened.insert("e".to_string());
    let actual = get_shown_topics(&topics, &opened);
    assert_eq!(actual, ["a", "e", "e/f"]);
}

#[test]
fn tree_variants_of_tree_variants_stay() {
    let topics = ["a/b/c".to_owned(), "a/d".to_owned(), "e".to_owned()];
    let first: Vec<String> = build_all_tree_variants(&topics).into_iter().map(ToOwned::to_owned).collect();
    assert_eq!(first, ["a", "a/b", "a/b/c", "a/d", "e"]);
    let again = build_all_tree_variants(&first);
    assert_eq!(again, first);
    for entry in &first {
        if let Some(parent) = get_parent(entry) {
            assert!(first.iter().any(|other| other == parent));
        }
    }
}

#[test]
fn all_parents_form_a_chain() {
    let parents = get_all_parents("a/b/c/d");
    assert_eq!(get_parent(parents[0]), None);
    for i in 1..parents.len() {
        assert_eq!(get_parent(parents[i]), Some(parents[i - 1]));
        assert!(parents[i - 1] < parents[i]);
    }
    assert_eq!(get_parent("a/b/c/d"), Some(parents[parents.len() - 1]));
    assert_eq!(parents.len(), get_topic_depth("a/b/c/d"));
}

#[test]
fn shown_topics_filter_the_tree_variants() {
    let topics = ["a/b/c".to_owned(), "a/d".to_owned(), "e".to_owned()];
    let mut opened = HashSet::new();
    opened.insert("a".to_owned());
    let all = build_all_tree_variants(&topics);
    assert_eq!(get_shown_topics(&topics, &opened), filter_topics_by_opened(&all, &opened));
    assert_eq!(get_shown_topics(&topics, &opened), ["a", "a/b", "a/d", "e"]);
}
