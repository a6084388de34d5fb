use mqttui::interactive::app::remove_selected_entry;
use mqttui::interactive::details::{Details, TableSelection};
use mqttui::interactive::mqtt_history::{is_topic_below, MqttHistory};
use mqttui::interactive::search::paths_to_open_all;
use mqttui::payload::Payload;

fn example() -> MqttHistory {
    MqttHistory::example()
}

#[test]
fn topics_below_works() {
    let mut actual = example().get_topics_below("foo");
    actual.sort_unstable();
    assert_eq!(actual, ["foo/bar", "foo/test"]);
}

#[test]
fn topics_below_finds_itself_works() {
    let actual = example().get_topics_below("test");
    assert_eq!(actual, ["test"]);
}

#[test]
fn tree_items_works() {
    let example = example();
    let (topics, messages, items) = example.to_tree_items();
    assert_eq!(topics, 4);
    assert_eq!(messages, 5);
    assert_eq!(items.len(), 3);
    assert_eq!(items[0].children.len(), 2);
    assert_eq!(items[1].children.len(), 0);
    assert_eq!(items[2].children.len(), 1);
}

#[test]
fn tree_items_show_leaves_and_meta() {
    let (_, _, items) = example().to_tree_items();
    assert_eq!(items[0].leaf, "foo");
    assert_eq!(items[0].meta, "(2 topics, 2 messages)");
    assert_eq!(items[0].children[0].leaf, "bar");
    assert_eq!(items[0].children[0].meta, "= D");
    assert_eq!(items[1].leaf, "test");
    assert_eq!(items[1].meta, "= C");
    assert_eq!(items[2].children[0].leaf, "stuff");
}

#[test]
fn get_returns_history_in_order() {
    let history = example();
    let test = history.get("test").unwrap();
    assert_eq!(test.len(), 2);
    assert_eq!(test[0].payload, Payload::String("A".into()));
    assert_eq!(test[1].payload, Payload::String("C".into()));
    assert!(history.get("foo").is_none());
    assert!(history.get("nope").is_none());
}

#[test]
fn all_topics_are_sorted() {
    let history = example();
    let topics = history.get_all_topics();
    assert_eq!(topics, ["foo/bar", "foo/test", "test", "testing/stuff"]);
}

#[test]
fn uncache_keeps_newest_entry() {
    let mut history = example();
    assert!(history.uncache_topic_entry("test", 1).is_none());
    let removed = history.uncache_topic_entry("test", 0).unwrap();
    assert_eq!(removed.payload, Payload::String("A".into()));
    assert_eq!(history.get("test").unwrap().len(), 1);
    assert!(history.uncache_topic_entry("test", 0).is_none());
    assert!(history.uncache_topic_entry("missing", 0).is_none());
}

#[test]
fn topic_below_checks_levels() {
    assert!(is_topic_below("foo", "foo"));
    assert!(is_topic_below("foo", "foo/bar"));
    assert!(!is_topic_below("foo", "foobar"));
    assert!(!is_topic_below("foo/bar", "foo"));
}

#[test]
fn example_payloads() {
    let history = example();
    let test = history.get("test").unwrap();
    assert_eq!(test[0].payload, Payload::String("A".into()));
    assert_eq!(test[1].payload, Payload::String("C".into()));
    assert_eq!(history.get("foo/bar").unwrap()[0].payload, Payload::String("D".into()));
}

#[test]
fn remove_selected_entry_keeps_newest() {
    let mut history = example();
    // Nothing selected: the newest entry is shown, and it stays.
    assert!(!remove_selected_entry(&mut history, "test", &Details::default()));
    assert_eq!(history.get("test").unwrap().len(), 2);

    let mut details = Details::default();
    details.table_state = TableSelection { selected: Some(0), offset: 0 };
    assert!(remove_selected_entry(&mut history, "test", &details));
    let test = history.get("test").unwrap();
    assert_eq!(test.len(), 1);
    assert_eq!(test[0].payload, Payload::String("C".into()));
    assert_eq!(history.get("foo/test").unwrap().len(), 1);

    assert!(!remove_selected_entry(&mut history, "test", &details));
    assert!(!remove_selected_entry(&mut history, "foo", &details));
}

#[test]
fn paths_to_open_all_cover_parents() {
    let history = example();
    let paths = paths_to_open_all(&history.get_all_topics());
    let expected: Vec<Vec<&str>> = vec![
        vec!["foo"],
        vec!["foo", "bar"],
        vec!["foo"],
        vec!["foo", "test"],
        vec!["test"],
        vec!["testing"],
        vec!["testing", "stuff"],
    ];
    assert_eq!(paths, expected);
}
