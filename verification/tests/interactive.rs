use mqttui::interactive::app::{ConfirmAction, ElementInFocus as FirstViewFocus, MoveTarget};
use mqttui::interactive::binary::BinaryView;
use mqttui::interactive::details::history_value;
use mqttui::payload::JsonSelector;
use std::collections::HashSet;

use mqttui::interactive::app::{can_switch_to_history_table, can_switch_to_payload, selected_payload, selected_payload_kind};
use mqttui::interactive::details::{Details, ScrollDirection, TableSelection};
use mqttui::interactive::footer::{footer_line, version_text, FooterSpan, SpanStyle};
use mqttui::interactive::keys::{
    after_cleaning, on_key, BinaryCommand, Key, KeyAction, KeyContext, KeyKind, KeyPress, PayloadKind, SearchSelection, TableCommand,
    TreeCommand,
};
use mqttui::interactive::layout::{app_areas, payload_areas, popup_area, popup_area_fixed, split_main_area};
use mqttui::interactive::mouse::{on_click, on_scroll, ClickAction, ScrollAction, ViewAreas};
use mqttui::interactive::mqtt_history::MqttHistory;
use mqttui::interactive::mqtt_thread::{thread_step, ThreadStep};
use mqttui::interactive::search::{
    contains_text, matches_search, path_prefixes, pop_search, push_search, search_matches, search_target, topic_path,
};
use mqttui::interactive::topic_tree_entry::{get_visible, TopicTreeEntry};
use mqttui::interactive::ui::{focus_color, split_area_vertically, Color, ElementInFocus, Position, Rect};
use mqttui::mqtt::{HistoryEntry, LocalTime, Notification, Publish, QoS, Time};
use mqttui::payload::Payload;

fn rect(x: u16, y: u16, width: u16, height: u16) -> Rect {
    Rect { x, y, width, height }
}

fn press(key: Key) -> KeyPress {
    KeyPress { key, control: false, kind: KeyKind::Press }
}

fn control(key: Key) -> KeyPress {
    KeyPress { key, control: true, kind: KeyKind::Press }
}

fn context() -> KeyContext {
    KeyContext {
        selected_topic: Some("foo/bar".to_owned()),
        can_switch_to_payload: false,
        can_switch_to_history_table: false,
        payload: PayloadKind::String,
        overview_height: 30,
    }
}

#[test]
fn split_vertically_example() {
    let area = rect(5, 10, 10, 14);
    let (first, second) = split_area_vertically(area, 7);
    assert_eq!(first, rect(5, 10, 10, 7));
    assert_eq!(second, rect(5, 17, 10, 7));
}

#[test]
fn focus_color_shows_focus() {
    assert_eq!(focus_color(true), Color::LightGreen);
    assert_eq!(focus_color(false), Color::Gray);
}

#[test]
fn rect_contains_its_cells_only() {
    let area = rect(2, 3, 4, 5);
    assert!(area.contains(Position { x: 2, y: 3 }));
    assert!(area.contains(Position { x: 5, y: 7 }));
    assert!(!area.contains(Position { x: 6, y: 7 }));
    assert!(!area.contains(Position { x: 5, y: 8 }));
    assert!(!area.contains(Position { x: 1, y: 3 }));
}

#[test]
fn control_c_quits_everywhere() {
    let ctx = context();
    let focuses = [
        ElementInFocus::TopicOverview,
        ElementInFocus::TopicSearch,
        ElementInFocus::Payload,
        ElementInFocus::HistoryTable,
        ElementInFocus::CleanRetainedPopup("foo".to_owned()),
    ];
    for focus in focuses {
        let (next, action) = on_key(&focus, control(Key::Char('c')), &ctx);
        assert_eq!(action, KeyAction::Quit);
        assert_eq!(next, focus);
    }
}

#[test]
fn q_quits_but_is_typed_in_search() {
    let ctx = context();
    assert_eq!(on_key(&ElementInFocus::TopicOverview, press(Key::Char('q')), &ctx).1, KeyAction::Quit);
    assert_eq!(on_key(&ElementInFocus::Payload, press(Key::Char('q')), &ctx).1, KeyAction::Quit);
    assert_eq!(on_key(&ElementInFocus::HistoryTable, press(Key::Char('q')), &ctx).1, KeyAction::Quit);
    assert_eq!(
        on_key(&ElementInFocus::TopicSearch, press(Key::Char('q')), &ctx),
        (ElementInFocus::TopicSearch, KeyAction::SearchType('q'))
    );
}

#[test]
fn tab_switches_where_possible() {
    let mut ctx = context();
    assert_eq!(
        on_key(&ElementInFocus::TopicOverview, press(Key::Tab), &ctx),
        (ElementInFocus::TopicOverview, KeyAction::Ignore)
    );
    ctx.can_switch_to_history_table = true;
    assert_eq!(
        on_key(&ElementInFocus::TopicOverview, press(Key::Tab), &ctx),
        (ElementInFocus::HistoryTable, KeyAction::Redraw)
    );
    ctx.can_switch_to_payload = true;
    assert_eq!(
        on_key(&ElementInFocus::TopicOverview, press(Key::Tab), &ctx),
        (ElementInFocus::Payload, KeyAction::Redraw)
    );
    assert_eq!(
        on_key(&ElementInFocus::Payload, press(Key::Tab), &ctx),
        (ElementInFocus::HistoryTable, KeyAction::Redraw)
    );
    assert_eq!(
        on_key(&ElementInFocus::HistoryTable, press(Key::BackTab), &ctx),
        (ElementInFocus::Payload, KeyAction::Redraw)
    );
    assert_eq!(
        on_key(&ElementInFocus::HistoryTable, press(Key::Tab), &ctx),
        (ElementInFocus::TopicOverview, KeyAction::Redraw)
    );
}

#[test]
fn overview_keys_move_the_tree() {
    let ctx = context();
    let overview = ElementInFocus::TopicOverview;
    assert_eq!(on_key(&overview, press(Key::Char('j')), &ctx).1, KeyAction::Overview(TreeCommand::Down));
    assert_eq!(on_key(&overview, press(Key::Up), &ctx).1, KeyAction::Overview(TreeCommand::Up));
    assert_eq!(on_key(&overview, press(Key::Char('h')), &ctx).1, KeyAction::Overview(TreeCommand::Left));
    assert_eq!(on_key(&overview, press(Key::Right), &ctx).1, KeyAction::Overview(TreeCommand::Right));
    assert_eq!(on_key(&overview, press(Key::Esc), &ctx).1, KeyAction::Overview(TreeCommand::Unselect));
    assert_eq!(on_key(&overview, press(Key::Char(' ')), &ctx).1, KeyAction::Overview(TreeCommand::ToggleSelected));
    assert_eq!(on_key(&overview, press(Key::PageDown), &ctx).1, KeyAction::Overview(TreeCommand::ScrollDown(10)));
    assert_eq!(on_key(&overview, control(Key::Char('u')), &ctx).1, KeyAction::Overview(TreeCommand::ScrollUp(10)));
    assert_eq!(on_key(&overview, press(Key::Char('u')), &ctx).1, KeyAction::Ignore);
    assert_eq!(
        on_key(&overview, press(Key::Char('/')), &ctx),
        (ElementInFocus::TopicSearch, KeyAction::Redraw)
    );
}

#[test]
fn delete_opens_the_popup_for_the_selected_topic() {
    let mut ctx = context();
    assert_eq!(
        on_key(&ElementInFocus::TopicOverview, press(Key::Delete), &ctx),
        (ElementInFocus::CleanRetainedPopup("foo/bar".to_owned()), KeyAction::Redraw)
    );
    ctx.selected_topic = None;
    assert_eq!(
        on_key(&ElementInFocus::TopicOverview, press(Key::Backspace), &ctx),
        (ElementInFocus::TopicOverview, KeyAction::Ignore)
    );
}

#[test]
fn popup_cleans_only_on_confirmation() {
    let ctx = context();
    let popup = ElementInFocus::CleanRetainedPopup("foo".to_owned());
    assert_eq!(
        on_key(&popup, press(Key::Enter), &ctx),
        (popup.clone(), KeyAction::CleanBelow("foo".to_owned()))
    );
    assert_eq!(after_cleaning(&popup, true), ElementInFocus::TopicOverview);
    assert_eq!(after_cleaning(&popup, false), popup);
    assert_eq!(
        on_key(&popup, press(Key::Esc), &ctx),
        (ElementInFocus::TopicOverview, KeyAction::Redraw)
    );
    assert_eq!(
        on_key(&popup, press(Key::Char('q')), &ctx),
        (ElementInFocus::TopicOverview, KeyAction::Redraw)
    );
}

#[test]
fn search_keys() {
    let ctx = context();
    let search = ElementInFocus::TopicSearch;
    assert_eq!(on_key(&search, press(Key::Backspace), &ctx).1, KeyAction::SearchDelete);
    assert_eq!(on_key(&search, press(Key::Up), &ctx).1, KeyAction::SearchStep(SearchSelection::Before));
    assert_eq!(on_key(&search, press(Key::Down), &ctx).1, KeyAction::SearchStep(SearchSelection::After));
    assert_eq!(on_key(&search, press(Key::Enter), &ctx).1, KeyAction::SearchOpenAll);
    assert_eq!(
        on_key(&search, press(Key::Esc), &ctx),
        (ElementInFocus::TopicOverview, KeyAction::SearchClear)
    );
    assert_eq!(
        on_key(&search, press(Key::Tab), &ctx),
        (ElementInFocus::TopicOverview, KeyAction::Redraw)
    );
}

#[test]
fn payload_keys_depend_on_the_payload() {
    let mut ctx = context();
    let payload = ElementInFocus::Payload;
    assert_eq!(on_key(&payload, press(Key::Down), &ctx).1, KeyAction::Ignore);
    ctx.payload = PayloadKind::Binary;
    assert_eq!(on_key(&payload, press(Key::Down), &ctx).1, KeyAction::Binary(BinaryCommand::Down));
    assert_eq!(on_key(&payload, control(Key::End), &ctx).1, KeyAction::Binary(BinaryCommand::SelectAddress(usize::MAX)));
    assert_eq!(on_key(&payload, press(Key::Home), &ctx).1, KeyAction::Binary(BinaryCommand::FirstInRow));
    ctx.payload = PayloadKind::MessagePack;
    assert_eq!(on_key(&payload, press(Key::Home), &ctx).1, KeyAction::PayloadTree(TreeCommand::First));
    assert_eq!(on_key(&payload, press(Key::PageUp), &ctx).1, KeyAction::PayloadTree(TreeCommand::ScrollUp(3)));
}

#[test]
fn table_keys_and_commands() {
    let ctx = context();
    let table = ElementInFocus::HistoryTable;
    assert_eq!(on_key(&table, press(Key::Char('j')), &ctx).1, KeyAction::Table(TableCommand::Next));
    assert_eq!(on_key(&table, control(Key::Char('d')), &ctx).1, KeyAction::Table(TableCommand::ScrollDown(3)));

    let mut state = TableSelection::default();
    assert!(state.run(TableCommand::Next));
    assert_eq!(state.selected, Some(0));
    assert!(state.run(TableCommand::Next));
    assert_eq!(state.selected, Some(1));
    assert!(state.run(TableCommand::Previous));
    assert_eq!(state.selected, Some(0));
    assert!(!state.run(TableCommand::First));
    assert!(state.run(TableCommand::Last));
    assert_eq!(state.selected, Some(usize::MAX));
    assert!(!state.run(TableCommand::Next));
    assert!(state.run(TableCommand::Unselect));
    assert!(!state.run(TableCommand::Unselect));
    assert!(state.run(TableCommand::Previous));
    assert_eq!(state.selected, Some(usize::MAX));
    assert!(!state.run(TableCommand::ScrollUp(3)));
    assert!(state.run(TableCommand::ScrollDown(3)));
    assert_eq!(state.offset, 3);
    assert!(state.run(TableCommand::ScrollUp(3)));
    assert_eq!(state.offset, 0);
    assert!(!state.scroll(ScrollDirection::Up));
    assert!(state.scroll(ScrollDirection::Down));
    assert_eq!(state.offset, 1);
}

#[test]
fn selected_history_index_stays_in_the_history() {
    let mut details = Details::default();
    assert_eq!(details.selected_history_index(5), 4);
    details.table_state.selected = Some(2);
    assert_eq!(details.selected_history_index(5), 2);
    details.table_state.selected = Some(7);
    assert_eq!(details.selected_history_index(5), 4);
    assert_eq!(details.selected_history_index(0), 0);
}

#[test]
fn table_click_selects_the_row() {
    let mut details = Details::default();
    details.last_table_area = rect(10, 5, 20, 10);
    details.table_state.offset = 4;
    assert_eq!(details.table_index_of_click(Position { x: 12, y: 9 }), Some(6));
    assert_eq!(details.table_index_of_click(Position { x: 12, y: 5 }), Some(4));
    assert_eq!(details.table_index_of_click(Position { x: 2, y: 9 }), None);
    assert!(details.table_click(Position { x: 12, y: 9 }));
    assert_eq!(details.table_state.selected, Some(6));
    assert!(!details.table_click(Position { x: 12, y: 20 }));
    assert_eq!(details.table_state.selected, Some(6));
}

#[test]
fn scrolling_goes_to_the_area_under_the_mouse() {
    let areas = ViewAreas { overview: rect(0, 1, 10, 10), payload: rect(10, 1, 10, 5), table: rect(10, 6, 10, 5) };
    assert_eq!(
        on_scroll(ScrollDirection::Down, Position { x: 1, y: 2 }, &areas, PayloadKind::Json),
        ScrollAction::Overview(TreeCommand::ScrollDown(1))
    );
    assert_eq!(
        on_scroll(ScrollDirection::Up, Position { x: 11, y: 2 }, &areas, PayloadKind::Binary),
        ScrollAction::Binary(BinaryCommand::ScrollUp(1))
    );
    assert_eq!(
        on_scroll(ScrollDirection::Up, Position { x: 11, y: 2 }, &areas, PayloadKind::String),
        ScrollAction::Ignore
    );
    assert_eq!(
        on_scroll(ScrollDirection::Up, Position { x: 11, y: 7 }, &areas, PayloadKind::String),
        ScrollAction::Table(ScrollDirection::Up)
    );
    assert_eq!(
        on_scroll(ScrollDirection::Up, Position { x: 30, y: 30 }, &areas, PayloadKind::Json),
        ScrollAction::Ignore
    );
}

#[test]
fn clicks_select_and_focus() {
    let mut details = Details::default();
    details.last_table_area = rect(10, 6, 10, 5);
    let focus = ElementInFocus::TopicSearch;
    let inside_table = Position { x: 11, y: 9 };
    assert_eq!(
        on_click(&focus, inside_table, Some(3), None, PayloadKind::Json, None, &mut details),
        (ElementInFocus::TopicOverview, ClickAction::Overview(3))
    );
    assert_eq!(
        on_click(&focus, inside_table, None, Some(2), PayloadKind::Json, None, &mut details),
        (ElementInFocus::Payload, ClickAction::PayloadTree(2))
    );
    assert_eq!(
        on_click(&focus, inside_table, None, Some(2), PayloadKind::Missing, None, &mut details),
        (ElementInFocus::TopicSearch, ClickAction::Redraw)
    );
    assert_eq!(
        on_click(&focus, inside_table, None, Some(2), PayloadKind::Binary, Some(17), &mut details),
        (ElementInFocus::Payload, ClickAction::BinaryAddress(17))
    );
    assert_eq!(details.table_state.selected, None);
    assert_eq!(
        on_click(&focus, inside_table, None, Some(2), PayloadKind::Binary, None, &mut details),
        (ElementInFocus::HistoryTable, ClickAction::Table(1))
    );
    assert_eq!(details.table_state.selected, Some(1));
    assert_eq!(
        on_click(&focus, Position { x: 0, y: 0 }, None, None, PayloadKind::Binary, None, &mut details),
        (ElementInFocus::TopicSearch, ClickAction::Ignore)
    );
}

fn topics() -> Vec<String> {
    vec!["Foo/Bar".to_owned(), "foo/test".to_owned(), "other".to_owned(), "test".to_owned()]
}

#[test]
fn search_matches_ignore_case_of_topic() {
    assert!(matches_search("Foo/Bar", "foo"));
    assert!(matches_search("Foo/Bar", "o/b"));
    assert!(!matches_search("Foo/Bar", "Foo"));
    assert!(contains_text("hello", ""));
    assert!(contains_text("hello", "llo"));
    assert!(!contains_text("hello", "hello!"));
    let all = topics();
    let refs = all.iter().collect::<Vec<_>>();
    assert_eq!(search_matches(&refs, "test"), vec![1, 3]);
}

#[test]
fn search_steps_around_the_selection() {
    let all = topics();
    let refs = all.iter().collect::<Vec<_>>();
    let selected = Some("other".to_owned());
    assert_eq!(search_target(&refs, &selected, "test", SearchSelection::After), Some(3));
    assert_eq!(search_target(&refs, &selected, "test", SearchSelection::Before), Some(1));
    assert_eq!(search_target(&refs, &selected, "test", SearchSelection::Stay), Some(3));
    let last = Some("test".to_owned());
    assert_eq!(search_target(&refs, &last, "test", SearchSelection::Stay), Some(3));
    assert_eq!(search_target(&refs, &last, "test", SearchSelection::After), Some(1));
    let first = Some("Foo/Bar".to_owned());
    assert_eq!(search_target(&refs, &first, "test", SearchSelection::Before), Some(3));
    assert_eq!(search_target(&refs, &None, "o", SearchSelection::Stay), Some(0));
    assert_eq!(search_target(&refs, &None, "nothing", SearchSelection::After), None);
}

#[test]
fn search_text_is_typed_in_lowercase() {
    let mut search = String::new();
    push_search(&mut search, 'F');
    push_search(&mut search, 'o');
    assert_eq!(search, "fo");
    pop_search(&mut search);
    assert_eq!(search, "f");
    pop_search(&mut search);
    pop_search(&mut search);
    assert_eq!(search, "");
}

#[test]
fn topic_paths_and_prefixes() {
    let path = topic_path("a/b/c");
    assert_eq!(path, ["a", "b", "c"]);
    let prefixes = path_prefixes(&path);
    assert_eq!(prefixes, vec![vec![], vec!["a".to_owned()], vec!["a".to_owned(), "b".to_owned()]]);
    assert_eq!(topic_path("a//b"), ["a", "", "b"]);
}

#[test]
fn layout_of_the_view() {
    let areas = app_areas(rect(0, 0, 90, 30), false);
    assert_eq!(areas.header, rect(0, 0, 90, 1));
    assert_eq!(areas.footer, rect(0, 29, 90, 1));
    assert_eq!(areas.error, rect(0, 29, 90, 0));
    assert_eq!(areas.main, rect(0, 1, 90, 28));
    let areas = app_areas(rect(0, 0, 90, 30), true);
    assert_eq!(areas.error, rect(0, 25, 90, 4));
    assert_eq!(areas.main, rect(0, 1, 90, 24));
    let (overview, details) = split_main_area(rect(0, 1, 91, 24));
    assert_eq!(overview, rect(0, 1, 30, 24));
    assert_eq!(details, rect(30, 1, 61, 24));
}

#[test]
fn payload_takes_what_it_needs() {
    let area = rect(30, 1, 60, 30);
    assert_eq!(payload_areas(area, false, 3), (rect(30, 1, 60, 5), rect(30, 6, 60, 25)));
    assert_eq!(payload_areas(area, false, 100), (rect(30, 1, 60, 10), rect(30, 11, 60, 20)));
    assert_eq!(payload_areas(area, true, 100), (rect(30, 1, 60, 20), rect(30, 21, 60, 10)));
}

#[test]
fn popups_are_centered() {
    assert_eq!(popup_area(rect(0, 0, 100, 40), 50), rect(18, 17, 64, 6));
    assert_eq!(popup_area(rect(0, 0, 30, 4), 50), rect(2, 0, 26, 4));
    assert_eq!(popup_area_fixed(rect(0, 0, 100, 40)), rect(10, 17, 80, 6));
    assert_eq!(popup_area_fixed(rect(0, 0, 50, 10)), rect(2, 2, 46, 6));
}

fn spans(line: &[FooterSpan]) -> Vec<&str> {
    line.iter().map(|span| span.text.as_str()).collect()
}

#[test]
fn footer_shows_the_keys_of_the_focus() {
    let line = footer_line(&ElementInFocus::TopicOverview, true, false, true, "");
    assert_eq!(spans(&line), [" q ", " Quit ", " / ", " Search ", " Del ", " Clean retained ", " Tab ", " Switch to History "]);
    assert_eq!(line[0].style, SpanStyle::Key);
    assert_eq!(line[1].style, SpanStyle::Text);
    let line = footer_line(&ElementInFocus::TopicSearch, false, false, false, "abc");
    assert_eq!(line.len(), 11);
    assert_eq!(line[8].style, SpanStyle::SearchLabel);
    assert_eq!(line[10].text, "abc");
    let line = footer_line(&ElementInFocus::Payload, false, true, false, "");
    assert_eq!(spans(&line), [" q ", " Quit ", " Tab ", " Switch to Topics "]);
    let line = footer_line(&ElementInFocus::CleanRetainedPopup("a".to_owned()), false, false, false, "");
    assert_eq!(spans(&line), [" Enter ", " Clean topic tree ", " Any ", " Abort "]);
    assert_eq!(version_text(), "mqttui 0.22.1");
}

fn entry(payload: &str) -> HistoryEntry {
    HistoryEntry {
        qos: QoS::AtLeastOnce,
        time: Time::new_now(false),
        payload_size: payload.len(),
        payload: Payload::unlimited(payload.into()),
    }
}

#[test]
fn switching_needs_history_and_payloads() {
    let mut history = MqttHistory::new();
    history.add("json".to_owned(), entry("[1]"));
    history.add("text".to_owned(), entry("hello"));
    history.add("text".to_owned(), entry("{}"));
    let details = Details::default();
    let json = Some("json".to_owned());
    let text = Some("text".to_owned());
    assert!(!can_switch_to_history_table(&history, &json));
    assert!(can_switch_to_history_table(&history, &text));
    assert!(!can_switch_to_history_table(&history, &None));
    assert_eq!(selected_payload_kind(&history, &json, &details), PayloadKind::Json);
    assert!(can_switch_to_payload(&history, &text, &details));
    let mut first = Details::default();
    first.table_state.selected = Some(0);
    assert_eq!(selected_payload_kind(&history, &text, &first), PayloadKind::String);
    assert!(!can_switch_to_payload(&history, &text, &first));
    assert_eq!(selected_payload(&history, &text, &first), Some(&Payload::String("hello".into())));
    assert_eq!(selected_payload_kind(&history, &Some("none".to_owned()), &details), PayloadKind::Missing);
}

fn publish(topic: &str, payload: &str, retain: bool, dup: bool) -> Notification {
    Notification::Publish(Publish {
        topic: topic.to_owned(),
        qos: QoS::ExactlyOnce,
        retain,
        dup,
        payload: payload.as_bytes().to_vec(),
    })
}

#[test]
fn thread_keeps_messages() {
    let mut history = MqttHistory::new();
    assert_eq!(thread_step(&mut history, Notification::ConnAck, 10), ThreadStep::Subscribe);
    assert_eq!(thread_step(&mut history, publish("a/b", "hello world", true, false), 5), ThreadStep::Continue);
    assert_eq!(thread_step(&mut history, publish("a/b", "again", false, true), 5), ThreadStep::Continue);
    assert_eq!(thread_step(&mut history, Notification::ConnectionError, 5), ThreadStep::Failed);
    assert_eq!(thread_step(&mut history, Notification::OutgoingDisconnect, 5), ThreadStep::Stop);
    let entries = history.get("a/b").unwrap();
    assert_eq!(entries.len(), 1);
    assert_eq!(entries[0].payload, Payload::String("hello".into()));
    assert_eq!(entries[0].payload_size, 11);
    assert_eq!(entries[0].time, Time::Retained);
    assert_eq!(entries[0].qos, QoS::ExactlyOnce);
}

#[test]
fn visible_topics_none_open_works() {
    let topics = TopicTreeEntry::examples();
    let opened = HashSet::new();
    let visible = get_visible(&opened, &topics);
    let visible = visible.iter().map(|o| o.topic.clone()).collect::<Vec<_>>();
    assert_eq!(visible, ["foo", "test"]);
}

#[test]
fn visible_topics_some_open_works() {
    let topics = TopicTreeEntry::examples();
    let mut opened = HashSet::new();
    opened.insert("foo".to_string());
    let visible = get_visible(&opened, &topics);
    let visible = visible.iter().map(|o| o.topic.clone()).collect::<Vec<_>>();
    assert_eq!(visible, ["foo", "foo/bar", "foo/test", "test"]);
}

#[test]
fn tree_entry_meta() {
    let topics = TopicTreeEntry::examples();
    assert_eq!(topics[0].meta(), "(2 topics, 2 messages)");
    assert_eq!(topics[1].meta(), "= C");
}

#[test]
fn history_table_values() {
    let binary = HistoryEntry {
        qos: QoS::AtMostOnce,
        time: Time::Retained,
        payload_size: 3,
        payload: Payload::Binary(vec![1, 3, 37]),
    };
    assert_eq!(history_value(&binary, Some(2), &[]), "37");
    assert_eq!(history_value(&binary, Some(3), &[]), "[1, 3, 37]");
    assert_eq!(history_value(&binary, None, &[]), "[1, 3, 37]");
    let json = entry(r#"{"a": [1, {"b": true}]}"#);
    let selector = [JsonSelector::ObjectKey("a".to_owned()), JsonSelector::ArrayIndex(1)];
    assert_eq!(history_value(&json, None, &selector), r#"{"b":true}"#);
    assert_eq!(history_value(&json, None, &[JsonSelector::ArrayIndex(0)]), r#"{"a":[1,{"b":true}]}"#);
    assert_eq!(history_value(&entry("text"), Some(0), &selector), "text");
}

#[test]
fn binary_view_moves_within_the_payload() {
    let mut view = BinaryView::default();
    assert!(view.run(BinaryCommand::Down, 40));
    assert_eq!(view.address, Some(0));
    assert!(view.run(BinaryCommand::Down, 40));
    assert_eq!(view.address, Some(16));
    assert!(view.run(BinaryCommand::Down, 40));
    assert_eq!(view.address, Some(32));
    assert!(view.run(BinaryCommand::Down, 40));
    assert_eq!(view.address, Some(39));
    assert!(!view.run(BinaryCommand::Right, 40));
    assert!(view.run(BinaryCommand::FirstInRow, 40));
    assert_eq!(view.address, Some(32));
    assert!(view.run(BinaryCommand::LastInRow, 40));
    assert_eq!(view.address, Some(39));
    assert!(view.run(BinaryCommand::SelectAddress(usize::MAX), 100));
    assert_eq!(view.address, Some(99));
    assert!(view.run(BinaryCommand::Up, 100));
    assert_eq!(view.address, Some(83));
    assert!(view.run(BinaryCommand::Left, 100));
    assert_eq!(view.address, Some(82));
    assert!(view.run(BinaryCommand::ScrollDown(3), 100));
    assert_eq!(view.first_row, 3);
    assert!(view.run(BinaryCommand::Unselect, 100));
    assert_eq!(view.address, None);
    let area = rect(10, 5, 60, 10);
    assert_eq!(view.clicked_address(area, Position { x: 11, y: 6 }, 100), Some(48));
    assert_eq!(view.clicked_address(area, Position { x: 17, y: 7 }, 100), Some(66));
    assert_eq!(view.clicked_address(area, Position { x: 17, y: 8 }, 80), None);
    assert_eq!(view.clicked_address(area, Position { x: 10, y: 6 }, 100), None);
}

#[test]
fn binary_view_without_selection_starts_at_the_ends() {
    let mut view = BinaryView::default();
    assert!(view.run(BinaryCommand::Up, 40));
    assert_eq!(view.address, Some(39));
    let mut view = BinaryView::default();
    assert!(view.run(BinaryCommand::Left, 40));
    assert_eq!(view.address, Some(39));
    let mut view = BinaryView::default();
    assert!(view.run(BinaryCommand::LastInRow, 40));
    assert_eq!(view.address, Some(15));
    let mut view = BinaryView::default();
    assert!(view.run(BinaryCommand::LastInRow, 10));
    assert_eq!(view.address, Some(9));
    let mut view = BinaryView::default();
    assert!(view.run(BinaryCommand::Right, 40));
    assert_eq!(view.address, Some(0));
}

#[test]
fn first_view_focus_moves() {
    let topics = FirstViewFocus::TopicOverview;
    assert_eq!(topics.on_tab(true), FirstViewFocus::JsonPayload);
    assert_eq!(topics.on_tab(false), FirstViewFocus::TopicOverview);
    assert_eq!(FirstViewFocus::JsonPayload.on_tab(true), FirstViewFocus::TopicOverview);
    let popup = topics.on_delete(Some("a/b"));
    assert_eq!(popup, FirstViewFocus::CleanRetainedPopup("a/b".to_owned()));
    assert_eq!(topics.on_delete(None), FirstViewFocus::TopicOverview);
    assert_eq!(FirstViewFocus::JsonPayload.on_delete(Some("a")), FirstViewFocus::JsonPayload);
    assert_eq!(popup.on_other(), FirstViewFocus::TopicOverview);
    assert_eq!(topics.on_other(), FirstViewFocus::TopicOverview);
    assert_eq!(popup.on_move(), (FirstViewFocus::TopicOverview, MoveTarget::Nothing));
    assert_eq!(FirstViewFocus::JsonPayload.on_move(), (FirstViewFocus::JsonPayload, MoveTarget::Json));
    assert_eq!(popup.on_confirm(), (FirstViewFocus::TopicOverview, ConfirmAction::Clean("a/b".to_owned())));
    assert_eq!(topics.on_confirm(), (FirstViewFocus::TopicOverview, ConfirmAction::ToggleTopic));
}

#[test]
fn released_keys_change_nothing() {
    let ctx = context();
    let release = |key: Key| KeyPress { key, control: false, kind: KeyKind::Release };
    assert_eq!(
        on_key(&ElementInFocus::TopicOverview, release(Key::Char('q')), &ctx),
        (ElementInFocus::TopicOverview, KeyAction::Ignore)
    );
    assert_eq!(
        on_key(&ElementInFocus::Payload, release(Key::Tab), &ctx),
        (ElementInFocus::Payload, KeyAction::Ignore)
    );
    let control_c = KeyPress { key: Key::Char('c'), control: true, kind: KeyKind::Release };
    assert_eq!(
        on_key(&ElementInFocus::HistoryTable, control_c, &ctx),
        (ElementInFocus::HistoryTable, KeyAction::Ignore)
    );
    let repeat = KeyPress { key: Key::Char('q'), control: false, kind: KeyKind::Repeat };
    assert_eq!(on_key(&ElementInFocus::TopicOverview, repeat, &ctx).1, KeyAction::Quit);
}

#[test]
fn o_opens_and_shift_o_closes_all_topics() {
    let ctx = context();
    assert_eq!(
        on_key(&ElementInFocus::TopicOverview, press(Key::Char('o')), &ctx),
        (ElementInFocus::TopicOverview, KeyAction::OpenAllTopics)
    );
    assert_eq!(
        on_key(&ElementInFocus::TopicOverview, press(Key::Char('O')), &ctx),
        (ElementInFocus::TopicOverview, KeyAction::CloseAllTopics)
    );
    assert_eq!(
        on_key(&ElementInFocus::TopicSearch, press(Key::Char('o')), &ctx),
        (ElementInFocus::TopicSearch, KeyAction::SearchType('o'))
    );
}

#[test]
fn delete_in_history_table_removes_the_entry() {
    let ctx = context();
    assert_eq!(
        on_key(&ElementInFocus::HistoryTable, press(Key::Delete), &ctx),
        (ElementInFocus::HistoryTable, KeyAction::RemoveHistoryEntry)
    );
    assert_eq!(
        on_key(&ElementInFocus::HistoryTable, press(Key::Backspace), &ctx),
        (ElementInFocus::HistoryTable, KeyAction::RemoveHistoryEntry)
    );
}

fn local(hour: u32, minute: u32, second: u32, nanosecond: u32) -> Time {
    Time::Local(LocalTime { hour, minute, second, nanosecond, timestamp_millis: 0 })
}

#[test]
fn time_text_pads_hour_with_space() {
    assert_eq!(Time::Retained.to_string(), "RETAINED");
    assert_eq!(local(9, 5, 7, 42_000_000).to_string(), " 9:05:07.042");
    assert_eq!(local(23, 59, 58, 999_999_999).to_string(), "23:59:58.999");
    assert_eq!(local(0, 0, 0, 0).to_string(), " 0:00:00.000");
    // A leap second.
    assert_eq!(local(12, 30, 59, 1_500_000_000).to_string(), "12:30:60.500");
}

#[test]
fn time_now_is_a_time_of_day() {
    let Time::Local(now) = Time::new_now(false) else { panic!("a live message has a local time") };
    assert!(now.hour < 24 && now.minute < 60 && now.second < 60);
    let text = Time::Local(now).to_string();
    assert_eq!(text.len(), 12);
    assert_eq!(&text[2..3], ":");
    assert_eq!(Time::new_now(true), Time::Retained);
}

#[test]
fn tree_item_counts_follow_the_topics() {
    let mut history = MqttHistory::new();
    for (topic, payload) in [("a/b", "1"), ("a/c/d", "2"), ("a/b", "3"), ("e", "4"), ("f/g/h", "5"), ("a/b", "6")] {
        history.add(topic.to_owned(), entry(payload));
    }
    assert!(history.uncache_topic_entry("a/b", 0).is_some());
    let topics = history.get_all_topics();
    assert_eq!(topics, ["a/b", "a/c/d", "e", "f/g/h"]);
    let messages: usize = topics.iter().map(|topic| history.get(topic).unwrap().len()).sum();
    let (topic_count, message_count, items) = history.to_tree_items();
    assert_eq!(topic_count, topics.len());
    assert_eq!(message_count, messages);
    assert_eq!(message_count, 5);
    let leaves: Vec<&str> = items.iter().map(|item| item.leaf.as_str()).collect();
    assert_eq!(leaves, ["a", "e", "f"]);
    let a_children: Vec<&str> = items[0].children.iter().map(|item| item.leaf.as_str()).collect();
    assert_eq!(a_children, ["b", "c"]);
}

#[test]
fn tree_items_hold_only_topics_and_parents() {
    let mut history = MqttHistory::new();
    history.add("foo/bar".to_owned(), entry("1"));
    history.add("foo/baz/qux".to_owned(), entry("2"));
    let (_, _, items) = history.to_tree_items();
    assert_eq!(items.len(), 1);
    assert_eq!(items[0].leaf, "foo");
    let children: Vec<&str> = items[0].children.iter().map(|item| item.leaf.as_str()).collect();
    assert_eq!(children, ["bar", "baz"]);
    assert!(items[0].children[0].children.is_empty());
    assert_eq!(items[0].children[1].children.len(), 1);
    assert_eq!(items[0].children[1].children[0].leaf, "qux");
}
