use rmpv::Value;
use mqttui::payload::messagepack::decode;
use mqttui::payload::tree::{root_tree_items_from_json, tree_items};
use mqttui::payload::{JsonSelector, JsonValue, MessagePackValue, Payload};

fn encode(value: &rmpv::Value) -> Vec<u8> {
    let mut bytes = Vec::new();
    rmpv::encode::write_value(&mut bytes, value).unwrap();
    bytes
}

fn json(text: &str) -> JsonValue {
    JsonValue::parse(text).unwrap()
}

fn messagepack(value: &rmpv::Value) -> MessagePackValue {
    MessagePackValue::read(&encode(value)).unwrap()
}

#[test]
fn truncates_string() {
    let payload = b"hello world".to_vec();
    let payload = Payload::truncated(payload, 5);
    assert_eq!(payload, Payload::String("hello".into()));
}

#[test]
fn doesnt_truncate_short_string() {
    let payload = b"hello world".to_vec();
    let payload = Payload::truncated(payload, 20);
    assert_eq!(payload, Payload::String("hello world".into()));
}

#[test]
fn truncates_binary() {
    let payload = vec![0, 159, 146, 150, 42];
    let payload = Payload::truncated(payload, 4);
    assert_eq!(payload, Payload::Binary([0, 159, 146, 150].into()));
}

#[test]
fn unlimited_binary() {
    let payload = vec![0, 159, 146, 150];
    let payload = Payload::unlimited(payload);
    assert_eq!(payload, Payload::Binary([0, 159, 146, 150].into()));
}

#[test]
fn truncated_json_is_kept_as_text() {
    let payload = br#"{"a": 1}"#.to_vec();
    assert_eq!(Payload::truncated(payload.clone(), 8), Payload::Json(json(r#"{"a":1}"#)));
    assert_eq!(Payload::truncated(payload, 7), Payload::String(r#"{"a": 1"#.into()));
}

#[test]
fn display_binary_works() {
    let payload = Payload::Binary([1, 3, 3, 7].into());
    assert_eq!(payload.to_string(), "[1, 3, 3, 7]");
    assert_eq!(Payload::Binary(vec![]).to_string(), "[]");
    assert_eq!(Payload::Binary(vec![255]).to_string(), "[255]");
}

#[test]
fn display_json_works() {
    let payload = Payload::Json(json("[42, false]"));
    assert_eq!(payload.to_string(), "[42,false]");
}

#[test]
fn display_messagepack_works() {
    let payload = Payload::MessagePack(messagepack(&Value::Array(vec![
        Value::Integer(42.into()),
        Value::Boolean(false),
    ])));
    assert_eq!(payload.to_string(), "[42, false]");
}

#[test]
fn display_string_works() {
    let payload = Payload::String("bar".into());
    assert_eq!(payload.to_string(), "bar");
}

fn json_macro(json_str: &'static str) -> Option<String> {
    match Payload::unlimited(json_str.into()) {
        Payload::Json(json) => Some(json.as_str().to_owned()),
        _ => None,
    }
}

#[test]
fn mod_pretty_json_ignores_plain() {
    assert_eq!(None, json_macro("bob"));
}

#[test]
fn mod_pretty_json_object_works() {
    assert_eq!(
        json_macro(r#"{"a": "alpha", "b": "beta"}"#),
        Some(r#"{"a":"alpha","b":"beta"}"#.to_owned())
    );
}

#[test]
fn mod_pretty_json_number_works() {
    assert_eq!(json_macro("42"), Some("42".to_owned()));
}

#[test]
fn decode_empty() {
    assert_eq!(decode(&[0, 0, 0, 0, 0]), None);
}

#[test]
fn decode_true() {
    let value = decode(&[0xC3]).unwrap();
    assert_eq!(value.as_str(), "true");
    assert_eq!(value.encoded(), [0xC3]);
}

#[test]
fn unlimited_messagepack() {
    let bytes = encode(&rmpv::Value::Map(vec![(
        rmpv::Value::String("temperature".into()),
        rmpv::Value::F64(21.5),
    )]));
    match Payload::unlimited(bytes.clone()) {
        Payload::MessagePack(value) => {
            assert_eq!(value.as_str(), "{\"temperature\": 21.5}");
            assert_eq!(value.encoded(), bytes.as_slice());
        }
        other => panic!("expected MessagePack, got {other:?}"),
    }
}

#[test]
fn json_selector_can_not_get_other_value() {
    let root = json("false");
    let result = JsonSelector::ArrayIndex(2).apply_json(&root);
    assert_eq!(result, None);
}

#[test]
fn json_selector_can_get_nth_array_value() {
    let root = json(r#"["bla", true]"#);
    let result = JsonSelector::ArrayIndex(1).apply_json(&root);
    assert_eq!(result, Some(json("true")));
}

#[test]
fn can_not_get_array_index_out_of_range() {
    let root = json(r#"["bla", true]"#);
    let result = JsonSelector::ArrayIndex(42).apply_json(&root);
    assert_eq!(result, None);
}

#[test]
fn json_selector_can_get_object_value() {
    let root = json(r#"{"bla": false, "blubb": true}"#);
    let result = JsonSelector::ObjectKey("blubb".to_owned()).apply_json(&root);
    assert_eq!(result, Some(json("true")));
}

#[test]
fn can_not_get_object_missing_key() {
    let root = json(r#"{"bla": false, "blubb": true}"#);
    let result = JsonSelector::ObjectKey("foo".to_owned()).apply_json(&root);
    assert_eq!(result, None);
}

#[test]
fn can_not_get_object_by_index() {
    let root = json(r#"{"bla": false, "blubb": true}"#);
    let result = JsonSelector::ArrayIndex(42).apply_json(&root);
    assert_eq!(result, None);
}

#[test]
fn json_selector_can_get_selected_value() {
    let root = json(r#"[false, {"bla": false, "blubb": true}, false]"#);
    let selector = vec![
        JsonSelector::ArrayIndex(1),
        JsonSelector::ObjectKey("blubb".to_owned()),
    ];
    let result = JsonSelector::get_json(&root, &selector);
    assert_eq!(result, Some(json("true")));
    assert_eq!(JsonSelector::get_json(&root, &[]), Some(json(root.as_str())));
}

#[test]
fn messagepack_selector_can_not_get_other_value() {
    let root = messagepack(&rmpv::Value::Boolean(false));
    let result = JsonSelector::ArrayIndex(2).apply_messagepack(&root);
    assert_eq!(result, None);
}

#[test]
fn messagepack_selector_can_get_nth_array_value() {
    let root = messagepack(&Value::Array(vec![Value::String("bla".into()), Value::Boolean(true)]));
    let result = JsonSelector::ArrayIndex(1).apply_messagepack(&root);
    assert_eq!(result, Some(messagepack(&Value::Boolean(true))));
}

#[test]
fn messagepack_selector_can_get_object_value() {
    let root = messagepack(&Value::Map(vec![
        (Value::String("bla".into()), Value::Boolean(false)),
        (Value::String("blubb".into()), Value::Boolean(true)),
        (Value::Integer(12.into()), Value::Boolean(true)),
    ]));
    let result = JsonSelector::ObjectKey("blubb".to_owned()).apply_messagepack(&root);
    assert_eq!(result, Some(messagepack(&Value::Boolean(true))));
    let by_number = JsonSelector::ObjectKey("12".to_owned()).apply_messagepack(&root);
    assert_eq!(by_number, Some(messagepack(&Value::Boolean(true))));
}

#[test]
fn messagepack_selector_can_get_selected_value() {
    let inner = vec![
        (Value::String("bla".into()), Value::Boolean(false)),
        (Value::String("blubb".into()), Value::Boolean(true)),
    ];
    let root = messagepack(&Value::Array(vec![
        Value::Boolean(false),
        Value::Map(inner),
        Value::Boolean(false),
    ]));
    let selector = vec![
        JsonSelector::ArrayIndex(1),
        JsonSelector::ObjectKey("blubb".to_owned()),
    ];
    let result = JsonSelector::get_messagepack(&root, &selector);
    assert_eq!(result, Some(messagepack(&Value::Boolean(true))));
}

#[test]
fn selector_text() {
    assert_eq!(JsonSelector::ObjectKey("temp".into()).to_string(), "temp");
    assert_eq!(JsonSelector::ArrayIndex(1207).to_string(), "1207");
    assert_eq!(JsonSelector::Empty.to_string(), "");
    assert_eq!(JsonSelector::default(), JsonSelector::Empty);
}

#[test]
fn select_can_not_get_other_value() {
    let root = messagepack(&Value::Boolean(false));
    let result = JsonSelector::ArrayIndex(2).apply_messagepack(&root);
    assert_eq!(result, None);
}

#[test]
fn select_can_get_nth_array_value() {
    let root = messagepack(&Value::Array(vec![Value::String("bla".into()), Value::Boolean(true)]));
    let result = JsonSelector::ArrayIndex(1).apply_messagepack(&root);
    assert_eq!(result, Some(messagepack(&Value::Boolean(true))));
}

#[test]
fn select_can_get_object_value() {
    let root = messagepack(&Value::Map(vec![
        (Value::String("bla".into()), Value::Boolean(false)),
        (Value::String("blubb".into()), Value::Boolean(true)),
        (Value::Integer(12.into()), Value::Boolean(true)),
    ]));
    let result = JsonSelector::ObjectKey("blubb".to_owned()).apply_messagepack(&root);
    assert_eq!(result, Some(messagepack(&Value::Boolean(true))));
}

#[test]
fn select_can_get_selected_value() {
    let inner = vec![
        (Value::String("bla".into()), Value::Boolean(false)),
        (Value::String("blubb".into()), Value::Boolean(true)),
    ];
    let root = messagepack(&Value::Array(vec![Value::Boolean(false), Value::Map(inner), Value::Boolean(false)]));
    let selector = vec![JsonSelector::ArrayIndex(1), JsonSelector::ObjectKey("blubb".to_owned())];
    let result = JsonSelector::get_messagepack(&root, &selector);
    assert_eq!(result, Some(messagepack(&Value::Boolean(true))));
}

#[test]
fn pretty_forms() {
    assert_eq!(Payload::Binary(vec![1, 42]).to_pretty_string(), "[\n    1,\n    42,\n]");
    assert_eq!(Payload::Binary(vec![]).to_pretty_string(), "[]");
    assert_eq!(Payload::unlimited(b"{\"a\": [1]}".to_vec()).to_pretty_string(), "{\n  \"a\": [\n    1\n  ]\n}");
    assert_eq!(Payload::String("text".into()).to_pretty_string(), "text");
    assert_eq!(format!("{:#?}", [1u8, 42]), Payload::Binary(vec![1, 42]).to_pretty_string());
}

#[test]
fn json_tree_items() {
    let json = JsonValue::parse(r#"{"b":[1,{"c":true}],"a":"text"}"#).unwrap();
    let items = root_tree_items_from_json(&json);
    assert_eq!(items.len(), 2);
    assert_eq!(items[0].selector, JsonSelector::ObjectKey("a".to_owned()));
    assert_eq!(items[0].text, "a: \"text\"");
    assert!(items[0].children.is_empty());
    assert_eq!(items[1].text, "b");
    assert_eq!(items[1].children.len(), 2);
    assert_eq!(items[1].children[0].selector, JsonSelector::ArrayIndex(0));
    assert_eq!(items[1].children[0].text, "0: 1");
    assert_eq!(items[1].children[1].text, "1");
    assert_eq!(items[1].children[1].children[0].text, "c: true");

    let scalar = JsonValue::parse("42").unwrap();
    let items = root_tree_items_from_json(&scalar);
    assert_eq!(items.len(), 1);
    assert_eq!(items[0].selector, JsonSelector::Empty);
    assert_eq!(items[0].text, "42");
}

#[test]
fn messagepack_tree_items() {
    let value = rmpv::Value::Map(vec![
        (rmpv::Value::from("list"), rmpv::Value::Array(vec![rmpv::Value::from(7), rmpv::Value::from("x")])),
        (rmpv::Value::from(3), rmpv::Value::from(false)),
    ]);
    let mut bytes = Vec::new();
    rmpv::encode::write_value(&mut bytes, &value).unwrap();
    let decoded = MessagePackValue::read(&bytes).unwrap();
    let items = tree_items(&decoded);
    assert_eq!(items.len(), 2);
    assert_eq!(items[0].selector, JsonSelector::ObjectKey("list".to_owned()));
    assert_eq!(items[0].text, "list");
    assert_eq!(items[0].children[0].text, "0: 7");
    assert_eq!(items[0].children[1].text, "1: \"x\"");
    assert_eq!(items[1].selector, JsonSelector::ObjectKey("3".to_owned()));
    assert_eq!(items[1].text, "3: false");

    let mut bytes = Vec::new();
    rmpv::encode::write_value(&mut bytes, &rmpv::Value::from(5)).unwrap();
    let scalar = MessagePackValue::read(&bytes).unwrap();
    let items = tree_items(&scalar);
    assert_eq!(items.len(), 1);
    assert_eq!(items[0].selector, JsonSelector::Empty);
    assert_eq!(items[0].text, "5");
}
