use mqttui::mqtt::payload::{decode_messagepack, Payload};
use mqttui::payload::JsonValue;

fn json_macro(json_str: &'static str) -> Option<String> {
    match Payload::new(json_str.into()) {
        Payload::Json(json) => Some(json.as_str().to_owned()),
        _ => None,
    }
}

#[test]
fn oneline_json_works() {
    let payload = Payload::Json(JsonValue::parse("[42, false]").unwrap());
    assert_eq!(payload.format_oneline(666), "Payload(666): [42,false]");
}

#[test]
fn oneline_string_works() {
    let payload = Payload::String("bar".into());
    assert_eq!(payload.format_oneline(3), "Payload(  3): bar");
}

#[test]
fn payload_pretty_json_ignores_plain() {
    assert_eq!(None, json_macro("bob"));
}

#[test]
fn payload_pretty_json_object_works() {
    assert_eq!(json_macro(r#"{"a": "alpha", "b": "beta"}"#), Some(r#"{"a":"alpha","b":"beta"}"#.to_owned()));
}

#[test]
fn payload_pretty_json_number_works() {
    assert_eq!(json_macro("42"), Some("42".to_owned()));
}

fn encode(value: &rmpv::Value) -> Vec<u8> {
    let mut bytes = Vec::new();
    rmpv::encode::write_value(&mut bytes, value).unwrap();
    bytes
}

#[test]
fn messagepack_payloads() {
    let value = rmpv::Value::Array(vec![rmpv::Value::from(42), rmpv::Value::from(false), rmpv::Value::from("some text")]);
    match Payload::new(encode(&value)) {
        Payload::MessagePack(decoded) => assert_eq!(decoded.as_str(), value.to_string()),
        other => panic!("no MessagePack: {other:?}"),
    }
}

#[test]
fn messagepack_with_duplicate_keys_is_refused() {
    let unique = rmpv::Value::Map(vec![
        (rmpv::Value::from("a"), rmpv::Value::from(1)),
        (rmpv::Value::from("b"), rmpv::Value::from(2)),
    ]);
    assert!(decode_messagepack(&encode(&unique)).is_some());
    let duplicate = rmpv::Value::Map(vec![
        (rmpv::Value::from("a"), rmpv::Value::from(1)),
        (rmpv::Value::from("a"), rmpv::Value::from(2)),
    ]);
    assert!(decode_messagepack(&encode(&duplicate)).is_none());
    let nested = rmpv::Value::Array(vec![rmpv::Value::Map(vec![
        (rmpv::Value::from(1), rmpv::Value::from(1)),
        (rmpv::Value::from(1), rmpv::Value::from(2)),
    ])]);
    assert!(decode_messagepack(&encode(&nested)).is_none());
}

#[test]
fn invalid_utf8_that_is_no_messagepack() {
    let payload = Payload::new(vec![0xd9]);
    match &payload {
        Payload::NotUtf8(reason) => assert!(!reason.is_empty()),
        other => panic!("not NotUtf8: {other:?}"),
    }
    assert!(payload.format_oneline(1).starts_with("Payload(  1) is not valid UTF-8: "));
}

#[test]
fn messagepack_duplicate_keys_in_map_values_are_refused() {
    let inner = rmpv::Value::Map(vec![
        (rmpv::Value::from("x"), rmpv::Value::from(1)),
        (rmpv::Value::from("x"), rmpv::Value::from(2)),
    ]);
    let in_value = rmpv::Value::Map(vec![(rmpv::Value::from("outer"), inner.clone())]);
    assert!(decode_messagepack(&encode(&in_value)).is_none());
    let deep = rmpv::Value::Array(vec![rmpv::Value::Map(vec![(
        rmpv::Value::from("list"),
        rmpv::Value::Array(vec![rmpv::Value::from(0), inner]),
    )])]);
    assert!(decode_messagepack(&encode(&deep)).is_none());
    let same_keys_in_different_maps = rmpv::Value::Map(vec![
        (rmpv::Value::from("x"), rmpv::Value::Map(vec![(rmpv::Value::from("x"), rmpv::Value::from(1))])),
        (rmpv::Value::from("y"), rmpv::Value::Map(vec![(rmpv::Value::from("x"), rmpv::Value::from(2))])),
    ]);
    assert!(decode_messagepack(&encode(&same_keys_in_different_maps)).is_some());
}
