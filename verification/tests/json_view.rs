use mqttui::json_view::{get_nth_subvalue, get_selected_subvalue, JsonObject, JsonValue};

#[test]
fn can_not_get_nth_other_value() {
    let root = JsonValue::Boolean(false);
    let result = get_selected_subvalue(&root, &[2]);
    assert_eq!(result, None);
}

#[test]
fn json_view_can_get_nth_array_value() {
    let root = JsonValue::Array(vec![JsonValue::String("bla".to_string()), JsonValue::Boolean(true)]);
    let result = get_nth_subvalue(&root, 1);
    assert_eq!(result, Some(&JsonValue::Boolean(true)));
}

#[test]
fn can_not_get_nth_array_value_out_of_range() {
    let root = JsonValue::Array(vec![JsonValue::String("bla".to_string()), JsonValue::Boolean(true)]);
    let result = get_nth_subvalue(&root, 42);
    assert_eq!(result, None);
}

#[test]
fn can_get_nth_object_value() {
    let mut object = JsonObject::new();
    object.insert("bla", JsonValue::Boolean(false));
    object.insert("blubb", JsonValue::Boolean(true));

    let root = JsonValue::Object(object);
    let result = get_nth_subvalue(&root, 1);
    assert_eq!(result, Some(&JsonValue::Boolean(true)));
}

#[test]
fn can_not_get_nth_object_value_out_of_range() {
    let mut object = JsonObject::new();
    object.insert("bla", JsonValue::Boolean(false));
    object.insert("blubb", JsonValue::Boolean(true));

    let root = JsonValue::Object(object);
    let result = get_nth_subvalue(&root, 42);
    assert_eq!(result, None);
}

#[test]
fn json_view_can_get_selected_value() {
    let mut inner = JsonObject::new();
    inner.insert("bla", JsonValue::Boolean(false));
    inner.insert("blubb", JsonValue::Boolean(true));

    let root = JsonValue::Array(vec![JsonValue::Boolean(false), JsonValue::Object(inner), JsonValue::Boolean(false)]);

    let result = get_selected_subvalue(&root, &[1, 1]);
    assert_eq!(result, Some(&JsonValue::Boolean(true)));
}

#[test]
fn inserting_a_key_again_replaces_its_value() {
    let mut object = JsonObject::new();
    object.insert("a", JsonValue::Null);
    object.insert("b", JsonValue::Null);
    object.insert("a", JsonValue::Boolean(true));
    assert_eq!(object.len(), 2);
    assert_eq!(object.value_at(0), &JsonValue::Boolean(true));
}
