use flexicon::{DecodeError, FromName, NamedMap, ToValue, Value};
use flexicon::item::Item;

fn item(value: &str, optional: bool) -> Item {
    Item { value: value.to_string(), optional }
}

#[test]
fn test_new_is_empty() {
    let map: NamedMap<()> = NamedMap::new();
    assert!(map.is_empty());
}

#[test]
fn test_insert_and_get() {
    let mut map = NamedMap::new();
    map.insert("key1".to_string(), item("value1", true));
    assert_eq!(map.get(&"key1".to_string()).unwrap().value, "value1");
}

#[test]
fn test_deref_transparency() {
    let mut map = NamedMap::new();
    map.insert("test".to_string(), item("ok", false));
    assert_eq!(map.get(&"test".to_string()).unwrap().value, "ok");
}

#[test]
fn test_default_impl() {
    let map: NamedMap<()> = NamedMap::default();
    assert!(map.is_empty());
}

#[test]
fn test_json_roundtrip_array() {
    let original: NamedMap<Item> = NamedMap::from_names(vec!["a".to_string(), "b".to_string()]);
    let encoded = original.to_json_value();
    let restored = NamedMap::<Item>::from_json_value(encoded).unwrap();
    assert_eq!(original, restored);
}

#[test]
fn test_json_roundtrip_object() {
    let mut original = NamedMap::new();
    original.insert("handler".to_string(), item("http", true));
    let encoded = original.to_json_value();
    let restored = NamedMap::<Item>::from_json_value(encoded).unwrap();
    assert_eq!(original, restored);
}

#[test]
fn test_sequence_decode_uses_placeholders() {
    let input = Value::List(vec![
        Value::Text("a".to_string()),
        Value::Text("b".to_string()),
    ]);
    let map = NamedMap::<Item>::from_json_value(input).unwrap();
    assert_eq!(map.len(), 2);
    assert_eq!(map.get(&"a".to_string()).unwrap(), &Item::from_name("a"));
    assert_eq!(map.get(&"b".to_string()).unwrap(), &Item::from_name("b"));
}

#[test]
fn test_encode_is_always_mapping_shaped() {
    let map: NamedMap<Item> = NamedMap::from_names(vec!["a".to_string(), "b".to_string()]);
    let encoded = map.to_json_value();
    assert!(matches!(encoded, Value::Record(_)));
}

#[test]
fn test_shape_independence() {
    let detailed = Value::Record(vec![(
        "a".to_string(),
        item("edited", true).to_value(),
    )]);
    let direct = NamedMap::<Item>::from_json_value(detailed).unwrap();

    let terse = Value::List(vec![Value::Text("a".to_string())]);
    let mut upgraded = NamedMap::<Item>::from_json_value(terse).unwrap();
    upgraded.insert("a".to_string(), item("edited", true));

    assert_eq!(direct, upgraded);
    assert_eq!(direct.to_json_value(), upgraded.to_json_value());
}

#[test]
fn test_invalid_shape_rejection() {
    let err = NamedMap::<Item>::from_json_value(Value::Int(5)).unwrap_err();
    assert_eq!(err, DecodeError::WrongShape);
    let err = NamedMap::<Item>::from_json_value(Value::Text("a".to_string())).unwrap_err();
    assert_eq!(err, DecodeError::WrongShape);
    let err = NamedMap::<Item>::from_json_value(Value::Null).unwrap_err();
    assert_eq!(err, DecodeError::WrongShape);
}

#[test]
fn test_mixed_sequence_rejection() {
    let input = Value::List(vec![Value::Text("a".to_string()), Value::Int(5)]);
    let err = NamedMap::<Item>::from_json_value(input).unwrap_err();
    assert_eq!(err, DecodeError::BadElement);
}

#[test]
fn test_bad_entry_names_its_key() {
    let input = Value::Record(vec![("a".to_string(), Value::Int(3))]);
    let err = NamedMap::<Item>::from_json_value(input).unwrap_err();
    assert_eq!(err, DecodeError::BadEntry("a".to_string()));
}

#[test]
fn test_empty_inputs_decode_to_empty() {
    let map = NamedMap::<Item>::from_json_value(Value::List(vec![])).unwrap();
    assert!(map.is_empty());
    let map = NamedMap::<Item>::from_json_value(Value::Record(vec![])).unwrap();
    assert!(map.is_empty());
}

#[test]
fn test_insert_overwrites() {
    let mut map = NamedMap::new();
    map.insert("k".to_string(), item("first", false));
    map.insert("k".to_string(), item("second", true));
    assert_eq!(map.len(), 1);
    assert_eq!(map.get(&"k".to_string()).unwrap(), &item("second", true));
}

#[test]
fn test_get_missing_is_none() {
    let map: NamedMap<Item> = NamedMap::new();
    assert!(map.get(&"absent".to_string()).is_none());
}

#[test]
fn test_inner_accessors() {
    let mut map = NamedMap::new();
    map.insert("k".to_string(), item("v", false));
    assert_eq!(map.as_inner().len(), 1);
    assert_eq!(map.as_inner()[0].0, "k");
    let inner = map.into_inner();
    assert_eq!(inner, vec![("k".to_string(), item("v", false))]);
}

#[test]
fn test_item_encode_shape() {
    let encoded = item("x", true).to_value();
    let expected = Value::Record(vec![
        ("value".to_string(), Value::Text("x".to_string())),
        ("optional".to_string(), Value::Bool(true)),
    ]);
    assert_eq!(encoded, expected);
}

#[test]
fn test_remove() {
    let mut map = NamedMap::new();
    map.insert("a".to_string(), item("x", false));
    map.insert("b".to_string(), item("y", true));
    assert_eq!(map.remove(&"a".to_string()), Some(item("x", false)));
    assert!(map.remove(&"a".to_string()).is_none());
    assert_eq!(map.len(), 1);
    assert_eq!(map.get(&"b".to_string()).unwrap(), &item("y", true));
}

#[test]
fn test_as_inner_mut() {
    let mut map: NamedMap<Item> = NamedMap::new();
    map.as_inner_mut().push(("k".to_string(), item("v", false)));
    assert_eq!(map.get(&"k".to_string()).unwrap(), &item("v", false));
}

#[test]
fn test_item_decode_accepts_either_field_order() {
    let reversed = Value::Record(vec![
        ("optional".to_string(), Value::Bool(true)),
        ("value".to_string(), Value::Text("x".to_string())),
    ]);
    let input = Value::Record(vec![("k".to_string(), reversed)]);
    let map = NamedMap::<Item>::from_json_value(input).unwrap();
    assert_eq!(map.get(&"k".to_string()).unwrap(), &item("x", true));
}

#[test]
fn test_item_decode_rejects_bad_fields() {
    let missing = Value::Record(vec![("value".to_string(), Value::Text("x".to_string()))]);
    let input = Value::Record(vec![("k".to_string(), missing)]);
    let err = NamedMap::<Item>::from_json_value(input).unwrap_err();
    assert_eq!(err, DecodeError::BadEntry("k".to_string()));

    let extra = Value::Record(vec![
        ("value".to_string(), Value::Text("x".to_string())),
        ("optional".to_string(), Value::Bool(false)),
        ("other".to_string(), Value::Null),
    ]);
    let input = Value::Record(vec![("k".to_string(), extra)]);
    let err = NamedMap::<Item>::from_json_value(input).unwrap_err();
    assert_eq!(err, DecodeError::BadEntry("k".to_string()));

    let ill_typed = Value::Record(vec![
        ("value".to_string(), Value::Int(1)),
        ("optional".to_string(), Value::Bool(false)),
    ]);
    let input = Value::Record(vec![("k".to_string(), ill_typed)]);
    let err = NamedMap::<Item>::from_json_value(input).unwrap_err();
    assert_eq!(err, DecodeError::BadEntry("k".to_string()));
}
