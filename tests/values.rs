use json_parser::values::{Json, Value};

#[test]
fn json_insert_and_get() {
    let mut j = Json::new();
    assert_eq!(j.len(), 0);
    assert_eq!(j.get("k"), None);
    j.insert("k".to_string(), Value::IntegerValue(1));
    j.insert("m".to_string(), Value::NullValue);
    assert_eq!(j.len(), 2);
    assert_eq!(j.get("k"), Some(&Value::IntegerValue(1)));
    assert_eq!(j.get("m"), Some(&Value::NullValue));
}

#[test]
fn json_insert_overwrites() {
    let mut j = Json::new();
    j.insert("k".to_string(), Value::IntegerValue(1));
    j.insert("k".to_string(), Value::BoolValue(false));
    assert_eq!(j.len(), 1);
    assert_eq!(j.get("k"), Some(&Value::BoolValue(false)));
}

#[test]
fn json_get_mut_changes_in_place() {
    let mut j = Json::new();
    j.insert("k".to_string(), Value::IntegerValue(1));
    match j.get_mut("k") {
        Some(v) => *v = Value::StringValue("s".to_string()),
        None => panic!(),
    }
    assert_eq!(j.get("k"), Some(&Value::StringValue("s".to_string())));
    assert!(j.get_mut("absent").is_none());
    assert_eq!(j.len(), 1);
}
