use unqlite::document::{Value, ValueMap};

#[test]
fn scalar_classification() {
    assert!(Value::Null.is_scalar());
    assert!(Value::Int(1).is_scalar());
    assert!(Value::Bool(false).is_scalar());
    assert!(Value::Real(1.5f64.to_bits()).is_scalar());
    assert!(Value::string("x").is_scalar());
    assert!(!Value::Array(vec![]).is_scalar());
    assert!(!Value::Object(ValueMap::new()).is_scalar());
}

#[test]
fn narrowing_conversions() {
    assert_eq!(Value::Null.as_null(), Some(()));
    assert_eq!(Value::Int(7).as_null(), None);
    assert_eq!(Value::Int(7).as_int(), Some(7));
    assert_eq!(Value::string("7").as_int(), None);
    assert_eq!(Value::Bool(true).as_bool(), Some(true));
    assert_eq!(Value::Real(0.5f64.to_bits()).as_real_bits(), Some(0.5f64.to_bits()));
    assert_eq!(Value::string("text").as_string(), Some("text".to_string()));
    assert_eq!(Value::Null.as_string(), None);
    let arr = Value::Array(vec![Value::Int(1)]).as_array().unwrap();
    assert_eq!(arr, vec![Value::Int(1)]);
    assert!(Value::Int(1).as_array().is_none());
    assert!(Value::Int(1).as_object().is_none());
}

#[test]
fn map_insert_replaces_in_place() {
    let mut m = ValueMap::new();
    m.insert("a", Value::Int(1));
    m.insert("b", Value::Int(2));
    m.insert("a", Value::Int(3));
    assert_eq!(m.len(), 2);
    assert_eq!(m.get("a"), Some(Value::Int(3)));
    assert_eq!(m.get("b"), Some(Value::Int(2)));
    assert_eq!(m.get("c"), None);
}

#[test]
fn string_constructor_copies() {
    let v = Value::string("copy me");
    assert_eq!(v.as_string(), Some("copy me".to_string()));
}
