use intake::record::Values;
use intake::schema::Schema;
use intake::value::{PhysicalType, Value};

#[test]
fn generate_schema_from_values() {
    let mut values = Values::new();
    values.insert("a string".into(), Value::String("something".into()));

    let schema = Schema::try_from("my_index", &values).unwrap();
    let types = schema.fields().to_owned();
    assert_eq!(schema.name(), "my_index");
    assert_eq!(types.len(), 1);
    assert_eq!(types.first().unwrap().physical, PhysicalType::ByteArray);
}

#[test]
fn each_values_are_represented() {
    let mut values = Values::new();
    values.insert("a string".into(), Value::String("something".into()));
    values.insert("a number".into(), Value::Int64(981));
    values.insert("a float".into(), Value::Float(198.83f64.to_bits()));

    let schema = Schema::try_from("my_index", &values).unwrap();
    let types = schema.fields().to_owned();

    assert_eq!(types[2].physical, PhysicalType::ByteArray);
    assert_eq!(types[1].physical, PhysicalType::Int64);
    assert_eq!(types[0].physical, PhysicalType::Float);
}

#[test]
fn schema_fields_follow_key_order() {
    let mut values = Values::new();
    values.insert("name".into(), Value::String("a".into()));
    values.insert("id".into(), Value::Int64(1));
    let schema = Schema::try_from("orders", &values).unwrap();
    assert_eq!(schema.fields()[0].name, "id");
    assert_eq!(schema.fields()[1].name, "name");
}

#[test]
fn schema_rejects_empty_names() {
    let mut values = Values::new();
    values.insert("id".into(), Value::Int64(1));
    assert_eq!(
        Schema::try_from("", &values).unwrap_err(),
        intake::errors::Error::EmptyName
    );
    let mut unnamed = Values::new();
    unnamed.insert("".into(), Value::Int64(1));
    assert_eq!(
        Schema::try_from("orders", &unnamed).unwrap_err(),
        intake::errors::Error::EmptyName
    );
}

#[test]
fn record_replaces_and_orders_keys() {
    let mut values = Values::new();
    values.insert("b".into(), Value::Int64(2));
    values.insert("a".into(), Value::Int64(1));
    values.insert("b".into(), Value::Int64(3));
    assert_eq!(values.len(), 2);
    assert_eq!(values.key_at(0), "a");
    assert_eq!(values.key_at(1), "b");
    assert_eq!(values.get("b"), Some(&Value::Int64(3)));
    assert_eq!(values.get("c"), None);
}

#[test]
fn value_defaults_and_types() {
    assert_eq!(Value::default(), Value::Int64(-1));
    assert_eq!(Value::Int64(5).physical_type(), PhysicalType::Int64);
    assert_eq!(Value::Float(0).physical_type(), PhysicalType::Float);
    assert_eq!(Value::String("x".into()).physical_type(), PhysicalType::ByteArray);
}

#[test]
fn schemas_equal_by_name() {
    let mut a = Values::new();
    a.insert("id".into(), Value::Int64(1));
    let mut b = Values::new();
    b.insert("name".into(), Value::String("x".into()));
    let s1 = Schema::try_from("orders", &a).unwrap();
    let s2 = Schema::try_from("orders", &b).unwrap();
    let s3 = Schema::try_from("users", &a).unwrap();
    assert!(s1 == s2);
    assert!(s1 != s3);
}
