use datatect::json::Value;
use datatect::schema::Schema;

fn s(x: &str) -> Value {
    Value::Str(x.to_string())
}

fn obj(ps: Vec<(&str, Value)>) -> Value {
    Value::Obj(ps.into_iter().map(|(k, v)| (k.to_string(), v)).collect())
}

// Simple Examples

fn simple_schema() -> Schema {
    Schema::new(obj(vec![
        ("type", s("object")),
        ("properties", obj(vec![("foo", obj(vec![("type", s("string"))]))])),
    ]))
    .unwrap()
}

#[test]
fn validating_the_happy_path() {
    let data = obj(vec![("foo", s("bar"))]);
    assert!(simple_schema().is_valid(&data));
}

#[test]
fn validating_wrong_type() {
    let data = obj(vec![("foo", Value::Bool(true))]);
    assert!(!simple_schema().is_valid(&data));
}

#[test]
fn extra_fields_fail_validation() {
    let data = obj(vec![("foo", s("bar")), ("rofl", s("copter"))]);
    assert!(!simple_schema().is_valid(&data));
}

#[test]
fn missing_properties_fail_validation() {
    let data = obj(vec![]);
    assert!(!simple_schema().is_valid(&data));
}

// Nested Examples

fn nested_schema() -> Schema {
    Schema::new(obj(vec![
        ("type", s("object")),
        (
            "properties",
            obj(vec![
                ("foo", obj(vec![("type", s("string"))])),
                (
                    "bar",
                    obj(vec![
                        ("type", s("object")),
                        ("properties", obj(vec![("biz", obj(vec![("type", s("boolean"))]))])),
                    ]),
                ),
            ]),
        ),
    ]))
    .unwrap()
}

#[test]
fn passess_with_nested() {
    let data = obj(vec![("foo", s("bar")), ("bar", obj(vec![("biz", Value::Bool(true))]))]);
    assert!(nested_schema().is_valid(&data));
}

#[test]
fn fails_with_nested_wrong_type() {
    let data = obj(vec![("foo", s("bar")), ("bar", obj(vec![("biz", s("baz"))]))]);
    assert!(!nested_schema().is_valid(&data));
}

#[test]
fn nested_type_validation_errors() {
    let data = obj(vec![("foo", s("bar")), ("bar", obj(vec![("biz", s("baz"))]))]);

    let schema = nested_schema();
    let errors = schema.validate(&data);

    assert_eq!(errors.len(), 1);
    assert_eq!("\"baz\" is not of type \"boolean\"", errors[0].message);
    assert_eq!("/bar/biz", errors[0].instance_path);
}

#[test]
fn fails_with_nested_extra_properties() {
    let data = obj(vec![
        ("foo", s("bar")),
        ("bar", obj(vec![("biz", Value::Bool(true)), ("rofl", s("copter"))])),
    ]);
    assert!(!nested_schema().is_valid(&data));
}

#[test]
fn fails_with_nested_missing_properties() {
    let data = obj(vec![("foo", s("bar")), ("bar", obj(vec![]))]);
    assert!(!nested_schema().is_valid(&data));
}

// Testing with arrays

fn array_schema() -> Schema {
    Schema::new(obj(vec![
        ("type", s("array")),
        (
            "items",
            obj(vec![
                ("type", s("object")),
                ("properties", obj(vec![("foo", obj(vec![("type", s("string"))]))])),
            ]),
        ),
    ]))
    .unwrap()
}

#[test]
fn passes_array_of_objects() {
    let data = Value::Arr(vec![obj(vec![("foo", s("bar"))])]);
    assert!(array_schema().is_valid(&data));
}

#[test]
fn fails_an_object_in_array_with_additional_properties() {
    let data = Value::Arr(vec![obj(vec![("foo", s("bar")), ("biz", Value::Bool(false))])]);
    assert!(!array_schema().is_valid(&data));
}

#[test]
fn fails_an_object_in_array_with_missing_properties() {
    let data = Value::Arr(vec![obj(vec![])]);
    assert!(!array_schema().is_valid(&data));
}

#[test]
fn fails_an_object_in_array_with_incorrect_properties() {
    let data = Value::Arr(vec![obj(vec![("foo", Value::Bool(false))])]);
    assert!(!array_schema().is_valid(&data));
}

// Test oneOf

fn one_of_schema_example() -> Schema {
    Schema::new(obj(vec![(
        "oneOf",
        Value::Arr(vec![
            obj(vec![("type", s("null"))]),
            obj(vec![
                ("type", s("object")),
                ("properties", obj(vec![("foo", obj(vec![("type", s("string"))]))])),
            ]),
        ]),
    )]))
    .unwrap()
}

#[test]
fn one_of_valid_with_non_object() {
    let data = Value::Null;
    assert!(one_of_schema_example().is_valid(&data));
}

#[test]
fn one_of_valid_with_correct_object() {
    let data = obj(vec![("foo", s("bar"))]);
    assert!(one_of_schema_example().is_valid(&data));
}

#[test]
fn one_of_fails_with_object_with_incorrect_type() {
    let data = obj(vec![("foo", Value::Bool(false))]);
    assert!(!one_of_schema_example().is_valid(&data));
}

#[test]
fn one_of_fails_with_object_having_extra_properties() {
    let data = obj(vec![("foo", s("bar")), ("rofl", Value::Bool(false))]);
    assert!(!one_of_schema_example().is_valid(&data));
}

#[test]
fn one_of_fails_with_object_missing_properties() {
    let data = obj(vec![]);
    assert!(!one_of_schema_example().is_valid(&data));
}
