use juniper::input::{FieldValue, InputField, InputObjectMeta, InputValue, ScalarKind, Variables};

fn string_field(name: &str, description: Option<&str>) -> InputField {
    InputField {
        name: name.to_owned(),
        description: description.map(|d| d.to_owned()),
        kind: ScalarKind::String,
        non_null: true,
        default_value: None,
    }
}

fn int_field_with_default(name: &str, default: i64, description: Option<&str>) -> InputField {
    InputField {
        name: name.to_owned(),
        description: description.map(|d| d.to_owned()),
        kind: ScalarKind::Int,
        non_null: false,
        default_value: Some(FieldValue::Int(default)),
    }
}

fn object(name: &str, description: Option<&str>, fields: Vec<InputField>) -> InputObjectMeta {
    InputObjectMeta {
        name: name.to_owned(),
        description: description.map(|d| d.to_owned()),
        fields,
    }
}

fn default_name() -> InputObjectMeta {
    object(
        "DefaultName",
        None,
        vec![string_field("fieldOne", None), string_field("fieldTwo", None)],
    )
}

fn literal(entries: Vec<(&str, InputValue)>) -> InputValue {
    InputValue::Object(entries.into_iter().map(|(k, v)| (k.to_owned(), v)).collect())
}

fn string(s: &str) -> InputValue {
    InputValue::String(s.to_owned())
}

fn field_string(coerced: &[(String, FieldValue)], name: &str) -> String {
    for (k, v) in coerced {
        if k == name {
            if let FieldValue::String(s) = v {
                return s.clone();
            }
        }
    }
    panic!("no string field {}", name)
}

fn assert_string_fields(meta: &InputObjectMeta, names: &[&str], descriptions: &[Option<&str>]) {
    let listed = meta.input_field_names();
    assert_eq!(listed, names.iter().map(|n| n.to_string()).collect::<Vec<_>>());
    for (f, d) in meta.fields.iter().zip(descriptions) {
        assert_eq!(f.description.as_deref(), *d);
        assert_eq!(f.kind, ScalarKind::String);
        assert!(f.non_null);
    }
    assert_eq!(meta.input_field_defaults(), vec![None; names.len()]);
}

#[test]
fn default_name_introspection() {
    let meta = default_name();
    assert_eq!(meta.name, "DefaultName");
    assert_eq!(meta.description, None);
    assert_eq!(meta.fields.len(), 2);
    assert_string_fields(&meta, &["fieldOne", "fieldTwo"], &[None, None]);
}

#[test]
fn default_name_input_value() {
    let iv = literal(vec![("fieldOne", string("number one")), ("fieldTwo", string("number two"))]);
    let dv = default_name().from_input_value(&iv, &Variables::new());
    assert!(dv.is_some());
    let dv = dv.unwrap();
    assert_eq!(field_string(&dv, "fieldOne"), "number one");
    assert_eq!(field_string(&dv, "fieldTwo"), "number two");
}

#[test]
fn no_trailing_comma_introspection() {
    let meta = object(
        "NoTrailingComma",
        None,
        vec![string_field("fieldOne", None), string_field("fieldTwo", None)],
    );
    assert_eq!(meta.name, "NoTrailingComma");
    assert_eq!(meta.description, None);
    assert_string_fields(&meta, &["fieldOne", "fieldTwo"], &[None, None]);
}

#[test]
fn derive_introspection() {
    let meta = object("Derive", None, vec![string_field("fieldOne", None)]);
    assert_eq!(meta.name, "Derive");
    assert_eq!(meta.description, None);
    assert_string_fields(&meta, &["fieldOne"], &[None]);
}

#[derive(Debug)]
struct Derive {
    field_one: String,
}

#[test]
fn derive_derived() {
    let meta = object("Derive", None, vec![string_field("fieldOne", None)]);
    let coerced = meta
        .from_input_value(&literal(vec![("fieldOne", string("test"))]), &Variables::new())
        .unwrap();
    let value = Derive { field_one: field_string(&coerced, "fieldOne") };
    assert_eq!(format!("{:?}", value), "Derive { field_one: \"test\" }");
}

#[test]
fn named_introspection() {
    let meta = object("ANamedInputObject", None, vec![string_field("fieldOne", None)]);
    assert_eq!(meta.name, "ANamedInputObject");
    assert_eq!(meta.description, None);
    assert_string_fields(&meta, &["fieldOne"], &[None]);
}

#[test]
fn description_introspection() {
    let meta = object(
        "Description",
        Some("Description for the input object"),
        vec![string_field("fieldOne", None)],
    );
    assert_eq!(meta.name, "Description");
    assert_eq!(meta.description.as_deref(), Some("Description for the input object"));
    assert_string_fields(&meta, &["fieldOne"], &[None]);
}

#[test]
fn field_description_introspection() {
    let meta = object(
        "FieldDescription",
        None,
        vec![
            string_field("fieldOne", Some("The first field")),
            string_field("fieldTwo", Some("The second field")),
        ],
    );
    assert_eq!(meta.name, "FieldDescription");
    assert_eq!(meta.description, None);
    assert_string_fields(
        &meta,
        &["fieldOne", "fieldTwo"],
        &[Some("The first field"), Some("The second field")],
    );
}

#[test]
fn field_with_defaults_introspection() {
    let meta = object(
        "FieldWithDefaults",
        None,
        vec![
            int_field_with_default("fieldOne", 123, None),
            int_field_with_default("fieldTwo", 456, Some("The second field")),
        ],
    );
    assert_eq!(meta.name, "FieldWithDefaults");
    assert_eq!(meta.input_field_names(), vec!["fieldOne".to_string(), "fieldTwo".to_string()]);
    assert_eq!(meta.fields[0].kind, ScalarKind::Int);
    assert!(!meta.fields[1].non_null);
    assert_eq!(
        meta.input_field_defaults(),
        vec![Some("123".to_string()), Some("456".to_string())]
    );
}

#[test]
fn defaults_do_not_depend_on_field_order() {
    let forward = object(
        "FieldWithDefaults",
        None,
        vec![int_field_with_default("fieldOne", 123, None), int_field_with_default("fieldTwo", 456, None)],
    );
    let reversed = object(
        "FieldWithDefaults",
        None,
        vec![int_field_with_default("fieldTwo", 456, None), int_field_with_default("fieldOne", 123, None)],
    );
    let f = forward.input_field_defaults();
    let r = reversed.input_field_defaults();
    assert_eq!(f[0], r[1]);
    assert_eq!(f[1], r[0]);
}

#[test]
fn literal_text_of_values() {
    assert_eq!(FieldValue::Int(0).literal_text(), "0");
    assert_eq!(FieldValue::Int(-42).literal_text(), "-42");
    assert_eq!(FieldValue::Int(i64::MIN).literal_text(), "-9223372036854775808");
    assert_eq!(FieldValue::Int(i64::MAX).literal_text(), "9223372036854775807");
    assert_eq!(FieldValue::String("x y".to_string()).literal_text(), "\"x y\"");
    assert_eq!(FieldValue::Boolean(true).literal_text(), "true");
    assert_eq!(FieldValue::Boolean(false).literal_text(), "false");
    assert_eq!(FieldValue::Null.literal_text(), "null");
}

#[test]
fn test_field_argument_coerces() {
    let iv = literal(vec![("fieldOne", string("x")), ("fieldTwo", string("y"))]);
    let coerced = default_name().from_input_value(&iv, &Variables::new()).unwrap();
    assert_eq!(coerced.len(), 2);
    assert_eq!(coerced[0], ("fieldOne".to_string(), FieldValue::String("x".to_string())));
    assert_eq!(coerced[1], ("fieldTwo".to_string(), FieldValue::String("y".to_string())));
}

#[test]
fn missing_non_null_field_fails() {
    let iv = literal(vec![("fieldOne", string("x"))]);
    assert!(default_name().from_input_value(&iv, &Variables::new()).is_none());
}

#[test]
fn wrong_kind_and_non_object_fail() {
    let iv = literal(vec![("fieldOne", InputValue::Int(1)), ("fieldTwo", string("y"))]);
    assert!(default_name().from_input_value(&iv, &Variables::new()).is_none());
    assert!(default_name().from_input_value(&string("x"), &Variables::new()).is_none());
    let null_one = literal(vec![("fieldOne", InputValue::Null), ("fieldTwo", string("y"))]);
    assert!(default_name().from_input_value(&null_one, &Variables::new()).is_none());
}

#[test]
fn defaults_fill_absent_fields_and_unbound_variables() {
    let meta = object(
        "FieldWithDefaults",
        None,
        vec![int_field_with_default("fieldOne", 123, None), int_field_with_default("fieldTwo", 456, None)],
    );
    let iv = literal(vec![
        ("fieldTwo", InputValue::Variable("unbound".to_string())),
        ("extra", InputValue::Boolean(true)),
    ]);
    let coerced = meta.from_input_value(&iv, &Variables::new()).unwrap();
    assert_eq!(coerced[0].1, FieldValue::Int(123));
    assert_eq!(coerced[1].1, FieldValue::Int(456));
}

#[test]
fn variables_supply_field_values() {
    let meta = object(
        "FieldWithDefaults",
        None,
        vec![int_field_with_default("fieldOne", 123, None), int_field_with_default("fieldTwo", 456, None)],
    );
    let vars: Variables = vec![("v".to_string(), InputValue::Int(7))];
    let iv = literal(vec![
        ("fieldOne", InputValue::Variable("v".to_string())),
        ("fieldTwo", InputValue::Null),
    ]);
    let coerced = meta.from_input_value(&iv, &vars).unwrap();
    assert_eq!(coerced[0].1, FieldValue::Int(7));
    assert_eq!(coerced[1].1, FieldValue::Null);
}

#[test]
fn first_entry_of_a_name_wins() {
    let iv = literal(vec![
        ("fieldOne", string("first")),
        ("fieldOne", string("second")),
        ("fieldTwo", string("y")),
    ]);
    let coerced = default_name().from_input_value(&iv, &Variables::new()).unwrap();
    assert_eq!(field_string(&coerced, "fieldOne"), "first");
}
