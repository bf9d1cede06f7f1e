use juniper::registry::{MetaField, MetaType, Registry, TypeKind};
use juniper::input::FieldValue;
use juniper::value::Value;

fn field(name: &str, ty: &str) -> MetaField {
    MetaField { name: name.to_owned(), field_type: ty.to_owned(), description: None, default_value: None }
}

fn ty(name: &str, kind: TypeKind, fields: Vec<MetaField>, possible: &[&str]) -> MetaType {
    MetaType {
        name: name.to_owned(),
        kind,
        description: None,
        fields,
        possible_types: possible.iter().map(|p| p.to_string()).collect(),
        enum_values: vec![],
    }
}

fn schema() -> Vec<MetaType> {
    vec![
        ty("Query", TypeKind::Object, vec![field("node", "Node"), field("pet", "Pet")], &[]),
        ty("Node", TypeKind::Object, vec![field("id", "String"), field("next", "Node")], &[]),
        ty("Pet", TypeKind::Union, vec![], &["Dog", "Cat"]),
        ty("Dog", TypeKind::Object, vec![field("friend", "Cat")], &[]),
        ty("Cat", TypeKind::Object, vec![field("friend", "Dog")], &[]),
        ty("String", TypeKind::Scalar, vec![], &[]),
        ty("Unused", TypeKind::Scalar, vec![], &[]),
    ]
}

fn sorted_names(r: &Registry) -> Vec<String> {
    let mut names = r.type_names();
    names.sort();
    names
}

#[test]
fn self_referential_type_registers_once() {
    let mut r = Registry::new(schema());
    assert_eq!(r.get_or_build(&"Node".to_string()), Ok(1));
    assert_eq!(sorted_names(&r), vec!["Node".to_string(), "String".to_string()]);
    assert_eq!(r.len(), 2);
}

#[test]
fn mutually_recursive_types_terminate() {
    let mut r = Registry::new(schema());
    assert_eq!(r.get_or_build(&"Query".to_string()), Ok(0));
    assert_eq!(
        sorted_names(&r),
        vec!["Cat", "Dog", "Node", "Pet", "Query", "String"]
            .into_iter()
            .map(|s| s.to_string())
            .collect::<Vec<_>>()
    );
    assert!(r.type_named(&"Unused".to_string()).is_none());
}

#[test]
fn memoized_second_request_adds_nothing() {
    let mut r = Registry::new(schema());
    assert_eq!(r.get_or_build(&"Dog".to_string()), Ok(3));
    let before = r.type_names();
    assert_eq!(r.get_or_build(&"Cat".to_string()), Ok(4));
    assert_eq!(r.type_names(), before);
    assert_eq!(r.len(), 2);
}

#[test]
fn lookup_of_registered_and_unregistered_names() {
    let mut r = Registry::new(schema());
    assert!(r.type_named(&"Node".to_string()).is_none());
    r.get_or_build(&"Node".to_string()).unwrap();
    let node = r.type_named(&"Node".to_string()).unwrap();
    assert_eq!(node.name, "Node");
    assert_eq!(node.kind, TypeKind::Object);
    assert_eq!(node.fields[1].field_type, "Node");
    assert!(r.type_named(&"Nope".to_string()).is_none());
}

#[test]
fn dangling_reference_is_an_error_and_changes_nothing() {
    let mut decls = schema();
    decls.push(ty("Broken", TypeKind::Object, vec![field("a", "String"), field("b", "Missing")], &[]));
    let mut r = Registry::new(decls);
    r.get_or_build(&"Node".to_string()).unwrap();
    let before = r.type_names();
    assert_eq!(r.get_or_build(&"Broken".to_string()), Err("Missing".to_string()));
    assert_eq!(r.type_names(), before);
    assert_eq!(r.get_or_build(&"Absent".to_string()), Err("Absent".to_string()));
}

#[test]
fn shadowed_declaration_is_not_used() {
    let mut decls = schema();
    decls.push(ty("Node", TypeKind::Scalar, vec![], &[]));
    let mut r = Registry::new(decls);
    assert_eq!(r.get_or_build(&"Node".to_string()), Ok(1));
    assert_eq!(r.type_named(&"Node".to_string()).unwrap().kind, TypeKind::Object);
}

fn entry<'a>(v: &'a Value, key: &str) -> &'a Value {
    match v {
        Value::Object(es) => &es.iter().find(|(k, _)| k == key).expect("missing key").1,
        _ => panic!("not an object"),
    }
}

#[test]
fn introspect_default_name_input_fields() {
    let decls = vec![
        ty(
            "DefaultName",
            TypeKind::InputObject,
            vec![field("fieldOne", "String"), field("fieldTwo", "String")],
            &[],
        ),
        ty("String", TypeKind::Scalar, vec![], &[]),
    ];
    let mut r = Registry::new(decls);
    r.get_or_build(&"DefaultName".to_string()).unwrap();
    let t = r.introspect_type(&"DefaultName".to_string());
    assert_eq!(entry(&t, "name"), &Value::String("DefaultName".to_string()));
    assert_eq!(entry(&t, "kind"), &Value::String("INPUT_OBJECT".to_string()));
    assert_eq!(entry(&t, "description"), &Value::Null);
    let fields = match entry(&t, "inputFields") {
        Value::List(fs) => fs,
        _ => panic!("inputFields not a list"),
    };
    assert_eq!(fields.len(), 2);
    assert_eq!(entry(&fields[0], "name"), &Value::String("fieldOne".to_string()));
    assert_eq!(entry(&fields[1], "name"), &Value::String("fieldTwo".to_string()));
    assert_eq!(
        entry(entry(&fields[0], "type"), "name"),
        &Value::String("String".to_string())
    );
}

#[test]
fn introspect_unregistered_name_is_null() {
    let mut r = Registry::new(schema());
    assert_eq!(r.introspect_type(&"Node".to_string()), Value::Null);
    r.get_or_build(&"Pet".to_string()).unwrap();
    assert_eq!(r.introspect_type(&"Missing".to_string()), Value::Null);
    let pet = r.introspect_type(&"Pet".to_string());
    assert_eq!(entry(&pet, "kind"), &Value::String("UNION".to_string()));
    assert_eq!(
        entry(&pet, "possibleTypes"),
        &Value::List(vec![Value::String("Dog".to_string()), Value::String("Cat".to_string())])
    );
    assert!(matches!(entry(&pet, "fields"), Value::List(fs) if fs.is_empty()));
}

fn int_field(name: &str, default: i64) -> MetaField {
    MetaField {
        name: name.to_owned(),
        field_type: "Int".to_owned(),
        description: None,
        default_value: Some(FieldValue::Int(default)),
    }
}

fn input_defaults(fields: Vec<MetaField>) -> Vec<(Value, Value)> {
    let decls = vec![
        ty("FieldWithDefaults", TypeKind::InputObject, fields, &[]),
        ty("Int", TypeKind::Scalar, vec![], &[]),
    ];
    let mut r = Registry::new(decls);
    r.get_or_build(&"FieldWithDefaults".to_string()).unwrap();
    let t = r.introspect_type(&"FieldWithDefaults".to_string());
    match entry(&t, "inputFields") {
        Value::List(fs) => fs
            .iter()
            .map(|f| (text_or_null(entry(f, "name")), text_or_null(entry(f, "defaultValue"))))
            .collect(),
        _ => panic!("inputFields not a list"),
    }
}

fn text_or_null(v: &Value) -> Value {
    match v {
        Value::String(s) => Value::String(s.clone()),
        Value::Null => Value::Null,
        _ => panic!("unexpected value"),
    }
}

#[test]
fn introspected_defaults_are_literal_text_in_any_field_order() {
    let s = |x: &str| Value::String(x.to_string());
    assert_eq!(
        input_defaults(vec![int_field("fieldOne", 123), int_field("fieldTwo", 456)]),
        vec![(s("fieldOne"), s("123")), (s("fieldTwo"), s("456"))]
    );
    assert_eq!(
        input_defaults(vec![int_field("fieldTwo", 456), int_field("fieldOne", 123)]),
        vec![(s("fieldTwo"), s("456")), (s("fieldOne"), s("123"))]
    );
    let mut no_default = field("plain", "Int");
    no_default.description = Some("no default".to_string());
    assert_eq!(input_defaults(vec![no_default]), vec![(s("plain"), Value::Null)]);
}
