use juniper::arguments::{Argument, Arguments};
use juniper::convert::{FromInputValue, ToInputValue};
use juniper::directives::{is_excluded, Directive};
use juniper::input::InputValue;
use juniper::value::{insert_key_into, merge_key_into, merge_maps, ObjectMap, Value};
use juniper::TypeKind;
use ordermap::OrderMap;

fn table(entries: Vec<(&str, InputValue)>) -> OrderMap<String, InputValue> {
    let mut m = OrderMap::new();
    for (k, v) in entries {
        m.insert(k.to_string(), v);
    }
    m
}

fn show(v: &Value) -> String {
    format!("{:?}", v)
}

fn obj(entries: Vec<(&str, Value)>) -> Value {
    Value::Object(map(entries))
}

fn map(entries: Vec<(&str, Value)>) -> ObjectMap {
    ObjectMap::from_entries(entries.into_iter().map(|(k, v)| (k.to_string(), v)).collect())
}

fn keys(m: ObjectMap) -> Vec<String> {
    m.into_entries().into_iter().map(|e| e.0).collect()
}

#[test]
fn merge_appends_new_key_last() {
    let mut m = map(vec![("a", Value::Int(1))]);
    merge_key_into(&mut m, "b".to_string(), Value::Int(2));
    assert_eq!(keys(m), vec!["a", "b"]);
}

#[test]
fn merge_keeps_first_leaf_on_conflict() {
    let mut m = map(vec![("a", Value::Int(1))]);
    merge_key_into(&mut m, "a".to_string(), Value::Int(2));
    let e = m.into_entries();
    assert_eq!(e.len(), 1);
    assert_eq!(show(&e[0].1), show(&Value::Int(1)));
}

#[test]
fn merge_keeps_object_against_leaf() {
    let mut m = map(vec![("a", obj(vec![("x", Value::Int(1))]))]);
    merge_key_into(&mut m, "a".to_string(), Value::Int(7));
    let e = m.into_entries();
    assert_eq!(show(&e[0].1), show(&obj(vec![("x", Value::Int(1))])));
}

#[test]
fn merge_objects_deeply() {
    let mut m = map(vec![(
        "a",
        obj(vec![("x", Value::Int(1)), ("n", obj(vec![("p", Value::Int(1))]))]),
    )]);
    merge_key_into(
        &mut m,
        "a".to_string(),
        obj(vec![("y", Value::Int(2)), ("n", obj(vec![("q", Value::Int(2))])), ("x", Value::Int(9))]),
    );
    let expected = obj(vec![
        ("x", Value::Int(1)),
        ("n", obj(vec![("p", Value::Int(1)), ("q", Value::Int(2))])),
        ("y", Value::Int(2)),
    ]);
    let e = m.into_entries();
    assert_eq!(show(&e[0].1), show(&expected));
}

#[test]
fn merge_maps_in_order() {
    let mut d = map(vec![("b", Value::Int(1))]);
    let s = map(vec![("c", Value::Int(3)), ("b", Value::Int(5)), ("a", Value::Boolean(true))]);
    merge_maps(&mut d, s);
    let e = d.into_entries();
    let keys: Vec<&str> = e.iter().map(|e| e.0.as_str()).collect();
    assert_eq!(keys, vec!["b", "c", "a"]);
    assert_eq!(show(&e[0].1), show(&Value::Int(1)));
}

#[test]
fn insert_replaces_in_place() {
    let mut m = map(vec![("a", Value::Int(1)), ("b", Value::Int(2))]);
    insert_key_into(&mut m, "a".to_string(), Value::Null);
    insert_key_into(&mut m, "c".to_string(), Value::Int(3));
    let e = m.into_entries();
    assert_eq!(e.len(), 3);
    assert_eq!(e[0].0, "a");
    assert_eq!(show(&e[0].1), show(&Value::Null));
    assert_eq!(e[2].0, "c");
}

#[test]
fn from_entries_keeps_first_position() {
    let m = map(vec![("a", Value::Int(1)), ("b", Value::Int(2)), ("a", Value::Int(3))]);
    let e = m.into_entries();
    assert_eq!(e.len(), 2);
    assert_eq!(e[0].0, "a");
    assert_eq!(show(&e[0].1), show(&Value::Int(3)));
    assert!(ObjectMap::new().into_entries().is_empty());
}

fn directive(name: &str, cond: InputValue) -> Directive {
    Directive { name: name.to_string(), arguments: Some(vec![("if".to_string(), cond)]) }
}

#[test]
fn skip_true_excludes() {
    let vars = vec![];
    let d = Some(vec![directive("skip", InputValue::Boolean(true))]);
    assert!(is_excluded(&d, &vars));
    let d = Some(vec![directive("skip", InputValue::Boolean(false))]);
    assert!(!is_excluded(&d, &vars));
}

#[test]
fn keep_if_false_excludes() {
    let vars = vec![];
    let d = Some(vec![directive("include", InputValue::Boolean(false))]);
    assert!(is_excluded(&d, &vars));
    let d = Some(vec![directive("include", InputValue::Boolean(true))]);
    assert!(!is_excluded(&d, &vars));
}

#[test]
fn directive_reads_variables() {
    let vars = vec![("hide".to_string(), InputValue::Boolean(true))];
    let d = Some(vec![directive("skip", InputValue::Variable("hide".to_string()))]);
    assert!(is_excluded(&d, &vars));
}

#[test]
fn unknown_directive_ignored() {
    let vars = vec![];
    let d = Some(vec![Directive { name: "deprecated".to_string(), arguments: None }]);
    assert!(!is_excluded(&d, &vars));
    assert!(!is_excluded(&None, &vars));
}

#[test]
fn into_const_substitutes() {
    let vars = vec![("v".to_string(), InputValue::Int(4))];
    let input = InputValue::List(vec![
        InputValue::Variable("v".to_string()),
        InputValue::Variable("missing".to_string()),
        InputValue::Int(1),
    ]);
    let c = input.into_const(&vars);
    assert_eq!(
        format!("{:?}", c),
        format!("{:?}", InputValue::List(vec![InputValue::Int(4), InputValue::Null, InputValue::Int(1)]))
    );
}

fn decls() -> Option<Vec<Argument>> {
    Some(vec![
        Argument { name: "first".to_string(), default_value: Some(InputValue::Int(10)) },
        Argument { name: "after".to_string(), default_value: None },
    ])
}

#[test]
fn arguments_defaults_without_caller_values() {
    let args = Arguments::new(None, &decls());
    assert_eq!(args.get::<i64>("first"), Some(10));
    assert_eq!(args.get::<Option<i64>>("after"), Some(None));
    assert_eq!(args.get::<i64>("after"), None);
    assert_eq!(args.get::<i64>("other"), None);
}

#[test]
fn arguments_keep_caller_values() {
    let given = table(vec![("first", InputValue::Int(3))]);
    let args = Arguments::new(Some(given), &decls());
    assert_eq!(args.get::<i64>("first"), Some(3));
}

#[test]
fn arguments_null_takes_default() {
    let given = table(vec![("first", InputValue::Null)]);
    let args = Arguments::new(Some(given), &decls());
    assert_eq!(args.get::<i64>("first"), Some(10));
}

#[test]
fn arguments_without_declarations() {
    let args = Arguments::new(None, &None);
    assert_eq!(args.get::<i64>("first"), None);
    let given = table(vec![("x", InputValue::Boolean(true))]);
    let args = Arguments::new(Some(given), &None);
    assert_eq!(args.get::<bool>("x"), Some(true));
}

#[test]
fn arguments_failed_conversion_is_none() {
    let given = table(vec![("first", InputValue::String("ten".to_string()))]);
    let args = Arguments::new(Some(given), &decls());
    assert_eq!(args.get::<i64>("first"), None);
    assert_eq!(args.get::<String>("first"), Some("ten".to_string()));
}

#[test]
fn option_from_input() {
    assert_eq!(Option::<i64>::from_input_value(&InputValue::Null), Some(None));
    assert_eq!(Option::<i64>::from_input_value(&InputValue::Int(2)), Some(Some(2)));
    assert_eq!(Option::<i64>::from_input_value(&InputValue::Boolean(true)), None);
}

#[test]
fn vec_from_input() {
    let l = InputValue::List(vec![InputValue::Int(1), InputValue::Int(2)]);
    assert_eq!(Vec::<i64>::from_input_value(&l), Some(vec![1, 2]));
    assert_eq!(Vec::<i64>::from_input_value(&InputValue::Int(5)), Some(vec![5]));
    let bad = InputValue::List(vec![InputValue::Int(1), InputValue::Boolean(false)]);
    assert_eq!(Vec::<i64>::from_input_value(&bad), None);
    assert_eq!(Vec::<i64>::from_input_value(&InputValue::Null), None);
}

#[test]
fn to_input_values() {
    assert_eq!(format!("{:?}", Some(3i64).to_input_value()), format!("{:?}", InputValue::Int(3)));
    assert_eq!(format!("{:?}", None::<i64>.to_input_value()), format!("{:?}", InputValue::Null));
    assert_eq!(
        format!("{:?}", vec![true, false].to_input_value()),
        format!("{:?}", InputValue::List(vec![InputValue::Boolean(true), InputValue::Boolean(false)]))
    );
    assert_eq!(
        format!("{:?}", "s".to_string().to_input_value()),
        format!("{:?}", InputValue::String("s".to_string()))
    );
}

#[test]
fn type_kinds_compare() {
    assert_eq!(TypeKind::Object, TypeKind::Object);
    assert_ne!(TypeKind::Interface, TypeKind::Union);
}

#[test]
fn merge_into_empty_gives_source() {
    let mut d = ObjectMap::new();
    merge_maps(&mut d, map(vec![("b", Value::Int(1)), ("a", obj(vec![("x", Value::Int(2))]))]));
    let expected = map(vec![("b", Value::Int(1)), ("a", obj(vec![("x", Value::Int(2))]))]);
    assert_eq!(format!("{:?}", d), format!("{:?}", expected));
}

#[test]
fn merge_with_same_entries_changes_nothing() {
    let mut d = map(vec![("a", obj(vec![("x", Value::Int(1))])), ("b", Value::Int(2))]);
    merge_maps(&mut d, map(vec![("a", obj(vec![("x", Value::Int(1))])), ("b", Value::Int(2))]));
    let expected = map(vec![("a", obj(vec![("x", Value::Int(1))])), ("b", Value::Int(2))]);
    assert_eq!(format!("{:?}", d), format!("{:?}", expected));
}

#[test]
fn slice_to_input_value() {
    let items = vec![1i64, 2];
    let slice: &[i64] = &items[..];
    assert_eq!(
        format!("{:?}", slice.to_input_value()),
        format!("{:?}", InputValue::List(vec![InputValue::Int(1), InputValue::Int(2)]))
    );
}
