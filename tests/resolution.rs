use juniper::arguments::{Argument, Arguments};
use juniper::directives::Directive;
use juniper::input::InputValue;
use juniper::resolve::{
    resolve_into_own_type, resolve_object, resolve_selection_set_into, ExecutionError, ExecutionResult, FieldError,
    GraphQLType,
};
use juniper::schema::{
    ExecContext, Field, Fragment, FragmentSpread, InlineFragment, MetaField, MetaType, Selection,
    SourcePosition,
};
use juniper::value::{ObjectMap, Value};

fn pos(line: usize) -> SourcePosition {
    SourcePosition { index: line * 10, line, column: 1 }
}

fn field(name: &str, line: usize) -> Field {
    Field {
        alias: None,
        name: name.to_string(),
        arguments: None,
        directives: None,
        selection_set: None,
        position: pos(line),
    }
}

fn meta_field(name: &str, non_null: bool) -> MetaField {
    MetaField { name: name.to_string(), arguments: None, non_null }
}

fn show(v: &Value) -> String {
    format!("{:?}", v)
}

fn obj(entries: Vec<(&str, Value)>) -> Value {
    Value::Object(ObjectMap::from_entries(entries.into_iter().map(|(k, v)| (k.to_string(), v)).collect()))
}

fn schema() -> Vec<MetaType> {
    vec![
        MetaType {
            name: "Person".to_string(),
            fields: vec![
                meta_field("name", true),
                meta_field("nick", false),
                meta_field("age", false),
                meta_field("broken", false),
                meta_field("strict", true),
            ],
        },
        MetaType {
            name: "Root".to_string(),
            fields: vec![meta_field("person", false), meta_field("a", false)],
        },
        MetaType { name: "Pair".to_string(), fields: vec![meta_field("x", false), meta_field("y", false)] },
    ]
}

fn ctx(fragments: Vec<Fragment>) -> ExecContext {
    ExecContext { schema: schema(), fragments, variables: vec![] }
}

struct Person {
    name: Option<String>,
}

impl GraphQLType for Person {
    fn name() -> Option<String> {
        Some("Person".to_string())
    }

    fn resolve_field(
        &self,
        field_name: &String,
        arguments: &Arguments,
        _selection_set: &Option<Vec<Selection>>,
        _ctx: &ExecContext,
        _errors: &mut Vec<ExecutionError>,
    ) -> ExecutionResult {
        match field_name.as_str() {
            "name" => Ok(match &self.name {
                Some(n) => Value::String(n.clone()),
                None => Value::Null,
            }),
            "nick" => Ok(Value::String("nick".to_string())),
            "age" => Ok(Value::Int(arguments.get::<i64>("base").unwrap_or(0) + 30)),
            "broken" | "strict" => Err(FieldError { message: "failed".to_string() }),
            _ => panic!("no field {}", field_name),
        }
    }

    fn concrete_type_name(&self) -> String {
        "Person".to_string()
    }

    fn resolve_into_type(
        &self,
        target: &String,
        selection_set: &Vec<Selection>,
        ctx: &ExecContext,
        errors: &mut Vec<ExecutionError>,
    ) -> ExecutionResult {
        if target == "Person" {
            resolve_into_own_type(self, target, selection_set, ctx, errors)
        } else {
            Ok(Value::Null)
        }
    }

    fn resolve(
        &self,
        selection_set: Option<&Vec<Selection>>,
        ctx: &ExecContext,
        errors: &mut Vec<ExecutionError>,
    ) -> ExecutionResult {
        resolve_object(self, selection_set.expect("object needs a selection set"), ctx, errors)
    }
}

struct Pair {
    x: i64,
    y: i64,
}

impl GraphQLType for Pair {
    fn name() -> Option<String> {
        Some("Pair".to_string())
    }

    fn resolve_field(
        &self,
        field_name: &String,
        _arguments: &Arguments,
        _selection_set: &Option<Vec<Selection>>,
        _ctx: &ExecContext,
        _errors: &mut Vec<ExecutionError>,
    ) -> ExecutionResult {
        match field_name.as_str() {
            "x" => Ok(Value::Int(self.x)),
            "y" => Ok(Value::Int(self.y)),
            _ => panic!("no field {}", field_name),
        }
    }

    fn concrete_type_name(&self) -> String {
        "Pair".to_string()
    }

    fn resolve_into_type(
        &self,
        _target: &String,
        selection_set: &Vec<Selection>,
        ctx: &ExecContext,
        errors: &mut Vec<ExecutionError>,
    ) -> ExecutionResult {
        resolve_object(self, selection_set, ctx, errors)
    }

    fn resolve(
        &self,
        selection_set: Option<&Vec<Selection>>,
        ctx: &ExecContext,
        errors: &mut Vec<ExecutionError>,
    ) -> ExecutionResult {
        resolve_object(self, selection_set.expect("object needs a selection set"), ctx, errors)
    }
}

struct Root {
    person: Person,
    pair: Pair,
}

impl GraphQLType for Root {
    fn name() -> Option<String> {
        Some("Root".to_string())
    }

    fn resolve_field(
        &self,
        field_name: &String,
        _arguments: &Arguments,
        selection_set: &Option<Vec<Selection>>,
        ctx: &ExecContext,
        errors: &mut Vec<ExecutionError>,
    ) -> ExecutionResult {
        match field_name.as_str() {
            "person" => self.person.resolve(selection_set.as_ref(), ctx, errors),
            "a" => self.pair.resolve(selection_set.as_ref(), ctx, errors),
            _ => panic!("no field {}", field_name),
        }
    }

    fn concrete_type_name(&self) -> String {
        "Root".to_string()
    }

    fn resolve_into_type(
        &self,
        _target: &String,
        selection_set: &Vec<Selection>,
        ctx: &ExecContext,
        errors: &mut Vec<ExecutionError>,
    ) -> ExecutionResult {
        resolve_object(self, selection_set, ctx, errors)
    }

    fn resolve(
        &self,
        selection_set: Option<&Vec<Selection>>,
        ctx: &ExecContext,
        errors: &mut Vec<ExecutionError>,
    ) -> ExecutionResult {
        resolve_object(self, selection_set.expect("object needs a selection set"), ctx, errors)
    }
}

fn run<T: GraphQLType>(t: &T, sels: &Vec<Selection>, ctx: &ExecContext) -> (bool, Value, Vec<ExecutionError>) {
    let mut result = ObjectMap::new();
    let mut errors = Vec::new();
    let ok = resolve_selection_set_into(t, sels, ctx, &mut result, &mut errors);
    (ok, Value::Object(result), errors)
}

#[test]
fn non_null_field_null_fails_and_parent_becomes_null() {
    let ctx = ctx(vec![]);
    let person = Person { name: None };
    let sels = vec![Selection::Field(field("nick", 1)), Selection::Field(field("name", 2))];
    let (ok, _, errors) = run(&person, &sels, &ctx);
    assert!(!ok);
    assert_eq!(errors.len(), 1);
    assert_eq!(errors[0].position, pos(2));
    assert_eq!(errors[0].message, "non-null field resolved to null");

    let root = Root { person: Person { name: None }, pair: Pair { x: 1, y: 2 } };
    let mut p = field("person", 1);
    p.selection_set = Some(vec![Selection::Field(field("name", 2))]);
    let (ok, value, errors) = run(&root, &vec![Selection::Field(p)], &ctx);
    assert!(ok);
    assert_eq!(show(&value), show(&obj(vec![("person", Value::Null)])));
    assert_eq!(errors.len(), 1);
    assert_eq!(errors[0].position, pos(2));
}

#[test]
fn non_null_field_error_recorded_at_its_position() {
    let ctx = ctx(vec![]);
    let root = Root { person: Person { name: Some("Ann".to_string()) }, pair: Pair { x: 1, y: 2 } };
    let mut p = field("person", 1);
    p.selection_set = Some(vec![Selection::Field(field("name", 2)), Selection::Field(field("strict", 3))]);
    let (ok, value, errors) = run(&root, &vec![Selection::Field(p)], &ctx);
    assert!(ok);
    assert_eq!(show(&value), show(&obj(vec![("person", Value::Null)])));
    assert_eq!(errors.len(), 1);
    assert_eq!(errors[0].position, pos(3));
    assert_eq!(errors[0].message, "failed");
}

#[test]
fn nullable_field_error_becomes_null() {
    let ctx = ctx(vec![]);
    let person = Person { name: Some("Ann".to_string()) };
    let sels = vec![Selection::Field(field("broken", 4)), Selection::Field(field("name", 5))];
    let (ok, value, errors) = run(&person, &sels, &ctx);
    assert!(ok);
    assert_eq!(
        show(&value),
        show(&obj(vec![("broken", Value::Null), ("name", Value::String("Ann".to_string()))]))
    );
    assert_eq!(errors.len(), 1);
    assert_eq!(errors[0].position, pos(4));
}

#[test]
fn inline_fragments_merge_objects_under_one_key() {
    let ctx = ctx(vec![]);
    let root = Root { person: Person { name: None }, pair: Pair { x: 1, y: 2 } };
    let mut a1 = field("a", 2);
    a1.selection_set = Some(vec![Selection::Field(field("x", 2))]);
    let mut a2 = field("a", 3);
    a2.selection_set = Some(vec![Selection::Field(field("y", 3))]);
    let sels = vec![
        Selection::InlineFragment(InlineFragment {
            type_condition: None,
            directives: None,
            selection_set: vec![Selection::Field(a1)],
            position: pos(1),
        }),
        Selection::InlineFragment(InlineFragment {
            type_condition: None,
            directives: None,
            selection_set: vec![Selection::Field(a2)],
            position: pos(3),
        }),
    ];
    let (ok, value, errors) = run(&root, &sels, &ctx);
    assert!(ok);
    assert!(errors.is_empty());
    assert_eq!(
        show(&value),
        show(&obj(vec![("a", obj(vec![("x", Value::Int(1)), ("y", Value::Int(2))]))]))
    );
}

#[test]
fn skipped_field_is_absent() {
    let ctx = ctx(vec![]);
    let person = Person { name: Some("Ann".to_string()) };
    let mut b = field("broken", 1);
    b.directives = Some(vec![Directive {
        name: "skip".to_string(),
        arguments: Some(vec![("if".to_string(), InputValue::Boolean(true))]),
    }]);
    let sels = vec![Selection::Field(b), Selection::Field(field("nick", 2))];
    let (ok, value, errors) = run(&person, &sels, &ctx);
    assert!(ok);
    assert!(errors.is_empty());
    assert_eq!(show(&value), show(&obj(vec![("nick", Value::String("nick".to_string()))])));
}

#[test]
fn typename_gives_concrete_name() {
    let ctx = ctx(vec![]);
    let person = Person { name: None };
    let mut t = field("__typename", 1);
    t.alias = Some("kind".to_string());
    let (ok, value, _) = run(&person, &vec![Selection::Field(t)], &ctx);
    assert!(ok);
    assert_eq!(show(&value), show(&obj(vec![("kind", Value::String("Person".to_string()))])));
}

#[test]
fn fragment_spread_splices_fields() {
    let frag = Fragment {
        name: "F".to_string(),
        selection_set: vec![Selection::Field(field("nick", 9)), Selection::Field(field("name", 9))],
    };
    let ctx = ctx(vec![frag]);
    let person = Person { name: Some("Ann".to_string()) };
    let sels = vec![
        Selection::Field(field("name", 1)),
        Selection::FragmentSpread(FragmentSpread { name: "F".to_string(), directives: None, position: pos(2) }),
    ];
    let (ok, value, _) = run(&person, &sels, &ctx);
    assert!(ok);
    assert_eq!(
        show(&value),
        show(&obj(vec![
            ("name", Value::String("Ann".to_string())),
            ("nick", Value::String("nick".to_string())),
        ]))
    );
}

#[test]
fn typed_inline_fragment_merges_entries() {
    let ctx = ctx(vec![]);
    let person = Person { name: Some("Ann".to_string()) };
    let sels = vec![
        Selection::Field(field("nick", 1)),
        Selection::InlineFragment(InlineFragment {
            type_condition: Some("Person".to_string()),
            directives: None,
            selection_set: vec![Selection::Field(field("name", 2)), Selection::Field(field("nick", 2))],
            position: pos(2),
        }),
    ];
    let (ok, value, _) = run(&person, &sels, &ctx);
    assert!(ok);
    assert_eq!(
        show(&value),
        show(&obj(vec![
            ("nick", Value::String("nick".to_string())),
            ("name", Value::String("Ann".to_string())),
        ]))
    );
}

#[test]
fn field_arguments_reach_resolver() {
    let mut c = ctx(vec![]);
    c.schema[0].fields[2].arguments = Some(vec![Argument { name: "base".to_string(), default_value: Some(InputValue::Int(5)) }]);
    c.variables = vec![("b".to_string(), InputValue::Int(10))];
    let person = Person { name: None };
    let mut a1 = field("age", 1);
    a1.alias = Some("d".to_string());
    let mut a2 = field("age", 2);
    a2.arguments = Some(vec![("base".to_string(), InputValue::Variable("b".to_string()))]);
    let (ok, value, _) = run(&person, &vec![Selection::Field(a1), Selection::Field(a2)], &c);
    assert!(ok);
    assert_eq!(show(&value), show(&obj(vec![("d", Value::Int(35)), ("age", Value::Int(40))])));
}

#[test]
fn absent_optional_is_null() {
    let ctx = ctx(vec![]);
    let mut errors = Vec::new();
    let none: Option<Person> = None;
    let r = none.resolve(None, &ctx, &mut errors);
    assert_eq!(show(&r.ok().unwrap()), show(&Value::Null));
    assert!(errors.is_empty());
    assert_eq!(<Option<Person> as GraphQLType>::name(), None);
}

#[test]
fn present_optional_resolves_inner() {
    let ctx = ctx(vec![]);
    let mut errors = Vec::new();
    let some = Some(Pair { x: 3, y: 4 });
    let r = some.resolve(Some(&vec![Selection::Field(field("y", 1))]), &ctx, &mut errors);
    assert_eq!(show(&r.ok().unwrap()), show(&obj(vec![("y", Value::Int(4))])));
}

#[test]
fn list_resolves_items_in_order() {
    let ctx = ctx(vec![]);
    let mut errors = Vec::new();
    let list = vec![Pair { x: 1, y: 0 }, Pair { x: 2, y: 0 }];
    let r = list.resolve(Some(&vec![Selection::Field(field("x", 1))]), &ctx, &mut errors);
    assert_eq!(
        show(&r.ok().unwrap()),
        show(&Value::List(vec![obj(vec![("x", Value::Int(1))]), obj(vec![("x", Value::Int(2))])]))
    );
    assert_eq!(<Vec<Pair> as GraphQLType>::name(), None);
}

struct Flaky {
    fail: bool,
}

impl GraphQLType for Flaky {
    fn name() -> Option<String> {
        None
    }

    fn resolve_field(
        &self,
        _field_name: &String,
        _arguments: &Arguments,
        _selection_set: &Option<Vec<Selection>>,
        _ctx: &ExecContext,
        _errors: &mut Vec<ExecutionError>,
    ) -> ExecutionResult {
        panic!("leaf type")
    }

    fn concrete_type_name(&self) -> String {
        String::new()
    }

    fn resolve_into_type(
        &self,
        _target: &String,
        _selection_set: &Vec<Selection>,
        _ctx: &ExecContext,
        _errors: &mut Vec<ExecutionError>,
    ) -> ExecutionResult {
        panic!("leaf type")
    }

    fn resolve(
        &self,
        _selection_set: Option<&Vec<Selection>>,
        _ctx: &ExecContext,
        _errors: &mut Vec<ExecutionError>,
    ) -> ExecutionResult {
        if self.fail {
            Err(FieldError { message: "bad item".to_string() })
        } else {
            Ok(Value::Boolean(true))
        }
    }
}

#[test]
fn failing_item_fails_list() {
    let ctx = ctx(vec![]);
    let mut errors = Vec::new();
    let list = vec![Flaky { fail: false }, Flaky { fail: true }, Flaky { fail: false }];
    let r = list.resolve(None, &ctx, &mut errors);
    assert_eq!(r.err().unwrap().message, "bad item");
    assert!(errors.is_empty());
}

#[test]
fn slice_resolves_items_in_order() {
    let ctx = ctx(vec![]);
    let mut errors = Vec::new();
    let items = vec![Pair { x: 5, y: 0 }, Pair { x: 6, y: 0 }];
    let slice: &[Pair] = &items[..];
    let r = slice.resolve(Some(&vec![Selection::Field(field("x", 1))]), &ctx, &mut errors);
    assert_eq!(
        show(&r.ok().unwrap()),
        show(&Value::List(vec![obj(vec![("x", Value::Int(5))]), obj(vec![("x", Value::Int(6))])]))
    );
    assert_eq!(<&[Pair] as GraphQLType>::name(), None);
}

#[test]
fn failing_item_fails_slice() {
    let ctx = ctx(vec![]);
    let mut errors = Vec::new();
    let items = vec![Flaky { fail: true }, Flaky { fail: false }];
    let slice: &[Flaky] = &items[..];
    let r = slice.resolve(None, &ctx, &mut errors);
    assert_eq!(r.err().unwrap().message, "bad item");
}

#[test]
fn typename_keeps_first_write() {
    let ctx = ctx(vec![]);
    let person = Person { name: None };
    let mut t = field("__typename", 2);
    t.alias = Some("nick".to_string());
    let (ok, value, errors) = run(&person, &vec![Selection::Field(field("nick", 1)), Selection::Field(t)], &ctx);
    assert!(ok);
    assert!(errors.is_empty());
    assert_eq!(show(&value), show(&obj(vec![("nick", Value::String("nick".to_string()))])));
}
