use stacks::value::{from_script, json_value_to_lua, ScriptKey, ScriptValue, Value};

fn text(s: &str) -> String {
    s.to_string()
}

fn num(f: f64) -> Value {
    Value::Number(f.to_bits())
}

fn obj(members: Vec<(&str, Value)>) -> Value {
    Value::Object(members.into_iter().map(|(k, v)| (text(k), v)).collect())
}

fn round_trip(v: &Value) -> Value {
    from_script(&json_value_to_lua(v)).expect("value has a plain form")
}

#[test]
fn scalars_round_trip() {
    for v in [Value::Null, Value::Bool(true), Value::Bool(false), num(1.5), num(-3.0), Value::Str(text("hello"))] {
        assert_eq!(format!("{:?}", round_trip(&v)), format!("{:?}", v));
    }
}

#[test]
fn nested_values_round_trip() {
    let v = obj(vec![
        ("name", Value::Str(text("player"))),
        ("pos", obj(vec![("x", num(0.0)), ("y", num(2.5))])),
        ("tags", Value::Array(vec![Value::Str(text("a")), Value::Null, Value::Array(vec![num(1.0)])])),
        ("empty", obj(vec![])),
        ("none", Value::Array(vec![])),
        ("holes", Value::Array(vec![Value::Null, Value::Null])),
    ]);
    assert_eq!(format!("{:?}", round_trip(&v)), format!("{:?}", v));
}

#[test]
fn arrays_become_tables_counted_from_one() {
    let v = Value::Array(vec![Value::Str(text("a")), Value::Bool(true)]);
    match json_value_to_lua(&v) {
        ScriptValue::Table(marked, es) => {
            assert!(marked);
            assert_eq!(es.len(), 2);
            assert!(matches!(es[0].0, ScriptKey::Index(1)));
            assert!(matches!(es[1].0, ScriptKey::Index(2)));
            assert!(matches!(&es[0].1, ScriptValue::Text(t) if t == "a"));
            assert!(matches!(es[1].1, ScriptValue::Boolean(true)));
        }
        other => panic!("expected a table, got {:?}", other),
    }
}

#[test]
fn objects_become_tables_keyed_by_name() {
    let v = obj(vec![("x", num(5.0))]);
    match json_value_to_lua(&v) {
        ScriptValue::Table(marked, es) => {
            assert!(!marked);
            assert_eq!(es.len(), 1);
            assert!(matches!(&es[0].0, ScriptKey::Name(n) if n == "x"));
            assert!(matches!(es[0].1, ScriptValue::Number(b) if b == 5.0f64.to_bits()));
        }
        other => panic!("expected a table, got {:?}", other),
    }
}

#[test]
fn empty_array_round_trips() {
    let v = Value::Array(vec![]);
    assert_eq!(format!("{:?}", round_trip(&v)), format!("{:?}", v));
    let nested = obj(vec![("a", Value::Array(vec![])), ("b", obj(vec![]))]);
    assert_eq!(format!("{:?}", round_trip(&nested)), format!("{:?}", nested));
}

#[test]
fn nulls_inside_tables_become_the_sentinel() {
    let v = Value::Array(vec![Value::Null, num(1.0)]);
    match json_value_to_lua(&v) {
        ScriptValue::Table(true, es) => {
            assert!(matches!(es[0].1, ScriptValue::Null));
            assert!(matches!(es[0].0, ScriptKey::Index(1)));
        }
        other => panic!("expected a marked table, got {:?}", other),
    }
    assert!(matches!(json_value_to_lua(&Value::Null), ScriptValue::Nil));
    let o = obj(vec![("a", Value::Null)]);
    assert_eq!(format!("{:?}", round_trip(&o)), format!("{:?}", o));
    assert!(matches!(from_script(&ScriptValue::Null), Ok(Value::Null)));
}

#[test]
fn unmarked_tables_read_by_their_keys() {
    let empty = ScriptValue::Table(false, vec![]);
    assert_eq!(format!("{:?}", from_script(&empty).unwrap()), format!("{:?}", obj(vec![])));
    let marked_empty = ScriptValue::Table(true, vec![]);
    assert_eq!(format!("{:?}", from_script(&marked_empty).unwrap()), format!("{:?}", Value::Array(vec![])));
    let marked_record = ScriptValue::Table(true, vec![(ScriptKey::Name(text("a")), ScriptValue::Nil)]);
    assert!(from_script(&marked_record).is_err());
}

#[test]
fn functions_and_handles_have_no_plain_form() {
    assert!(from_script(&ScriptValue::Function).is_err());
    assert!(from_script(&ScriptValue::Opaque).is_err());
    let nested = ScriptValue::Table(false, vec![(ScriptKey::Name(text("f")), ScriptValue::Function)]);
    assert!(from_script(&nested).is_err());
}

#[test]
fn tables_with_mixed_keys_have_no_plain_form() {
    let mixed = ScriptValue::Table(false, vec![
        (ScriptKey::Index(1), ScriptValue::Nil),
        (ScriptKey::Name(text("a")), ScriptValue::Nil),
    ]);
    assert!(from_script(&mixed).is_err());
    let gap = ScriptValue::Table(false, vec![(ScriptKey::Index(2), ScriptValue::Nil)]);
    assert!(from_script(&gap).is_err());
    let other = ScriptValue::Table(false, vec![(ScriptKey::Other, ScriptValue::Nil)]);
    assert!(from_script(&other).is_err());
}

#[test]
fn sequence_table_reads_as_array() {
    let t = ScriptValue::Table(false, vec![
        (ScriptKey::Index(1), ScriptValue::Number(2.0f64.to_bits())),
        (ScriptKey::Index(2), ScriptValue::Text(text("b"))),
    ]);
    let v = from_script(&t).unwrap();
    assert_eq!(format!("{:?}", v), format!("{:?}", Value::Array(vec![num(2.0), Value::Str(text("b"))])));
}

#[test]
fn copy_is_deep_and_equal() {
    let v = obj(vec![("a", Value::Array(vec![num(1.0), obj(vec![("b", Value::Null)])]))]);
    assert_eq!(format!("{:?}", v.copy()), format!("{:?}", v));
}

#[test]
fn repeated_member_names_give_repeated_entries() {
    let v = obj(vec![("a", num(1.0)), ("a", num(2.0))]);
    match json_value_to_lua(&v) {
        ScriptValue::Table(false, es) => {
            assert_eq!(es.len(), 2);
            assert!(matches!(es[1].1, ScriptValue::Number(b) if b == 2.0f64.to_bits()));
        }
        other => panic!("expected an unmarked table, got {:?}", other),
    }
}
