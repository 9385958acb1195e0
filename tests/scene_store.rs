use stacks::error::LuaError;
use stacks::scene::{Scene, ScriptCheck};
use stacks::value::Value;

fn text(s: &str) -> String {
    s.to_string()
}

fn num(f: f64) -> Value {
    Value::Number(f.to_bits())
}

fn obj(members: Vec<(&str, Value)>) -> Value {
    Value::Object(members.into_iter().map(|(k, v)| (text(k), v)).collect())
}

fn prop(scene: &Scene, id: &str, name: &str) -> Option<String> {
    scene.get_entity(&text(id)).unwrap().prop(&text(name)).map(|v| format!("{:?}", v))
}

#[test]
fn add_then_update_merges_properties() {
    let mut scene = Scene::new();
    let (ok, msg) = scene.add_entity(text("player"), &obj(vec![("x", num(0.0)), ("y", num(0.0))]));
    assert!(ok);
    assert_eq!(msg, "Success");
    scene.update_entity(&text("player"), &obj(vec![("x", num(5.0))])).unwrap();
    assert_eq!(prop(&scene, "player", "x"), Some(format!("{:?}", num(5.0))));
    assert_eq!(prop(&scene, "player", "y"), Some(format!("{:?}", num(0.0))));
}

#[test]
fn add_with_existing_id_is_refused() {
    let mut scene = Scene::new();
    scene.add_entity(text("a"), &obj(vec![("hp", num(3.0))]));
    let (ok, msg) = scene.add_entity(text("a"), &obj(vec![("hp", num(9.0))]));
    assert!(!ok);
    assert_eq!(msg, "Couldn't add entity: an entity with ID a already exists.");
    assert_eq!(prop(&scene, "a", "hp"), Some(format!("{:?}", num(3.0))));
    assert_eq!(scene.len(), 1);
}

#[test]
fn add_strips_id_and_keeps_scripts_apart() {
    let mut scene = Scene::new();
    let props = obj(vec![
        ("id", Value::Str(text("a"))),
        ("speed", num(2.0)),
        ("scripts", obj(vec![("move", Value::Str(text("return 1")))])),
    ]);
    assert!(scene.add_entity(text("a"), &props).0);
    let e = scene.get_entity(&text("a")).unwrap();
    assert!(e.prop(&text("id")).is_none());
    assert!(e.prop(&text("scripts")).is_none());
    assert_eq!(e.script(&text("move")), Some(&text("return 1")));
}

#[test]
fn add_with_malformed_properties_is_refused() {
    let mut scene = Scene::new();
    let (ok, msg) = scene.add_entity(text("a"), &num(1.0));
    assert!(!ok);
    assert_eq!(msg, "Couldn't add entity: properties must be an object whose scripts are source texts.");
    let (ok, _) = scene.add_entity(text("a"), &obj(vec![("scripts", num(1.0))]));
    assert!(!ok);
    assert_eq!(scene.len(), 0);
}

#[test]
fn delete_of_missing_id_changes_nothing() {
    let mut scene = Scene::new();
    scene.add_entity(text("a"), &obj(vec![]));
    scene.delete_entity(&text("ghost"));
    assert_eq!(scene.len(), 1);
    scene.delete_entity(&text("a"));
    assert_eq!(scene.len(), 0);
    assert!(!scene.contains(&text("a")));
}

#[test]
fn rename_onto_taken_id_is_refused() {
    let mut scene = Scene::new();
    scene.add_entity(text("a"), &obj(vec![("v", num(1.0))]));
    scene.add_entity(text("b"), &obj(vec![("v", num(2.0))]));
    let r = scene.update_entity_id(&text("a"), text("b"), &obj(vec![("v", num(7.0))]));
    match r {
        Err(LuaError::EntityProcessingError(id, why)) => {
            assert_eq!(id, "b");
            assert_eq!(why, "an entity with this ID already exists");
        }
        other => panic!("unexpected {:?}", other),
    }
    assert_eq!(prop(&scene, "a", "v"), Some(format!("{:?}", num(1.0))));
    assert_eq!(prop(&scene, "b", "v"), Some(format!("{:?}", num(2.0))));
}

#[test]
fn rename_moves_and_merges() {
    let mut scene = Scene::new();
    scene.add_entity(text("a"), &obj(vec![("v", num(1.0)), ("w", num(4.0))]));
    scene.update_entity_id(&text("a"), text("c"), &obj(vec![("v", num(7.0))])).unwrap();
    assert!(!scene.contains(&text("a")));
    assert_eq!(prop(&scene, "c", "v"), Some(format!("{:?}", num(7.0))));
    assert_eq!(prop(&scene, "c", "w"), Some(format!("{:?}", num(4.0))));
}

#[test]
fn update_of_missing_entity_fails() {
    let mut scene = Scene::new();
    match scene.update_entity(&text("nobody"), &obj(vec![])) {
        Err(e) => assert_eq!(e.message(), "Failed to process entity nobody: no such entity"),
        Ok(()) => panic!("update of a missing entity succeeded"),
    }
    scene.add_entity(text("a"), &obj(vec![]));
    match scene.update_entity(&text("a"), &Value::Null) {
        Err(e) => assert_eq!(e.message(), "Invalid data format: properties must be an object whose scripts are source texts"),
        Ok(()) => panic!("malformed update succeeded"),
    }
}

#[test]
fn update_merges_scripts() {
    let mut scene = Scene::new();
    scene.add_entity(text("a"), &obj(vec![("scripts", obj(vec![("one", Value::Str(text("1")))]))]));
    scene.update_entity(&text("a"), &obj(vec![("scripts", obj(vec![("two", Value::Str(text("2")))]))])).unwrap();
    let e = scene.get_entity(&text("a")).unwrap();
    assert_eq!(e.script(&text("one")), Some(&text("1")));
    assert_eq!(e.script(&text("two")), Some(&text("2")));
}

#[test]
fn duplicates_get_copy_suffixes() {
    let mut scene = Scene::new();
    scene.add_entity(text("p"), &obj(vec![("v", num(1.0))]));
    assert_eq!(scene.duplicate_entity(&text("p")).unwrap(), "p_copy");
    assert_eq!(scene.duplicate_entity(&text("p")).unwrap(), "p_copy_copy");
    assert_eq!(prop(&scene, "p_copy_copy", "v"), Some(format!("{:?}", num(1.0))));
    assert_eq!(scene.len(), 3);
    assert!(scene.duplicate_entity(&text("q")).is_err());
}

fn check(name: &str, source: &str, error: Option<&str>) -> ScriptCheck {
    ScriptCheck { name: text(name), source: text(source), error: error.map(text) }
}

#[test]
fn inspector_save_without_id_is_refused() {
    let mut scene = Scene::new();
    scene.add_entity(text("a"), &obj(vec![]));
    let parsed = Some(obj(vec![("hp", num(1.0))]));
    let r = scene.handle_inspector_save(&text("a"), &parsed, &vec![]);
    assert_eq!(r, (false, text("Entity must have an ID."), text("")));
    assert_eq!(scene.len(), 1);
    assert!(scene.get_entity(&text("a")).unwrap().prop(&text("hp")).is_none());
}

#[test]
fn inspector_save_with_bad_syntax_is_refused() {
    let mut scene = Scene::new();
    let r = scene.handle_inspector_save(&text("a"), &None, &vec![]);
    assert_eq!(r, (false, text("Invalid syntax in inspector."), text("")));
}

#[test]
fn inspector_save_stops_at_first_script_error() {
    let mut scene = Scene::new();
    scene.add_entity(text("a"), &obj(vec![]));
    let parsed = Some(obj(vec![("id", Value::Str(text("a")))]));
    let checks = vec![check("ok", "x = 1", None), check("bad", "x =", Some("unexpected symbol")), check("worse", "(", Some("other"))];
    let r = scene.handle_inspector_save(&text("a"), &parsed, &checks);
    assert_eq!(r, (false, text("Invalid syntax in bad script: unexpected symbol"), text("")));
}

#[test]
fn inspector_save_refuses_taken_id() {
    let mut scene = Scene::new();
    scene.add_entity(text("a"), &obj(vec![]));
    scene.add_entity(text("b"), &obj(vec![]));
    let parsed = Some(obj(vec![("id", Value::Str(text("b")))]));
    let r = scene.handle_inspector_save(&text("a"), &parsed, &vec![]);
    assert_eq!(r, (false, text("An entity with ID \"b\" already exists."), text("")));
    assert!(scene.contains(&text("a")));
}

#[test]
fn inspector_save_replaces_the_entity() {
    let mut scene = Scene::new();
    scene.add_entity(text("a"), &obj(vec![("old", num(1.0)), ("scripts", obj(vec![("s", Value::Str(text("old")))]))]));
    let parsed = Some(obj(vec![("id", Value::Str(text("renamed"))), ("hp", num(3.0))]));
    let r = scene.handle_inspector_save(&text("a"), &parsed, &vec![check("s", "new", None)]);
    assert_eq!(r, (true, text("Success"), text("renamed")));
    assert!(!scene.contains(&text("a")));
    let e = scene.get_entity(&text("renamed")).unwrap();
    assert!(e.prop(&text("old")).is_none());
    assert!(e.prop(&text("id")).is_none());
    assert_eq!(e.script(&text("s")), Some(&text("new")));
    assert_eq!(prop(&scene, "renamed", "hp"), Some(format!("{:?}", num(3.0))));
}

#[test]
fn scene_value_loads_back() {
    let mut scene = Scene::new();
    scene.add_entity(text("a"), &obj(vec![("v", num(1.0)), ("scripts", obj(vec![("s", Value::Str(text("src")))]))]));
    scene.add_entity(text("b"), &obj(vec![("w", Value::Bool(true))]));
    let saved = scene.to_value();
    let loaded = Scene::from_value(&saved).unwrap();
    assert_eq!(loaded.len(), 2);
    assert_eq!(prop(&loaded, "a", "v"), Some(format!("{:?}", num(1.0))));
    assert_eq!(loaded.get_entity(&text("a")).unwrap().script(&text("s")), Some(&text("src")));
    assert_eq!(prop(&loaded, "b", "w"), Some(format!("{:?}", Value::Bool(true))));
    assert!(Scene::from_value(&num(2.0)).is_none());
}
