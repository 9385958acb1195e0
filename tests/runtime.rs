use stacks::commands::{new_entity, update_entity};
use stacks::error::LuaError;
use stacks::protocol::{entities_come_back, finish_save, finish_script, finish_tick, script_list, LuaMessage, Reply, Runtime, Work};
use stacks::scene::{Scene, ScriptCheck};
use stacks::value::Value;

fn text(s: &str) -> String {
    s.to_string()
}

fn num(f: f64) -> Value {
    Value::Number(f.to_bits())
}

fn obj(members: Vec<(&str, Value)>) -> Value {
    Value::Object(members.into_iter().map(|(k, v)| (text(k), v)).collect())
}

fn runtime_with(ids: &[&str]) -> Runtime {
    let mut scene = Scene::new();
    for id in ids {
        scene.add_entity(text(id), &obj(vec![("v", num(1.0))]));
    }
    Runtime::new(scene)
}

#[test]
fn failing_script_reports_and_runtime_goes_on() {
    let mut rt = runtime_with(&["e"]);
    let work = rt.dispatch(LuaMessage::RunScript(text("e"), text("explode"), Value::Null));
    assert!(matches!(work, Work::RunScript(ref id, _, ref f, _) if id == "e" && f == "explode"));
    let reply = finish_script(&Err(text("boom: attempt to call nil")));
    assert!(matches!(reply, Reply::Status(false, ref m) if m == "boom: attempt to call nil"));
    assert!(rt.is_running());
    let work = rt.dispatch(LuaMessage::Tick(0.016f64.to_bits()));
    assert!(matches!(work, Work::UpdateHook(b) if b == 0.016f64.to_bits()));
    assert!(matches!(finish_tick(&Ok(())), Reply::Silent));
}

#[test]
fn script_run_succeeds() {
    assert!(matches!(finish_script(&Ok(())), Reply::Status(true, ref m) if m == "Script executed successfully"));
}

#[test]
fn run_script_on_missing_entity() {
    let mut rt = runtime_with(&[]);
    let work = rt.dispatch(LuaMessage::RunScript(text("nobody"), text("f"), Value::Null));
    assert!(matches!(work, Work::Done(Reply::Status(false, ref m)) if m == "Couldn't find entity"));
}

#[test]
fn tick_failure_is_logged() {
    assert!(matches!(finish_tick(&Err(text("no update hook"))), Reply::Logged(ref m) if m == "Lua error: no update hook"));
    assert!(matches!(finish_save(&Err(text("disk full"))), Reply::Logged(ref m) if m == "Lua error: disk full"));
}

#[test]
fn shutdown_stops_the_loop() {
    let mut rt = runtime_with(&["a"]);
    assert!(matches!(rt.dispatch(LuaMessage::Shutdown), Work::Stop));
    assert!(!rt.is_running());
    assert!(matches!(rt.dispatch(LuaMessage::DeleteEntity(text("a"))), Work::Stop));
    assert_eq!(rt.get_scene().len(), 1);
}

#[test]
fn add_update_query_through_dispatch() {
    let mut rt = runtime_with(&[]);
    let work = rt.dispatch(LuaMessage::AddEntity(text("player"), obj(vec![("x", num(0.0)), ("y", num(0.0))])));
    assert!(matches!(work, Work::Done(Reply::Status(true, ref m)) if m == "Success"));
    let work = rt.dispatch(LuaMessage::UpdateEntity(text("player"), obj(vec![("x", num(5.0))])));
    assert!(matches!(work, Work::Done(Reply::Silent)));
    let e = rt.get_scene().get_entity(&text("player")).unwrap();
    assert_eq!(format!("{:?}", e.prop(&text("x")).unwrap()), format!("{:?}", num(5.0)));
    assert_eq!(format!("{:?}", e.prop(&text("y")).unwrap()), format!("{:?}", num(0.0)));
}

#[test]
fn add_existing_through_dispatch() {
    let mut rt = runtime_with(&["a"]);
    let work = rt.dispatch(LuaMessage::AddEntity(text("a"), obj(vec![("v", num(2.0))])));
    assert!(matches!(work, Work::Done(Reply::Status(false, _))));
    let e = rt.get_scene().get_entity(&text("a")).unwrap();
    assert_eq!(format!("{:?}", e.prop(&text("v")).unwrap()), format!("{:?}", num(1.0)));
}

#[test]
fn failures_without_reply_are_logged() {
    let mut rt = runtime_with(&["a", "b"]);
    let work = rt.dispatch(LuaMessage::UpdateEntityId(text("a"), text("b"), obj(vec![])));
    assert!(matches!(work, Work::Done(Reply::Logged(ref m)) if m == "Failed to process entity b: an entity with this ID already exists"));
    assert!(rt.get_scene().contains(&text("a")));
    let work = rt.dispatch(LuaMessage::DuplicateEntity(text("zz")));
    assert!(matches!(work, Work::Done(Reply::Logged(ref m)) if m == "Failed to process entity zz: no such entity"));
    let work = rt.dispatch(LuaMessage::EmitEntityString(text("zz"), text("inspector")));
    assert!(matches!(work, Work::Done(Reply::Logged(_))));
    let work = rt.dispatch(LuaMessage::DeleteEntity(text("zz")));
    assert!(matches!(work, Work::Done(Reply::Silent)));
    assert_eq!(rt.get_scene().len(), 2);
}

#[test]
fn emit_hands_out_the_entity() {
    let mut rt = runtime_with(&["a"]);
    match rt.dispatch(LuaMessage::EmitEntityString(text("a"), text("inspector"))) {
        Work::EmitEntity(window, id, Value::Object(members)) => {
            assert_eq!(window, "inspector");
            assert_eq!(id, "a");
            assert!(members.iter().any(|(k, _)| k == "v"));
            assert!(members.iter().any(|(k, _)| k == "scripts"));
        }
        other => panic!("unexpected {:?}", other),
    }
}

#[test]
fn save_and_load_scene() {
    let mut rt = runtime_with(&["a", "b"]);
    let saved = match rt.dispatch(LuaMessage::SaveScene(text("scene.lua"))) {
        Work::WriteScene(path, v) => {
            assert_eq!(path, "scene.lua");
            v
        }
        other => panic!("unexpected {:?}", other),
    };
    let mut fresh = runtime_with(&[]);
    assert!(matches!(fresh.dispatch(LuaMessage::LoadScene(text("scene.lua"))), Work::ReadScene(ref p) if p == "scene.lua"));
    let reply = fresh.finish_load(&Ok(saved));
    assert!(matches!(reply, Reply::Status(true, ref m) if m == "Successfully loaded scene"));
    assert_eq!(fresh.get_scene().len(), 2);
    let reply = fresh.finish_load(&Err(text("no such file")));
    assert!(matches!(reply, Reply::Status(false, ref m) if m == "Failed loading: no such file"));
    let reply = fresh.finish_load(&Ok(num(3.0)));
    assert!(matches!(reply, Reply::Status(false, ref m) if m == "Failed loading: the stored value is not a scene"));
    assert_eq!(fresh.get_scene().len(), 2);
}

#[test]
fn inspector_save_needs_scripts_object() {
    let mut rt = runtime_with(&["a"]);
    let work = rt.dispatch(LuaMessage::HandleInspectorSave(text("a"), text("id = 'a'"), num(1.0)));
    assert!(matches!(work, Work::Done(Reply::Saved(false, ref m, ref id)) if m == "Invalid data format: scripts must be an object of source texts" && id.is_empty()));
    let scripts = obj(vec![("move", Value::Str(text("x = 1")))]);
    match rt.dispatch(LuaMessage::HandleInspectorSave(text("a"), text("id = 'a'"), scripts)) {
        Work::ParseInspector(orig, t, list) => {
            assert_eq!(orig, "a");
            assert_eq!(t, "id = 'a'");
            assert_eq!(list, vec![(text("move"), text("x = 1"))]);
        }
        other => panic!("unexpected {:?}", other),
    }
}

#[test]
fn script_list_rejects_non_text() {
    assert!(script_list(&obj(vec![("a", num(1.0))])).is_none());
    assert_eq!(script_list(&obj(vec![])), Some(vec![]));
}

#[test]
fn error_messages() {
    assert_eq!(LuaError::InitializationError(text("x")).message(), "Failed to initialize Lua environment: x");
    assert_eq!(LuaError::ModuleLoadError(text("x")).message(), "Failed to load Lua module: x");
    assert_eq!(LuaError::EntityProcessingError(text("e"), text("x")).message(), "Failed to process entity e: x");
    assert_eq!(LuaError::FormatError(text("x")).message(), "Invalid data format: x");
    assert_eq!(LuaError::CommunicationError(text("x")).message(), "Communication error: x");
    assert_eq!(LuaError::LuaError(text("x")).message(), "Lua error: x");
}

#[test]
fn new_entity_takes_the_id_out() {
    match new_entity(&obj(vec![("id", Value::Str(text("p"))), ("x", num(1.0))])) {
        Ok(LuaMessage::AddEntity(id, Value::Object(members))) => {
            assert_eq!(id, "p");
            assert_eq!(members.len(), 1);
            assert_eq!(members[0].0, "x");
        }
        other => panic!("unexpected {:?}", other),
    }
    assert_eq!(new_entity(&obj(vec![("x", num(1.0))])).unwrap_err(), "Cannot create an entity with no ID.");
    assert_eq!(new_entity(&obj(vec![("id", num(1.0))])).unwrap_err(), "New ID is not a string");
    assert_eq!(new_entity(&Value::Null).unwrap_err(), "Couldn't turn data into object");
}

#[test]
fn update_entity_with_and_without_id() {
    match update_entity(text("a"), &obj(vec![("x", num(1.0))])) {
        Ok(LuaMessage::UpdateEntity(id, v)) => {
            assert_eq!(id, "a");
            assert_eq!(format!("{:?}", v), format!("{:?}", obj(vec![("x", num(1.0))])));
        }
        other => panic!("unexpected {:?}", other),
    }
    match update_entity(text("a"), &obj(vec![("id", Value::Str(text("b"))), ("x", num(1.0))])) {
        Ok(LuaMessage::UpdateEntityId(old, new, Value::Object(members))) => {
            assert_eq!(old, "a");
            assert_eq!(new, "b");
            assert_eq!(members.len(), 1);
        }
        other => panic!("unexpected {:?}", other),
    }
    assert_eq!(update_entity(text("a"), &obj(vec![("id", Value::Null)])).unwrap_err(), "New ID is not a string");
}

#[test]
fn updates_that_bring_scripts_are_compiled_first() {
    let mut rt = runtime_with(&["a"]);
    let props = obj(vec![("v", num(2.0)), ("scripts", obj(vec![("move", Value::Str(text("x =")))]))]);
    let (update, list) = match rt.dispatch(LuaMessage::UpdateEntity(text("a"), props)) {
        Work::CompileScripts(update, list) => (update, list),
        other => panic!("unexpected {:?}", other),
    };
    assert_eq!(list, vec![(text("move"), text("x ="))]);
    let failed = vec![ScriptCheck { name: text("move"), source: text("x ="), error: Some(text("unexpected symbol")) }];
    let reply = rt.finish_update(update, &failed);
    assert!(matches!(reply, Reply::Logged(ref m) if m == "Lua error: Invalid syntax in move script: unexpected symbol"));
    let e = rt.get_scene().get_entity(&text("a")).unwrap();
    assert_eq!(format!("{:?}", e.prop(&text("v")).unwrap()), format!("{:?}", num(1.0)));
    assert!(e.script(&text("move")).is_none());
}

#[test]
fn compiled_update_is_applied() {
    let mut rt = runtime_with(&["a"]);
    let props = obj(vec![("v", num(2.0)), ("scripts", obj(vec![("move", Value::Str(text("x = 1")))]))]);
    let update = match rt.dispatch(LuaMessage::UpdateEntityId(text("a"), text("b"), props)) {
        Work::CompileScripts(update, _) => update,
        other => panic!("unexpected {:?}", other),
    };
    let ok = vec![ScriptCheck { name: text("move"), source: text("x = 1"), error: None }];
    assert!(matches!(rt.finish_update(update, &ok), Reply::Silent));
    assert!(!rt.get_scene().contains(&text("a")));
    let e = rt.get_scene().get_entity(&text("b")).unwrap();
    assert_eq!(format!("{:?}", e.prop(&text("v")).unwrap()), format!("{:?}", num(2.0)));
    assert_eq!(e.script(&text("move")), Some(&text("x = 1")));
}

#[test]
fn entities_left_by_scripts_are_adopted() {
    let mut rt = runtime_with(&["a"]);
    let left = obj(vec![("a", obj(vec![("v", num(9.0))])), ("c", obj(vec![]))]);
    rt.adopt_entities(&left).unwrap();
    assert_eq!(rt.get_scene().len(), 2);
    let e = rt.get_scene().get_entity(&text("a")).unwrap();
    assert_eq!(format!("{:?}", e.prop(&text("v")).unwrap()), format!("{:?}", num(9.0)));
    match rt.adopt_entities(&num(1.0)) {
        Err(e) => assert_eq!(e.message(), "Invalid data format: the scene's entities do not form a scene"),
        Ok(()) => panic!("a number was taken as a scene"),
    }
    assert_eq!(rt.get_scene().len(), 2);
}

#[test]
fn only_scripted_work_gives_entities_back() {
    assert!(entities_come_back(&Work::UpdateHook(0)));
    assert!(entities_come_back(&Work::RunScript(text("a"), Value::Null, text("f"), Value::Null)));
    assert!(!entities_come_back(&Work::Done(Reply::Silent)));
    assert!(!entities_come_back(&Work::ReadScene(text("p"))));
    assert!(!entities_come_back(&Work::Stop));
}
