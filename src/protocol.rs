//! The command protocol of the runtime actor: what each command does to the
//! entity store, what it answers, and what outside work (running scripted
//! code, reading or writing a scene, emitting an event) it asks the host
//! loop to do.
use vstd::prelude::*;
use crate::error::{ErrorModel, LuaError};
use crate::commands::member_named;
use crate::scene::{
    all_compiled, entity_of, members_map, merged, scene_of, valid_props, valid_scene, Entity,
    EntityModel, Scene, ScriptCheck,
};
use crate::value::{lemma_members_of, members_of, json_of, Json, Value};

verus! {

/// A command sent to the runtime actor.
#[derive(Debug)]
pub enum LuaMessage {
    /// Advance the simulation: the elapsed time as the bit pattern of an
    /// IEEE 754 binary64 number of seconds.
    Tick(u64),
    /// Add an entity (id, properties).
    AddEntity(String, Value),
    /// Rename an entity and update it (old id, new id, properties).
    UpdateEntityId(String, String, Value),
    /// Update an entity (id, properties).
    UpdateEntity(String, Value),
    /// Remove an entity, if present.
    DeleteEntity(String),
    /// Copy an entity under a fresh id.
    DuplicateEntity(String),
    /// Write the scene to a path.
    SaveScene(String),
    /// Replace the scene with the one stored at a path.
    LoadScene(String),
    /// Run a function of an entity's scripts (entity id, function, parameters).
    RunScript(String, String, Value),
    /// Send an entity, written out as text, to a window (entity id, window).
    EmitEntityString(String, String),
    /// Replace an entity with what the inspector holds (original id,
    /// inspector text, scripts by name).
    HandleInspectorSave(String, String, Value),
    /// Stop the actor.
    Shutdown,
}

/// What a command answers.
#[derive(Debug)]
pub enum Reply {
    /// Nothing to answer and nothing to report.
    Silent,
    /// Nothing to answer; this failure goes to the error log.
    Logged(String),
    /// Success flag and message.
    Status(bool, String),
    /// Success flag, message and the entity's final id.
    Saved(bool, String, String),
}

/// What the host loop does next for a command.
#[derive(Debug)]
pub enum Work {
    /// The command is handled; answer with the reply.
    Done(Reply),
    /// Call the scene's update hook with the elapsed time.
    UpdateHook(u64),
    /// Compile the scripts that an update brings (the update, the scripts
    /// as name and source); the update is applied only if they all compile
    /// (see [`Runtime::finish_update`]).
    CompileScripts(LuaMessage, Vec<(String, String)>),
    /// Call a function of the entity's scripts (the entity's id, the
    /// entity, the function, the parameters) in a protected call.
    RunScript(String, Value, String, Value),
    /// Write the scene value to the path.
    WriteScene(String, Value),
    /// Read and evaluate the scene stored at the path.
    ReadScene(String),
    /// Send the entity, written out as text, to the window (window, id, entity).
    EmitEntity(String, String, Value),
    /// Parse the inspector text and compile the scripts (original id, text,
    /// scripts as name and source).
    ParseInspector(String, String, Vec<(String, String)>),
    /// Leave the loop.
    Stop,
}

pub open spec fn is_status(r: Reply, ok: bool, msg: Seq<char>) -> bool {
    r is Status && r->Status_0 == ok && r->Status_1@ == msg
}

pub open spec fn is_logged(r: Reply, e: ErrorModel) -> bool {
    r is Logged && r->Logged_0@ == error_text(e)
}

/// The text an error is logged with (see [`LuaError::message`]).
pub open spec fn error_text(e: ErrorModel) -> Seq<char> {
    match e {
        ErrorModel::InitializationError(d) => "Failed to initialize Lua environment: "@ + d,
        ErrorModel::ModuleLoadError(d) => "Failed to load Lua module: "@ + d,
        ErrorModel::EntityProcessingError(id, d) => "Failed to process entity "@ + id + ": "@ + d,
        ErrorModel::FormatError(d) => "Invalid data format: "@ + d,
        ErrorModel::CommunicationError(d) => "Communication error: "@ + d,
        ErrorModel::LuaError(d) => "Lua error: "@ + d,
    }
}

/// The scripts of an inspector save: an object of source texts.
pub open spec fn valid_script_list(j: Json) -> bool {
    j is Object && forall|i: int| 0 <= i < j->Object_0.len() ==> (#[trigger] j->Object_0[i]).1 is Str
}

/// The properties bring scripts: their `scripts` member is not empty.
pub open spec fn brings_scripts(j: Json) -> bool {
    members_map(j).contains_key("scripts"@) && members_map(j)["scripts"@]->Object_0.len() > 0
}

/// The scripts that the properties bring, as name and source.
pub open spec fn is_script_list_of(list: Seq<(String, String)>, j: Json) -> bool {
    let ms = members_map(j)["scripts"@]->Object_0;
    list.len() == ms.len() && forall|i: int|
        0 <= i < list.len() ==> (#[trigger] list[i]).0@ == ms[i].0 && Json::Str(list[i].1@) == ms[i].1
}

/// The text logged for the first script of `checks` that failed to compile.
pub open spec fn is_first_failure(checks: Seq<ScriptCheck>, r: Reply) -> bool {
    exists|i: int|
        0 <= i < checks.len() && (#[trigger] checks[i]).error is Some && (forall|j: int|
            0 <= j < i ==> (#[trigger] checks[j]).error is None) && is_logged(
            r,
            ErrorModel::LuaError(
                "Invalid syntax in "@ + checks[i].name@ + " script: "@ + checks[i].error->Some_0@,
            ),
        )
}

/// Mathematical model of a [`Runtime`].
pub struct RuntimeModel {
    pub entities: Map<Seq<char>, EntityModel>,
    pub running: bool,
}

/// The state the runtime actor keeps: the entity store, and whether the
/// command loop still runs.
pub struct Runtime {
    scene: Scene,
    running: bool,
}

impl View for Runtime {
    type V = RuntimeModel;

    closed spec fn view(&self) -> RuntimeModel {
        RuntimeModel { entities: self.scene@, running: self.running }
    }
}

fn logged(e: LuaError) -> (r: Reply)
    ensures
        is_logged(r, e@),
{
    Reply::Logged(e.message())
}

impl Runtime {
    pub closed spec fn wf(&self) -> bool {
        self.scene.wf()
    }

    /// A running runtime over the given scene.
    pub fn new(scene: Scene) -> (r: Runtime)
        requires
            scene.wf(),
        ensures
            r.wf(),
            r@.entities == scene@,
            r@.running,
    {
        Runtime { scene, running: true }
    }

    /// The entity store.
    pub fn get_scene(&self) -> (r: &Scene)
        requires
            self.wf(),
        ensures
            r.wf(),
            r@ == self@.entities,
    {
        &self.scene
    }

    /// Whether the command loop still runs.
    pub fn is_running(&self) -> (r: bool)
        ensures
            r == self@.running,
    {
        self.running
    }

    /// Takes a command: applies what the entity store does with it, and says
    /// what the host loop does next. A stopped runtime takes no command.
    pub fn dispatch(&mut self, cmd: LuaMessage) -> (r: Work)
        requires
            old(self).wf(),
        ensures
            final(self).wf(),
            final(self)@.running == runs_after(old(self)@.running, cmd),
            !old(self)@.running ==> r is Stop && final(self)@ == old(self)@,
            old(self)@.running ==> match cmd {
                LuaMessage::Tick(dt) => r == Work::UpdateHook(dt) && final(self)@.entities == old(self)@.entities,
                LuaMessage::AddEntity(id, props) => {
                    &&& r is Done && r->Done_0 is Status
                    &&& old(self)@.entities.contains_key(id@) ==> is_status(r->Done_0, false,
                        "Couldn't add entity: an entity with ID "@ + id@ + " already exists."@)
                        && final(self)@.entities == old(self)@.entities
                    &&& !old(self)@.entities.contains_key(id@) && !valid_props(props@) ==> is_status(r->Done_0, false,
                        "Couldn't add entity: properties must be an object whose scripts are source texts."@)
                        && final(self)@.entities == old(self)@.entities
                    &&& !old(self)@.entities.contains_key(id@) && valid_props(props@) ==> is_status(r->Done_0, true, "Success"@)
                        && final(self)@.entities == old(self)@.entities.insert(id@, entity_of(props@))
                },
                LuaMessage::UpdateEntityId(old_id, new_id, props) => {
                    &&& old(self)@.entities.contains_key(old_id@) && (new_id@ == old_id@
                        || !old(self)@.entities.contains_key(new_id@)) && valid_props(props@) && brings_scripts(props@)
                        ==> r is CompileScripts && r->CompileScripts_0 is UpdateEntityId
                        && r->CompileScripts_0->UpdateEntityId_0@ == old_id@
                        && r->CompileScripts_0->UpdateEntityId_1@ == new_id@
                        && r->CompileScripts_0->UpdateEntityId_2@ == props@
                        && is_script_list_of(r->CompileScripts_1@, props@)
                        && final(self)@.entities == old(self)@.entities
                    &&& !(old(self)@.entities.contains_key(old_id@) && (new_id@ == old_id@
                        || !old(self)@.entities.contains_key(new_id@)) && valid_props(props@) && brings_scripts(props@))
                        ==> r is Done
                    &&& !old(self)@.entities.contains_key(old_id@) ==> is_logged(r->Done_0,
                        ErrorModel::EntityProcessingError(old_id@, "no such entity"@))
                        && final(self)@.entities == old(self)@.entities
                    &&& old(self)@.entities.contains_key(old_id@) && new_id@ != old_id@
                        && old(self)@.entities.contains_key(new_id@) ==> is_logged(r->Done_0,
                        ErrorModel::EntityProcessingError(new_id@, "an entity with this ID already exists"@))
                        && final(self)@.entities == old(self)@.entities
                    &&& old(self)@.entities.contains_key(old_id@) && (new_id@ == old_id@
                        || !old(self)@.entities.contains_key(new_id@)) && !valid_props(props@) ==> is_logged(r->Done_0,
                        ErrorModel::FormatError("properties must be an object whose scripts are source texts"@))
                        && final(self)@.entities == old(self)@.entities
                    &&& old(self)@.entities.contains_key(old_id@) && (new_id@ == old_id@
                        || !old(self)@.entities.contains_key(new_id@)) && valid_props(props@) && !brings_scripts(props@)
                        ==> r->Done_0 is Silent
                        && final(self)@.entities == old(self)@.entities.remove(old_id@).insert(new_id@,
                        crate::scene::merged(old(self)@.entities[old_id@], props@))
                },
                LuaMessage::UpdateEntity(id, props) => {
                    &&& old(self)@.entities.contains_key(id@) && valid_props(props@) && brings_scripts(props@)
                        ==> r is CompileScripts && r->CompileScripts_0 is UpdateEntity
                        && r->CompileScripts_0->UpdateEntity_0@ == id@
                        && r->CompileScripts_0->UpdateEntity_1@ == props@
                        && is_script_list_of(r->CompileScripts_1@, props@)
                        && final(self)@.entities == old(self)@.entities
                    &&& !(old(self)@.entities.contains_key(id@) && valid_props(props@) && brings_scripts(props@))
                        ==> r is Done
                    &&& !old(self)@.entities.contains_key(id@) ==> is_logged(r->Done_0,
                        ErrorModel::EntityProcessingError(id@, "no such entity"@))
                        && final(self)@.entities == old(self)@.entities
                    &&& old(self)@.entities.contains_key(id@) && !valid_props(props@) ==> is_logged(r->Done_0,
                        ErrorModel::FormatError("properties must be an object whose scripts are source texts"@))
                        && final(self)@.entities == old(self)@.entities
                    &&& old(self)@.entities.contains_key(id@) && valid_props(props@) && !brings_scripts(props@)
                        ==> r->Done_0 is Silent
                        && final(self)@.entities == old(self)@.entities.insert(id@,
                        crate::scene::merged(old(self)@.entities[id@], props@))
                },
                LuaMessage::DeleteEntity(id) => r == Work::Done(Reply::Silent)
                    && final(self)@.entities == old(self)@.entities.remove(id@),
                LuaMessage::DuplicateEntity(id) => {
                    &&& r is Done
                    &&& !old(self)@.entities.contains_key(id@) ==> is_logged(r->Done_0,
                        ErrorModel::EntityProcessingError(id@, "no such entity"@))
                        && final(self)@.entities == old(self)@.entities
                    &&& old(self)@.entities.contains_key(id@) ==> r->Done_0 is Silent && exists|c: Seq<char>|
                        crate::scene::is_copy_id(old(self)@.entities.dom(), id@, c)
                        && final(self)@.entities == old(self)@.entities.insert(c, old(self)@.entities[id@])
                },
                LuaMessage::SaveScene(path) => r is WriteScene && r->WriteScene_0@ == path@
                    && valid_scene(r->WriteScene_1@) && scene_of(r->WriteScene_1@) == old(self)@.entities
                    && final(self)@.entities == old(self)@.entities,
                LuaMessage::LoadScene(path) => r is ReadScene && r->ReadScene_0@ == path@
                    && final(self)@.entities == old(self)@.entities,
                LuaMessage::RunScript(id, function, params) => {
                    &&& final(self)@.entities == old(self)@.entities
                    &&& !old(self)@.entities.contains_key(id@) ==> r is Done && is_status(r->Done_0, false,
                        "Couldn't find entity"@)
                    &&& old(self)@.entities.contains_key(id@) ==> r is RunScript && r->RunScript_0@ == id@
                        && valid_props(r->RunScript_1@) && entity_of(r->RunScript_1@) == old(self)@.entities[id@]
                        && r->RunScript_2@ == function@ && r->RunScript_3@ == params@
                },
                LuaMessage::EmitEntityString(id, window) => {
                    &&& final(self)@.entities == old(self)@.entities
                    &&& !old(self)@.entities.contains_key(id@) ==> r is Done && is_logged(r->Done_0,
                        ErrorModel::EntityProcessingError(id@, "no such entity"@))
                    &&& old(self)@.entities.contains_key(id@) ==> r is EmitEntity && r->EmitEntity_0@ == window@
                        && r->EmitEntity_1@ == id@ && valid_props(r->EmitEntity_2@)
                        && entity_of(r->EmitEntity_2@) == old(self)@.entities[id@]
                },
                LuaMessage::HandleInspectorSave(original_id, text, scripts) => {
                    &&& final(self)@.entities == old(self)@.entities
                    &&& !valid_script_list(scripts@) ==> r is Done && r->Done_0 is Saved
                        && !r->Done_0->Saved_0 && r->Done_0->Saved_1@ == error_text(ErrorModel::FormatError(
                        "scripts must be an object of source texts"@)) && r->Done_0->Saved_2@.len() == 0
                    &&& valid_script_list(scripts@) ==> r is ParseInspector && r->ParseInspector_0@ == original_id@
                        && r->ParseInspector_1@ == text@
                        && r->ParseInspector_2@.len() == scripts@->Object_0.len()
                        && forall|i: int| 0 <= i < r->ParseInspector_2@.len() ==>
                            (#[trigger] r->ParseInspector_2@[i]).0@ == scripts@->Object_0[i].0
                            && Json::Str(r->ParseInspector_2@[i].1@) == scripts@->Object_0[i].1
                },
                LuaMessage::Shutdown => r is Stop && final(self)@.entities == old(self)@.entities,
            },
    {
        if !self.running {
            return Work::Stop;
        }
        match cmd {
            LuaMessage::Tick(dt) => Work::UpdateHook(dt),
            LuaMessage::AddEntity(id, props) => {
                let (ok, msg) = self.scene.add_entity(id, &props);
                Work::Done(Reply::Status(ok, msg))
            },
            LuaMessage::UpdateEntityId(old_id, new_id, props) => {
                if self.scene.contains(&old_id) && (new_id == old_id || !self.scene.contains(&new_id))
                    && Entity::from_props(&props).is_some() {
                    match scripts_brought(&props) {
                        Some(list) => {
                            return Work::CompileScripts(LuaMessage::UpdateEntityId(old_id, new_id, props), list);
                        },
                        None => {},
                    }
                }
                match self.scene.update_entity_id(&old_id, new_id, &props) {
                    Ok(()) => Work::Done(Reply::Silent),
                    Err(e) => Work::Done(logged(e)),
                }
            },
            LuaMessage::UpdateEntity(id, props) => {
                if self.scene.contains(&id) && Entity::from_props(&props).is_some() {
                    match scripts_brought(&props) {
                        Some(list) => {
                            return Work::CompileScripts(LuaMessage::UpdateEntity(id, props), list);
                        },
                        None => {},
                    }
                }
                match self.scene.update_entity(&id, &props) {
                    Ok(()) => Work::Done(Reply::Silent),
                    Err(e) => Work::Done(logged(e)),
                }
            },
            LuaMessage::DeleteEntity(id) => {
                self.scene.delete_entity(&id);
                Work::Done(Reply::Silent)
            },
            LuaMessage::DuplicateEntity(id) => {
                match self.scene.duplicate_entity(&id) {
                    Ok(_) => Work::Done(Reply::Silent),
                    Err(e) => Work::Done(logged(e)),
                }
            },
            LuaMessage::SaveScene(path) => Work::WriteScene(path, self.scene.to_value()),
            LuaMessage::LoadScene(path) => Work::ReadScene(path),
            LuaMessage::RunScript(id, function, params) => {
                match self.scene.get_entity(&id) {
                    Some(e) => {
                        let v = e.to_value();
                        Work::RunScript(id, v, function, params)
                    },
                    None => Work::Done(Reply::Status(false, String::from_str("Couldn't find entity"))),
                }
            },
            LuaMessage::EmitEntityString(id, window) => {
                match self.scene.get_entity(&id) {
                    Some(e) => {
                        let v = e.to_value();
                        Work::EmitEntity(window, id, v)
                    },
                    None => Work::Done(logged(LuaError::EntityProcessingError(id, String::from_str("no such entity")))),
                }
            },
            LuaMessage::HandleInspectorSave(original_id, text, scripts) => {
                match script_list(&scripts) {
                    Some(list) => Work::ParseInspector(original_id, text, list),
                    None => {
                        let e = LuaError::FormatError(String::from_str("scripts must be an object of source texts"));
                        Work::Done(Reply::Saved(false, e.message(), String::new()))
                    },
                }
            },
            LuaMessage::Shutdown => {
                self.running = false;
                Work::Stop
            },
        }
    }
}

/// Whether the work runs scripted code, after which the store takes back
/// the entities that the environment holds; after any other work, the
/// environment's copy is brought up to date with the store instead.
pub fn entities_come_back(work: &Work) -> (r: bool)
    ensures
        r == (work is UpdateHook || work is RunScript),
{
    match work {
        Work::UpdateHook(_) => true,
        Work::RunScript(..) => true,
        _ => false,
    }
}

/// The reply to a tick, given what the update hook did: silence, or the
/// hook's error for the log.
pub fn finish_tick(outcome: &Result<(), String>) -> (r: Reply)
    ensures
        match outcome {
            Ok(()) => r is Silent,
            Err(m) => is_logged(r, ErrorModel::LuaError(m@)),
        },
{
    match outcome {
        Ok(()) => Reply::Silent,
        Err(m) => logged(LuaError::LuaError(m.clone())),
    }
}

/// Whether the command loop runs on after a command.
pub open spec fn runs_after(running: bool, cmd: LuaMessage) -> bool {
    running && !(cmd is Shutdown)
}

/// The answer to a script run, given what the protected call gave (the
/// error's text where it raised one).
pub open spec fn script_answer(outcome: Result<(), Seq<char>>) -> (bool, Seq<char>) {
    match outcome {
        Ok(()) => (true, "Script executed successfully"@),
        Err(m) => (false, m),
    }
}

/// A script that raises an error is answered with `false` and the error's
/// text, and leaves the runtime running: the next command, a tick among
/// them, is taken as usual.
pub proof fn lemma_failed_script_keeps_running(
    running: bool,
    id: String,
    function: String,
    params: Value,
    error: Seq<char>,
    dt: u64,
)
    requires
        running,
    ensures
        script_answer(Err(error)) == (false, error),
        runs_after(running, LuaMessage::RunScript(id, function, params)),
        runs_after(runs_after(running, LuaMessage::RunScript(id, function, params)), LuaMessage::Tick(dt)),
{
}

/// The reply to a script run, given what the protected call gave.
pub fn finish_script(outcome: &Result<(), String>) -> (r: Reply)
    ensures
        r is Status,
        (r->Status_0, r->Status_1@) == script_answer(
            match outcome {
                Ok(()) => Ok(()),
                Err(m) => Err(m@),
            },
        ),
{
    match outcome {
        Ok(()) => Reply::Status(true, String::from_str("Script executed successfully")),
        Err(m) => Reply::Status(false, m.clone()),
    }
}

/// The reply to a scene save, given what writing it gave.
pub fn finish_save(outcome: &Result<(), String>) -> (r: Reply)
    ensures
        match outcome {
            Ok(()) => r is Silent,
            Err(m) => is_logged(r, ErrorModel::LuaError(m@)),
        },
{
    finish_tick(outcome)
}

impl Runtime {
    /// Replaces the scene with the one read back from storage, and answers.
    pub fn finish_load(&mut self, outcome: &Result<Value, String>) -> (r: Reply)
        requires
            old(self).wf(),
        ensures
            final(self).wf(),
            final(self)@.running == old(self)@.running,
            match outcome {
                Err(m) => is_status(r, false, "Failed loading: "@ + m@) && final(self)@ == old(self)@,
                Ok(v) => if valid_scene(v@) {
                    is_status(r, true, "Successfully loaded scene"@) && final(self)@.entities == scene_of(v@)
                } else {
                    is_status(r, false, "Failed loading: the stored value is not a scene"@)
                        && final(self)@ == old(self)@
                },
            },
    {
        match outcome {
            Err(m) => {
                let mut msg = String::from_str("Failed loading: ");
                msg.append(m.as_str());
                Reply::Status(false, msg)
            },
            Ok(v) => match Scene::from_value(v) {
                Some(scene) => {
                    self.scene = scene;
                    Reply::Status(true, String::from_str("Successfully loaded scene"))
                },
                None => Reply::Status(false, String::from_str("Failed loading: the stored value is not a scene")),
            },
        }
    }

    /// Applies an update whose scripts were compiled, given the compile
    /// outcomes: the first script that failed is logged and nothing changes;
    /// where all compiled, the update is applied as [`Scene::update_entity`]
    /// or [`Scene::update_entity_id`] does it.
    pub fn finish_update(&mut self, update: LuaMessage, checks: &Vec<ScriptCheck>) -> (r: Reply)
        requires
            old(self).wf(),
        ensures
            final(self).wf(),
            final(self)@.running == old(self)@.running,
            !all_compiled(checks@) ==> is_first_failure(checks@, r) && final(self)@ == old(self)@,
            all_compiled(checks@) ==> match update {
                LuaMessage::UpdateEntity(id, props) => {
                    &&& !old(self)@.entities.contains_key(id@) ==> is_logged(r,
                        ErrorModel::EntityProcessingError(id@, "no such entity"@))
                        && final(self)@.entities == old(self)@.entities
                    &&& old(self)@.entities.contains_key(id@) && !valid_props(props@) ==> is_logged(r,
                        ErrorModel::FormatError("properties must be an object whose scripts are source texts"@))
                        && final(self)@.entities == old(self)@.entities
                    &&& old(self)@.entities.contains_key(id@) && valid_props(props@) ==> r is Silent
                        && final(self)@.entities == old(self)@.entities.insert(id@, merged(old(self)@.entities[id@], props@))
                },
                LuaMessage::UpdateEntityId(old_id, new_id, props) => {
                    &&& !old(self)@.entities.contains_key(old_id@) ==> is_logged(r,
                        ErrorModel::EntityProcessingError(old_id@, "no such entity"@))
                        && final(self)@.entities == old(self)@.entities
                    &&& old(self)@.entities.contains_key(old_id@) && new_id@ != old_id@
                        && old(self)@.entities.contains_key(new_id@) ==> is_logged(r,
                        ErrorModel::EntityProcessingError(new_id@, "an entity with this ID already exists"@))
                        && final(self)@.entities == old(self)@.entities
                    &&& old(self)@.entities.contains_key(old_id@) && (new_id@ == old_id@
                        || !old(self)@.entities.contains_key(new_id@)) && !valid_props(props@) ==> is_logged(r,
                        ErrorModel::FormatError("properties must be an object whose scripts are source texts"@))
                        && final(self)@.entities == old(self)@.entities
                    &&& old(self)@.entities.contains_key(old_id@) && (new_id@ == old_id@
                        || !old(self)@.entities.contains_key(new_id@)) && valid_props(props@) ==> r is Silent
                        && final(self)@.entities == old(self)@.entities.remove(old_id@).insert(new_id@,
                        merged(old(self)@.entities[old_id@], props@))
                },
                _ => r is Silent && final(self)@ == old(self)@,
            },
    {
        let mut i: usize = 0;
        while i < checks.len()
            invariant
                self.wf(),
                self@ == old(self)@,
                i <= checks.len(),
                forall|j: int| 0 <= j < i ==> (#[trigger] checks@[j]).error is None,
            decreases checks.len() - i,
        {
            match &checks[i].error {
                Some(e) => {
                    let mut msg = String::from_str("Invalid syntax in ");
                    msg.append(checks[i].name.as_str());
                    msg.append(" script: ");
                    msg.append(e.as_str());
                    let r = logged(LuaError::LuaError(msg));
                    assert(is_first_failure(checks@, r)) by {
                        assert(checks@[i as int].error is Some);
                    }
                    return r;
                },
                None => {},
            }
            i = i + 1;
        }
        match update {
            LuaMessage::UpdateEntity(id, props) => match self.scene.update_entity(&id, &props) {
                Ok(()) => Reply::Silent,
                Err(e) => logged(e),
            },
            LuaMessage::UpdateEntityId(old_id, new_id, props) => {
                match self.scene.update_entity_id(&old_id, new_id, &props) {
                    Ok(()) => Reply::Silent,
                    Err(e) => logged(e),
                }
            },
            _ => Reply::Silent,
        }
    }

    /// Takes over the entities that scripted code left, read back from the
    /// scripting environment as a saved scene; where they are not one, the
    /// store stays as it is and the error is returned.
    pub fn adopt_entities(&mut self, v: &Value) -> (r: Result<(), LuaError>)
        requires
            old(self).wf(),
        ensures
            final(self).wf(),
            final(self)@.running == old(self)@.running,
            valid_scene(v@) ==> r is Ok && final(self)@.entities == scene_of(v@),
            !valid_scene(v@) ==> r is Err && r->Err_0@ == ErrorModel::FormatError(
                "the scene's entities do not form a scene"@) && final(self)@ == old(self)@,
    {
        match Scene::from_value(v) {
            Some(scene) => {
                self.scene = scene;
                Ok(())
            },
            None => Err(LuaError::FormatError(String::from_str("the scene's entities do not form a scene"))),
        }
    }

    /// The entity store, for an edit in place.
    pub fn scene_mut(&mut self) -> (r: &mut Scene)
        requires
            old(self).wf(),
        ensures
            r.wf(),
            r@ == old(self)@.entities,
            final(self)@ == (RuntimeModel { entities: final(r)@, running: old(self)@.running }),
            final(self).wf() == final(r).wf(),
    {
        &mut self.scene
    }
}

/// The scripts that valid properties bring, or `None` where they bring none.
fn scripts_brought(props: &Value) -> (r: Option<Vec<(String, String)>>)
    requires
        valid_props(props@),
    ensures
        r is Some <==> brings_scripts(props@),
        r is Some ==> is_script_list_of(r->Some_0@, props@),
{
    match props {
        Value::Object(m) => {
            match member_named(m, &String::from_str("scripts")) {
                Some(i) => {
                    let list = script_list(&m[i].1);
                    match list {
                        Some(l) => {
                            if l.len() > 0 {
                                Some(l)
                            } else {
                                None
                            }
                        },
                        None => None,
                    }
                },
                None => None,
            }
        },
        _ => None,
    }
}

/// The scripts of an inspector save as name and source, in order, or `None`
/// where they are not an object of source texts.
pub fn script_list(scripts: &Value) -> (r: Option<Vec<(String, String)>>)
    ensures
        r is Some <==> valid_script_list(scripts@),
        r is Some ==> r->Some_0@.len() == scripts@->Object_0.len() && forall|i: int|
            0 <= i < r->Some_0@.len() ==> (#[trigger] r->Some_0@[i]).0@ == scripts@->Object_0[i].0
                && Json::Str(r->Some_0@[i].1@) == scripts@->Object_0[i].1,
{
    let m = match scripts {
        Value::Object(m) => m,
        _ => {
            return None;
        },
    };
    proof {
        lemma_members_of(m@);
    }
    let mut out: Vec<(String, String)> = Vec::new();
    let mut i: usize = 0;
    while i < m.len()
        invariant
            i <= m.len(),
            scripts@ == Json::Object(members_of(m@)),
            members_of(m@).len() == m.len(),
            forall|j: int| 0 <= j < m.len() ==> #[trigger] members_of(m@)[j] == (m@[j].0@, json_of(m@[j].1)),
            out@.len() == i,
            forall|j: int| 0 <= j < i ==> (#[trigger] out@[j]).0@ == members_of(m@)[j].0
                && Json::Str(out@[j].1@) == members_of(m@)[j].1,
        decreases m.len() - i,
    {
        match &m[i].1 {
            Value::Str(t) => {
                out.push((m[i].0.clone(), t.clone()));
            },
            _ => {
                assert(!(members_of(m@)[i as int].1 is Str));
                return None;
            },
        }
        i = i + 1;
    }
    assert forall|j: int| 0 <= j < scripts@->Object_0.len() implies (#[trigger] scripts@->Object_0[j]).1 is Str by {
        assert(Json::Str(out@[j].1@) == members_of(m@)[j].1);
    }
    Some(out)
}

} // verus!
