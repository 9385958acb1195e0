//! Building the runtime's messages from what the user interface sends: an
//! entity's id travels inside its properties and is taken out here.
use vstd::prelude::*;
use crate::assoc::map_of;
use crate::protocol::LuaMessage;
use crate::scene::members_map;
use crate::value::{json_of, lemma_members_of, members_of, Json, Value};

verus! {

/// Position of the member that gives `key` its value (the last one named
/// `key`), if there is one.
pub(crate) fn member_named(m: &Vec<(String, Value)>, key: &String) -> (r: Option<usize>)
    ensures
        match r {
            Some(i) => i < m.len() && map_of(members_of(m@)).contains_key(key@) && map_of(
                members_of(m@),
            )[key@] == m@[i as int].1@,
            None => !map_of(members_of(m@)).contains_key(key@),
        },
{
    let ghost ms = members_of(m@);
    proof {
        lemma_members_of(m@);
    }
    let mut found: Option<usize> = None;
    let mut i: usize = 0;
    while i < m.len()
        invariant
            i <= m.len(),
            ms == members_of(m@),
            ms.len() == m.len(),
            forall|j: int| 0 <= j < m.len() ==> #[trigger] ms[j] == (m@[j].0@, json_of(m@[j].1)),
            match found {
                Some(j) => j < i && map_of(ms.take(i as int)).contains_key(key@) && map_of(
                    ms.take(i as int),
                )[key@] == m@[j as int].1@,
                None => !map_of(ms.take(i as int)).contains_key(key@),
            },
        decreases m.len() - i,
    {
        proof {
            assert(ms.take(i + 1).drop_last() =~= ms.take(i as int));
        }
        if m[i].0 == *key {
            found = Some(i);
        }
        i = i + 1;
    }
    proof {
        assert(ms.take(m.len() as int) =~= ms);
    }
    found
}

/// The members but those named `key`, in order.
fn without_member(m: &Vec<(String, Value)>, key: &String) -> (r: Vec<(String, Value)>)
    ensures
        map_of(members_of(r@)) == map_of(members_of(m@)).remove(key@),
{
    let ghost ms = members_of(m@);
    proof {
        lemma_members_of(m@);
    }
    let mut out: Vec<(String, Value)> = Vec::new();
    let mut i: usize = 0;
    while i < m.len()
        invariant
            i <= m.len(),
            ms == members_of(m@),
            ms.len() == m.len(),
            forall|j: int| 0 <= j < m.len() ==> #[trigger] ms[j] == (m@[j].0@, json_of(m@[j].1)),
            map_of(members_of(out@)) == map_of(ms.take(i as int)).remove(key@),
        decreases m.len() - i,
    {
        proof {
            assert(ms.take(i + 1).drop_last() =~= ms.take(i as int));
        }
        if m[i].0 != *key {
            let ghost before = out@;
            out.push((m[i].0.clone(), m[i].1.copy()));
            proof {
                assert(out@.drop_last() =~= before);
                assert(members_of(out@) == members_of(before).push((out@.last().0@, json_of(out@.last().1))));
                assert(out@.last().0@ == ms[i as int].0 && json_of(out@.last().1) == ms[i as int].1);
                let mb = members_of(before);
                assert(mb.push((ms[i as int].0, ms[i as int].1)).drop_last() =~= mb);
                assert(ms[i as int].0 != key@);
                assert(map_of(members_of(out@)) == map_of(mb).insert(ms[i as int].0, ms[i as int].1));
                assert(ms.take(i + 1).last() == ms[i as int]);
                assert(map_of(members_of(out@)) =~= map_of(ms.take(i + 1)).remove(key@));
            }
        } else {
            proof {
                assert(map_of(ms.take(i as int)).remove(key@) =~= map_of(ms.take(i + 1)).remove(key@));
            }
        }
        i = i + 1;
    }
    proof {
        assert(ms.take(m.len() as int) =~= ms);
    }
    out
}

/// The message that adds the entity the user interface describes: `data`
/// must be an object with a text `id`, which is taken out of the
/// properties.
pub fn new_entity(data: &Value) -> (r: Result<LuaMessage, String>)
    ensures
        !(data@ is Object) ==> r is Err && r->Err_0@ == "Couldn't turn data into object"@,
        data@ is Object && !members_map(data@).contains_key("id"@) ==> r is Err && r->Err_0@
            == "Cannot create an entity with no ID."@,
        data@ is Object && members_map(data@).contains_key("id"@) && !(members_map(data@)["id"@] is Str)
            ==> r is Err && r->Err_0@ == "New ID is not a string"@,
        data@ is Object && members_map(data@).contains_key("id"@) && members_map(data@)["id"@] is Str ==> {
            &&& r is Ok
            &&& r->Ok_0 is AddEntity
            &&& r->Ok_0->AddEntity_0@ == members_map(data@)["id"@]->Str_0
            &&& r->Ok_0->AddEntity_1@ is Object
            &&& members_map(r->Ok_0->AddEntity_1@) == members_map(data@).remove("id"@)
        },
{
    let m = match data {
        Value::Object(m) => m,
        _ => {
            return Err(String::from_str("Couldn't turn data into object"));
        },
    };
    let id_key = String::from_str("id");
    let id = match member_named(m, &id_key) {
        None => {
            return Err(String::from_str("Cannot create an entity with no ID."));
        },
        Some(i) => match &m[i].1 {
            Value::Str(t) => t.clone(),
            _ => {
                return Err(String::from_str("New ID is not a string"));
            },
        },
    };
    let rest = without_member(m, &id_key);
    Ok(LuaMessage::AddEntity(id, Value::Object(rest)))
}

/// The message that updates the entity `id` as the user interface asks:
/// where `data` carries an `id`, the entity is also given that id.
pub fn update_entity(id: String, data: &Value) -> (r: Result<LuaMessage, String>)
    ensures
        !(data@ is Object) ==> r is Err && r->Err_0@ == "Couldn't turn data into object"@,
        data@ is Object && !members_map(data@).contains_key("id"@) ==> r is Ok && r->Ok_0 is UpdateEntity
            && r->Ok_0->UpdateEntity_0@ == id@ && r->Ok_0->UpdateEntity_1@ == data@,
        data@ is Object && members_map(data@).contains_key("id"@) && !(members_map(data@)["id"@] is Str)
            ==> r is Err && r->Err_0@ == "New ID is not a string"@,
        data@ is Object && members_map(data@).contains_key("id"@) && members_map(data@)["id"@] is Str ==> {
            &&& r is Ok
            &&& r->Ok_0 is UpdateEntityId
            &&& r->Ok_0->UpdateEntityId_0@ == id@
            &&& r->Ok_0->UpdateEntityId_1@ == members_map(data@)["id"@]->Str_0
            &&& r->Ok_0->UpdateEntityId_2@ is Object
            &&& members_map(r->Ok_0->UpdateEntityId_2@) == members_map(data@).remove("id"@)
        },
{
    let m = match data {
        Value::Object(m) => m,
        _ => {
            return Err(String::from_str("Couldn't turn data into object"));
        },
    };
    let id_key = String::from_str("id");
    match member_named(m, &id_key) {
        None => Ok(LuaMessage::UpdateEntity(id, data.copy())),
        Some(i) => match &m[i].1 {
            Value::Str(t) => {
                let confirmed = t.clone();
                let rest = without_member(m, &id_key);
                Ok(LuaMessage::UpdateEntityId(id, confirmed, Value::Object(rest)))
            },
            _ => Err(String::from_str("New ID is not a string")),
        },
    }
}

} // verus!
