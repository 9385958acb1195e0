//! The entity store: the current scene's mapping from entity id to entity,
//! and the edits that the command protocol applies to it.
use vstd::prelude::*;
use crate::assoc::{
    find_key, get_key, keys_unique, lemma_map_of_dom, lemma_map_of_index, lemma_map_of_remove,
    map_of, pairs_view, remove_key, set_key,
};
use crate::error::{ErrorModel, LuaError};
use crate::value::{json_of, lemma_members_of, members_of, Json, Value};

verus! {

/// An entity: named properties, and the sources of its scripts by name.
#[derive(Debug)]
pub struct Entity {
    props: Vec<(String, Value)>,
    scripts: Vec<(String, String)>,
}

/// Mathematical model of an [`Entity`].
pub struct EntityModel {
    pub props: Map<Seq<char>, Json>,
    pub scripts: Map<Seq<char>, Seq<char>>,
}

impl View for Entity {
    type V = EntityModel;

    closed spec fn view(&self) -> EntityModel {
        EntityModel {
            props: map_of(pairs_view(self.props@)),
            scripts: map_of(pairs_view(self.scripts@)),
        }
    }
}

/// The members of an object value, as a map (a later member overrides an
/// earlier one with the same name).
pub open spec fn members_map(j: Json) -> Map<Seq<char>, Json> {
    map_of(j->Object_0)
}

pub open spec fn texts(ms: Seq<(Seq<char>, Json)>) -> Seq<(Seq<char>, Seq<char>)> {
    ms.map_values(|p: (Seq<char>, Json)| (p.0, p.1->Str_0))
}

pub open spec fn all_text(ms: Seq<(Seq<char>, Json)>) -> bool {
    forall|i: int| 0 <= i < ms.len() ==> (#[trigger] ms[i]).1 is Str
}

/// Properties that an entity can be built from or updated with: an object,
/// whose `scripts` member, if present, is an object of source texts.
pub open spec fn valid_props(j: Json) -> bool {
    &&& j is Object
    &&& members_map(j).contains_key("scripts"@) ==> {
        let s = members_map(j)["scripts"@];
        s is Object && all_text(s->Object_0)
    }
}

/// The script sources named in the properties' `scripts` member.
pub open spec fn sources_of(j: Json) -> Map<Seq<char>, Seq<char>> {
    if members_map(j).contains_key("scripts"@) {
        map_of(texts(members_map(j)["scripts"@]->Object_0))
    } else {
        Map::empty()
    }
}

/// The plain properties: all members but the reserved `id` and `scripts`.
pub open spec fn plain_props(j: Json) -> Map<Seq<char>, Json> {
    members_map(j).remove("id"@).remove("scripts"@)
}

/// The entity that valid properties describe.
pub open spec fn entity_of(j: Json) -> EntityModel {
    EntityModel { props: plain_props(j), scripts: sources_of(j) }
}

/// An entity updated with valid properties: the given properties and
/// scripts replace those of the same name, the others stay.
pub open spec fn merged(e: EntityModel, j: Json) -> EntityModel {
    EntityModel {
        props: e.props.union_prefer_right(plain_props(j)),
        scripts: e.scripts.union_prefer_right(sources_of(j)),
    }
}

impl Entity {
    pub closed spec fn wf(&self) -> bool {
        &&& keys_unique(pairs_view(self.props@))
        &&& keys_unique(pairs_view(self.scripts@))
        &&& !self@.props.contains_key("id"@)
        &&& !self@.props.contains_key("scripts"@)
    }

    /// Builds an entity from properties, or `None` where they are not valid.
    pub fn from_props(props: &Value) -> (r: Option<Entity>)
        ensures
            r is Some <==> valid_props(props@),
            r is Some ==> r->Some_0.wf() && r->Some_0@ == entity_of(props@),
    {
        match props {
            Value::Object(m) => {
                let mut all = normalized(m);
                let scripts_key = String::from_str("scripts");
                let id_key = String::from_str("id");
                let ghost mm = members_map(props@);
                let mut scripts: Vec<(String, String)> = Vec::new();
                match get_key(&all, &scripts_key) {
                    Some(Value::Object(sm)) => {
                        match sources(sm) {
                            Some(s) => {
                                scripts = s;
                            },
                            None => {
                                return None;
                            },
                        }
                    },
                    Some(_) => {
                        return None;
                    },
                    None => {},
                }
                remove_key(&mut all, &id_key);
                remove_key(&mut all, &scripts_key);
                proof {
                    assert(map_of(pairs_view(scripts@)) =~= sources_of(props@));
                }
                Some(Entity { props: all, scripts })
            },
            _ => None,
        }
    }

    /// A copy of the entity.
    pub fn copy(&self) -> (r: Entity)
        requires
            self.wf(),
        ensures
            r.wf(),
            r@ == self@,
    {
        let mut props: Vec<(String, Value)> = Vec::new();
        let mut i: usize = 0;
        while i < self.props.len()
            invariant
                i <= self.props.len(),
                props.len() == i,
                forall|j: int| 0 <= j < i ==> (#[trigger] props@[j]).0@ == self.props@[j].0@ && props@[j].1@ == self.props@[j].1@,
            decreases self.props.len() - i,
        {
            props.push((self.props[i].0.clone(), self.props[i].1.copy()));
            i = i + 1;
        }
        let mut scripts: Vec<(String, String)> = Vec::new();
        let mut i: usize = 0;
        while i < self.scripts.len()
            invariant
                i <= self.scripts.len(),
                scripts.len() == i,
                forall|j: int| 0 <= j < i ==> (#[trigger] scripts@[j]).0@ == self.scripts@[j].0@ && scripts@[j].1@ == self.scripts@[j].1@,
            decreases self.scripts.len() - i,
        {
            scripts.push((self.scripts[i].0.clone(), self.scripts[i].1.clone()));
            i = i + 1;
        }
        proof {
            assert(pairs_view(props@) =~= pairs_view(self.props@));
            assert(pairs_view(scripts@) =~= pairs_view(self.scripts@));
        }
        Entity { props, scripts }
    }

    /// Updates the entity with valid properties (see [`merged`]).
    pub fn merge(&mut self, update: Entity)
        requires
            old(self).wf(),
            update.wf(),
        ensures
            final(self).wf(),
            final(self)@ == (EntityModel {
                props: old(self)@.props.union_prefer_right(update@.props),
                scripts: old(self)@.scripts.union_prefer_right(update@.scripts),
            }),
    {
        let Entity { props, scripts } = update;
        merge_pairs(&mut self.props, props);
        merge_pairs(&mut self.scripts, scripts);
    }

    /// The entity as a structured value: its properties, and its scripts
    /// under `scripts`.
    pub fn to_value(&self) -> (r: Value)
        requires
            self.wf(),
        ensures
            valid_props(r@),
            entity_of(r@) == self@,
    {
        let mut members: Vec<(String, Value)> = Vec::new();
        let mut i: usize = 0;
        while i < self.props.len()
            invariant
                i <= self.props.len(),
                members.len() == i,
                forall|j: int| 0 <= j < i ==> (#[trigger] members@[j]).0@ == self.props@[j].0@ && members@[j].1@ == self.props@[j].1@,
            decreases self.props.len() - i,
        {
            members.push((self.props[i].0.clone(), self.props[i].1.copy()));
            i = i + 1;
        }
        let mut sources: Vec<(String, Value)> = Vec::new();
        let mut i: usize = 0;
        while i < self.scripts.len()
            invariant
                i <= self.scripts.len(),
                sources.len() == i,
                forall|j: int| 0 <= j < i ==> (#[trigger] sources@[j]).0@ == self.scripts@[j].0@ && sources@[j].1@ == Json::Str(self.scripts@[j].1@),
            decreases self.scripts.len() - i,
        {
            sources.push((self.scripts[i].0.clone(), Value::Str(self.scripts[i].1.clone())));
            i = i + 1;
        }
        let ghost pm = members@;
        let ghost sm = sources@;
        let scripts_value = Value::Object(sources);
        members.push((text("scripts"), scripts_value));
        let r = Value::Object(members);
        proof {
            lemma_members_of(pm);
            lemma_members_of(sm);
            lemma_members_of(members@);
            assert(members@.drop_last() == pm);
            assert(members_of(pm) =~= pairs_view(self.props@));
            assert(members_of(members@).drop_last() =~= members_of(pm));
            let smv = members_of(sm);
            assert(texts(smv) =~= pairs_view(self.scripts@));
            assert(members_map(r@) == map_of(pairs_view(self.props@)).insert("scripts"@, Json::Object(smv)));
            assert(all_text(smv));
            assert(plain_props(r@) =~= self@.props);
        }
        r
    }

    /// The property `name`, if the entity has it.
    pub fn prop(&self, name: &String) -> (r: Option<&Value>)
        requires
            self.wf(),
        ensures
            match r {
                Some(v) => self@.props.contains_key(name@) && self@.props[name@] == v@,
                None => !self@.props.contains_key(name@),
            },
    {
        get_key(&self.props, name)
    }

    /// The source of the script `name`, if the entity has it.
    pub fn script(&self, name: &String) -> (r: Option<&String>)
        requires
            self.wf(),
        ensures
            match r {
                Some(v) => self@.scripts.contains_key(name@) && self@.scripts[name@] == v@,
                None => !self@.scripts.contains_key(name@),
            },
    {
        get_key(&self.scripts, name)
    }
}

/// The members of an object as an association list without repeated names.
fn normalized(m: &Vec<(String, Value)>) -> (r: Vec<(String, Value)>)
    ensures
        keys_unique(pairs_view(r@)),
        map_of(pairs_view(r@)) == map_of(members_of(m@)),
{
    let ghost ms = members_of(m@);
    proof {
        lemma_members_of(m@);
    }
    let mut out: Vec<(String, Value)> = Vec::new();
    let mut i: usize = 0;
    while i < m.len()
        invariant
            i <= m.len(),
            ms == members_of(m@),
            ms.len() == m.len(),
            forall|j: int| 0 <= j < m.len() ==> #[trigger] ms[j] == (m@[j].0@, json_of(m@[j].1)),
            keys_unique(pairs_view(out@)),
            map_of(pairs_view(out@)) == map_of(ms.take(i as int)),
        decreases m.len() - i,
    {
        set_key(&mut out, m[i].0.clone(), m[i].1.copy());
        proof {
            assert(ms.take(i + 1).drop_last() =~= ms.take(i as int));
        }
        i = i + 1;
    }
    proof {
        assert(ms.take(m.len() as int) =~= ms);
    }
    out
}

/// The script sources of a `scripts` object, or `None` if a member is not text.
fn sources(sm: &Vec<(String, Value)>) -> (r: Option<Vec<(String, String)>>)
    ensures
        r is Some <==> all_text(members_of(sm@)),
        r is Some ==> keys_unique(pairs_view(r->Some_0@)) && map_of(pairs_view(r->Some_0@)) == map_of(
            texts(members_of(sm@)),
        ),
{
    let ghost ms = members_of(sm@);
    let ghost ts = texts(ms);
    proof {
        lemma_members_of(sm@);
    }
    let mut out: Vec<(String, String)> = Vec::new();
    let mut i: usize = 0;
    while i < sm.len()
        invariant
            i <= sm.len(),
            ms == members_of(sm@),
            ts == texts(ms),
            ms.len() == sm.len(),
            forall|j: int| 0 <= j < sm.len() ==> #[trigger] ms[j] == (sm@[j].0@, json_of(sm@[j].1)),
            forall|j: int| 0 <= j < i ==> (#[trigger] ms[j]).1 is Str,
            keys_unique(pairs_view(out@)),
            map_of(pairs_view(out@)) == map_of(ts.take(i as int)),
        decreases sm.len() - i,
    {
        match &sm[i].1 {
            Value::Str(t) => {
                set_key(&mut out, sm[i].0.clone(), t.clone());
                proof {
                    assert(ts.take(i + 1).drop_last() =~= ts.take(i as int));
                }
            },
            _ => {
                assert(!(ms[i as int].1 is Str));
                return None;
            },
        }
        i = i + 1;
    }
    proof {
        assert(ts.take(sm.len() as int) =~= ts);
    }
    Some(out)
}

/// Binds every pair of `src` in `dst`, replacing bindings of the same key.
fn merge_pairs<T: View>(dst: &mut Vec<(String, T)>, src: Vec<(String, T)>)
    requires
        keys_unique(pairs_view(old(dst)@)),
        keys_unique(pairs_view(src@)),
    ensures
        keys_unique(pairs_view(final(dst)@)),
        map_of(pairs_view(final(dst)@)) == map_of(pairs_view(old(dst)@)).union_prefer_right(
            map_of(pairs_view(src@)),
        ),
{
    let ghost d0 = map_of(pairs_view(dst@));
    let ghost s0 = pairs_view(src@);
    let ghost n = src.len();
    let mut src = src;
    let mut i: usize = 0;
    while src.len() > 0
        invariant
            i + src.len() == n,
            s0.len() == n,
            pairs_view(src@) == s0.subrange(i as int, n as int),
            keys_unique(pairs_view(dst@)),
            map_of(pairs_view(dst@)) == d0.union_prefer_right(map_of(s0.take(i as int))),
        decreases src.len(),
    {
        let ghost before = pairs_view(src@);
        let ghost old_src = src@;
        let (k, v) = src.remove(0);
        proof {
            assert(before[0] == s0[i as int]);
            assert(src@ =~= old_src.subrange(1, old_src.len() as int));
            assert forall|j: int| 0 <= j < src.len() implies #[trigger] pairs_view(src@)[j] == s0[i + 1 + j] by {
                assert(before[j + 1] == s0[i + 1 + j]);
            }
            assert(pairs_view(src@) =~= s0.subrange(i + 1, n as int));
        }
        set_key(dst, k, v);
        proof {
            assert(s0.take(i + 1).drop_last() =~= s0.take(i as int));
            assert(map_of(pairs_view(dst@)) =~= d0.union_prefer_right(map_of(s0.take(i + 1))));
        }
        i = i + 1;
    }
    proof {
        assert(s0.take(n as int) =~= s0);
    }
}

/// A script handed to the inspector save, with the outcome of compiling it
/// (`Some` holds the compiler's error text).
#[derive(Debug)]
pub struct ScriptCheck {
    pub name: String,
    pub source: String,
    pub error: Option<String>,
}

pub open spec fn check_pairs(cs: Seq<ScriptCheck>) -> Seq<(Seq<char>, Seq<char>)> {
    cs.map_values(|c: ScriptCheck| (c.name@, c.source@))
}

/// Every script compiled.
pub open spec fn all_compiled(cs: Seq<ScriptCheck>) -> bool {
    forall|i: int| 0 <= i < cs.len() ==> (#[trigger] cs[i]).error is None
}

/// The id written in an inspector's properties, if it is text.
pub open spec fn inspector_id(j: Json) -> Option<Seq<char>> {
    if j is Object && members_map(j).contains_key("id"@) && members_map(j)["id"@] is Str {
        Some(members_map(j)["id"@]->Str_0)
    } else {
        None
    }
}

/// `id` followed by `n` times `_copy`.
pub open spec fn copy_name(id: Seq<char>, n: nat) -> Seq<char>
    decreases n,
{
    if n == 0 {
        id
    } else {
        copy_name(id, (n - 1) as nat) + "_copy"@
    }
}

/// The id a duplicate of `id` gets: the first of `id_copy`, `id_copy_copy`,
/// ... that no entity has.
pub open spec fn is_copy_id(taken: Set<Seq<char>>, id: Seq<char>, r: Seq<char>) -> bool {
    exists|n: nat|
        n >= 1 && r == copy_name(id, n) && !taken.contains(r) && forall|m: nat|
            1 <= m < n ==> taken.contains(#[trigger] copy_name(id, m))
}

pub open spec fn max_key_len<X>(s: Seq<(Seq<char>, X)>) -> nat
    decreases s.len(),
{
    if s.len() == 0 {
        0
    } else {
        let m = max_key_len(s.drop_last());
        if s.last().0.len() > m {
            s.last().0.len()
        } else {
            m
        }
    }
}

proof fn lemma_max_key_len<X>(s: Seq<(Seq<char>, X)>)
    ensures
        forall|i: int| 0 <= i < s.len() ==> (#[trigger] s[i]).0.len() <= max_key_len(s),
    decreases s.len(),
{
    if s.len() > 0 {
        lemma_max_key_len(s.drop_last());
        assert forall|i: int| 0 <= i < s.len() implies (#[trigger] s[i]).0.len() <= max_key_len(s) by {
            if i < s.len() - 1 {
                assert(s.drop_last()[i] == s[i]);
            }
        }
    }
}

proof fn lemma_map_of_len<X>(s: Seq<(Seq<char>, X)>)
    requires
        keys_unique(s),
    ensures
        map_of(s).dom().finite(),
        map_of(s).dom().len() == s.len(),
    decreases s.len(),
{
    if s.len() > 0 {
        let init = s.drop_last();
        assert(keys_unique(init)) by {
            assert forall|a: int, b: int| 0 <= a < init.len() && 0 <= b < init.len() && a != b implies init[a].0 != init[b].0 by {
                assert(s[a].0 != s[b].0);
            }
        }
        lemma_map_of_len(init);
        lemma_map_of_dom(init);
        if map_of(init).contains_key(s.last().0) {
            let i = choose|i: int| 0 <= i < init.len() && init[i].0 == s.last().0;
            assert(s[i].0 != s[s.len() - 1].0);
        }
    }
}

/// A saved scene: an object whose members are entities by id.
pub open spec fn valid_scene(j: Json) -> bool {
    j is Object && forall|i: int| 0 <= i < j->Object_0.len() ==> valid_props(#[trigger] j->Object_0[i].1)
}

/// The entities that a saved scene holds.
pub open spec fn scene_of(j: Json) -> Map<Seq<char>, EntityModel> {
    map_of(j->Object_0.map_values(|m: (Seq<char>, Json)| (m.0, entity_of(m.1))))
}

/// The current scene's entities by id.
#[derive(Debug)]
pub struct Scene {
    entities: Vec<(String, Entity)>,
}

impl View for Scene {
    type V = Map<Seq<char>, EntityModel>;

    closed spec fn view(&self) -> Map<Seq<char>, EntityModel> {
        map_of(pairs_view(self.entities@))
    }
}

fn text(s: &str) -> (r: String)
    ensures
        r@ == s@,
{
    String::from_str(s)
}

impl Scene {
    pub closed spec fn wf(&self) -> bool {
        &&& keys_unique(pairs_view(self.entities@))
        &&& forall|i: int| 0 <= i < self.entities.len() ==> (#[trigger] self.entities@[i]).1.wf()
    }

    /// An empty scene.
    pub fn new() -> (r: Scene)
        ensures
            r.wf(),
            r@ == Map::<Seq<char>, EntityModel>::empty(),
    {
        let r = Scene { entities: Vec::new() };
        proof {
            assert(pairs_view(r.entities@) =~= Seq::<(Seq<char>, EntityModel)>::empty());
        }
        r
    }

    /// Number of entities.
    pub fn len(&self) -> (r: usize)
        requires
            self.wf(),
        ensures
            r as nat == self@.dom().len(),
    {
        proof {
            lemma_map_of_len(pairs_view(self.entities@));
        }
        self.entities.len()
    }

    /// The entity with this id, if there is one.
    pub fn get_entity(&self, id: &String) -> (r: Option<&Entity>)
        requires
            self.wf(),
        ensures
            match r {
                Some(e) => self@.contains_key(id@) && self@[id@] == e@ && e.wf(),
                None => !self@.contains_key(id@),
            },
    {
        let ghost pv = pairs_view(self.entities@);
        proof {
            lemma_map_of_dom(pv);
        }
        match find_key(&self.entities, id) {
            Some(i) => {
                proof {
                    lemma_map_of_index(pv, i as int);
                }
                Some(&self.entities[i].1)
            },
            None => {
                proof {
                    if self@.contains_key(id@) {
                        let j = choose|j: int| 0 <= j < pv.len() && pv[j].0 == id@;
                        assert(self.entities@[j].0@ != id@);
                    }
                }
                None
            },
        }
    }

    /// Whether an entity has this id.
    pub fn contains(&self, id: &String) -> (r: bool)
        requires
            self.wf(),
        ensures
            r == self@.contains_key(id@),
    {
        self.get_entity(id).is_some()
    }

    fn put(&mut self, id: String, e: Entity)
        requires
            old(self).wf(),
            e.wf(),
        ensures
            final(self).wf(),
            final(self)@ == old(self)@.insert(id@, e@),
    {
        let ghost olds = self.entities@;
        let ghost pair = (id, e);
        set_key(&mut self.entities, id, e);
        proof {
            assert forall|i: int| 0 <= i < self.entities.len() implies (#[trigger] self.entities@[i]).1.wf() by {
                if self.entities@[i] != pair {
                    assert(olds.contains(self.entities@[i]));
                    let j = choose|j: int| 0 <= j < olds.len() && olds[j] == self.entities@[i];
                    assert(olds[j].1.wf());
                }
            }
        }
    }

    /// Removes the entity with this id; nothing happens if there is none.
    pub fn delete_entity(&mut self, id: &String)
        requires
            old(self).wf(),
        ensures
            final(self).wf(),
            final(self)@ == old(self)@.remove(id@),
            !old(self)@.contains_key(id@) ==> final(self)@ == old(self)@ && final(self)@.dom().len()
                == old(self)@.dom().len(),
    {
        let ghost olds = self.entities@;
        let ghost before = self@;
        remove_key(&mut self.entities, id);
        proof {
            if !before.contains_key(id@) {
                assert(before.remove(id@) =~= before);
            }
            assert forall|i: int| 0 <= i < self.entities.len() implies (#[trigger] self.entities@[i]).1.wf() by {
                assert(olds.contains(self.entities@[i]));
                let j = choose|j: int| 0 <= j < olds.len() && olds[j] == self.entities@[i];
                assert(olds[j].1.wf());
            }
        }
    }

    fn take_entity(&mut self, id: &String) -> (r: Option<Entity>)
        requires
            old(self).wf(),
        ensures
            final(self).wf(),
            final(self)@ == old(self)@.remove(id@),
            r is Some <==> old(self)@.contains_key(id@),
            r is Some ==> r->Some_0.wf() && r->Some_0@ == old(self)@[id@],
    {
        let ghost pv = pairs_view(self.entities@);
        let ghost olds = self.entities@;
        proof {
            lemma_map_of_dom(pv);
        }
        match find_key(&self.entities, id) {
            Some(i) => {
                proof {
                    lemma_map_of_index(pv, i as int);
                    lemma_map_of_remove(pv, i as int);
                    assert(olds[i as int].1.wf());
                }
                let (_, e) = self.entities.remove(i);
                proof {
                    assert(pairs_view(self.entities@) =~= pv.remove(i as int));
                    assert forall|a: int| 0 <= a < self.entities.len() implies (#[trigger] self.entities@[a]).1.wf() by {
                        if a < i {
                            assert(olds[a] == self.entities@[a]);
                        } else {
                            assert(olds[a + 1] == self.entities@[a]);
                        }
                    }
                }
                Some(e)
            },
            None => {
                proof {
                    if self@.contains_key(id@) {
                        let j = choose|j: int| 0 <= j < pv.len() && pv[j].0 == id@;
                        assert(self.entities@[j].0@ != id@);
                    }
                    assert(self@ =~= self@.remove(id@));
                }
                None
            },
        }
    }

    /// Adds an entity built from `props` under `id`; an `id` member of the
    /// properties is not kept.
    pub fn add_entity(&mut self, id: String, props: &Value) -> (r: (bool, String))
        requires
            old(self).wf(),
        ensures
            final(self).wf(),
            old(self)@.contains_key(id@) ==> !r.0 && r.1@ == "Couldn't add entity: an entity with ID "@
                + id@ + " already exists."@ && final(self)@ == old(self)@,
            !old(self)@.contains_key(id@) && !valid_props(props@) ==> !r.0 && r.1@
                == "Couldn't add entity: properties must be an object whose scripts are source texts."@
                && final(self)@ == old(self)@,
            !old(self)@.contains_key(id@) && valid_props(props@) ==> r.0 && r.1@ == "Success"@
                && final(self)@ == old(self)@.insert(id@, entity_of(props@)),
    {
        if self.contains(&id) {
            let mut m = text("Couldn't add entity: an entity with ID ");
            m.append(id.as_str());
            m.append(" already exists.");
            return (false, m);
        }
        match Entity::from_props(props) {
            Some(e) => {
                self.put(id, e);
                (true, text("Success"))
            },
            None => (false, text("Couldn't add entity: properties must be an object whose scripts are source texts.")),
        }
    }

    /// Updates the entity `id` with `props` (see [`merged`]).
    pub fn update_entity(&mut self, id: &String, props: &Value) -> (r: Result<(), LuaError>)
        requires
            old(self).wf(),
        ensures
            final(self).wf(),
            !old(self)@.contains_key(id@) ==> r is Err && r->Err_0@ == ErrorModel::EntityProcessingError(
                id@, "no such entity"@) && final(self)@ == old(self)@,
            old(self)@.contains_key(id@) && !valid_props(props@) ==> r is Err && r->Err_0@ == ErrorModel::FormatError(
                "properties must be an object whose scripts are source texts"@) && final(self)@ == old(self)@,
            old(self)@.contains_key(id@) && valid_props(props@) ==> r is Ok && final(self)@ == old(self)@.insert(
                id@, merged(old(self)@[id@], props@)),
    {
        if !self.contains(id) {
            return Err(LuaError::EntityProcessingError(id.clone(), text("no such entity")));
        }
        match Entity::from_props(props) {
            Some(update) => {
                let ghost before = self@;
                match self.take_entity(id) {
                    Some(mut e) => {
                        e.merge(update);
                        self.put(id.clone(), e);
                        proof {
                            assert(self@ =~= before.insert(id@, merged(before[id@], props@)));
                        }
                        Ok(())
                    },
                    None => Err(LuaError::EntityProcessingError(id.clone(), text("no such entity"))),
                }
            },
            None => Err(LuaError::FormatError(text("properties must be an object whose scripts are source texts"))),
        }
    }

    /// Moves the entity `old_id` to `new_id` and updates it with `props`.
    /// An id held by another entity is refused and nothing changes.
    pub fn update_entity_id(&mut self, old_id: &String, new_id: String, props: &Value) -> (r: Result<(), LuaError>)
        requires
            old(self).wf(),
        ensures
            final(self).wf(),
            !old(self)@.contains_key(old_id@) ==> r is Err && r->Err_0@ == ErrorModel::EntityProcessingError(
                old_id@, "no such entity"@) && final(self)@ == old(self)@,
            old(self)@.contains_key(old_id@) && new_id@ != old_id@ && old(self)@.contains_key(new_id@) ==> r is Err
                && r->Err_0@ == ErrorModel::EntityProcessingError(new_id@, "an entity with this ID already exists"@)
                && final(self)@ == old(self)@,
            old(self)@.contains_key(old_id@) && (new_id@ == old_id@ || !old(self)@.contains_key(new_id@))
                && !valid_props(props@) ==> r is Err && r->Err_0@ == ErrorModel::FormatError(
                "properties must be an object whose scripts are source texts"@) && final(self)@ == old(self)@,
            old(self)@.contains_key(old_id@) && (new_id@ == old_id@ || !old(self)@.contains_key(new_id@))
                && valid_props(props@) ==> r is Ok && final(self)@ == old(self)@.remove(old_id@).insert(
                new_id@, merged(old(self)@[old_id@], props@)),
    {
        if !self.contains(old_id) {
            return Err(LuaError::EntityProcessingError(old_id.clone(), text("no such entity")));
        }
        if new_id != *old_id && self.contains(&new_id) {
            return Err(LuaError::EntityProcessingError(new_id, text("an entity with this ID already exists")));
        }
        match Entity::from_props(props) {
            Some(update) => {
                let ghost before = self@;
                match self.take_entity(old_id) {
                    Some(mut e) => {
                        e.merge(update);
                        self.put(new_id, e);
                        proof {
                            assert(self@ =~= before.remove(old_id@).insert(new_id@, merged(before[old_id@], props@)));
                        }
                        Ok(())
                    },
                    None => Err(LuaError::EntityProcessingError(old_id.clone(), text("no such entity"))),
                }
            },
            None => Err(LuaError::FormatError(text("properties must be an object whose scripts are source texts"))),
        }
    }

    /// Adds a copy of the entity `id` under the first free id of `id_copy`,
    /// `id_copy_copy`, ... and returns that id.
    pub fn duplicate_entity(&mut self, id: &String) -> (r: Result<String, LuaError>)
        requires
            old(self).wf(),
        ensures
            final(self).wf(),
            !old(self)@.contains_key(id@) ==> r is Err && r->Err_0@ == ErrorModel::EntityProcessingError(
                id@, "no such entity"@) && final(self)@ == old(self)@,
            old(self)@.contains_key(id@) ==> r is Ok && is_copy_id(old(self)@.dom(), id@, r->Ok_0@)
                && final(self)@ == old(self)@.insert(r->Ok_0@, old(self)@[id@]),
    {
        let copy = match self.get_entity(id) {
            Some(e) => e.copy(),
            None => {
                return Err(LuaError::EntityProcessingError(id.clone(), text("no such entity")));
            },
        };
        let ghost pv = pairs_view(self.entities@);
        let ghost bound = max_key_len(pv);
        proof {
            lemma_max_key_len(pv);
            lemma_map_of_dom(pv);
            reveal_strlit("_copy");
        }
        let mut candidate = id.clone();
        candidate.append("_copy");
        let ghost mut n: nat = 1;
        proof {
            assert(copy_name(id@, 0) == id@);
        }
        while self.contains(&candidate)
            invariant
                self.wf(),
                pv == pairs_view(self.entities@),
                forall|k: Seq<char>| #[trigger] self@.contains_key(k) ==> k.len() <= bound,
                n >= 1,
                candidate@ == copy_name(id@, n),
                candidate@.len() == id@.len() + 5 * n,
                forall|m: nat| 1 <= m < n ==> self@.contains_key(#[trigger] copy_name(id@, m)),
            decreases (if candidate@.len() <= bound { bound + 1 - candidate@.len() } else { 0 }),
        {
            proof {
                reveal_strlit("_copy");
                assert(candidate@.len() <= bound);
            }
            candidate.append("_copy");
            proof {
                n = n + 1;
            }
        }
        proof {
            assert(is_copy_id(self@.dom(), id@, candidate@));
        }
        self.put(candidate.clone(), copy);
        Ok(candidate)
    }

    /// Replaces the entity `original_id` with the one written in the
    /// inspector: `parsed` is what its text reads as (`None` where it does
    /// not parse), `checks` the scripts given for it with their compile
    /// outcome. Answers with a success flag, a message and the entity's id.
    pub fn handle_inspector_save(
        &mut self,
        original_id: &String,
        parsed: &Option<Value>,
        checks: &Vec<ScriptCheck>,
    ) -> (r: (bool, String, String))
        requires
            old(self).wf(),
        ensures
            final(self).wf(),
            !r.0 ==> r.2@ == Seq::<char>::empty() && final(self)@ == old(self)@,
            (parsed is None || !(parsed->Some_0@ is Object)) ==> !r.0 && r.1@ == "Invalid syntax in inspector."@,
            parsed is Some && parsed->Some_0@ is Object && inspector_id(parsed->Some_0@) is None ==> !r.0
                && r.1@ == "Entity must have an ID."@,
            parsed is Some && inspector_id(parsed->Some_0@) is Some && !all_compiled(checks@) ==> !r.0
                && exists|i: int|
                0 <= i < checks.len() && (#[trigger] checks@[i]).error is Some && (forall|j: int|
                    0 <= j < i ==> (#[trigger] checks@[j]).error is None) && r.1@ == "Invalid syntax in "@
                    + checks@[i].name@ + " script: "@ + checks@[i].error->Some_0@,
            parsed is Some && inspector_id(parsed->Some_0@) is Some && all_compiled(checks@) && ({
                let id = inspector_id(parsed->Some_0@)->Some_0;
                id != original_id@ && old(self)@.contains_key(id)
            }) ==> !r.0 && r.1@ == "An entity with ID \""@ + inspector_id(parsed->Some_0@)->Some_0
                + "\" already exists."@,
            parsed is Some && inspector_id(parsed->Some_0@) is Some && all_compiled(checks@) && ({
                let id = inspector_id(parsed->Some_0@)->Some_0;
                id == original_id@ || !old(self)@.contains_key(id)
            }) ==> r.0 && r.1@ == "Success"@ && r.2@ == inspector_id(parsed->Some_0@)->Some_0
                && final(self)@ == old(self)@.remove(original_id@).insert(
                inspector_id(parsed->Some_0@)->Some_0,
                EntityModel {
                    props: plain_props(parsed->Some_0@),
                    scripts: map_of(check_pairs(checks@)),
                },
            ),
    {
        let m = match parsed {
            Some(Value::Object(m)) => m,
            _ => {
                return (false, text("Invalid syntax in inspector."), String::new());
            },
        };
        let mut props = normalized(m);
        let id_key = text("id");
        let id = match get_key(&props, &id_key) {
            Some(Value::Str(t)) => t.clone(),
            _ => {
                return (false, text("Entity must have an ID."), String::new());
            },
        };
        let mut scripts: Vec<(String, String)> = Vec::new();
        let mut i: usize = 0;
        while i < checks.len()
            invariant
                self.wf(),
                self@ == old(self)@,
                parsed is Some && parsed->Some_0@ is Object,
                inspector_id(parsed->Some_0@) == Some(id@),
                i <= checks.len(),
                forall|j: int| 0 <= j < i ==> (#[trigger] checks@[j]).error is None,
                keys_unique(pairs_view(scripts@)),
                map_of(pairs_view(scripts@)) == map_of(check_pairs(checks@).take(i as int)),
            decreases checks.len() - i,
        {
            match &checks[i].error {
                Some(e) => {
                    let mut msg = text("Invalid syntax in ");
                    msg.append(checks[i].name.as_str());
                    msg.append(" script: ");
                    msg.append(e.as_str());
                    return (false, msg, String::new());
                },
                None => {},
            }
            set_key(&mut scripts, checks[i].name.clone(), checks[i].source.clone());
            proof {
                assert(check_pairs(checks@).take(i + 1).drop_last() =~= check_pairs(checks@).take(i as int));
            }
            i = i + 1;
        }
        proof {
            assert(check_pairs(checks@).take(checks.len() as int) =~= check_pairs(checks@));
        }
        if id != *original_id && self.contains(&id) {
            let mut msg = text("An entity with ID \"");
            msg.append(id.as_str());
            msg.append("\" already exists.");
            return (false, msg, String::new());
        }
        remove_key(&mut props, &id_key);
        remove_key(&mut props, &text("scripts"));
        let e = Entity { props, scripts };
        let ghost before = self@;
        self.delete_entity(original_id);
        self.put(id.clone(), e);
        proof {
            if id@ == original_id@ {
                assert(before.remove(original_id@).insert(id@, e@) =~= before.insert(id@, e@));
            }
        }
        (true, text("Success"), id)
    }

    /// The scene as a structured value, each entity under its id (see
    /// [`Entity::to_value`]).
    pub fn to_value(&self) -> (r: Value)
        requires
            self.wf(),
        ensures
            valid_scene(r@),
            scene_of(r@) == self@,
    {
        let mut members: Vec<(String, Value)> = Vec::new();
        let mut i: usize = 0;
        while i < self.entities.len()
            invariant
                self.wf(),
                i <= self.entities.len(),
                members.len() == i,
                forall|j: int| 0 <= j < i ==> (#[trigger] members@[j]).0@ == self.entities@[j].0@
                    && valid_props(members@[j].1@) && entity_of(members@[j].1@) == self.entities@[j].1@,
            decreases self.entities.len() - i,
        {
            assert(self.entities@[i as int].1.wf());
            members.push((self.entities[i].0.clone(), self.entities[i].1.to_value()));
            i = i + 1;
        }
        let r = Value::Object(members);
        proof {
            lemma_members_of(members@);
            let ms = members_of(members@);
            assert(ms.map_values(|m: (Seq<char>, Json)| (m.0, entity_of(m.1))) =~= pairs_view(self.entities@));
        }
        r
    }

    /// The scene that a structured value holds, or `None` where it is not
    /// one (see [`valid_scene`]).
    pub fn from_value(v: &Value) -> (r: Option<Scene>)
        ensures
            r is Some <==> valid_scene(v@),
            r is Some ==> r->Some_0.wf() && r->Some_0@ == scene_of(v@),
    {
        let m = match v {
            Value::Object(m) => m,
            _ => {
                return None;
            },
        };
        let ghost ms = members_of(m@);
        let ghost es = ms.map_values(|p: (Seq<char>, Json)| (p.0, entity_of(p.1)));
        proof {
            lemma_members_of(m@);
        }
        let mut scene = Scene::new();
        let mut i: usize = 0;
        while i < m.len()
            invariant
                i <= m.len(),
                v@ == Json::Object(ms),
                ms == members_of(m@),
                es == ms.map_values(|p: (Seq<char>, Json)| (p.0, entity_of(p.1))),
                ms.len() == m.len(),
                forall|j: int| 0 <= j < m.len() ==> #[trigger] ms[j] == (m@[j].0@, json_of(m@[j].1)),
                forall|j: int| 0 <= j < i ==> valid_props(#[trigger] ms[j].1),
                scene.wf(),
                scene@ == map_of(es.take(i as int)),
            decreases m.len() - i,
        {
            match Entity::from_props(&m[i].1) {
                Some(e) => {
                    scene.put(m[i].0.clone(), e);
                    proof {
                        assert(es.take(i + 1).drop_last() =~= es.take(i as int));
                    }
                },
                None => {
                    assert(!valid_props(ms[i as int].1));
                    assert(v@->Object_0[i as int] == ms[i as int]);
                    assert(!valid_props(v@->Object_0[i as int].1));
                    return None;
                },
            }
            i = i + 1;
        }
        proof {
            assert(es.take(m.len() as int) =~= es);
        }
        Some(scene)
    }
}

} // verus!
