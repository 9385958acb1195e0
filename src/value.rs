//! Structured values exchanged with the user interface, the scripting
//! environment's value model, and the marshaller between the two.
use vstd::prelude::*;

verus! {

/// A JSON-like value as it crosses the boundary to the user interface.
///
/// Numbers are carried as the bit pattern of their IEEE 754 binary64
/// encoding: integers and fractions share one representation, so integers
/// beyond 2^53 are not kept exactly. An object is the list of its members.
#[derive(Debug)]
pub enum Value {
    Null,
    Bool(bool),
    Number(u64),
    Str(String),
    Array(Vec<Value>),
    Object(Vec<(String, Value)>),
}

/// Mathematical model of a [`Value`].
pub enum Json {
    Null,
    Bool(bool),
    Number(u64),
    Str(Seq<char>),
    Array(Seq<Json>),
    Object(Seq<(Seq<char>, Json)>),
}

/// A key of a table in the scripting environment.
#[derive(Debug)]
pub enum ScriptKey {
    /// An integral key (tables used as sequences count from 1).
    Index(u64),
    /// A string key.
    Name(String),
    /// A key of any other kind (a boolean, a fraction, a table, ...).
    Other,
}

/// A value of the scripting environment as seen by the host.
#[derive(Debug)]
pub enum ScriptValue {
    Nil,
    /// The null sentinel (a null light userdata), which stands for null
    /// where nil cannot: as the value of a table entry.
    Null,
    Boolean(bool),
    Number(u64),
    Text(String),
    /// A table: whether it is marked as an array (carries the array
    /// metatable), and the list of its entries.
    Table(bool, Vec<(ScriptKey, ScriptValue)>),
    /// A function of the scripting environment.
    Function,
    /// Userdata, threads and other handles without a plain-value form.
    Opaque,
}

/// Mathematical model of a [`ScriptKey`].
pub enum KeyModel {
    Index(nat),
    Name(Seq<char>),
    Other,
}

/// Mathematical model of a [`ScriptValue`].
pub enum ScriptModel {
    Nil,
    Null,
    Boolean(bool),
    Number(u64),
    Text(Seq<char>),
    Table(bool, Seq<(KeyModel, ScriptModel)>),
    Function,
    Opaque,
}

pub open spec fn json_of(v: Value) -> Json
    decreases v,
{
    match v {
        Value::Null => Json::Null,
        Value::Bool(b) => Json::Bool(b),
        Value::Number(n) => Json::Number(n),
        Value::Str(s) => Json::Str(s@),
        Value::Array(a) => Json::Array(jsons_of(a@)),
        Value::Object(m) => Json::Object(members_of(m@)),
    }
}

pub open spec fn jsons_of(s: Seq<Value>) -> Seq<Json>
    decreases s,
{
    if s.len() == 0 {
        Seq::empty()
    } else {
        jsons_of(s.drop_last()).push(json_of(s.last()))
    }
}

pub open spec fn members_of(s: Seq<(String, Value)>) -> Seq<(Seq<char>, Json)>
    decreases s,
{
    if s.len() == 0 {
        Seq::empty()
    } else {
        members_of(s.drop_last()).push((s.last().0@, json_of(s.last().1)))
    }
}

impl View for Value {
    type V = Json;

    open spec fn view(&self) -> Json {
        json_of(*self)
    }
}

impl View for ScriptKey {
    type V = KeyModel;

    open spec fn view(&self) -> KeyModel {
        match self {
            ScriptKey::Index(i) => KeyModel::Index(*i as nat),
            ScriptKey::Name(s) => KeyModel::Name(s@),
            ScriptKey::Other => KeyModel::Other,
        }
    }
}

pub open spec fn model_of(v: ScriptValue) -> ScriptModel
    decreases v,
{
    match v {
        ScriptValue::Nil => ScriptModel::Nil,
        ScriptValue::Null => ScriptModel::Null,
        ScriptValue::Boolean(b) => ScriptModel::Boolean(b),
        ScriptValue::Number(n) => ScriptModel::Number(n),
        ScriptValue::Text(s) => ScriptModel::Text(s@),
        ScriptValue::Table(marked, es) => ScriptModel::Table(marked, entries_of(es@)),
        ScriptValue::Function => ScriptModel::Function,
        ScriptValue::Opaque => ScriptModel::Opaque,
    }
}

pub open spec fn entries_of(s: Seq<(ScriptKey, ScriptValue)>) -> Seq<(KeyModel, ScriptModel)>
    decreases s,
{
    if s.len() == 0 {
        Seq::empty()
    } else {
        entries_of(s.drop_last()).push((s.last().0@, model_of(s.last().1)))
    }
}

impl View for ScriptValue {
    type V = ScriptModel;

    open spec fn view(&self) -> ScriptModel {
        model_of(*self)
    }
}

pub proof fn lemma_jsons_of(s: Seq<Value>)
    ensures
        jsons_of(s).len() == s.len(),
        forall|i: int| 0 <= i < s.len() ==> #[trigger] jsons_of(s)[i] == json_of(s[i]),
    decreases s.len(),
{
    if s.len() > 0 {
        lemma_jsons_of(s.drop_last());
    }
}

pub proof fn lemma_members_of(s: Seq<(String, Value)>)
    ensures
        members_of(s).len() == s.len(),
        forall|i: int|
            0 <= i < s.len() ==> #[trigger] members_of(s)[i] == (s[i].0@, json_of(s[i].1)),
    decreases s.len(),
{
    if s.len() > 0 {
        lemma_members_of(s.drop_last());
    }
}

pub proof fn lemma_entries_of(s: Seq<(ScriptKey, ScriptValue)>)
    ensures
        entries_of(s).len() == s.len(),
        forall|i: int|
            0 <= i < s.len() ==> #[trigger] entries_of(s)[i] == (s[i].0@, model_of(s[i].1)),
    decreases s.len(),
{
    if s.len() > 0 {
        lemma_entries_of(s.drop_last());
    }
}

/// The scripting environment's form of a structured value: null becomes
/// nil, arrays become tables marked as arrays and keyed 1, 2, ... in order,
/// objects become unmarked tables keyed by name. Inside a table, null
/// becomes the null sentinel (see [`entry_form`]). An object that names a
/// member twice gives two entries with that key; a Lua table keeps only the
/// later one, which is why the round trip is stated for objects whose
/// member names are unique (see [`names_unique`]).
pub open spec fn script_of(j: Json) -> ScriptModel
    decreases j,
{
    match j {
        Json::Null => ScriptModel::Nil,
        Json::Bool(b) => ScriptModel::Boolean(b),
        Json::Number(n) => ScriptModel::Number(n),
        Json::Str(s) => ScriptModel::Text(s),
        Json::Array(items) => ScriptModel::Table(true, indexed_entries(items)),
        Json::Object(members) => ScriptModel::Table(false, named_entries(members)),
    }
}

pub open spec fn indexed_entries(items: Seq<Json>) -> Seq<(KeyModel, ScriptModel)>
    decreases items,
{
    if items.len() == 0 {
        Seq::empty()
    } else {
        let last = items[items.len() - 1];
        indexed_entries(items.drop_last()).push(
            (
                KeyModel::Index(items.len()),
                if last is Null {
                    ScriptModel::Null
                } else {
                    script_of(last)
                },
            ),
        )
    }
}

pub open spec fn named_entries(members: Seq<(Seq<char>, Json)>) -> Seq<(KeyModel, ScriptModel)>
    decreases members,
{
    if members.len() == 0 {
        Seq::empty()
    } else {
        let last = members[members.len() - 1];
        named_entries(members.drop_last()).push(
            (
                KeyModel::Name(last.0),
                if last.1 is Null {
                    ScriptModel::Null
                } else {
                    script_of(last.1)
                },
            ),
        )
    }
}

/// The form of a value held by a table: a table cannot hold nil, so null
/// is held as the null sentinel.
pub open spec fn entry_form(j: Json) -> ScriptModel {
    if j is Null {
        ScriptModel::Null
    } else {
        script_of(j)
    }
}

/// The entries are keyed 1, 2, ..., n in this order. (The host lists a
/// table's entries from 1 up to its border first, so a table keyed 1..n
/// comes in this order whatever order Lua's traversal would take.)
pub open spec fn is_sequence(es: Seq<(KeyModel, ScriptModel)>) -> bool {
    forall|i: int| 0 <= i < es.len() ==> #[trigger] es[i].0 == KeyModel::Index((i + 1) as nat)
}

/// Every entry has a string key.
pub open spec fn is_record(es: Seq<(KeyModel, ScriptModel)>) -> bool {
    forall|i: int| 0 <= i < es.len() ==> #[trigger] es[i].0 is Name
}

/// The structured value that a script value stands for, if it has one.
///
/// Nil and the null sentinel are null. A table keyed 1..n in order is an
/// array if it is marked as one or is not empty; an unmarked table with
/// string keys only (the empty one among them) is an object; functions,
/// handles and tables with other keys have no structured form.
pub open spec fn json_of_script(s: ScriptModel) -> Option<Json>
    decreases s,
{
    match s {
        ScriptModel::Nil => Some(Json::Null),
        ScriptModel::Null => Some(Json::Null),
        ScriptModel::Boolean(b) => Some(Json::Bool(b)),
        ScriptModel::Number(n) => Some(Json::Number(n)),
        ScriptModel::Text(t) => Some(Json::Str(t)),
        ScriptModel::Table(marked, es) => {
            if is_sequence(es) && (marked || es.len() > 0) {
                match items_from(es) {
                    Some(xs) => Some(Json::Array(xs)),
                    None => None,
                }
            } else if !marked && is_record(es) {
                match members_from(es) {
                    Some(ms) => Some(Json::Object(ms)),
                    None => None,
                }
            } else {
                None
            }
        },
        ScriptModel::Function => None,
        ScriptModel::Opaque => None,
    }
}

pub open spec fn items_from(es: Seq<(KeyModel, ScriptModel)>) -> Option<Seq<Json>>
    decreases es,
{
    if es.len() == 0 {
        Some(Seq::empty())
    } else {
        match (items_from(es.drop_last()), json_of_script(es[es.len() - 1].1)) {
            (Some(xs), Some(x)) => Some(xs.push(x)),
            _ => None,
        }
    }
}

pub open spec fn members_from(es: Seq<(KeyModel, ScriptModel)>) -> Option<Seq<(Seq<char>, Json)>>
    decreases es,
{
    if es.len() == 0 {
        Some(Seq::empty())
    } else {
        let last = es[es.len() - 1];
        match (members_from(es.drop_last()), json_of_script(last.1)) {
            (Some(ms), Some(x)) => Some(ms.push((last.0->Name_0, x))),
            _ => None,
        }
    }
}

/// A script value in the form the host gives: every table that reads as an
/// array is marked as one, and no table entry holds nil.
pub open spec fn well_marked(s: ScriptModel) -> bool
    decreases s,
{
    match s {
        ScriptModel::Table(marked, es) => (marked || !(es.len() > 0 && is_sequence(es)))
            && entries_well_marked(es),
        _ => true,
    }
}

pub open spec fn entries_well_marked(es: Seq<(KeyModel, ScriptModel)>) -> bool
    decreases es,
{
    es.len() == 0 || (entries_well_marked(es.drop_last()) && !(es[es.len() - 1].1 is Nil)
        && well_marked(es[es.len() - 1].1))
}

/// Every object inside the value, at any depth, names each member once,
/// as a JSON object does.
pub open spec fn names_unique(j: Json) -> bool
    decreases j,
{
    match j {
        Json::Array(items) => items_names_unique(items),
        Json::Object(members) => member_names_distinct(members) && members_names_unique(members),
        _ => true,
    }
}

pub open spec fn member_names_distinct(members: Seq<(Seq<char>, Json)>) -> bool {
    forall|i: int, k: int|
        0 <= i < k < members.len() ==> (#[trigger] members[i]).0 != (#[trigger] members[k]).0
}

pub open spec fn items_names_unique(items: Seq<Json>) -> bool
    decreases items,
{
    items.len() == 0 || (items_names_unique(items.drop_last()) && names_unique(
        items[items.len() - 1],
    ))
}

pub open spec fn members_names_unique(members: Seq<(Seq<char>, Json)>) -> bool
    decreases members,
{
    members.len() == 0 || (members_names_unique(members.drop_last()) && names_unique(
        members[members.len() - 1].1,
    ))
}

proof fn lemma_items_round_trip(items: Seq<Json>)
    requires
        items_names_unique(items),
    ensures
        indexed_entries(items).len() == items.len(),
        is_sequence(indexed_entries(items)),
        items_from(indexed_entries(items)) == Some(items),
    decreases items,
{
    if items.len() > 0 {
        let init = items.drop_last();
        let last = items[items.len() - 1];
        lemma_items_round_trip(init);
        if !(last is Null) {
            lemma_json_round_trip(last);
        } else {
            assert(last == Json::Null);
        }
        let es = indexed_entries(items);
        assert(es.drop_last() =~= indexed_entries(init));
        assert(es[es.len() - 1].1 == entry_form(last));
        assert(json_of_script(entry_form(last)) == Some(last));
        assert(items_from(es) == Some(init.push(last)));
        assert(init.push(last) =~= items);
    }
}

proof fn lemma_members_round_trip(members: Seq<(Seq<char>, Json)>)
    requires
        members_names_unique(members),
    ensures
        named_entries(members).len() == members.len(),
        is_record(named_entries(members)),
        members_from(named_entries(members)) == Some(members),
    decreases members,
{
    if members.len() > 0 {
        let init = members.drop_last();
        let last = members[members.len() - 1];
        lemma_members_round_trip(init);
        if !(last.1 is Null) {
            lemma_json_round_trip(last.1);
        } else {
            assert(last.1 == Json::Null);
        }
        let es = named_entries(members);
        assert(es.drop_last() =~= named_entries(init));
        assert(es[es.len() - 1].1 == entry_form(last.1));
        assert(json_of_script(entry_form(last.1)) == Some(last.1));
        assert(init.push(last) =~= members);
    }
}

/// Every structured value whose objects name each member once comes back
/// unchanged from the scripting environment's form, at any depth: arrays
/// (the empty one among them), objects, nulls inside either, and scalars.
pub proof fn lemma_json_round_trip(j: Json)
    requires
        names_unique(j),
    ensures
        json_of_script(script_of(j)) == Some(j),
    decreases j,
{
    match j {
        Json::Array(items) => {
            lemma_items_round_trip(items);
        },
        Json::Object(members) => {
            lemma_members_round_trip(members);
            let es = named_entries(members);
            if es.len() > 0 {
                assert(es[0].0 is Name);
            }
        },
        _ => {},
    }
}

proof fn lemma_items_back(es: Seq<(KeyModel, ScriptModel)>, xs: Seq<Json>)
    requires
        is_sequence(es),
        items_from(es) == Some(xs),
        entries_well_marked(es),
    ensures
        xs.len() == es.len(),
        indexed_entries(xs) == es,
    decreases es,
{
    if es.len() > 0 {
        let init = es.drop_last();
        let last = es[es.len() - 1];
        let xs0 = items_from(init)->Some_0;
        let x = json_of_script(last.1)->Some_0;
        assert forall|i: int| 0 <= i < init.len() implies #[trigger] init[i].0 == KeyModel::Index(
            (i + 1) as nat,
        ) by {
            assert(es[i].0 == KeyModel::Index((i + 1) as nat));
        }
        lemma_items_back(init, xs0);
        if !(x is Null) {
            lemma_script_back(last.1, x);
        }
        assert(xs.drop_last() =~= xs0);
        assert(es[es.len() - 1].0 == KeyModel::Index(es.len() as nat));
        assert(indexed_entries(xs) =~= es);
    } else {
        assert(xs =~= Seq::<Json>::empty());
        assert(es =~= Seq::<(KeyModel, ScriptModel)>::empty());
    }
}

proof fn lemma_members_back(es: Seq<(KeyModel, ScriptModel)>, ms: Seq<(Seq<char>, Json)>)
    requires
        is_record(es),
        members_from(es) == Some(ms),
        entries_well_marked(es),
    ensures
        ms.len() == es.len(),
        named_entries(ms) == es,
    decreases es,
{
    if es.len() > 0 {
        let init = es.drop_last();
        let last = es[es.len() - 1];
        let ms0 = members_from(init)->Some_0;
        let x = json_of_script(last.1)->Some_0;
        assert forall|i: int| 0 <= i < init.len() implies #[trigger] init[i].0 is Name by {
            assert(es[i].0 is Name);
        }
        lemma_members_back(init, ms0);
        if !(x is Null) {
            lemma_script_back(last.1, x);
        }
        assert(ms.drop_last() =~= ms0);
        assert(es[es.len() - 1].0 is Name);
        assert(named_entries(ms) =~= es);
    } else {
        assert(ms =~= Seq::<(Seq<char>, Json)>::empty());
        assert(es =~= Seq::<(KeyModel, ScriptModel)>::empty());
    }
}

/// A script value in the host's form (see [`well_marked`]) that has a
/// structured form and is not the null sentinel is exactly the scripting
/// environment's form of it.
pub proof fn lemma_script_back(s: ScriptModel, j: Json)
    requires
        json_of_script(s) == Some(j),
        well_marked(s),
        !(s is Null),
    ensures
        script_of(j) == s,
    decreases s,
{
    match s {
        ScriptModel::Table(marked, es) => {
            if is_sequence(es) && (marked || es.len() > 0) {
                lemma_items_back(es, j->Array_0);
            } else {
                lemma_members_back(es, j->Object_0);
            }
        },
        _ => {},
    }
}

proof fn lemma_indexed_entries(items: Seq<Json>)
    ensures
        indexed_entries(items).len() == items.len(),
        forall|i: int|
            0 <= i < items.len() ==> #[trigger] indexed_entries(items)[i] == (
                KeyModel::Index((i + 1) as nat),
                entry_form(items[i]),
            ),
    decreases items.len(),
{
    if items.len() > 0 {
        lemma_indexed_entries(items.drop_last());
    }
}

proof fn lemma_named_entries(members: Seq<(Seq<char>, Json)>)
    ensures
        named_entries(members).len() == members.len(),
        forall|i: int|
            0 <= i < members.len() ==> #[trigger] named_entries(members)[i] == (
                KeyModel::Name(members[i].0),
                entry_form(members[i].1),
            ),
    decreases members.len(),
{
    if members.len() > 0 {
        lemma_named_entries(members.drop_last());
    }
}

proof fn lemma_items_from(es: Seq<(KeyModel, ScriptModel)>)
    ensures
        items_from(es) is Some <==> (forall|i: int|
            0 <= i < es.len() ==> (#[trigger] json_of_script(es[i].1)) is Some),
        items_from(es) is Some ==> items_from(es)->Some_0.len() == es.len() && (forall|i: int|
            0 <= i < es.len() ==> Some(#[trigger] items_from(es)->Some_0[i]) == json_of_script(
                es[i].1,
            )),
    decreases es.len(),
{
    if es.len() > 0 {
        let init = es.drop_last();
        lemma_items_from(init);
        assert forall|i: int| 0 <= i < init.len() implies init[i] == es[i] by {}
        if items_from(es) is None && items_from(init) is Some {
            assert(json_of_script(es[es.len() - 1].1) is None);
        }
        if items_from(es) is None && items_from(init) is None {
            let k = choose|k: int| 0 <= k < init.len() && (#[trigger] json_of_script(init[k].1)) is None;
            assert(json_of_script(es[k].1) is None);
        }
    }
}

proof fn lemma_members_from(es: Seq<(KeyModel, ScriptModel)>)
    ensures
        members_from(es) is Some <==> (forall|i: int|
            0 <= i < es.len() ==> (#[trigger] json_of_script(es[i].1)) is Some),
        members_from(es) is Some ==> members_from(es)->Some_0.len() == es.len() && (forall|i: int|
            0 <= i < es.len() ==> Some(#[trigger] members_from(es)->Some_0[i].1) == json_of_script(
                es[i].1,
            ) && members_from(es)->Some_0[i].0 == es[i].0->Name_0),
    decreases es.len(),
{
    if es.len() > 0 {
        let init = es.drop_last();
        lemma_members_from(init);
        assert forall|i: int| 0 <= i < init.len() implies init[i] == es[i] by {}
        if members_from(es) is None && members_from(init) is Some {
            assert(json_of_script(es[es.len() - 1].1) is None);
        }
        if members_from(es) is None && members_from(init) is None {
            let k = choose|k: int| 0 <= k < init.len() && (#[trigger] json_of_script(init[k].1)) is None;
            assert(json_of_script(es[k].1) is None);
        }
    }
}

/// Why a script value could not be turned into a structured value.
#[derive(Debug)]
pub enum MarshalError {
    /// A function, a handle, or a table whose keys are neither 1..n in order
    /// nor all strings, was found where a plain value was expected.
    NoPlainForm,
}

impl MarshalError {
    /// The text that describes the error.
    pub fn message(&self) -> (r: String)
        ensures
            r@ == "value has no plain form (a function, a handle, or a table with mixed keys)"@,
    {
        String::from_str("value has no plain form (a function, a handle, or a table with mixed keys)")
    }
}

/// Converts a structured value into the scripting environment's form.
pub fn json_value_to_lua(v: &Value) -> (r: ScriptValue)
    ensures
        r@ == script_of(v@),
    decreases v@,
{
    match v {
        Value::Null => ScriptValue::Nil,
        Value::Bool(b) => ScriptValue::Boolean(*b),
        Value::Number(n) => ScriptValue::Number(*n),
        Value::Str(t) => ScriptValue::Text(t.clone()),
        Value::Array(a) => {
            let ghost items = jsons_of(a@);
            proof {
                lemma_jsons_of(a@);
                lemma_indexed_entries(items);
            }
            let mut out: Vec<(ScriptKey, ScriptValue)> = Vec::new();
            let mut i: usize = 0;
            while i < a.len()
                invariant
                    i <= a.len(),
                    v@ == Json::Array(items),
                    items == jsons_of(a@),
                    items.len() == a.len(),
                    forall|j: int| 0 <= j < a.len() ==> #[trigger] items[j] == json_of(a@[j]),
                    out.len() == i,
                    forall|j: int|
                        0 <= j < i ==> (#[trigger] out@[j]).0@ == KeyModel::Index((j + 1) as nat)
                            && model_of(out@[j].1) == entry_form(items[j]),
                decreases a.len() - i,
            {
                proof {
                    assert(decreases_to!(v@ => v@->Array_0));
                    assert(decreases_to!(items => items[i as int]));
                }
                let c = match &a[i] {
                    Value::Null => ScriptValue::Null,
                    item => json_value_to_lua(item),
                };
                out.push((ScriptKey::Index((i + 1) as u64), c));
                i = i + 1;
            }
            proof {
                lemma_entries_of(out@);
                assert(entries_of(out@) =~= indexed_entries(items));
            }
            ScriptValue::Table(true, out)
        },
        Value::Object(m) => {
            let ghost members = members_of(m@);
            proof {
                lemma_members_of(m@);
                lemma_named_entries(members);
            }
            let mut out: Vec<(ScriptKey, ScriptValue)> = Vec::new();
            let mut i: usize = 0;
            while i < m.len()
                invariant
                    i <= m.len(),
                    v@ == Json::Object(members),
                    members == members_of(m@),
                    members.len() == m.len(),
                    forall|j: int|
                        0 <= j < m.len() ==> #[trigger] members[j] == (m@[j].0@, json_of(m@[j].1)),
                    out.len() == i,
                    forall|j: int|
                        0 <= j < i ==> (#[trigger] out@[j]).0@ == KeyModel::Name(members[j].0)
                            && model_of(out@[j].1) == entry_form(members[j].1),
                decreases m.len() - i,
            {
                proof {
                    assert(decreases_to!(v@ => v@->Object_0));
                    assert(decreases_to!(members => members[i as int]));
                    assert(decreases_to!(members[i as int] => members[i as int].1));
                }
                let c = match &m[i].1 {
                    Value::Null => ScriptValue::Null,
                    item => json_value_to_lua(item),
                };
                out.push((ScriptKey::Name(m[i].0.clone()), c));
                i = i + 1;
            }
            proof {
                lemma_entries_of(out@);
                assert(entries_of(out@) =~= named_entries(members));
            }
            ScriptValue::Table(false, out)
        },
    }
}

/// Converts a script value back into a structured value, failing on values
/// that have no plain form.
pub fn from_script(s: &ScriptValue) -> (r: Result<Value, MarshalError>)
    ensures
        match json_of_script(s@) {
            Some(j) => r is Ok && r->Ok_0@ == j,
            None => r is Err,
        },
    decreases s@,
{
    match s {
        ScriptValue::Nil => Ok(Value::Null),
        ScriptValue::Null => Ok(Value::Null),
        ScriptValue::Boolean(b) => Ok(Value::Bool(*b)),
        ScriptValue::Number(n) => Ok(Value::Number(*n)),
        ScriptValue::Text(t) => Ok(Value::Str(t.clone())),
        ScriptValue::Function => Err(MarshalError::NoPlainForm),
        ScriptValue::Opaque => Err(MarshalError::NoPlainForm),
        ScriptValue::Table(marked, es) => {
            let ghost ents = entries_of(es@);
            proof {
                lemma_entries_of(es@);
                lemma_items_from(ents);
                lemma_members_from(ents);
            }
            let mut sequential = true;
            let mut i: usize = 0;
            while i < es.len()
                invariant
                    i <= es.len(),
                    ents == entries_of(es@),
                    ents.len() == es.len(),
                    forall|j: int| 0 <= j < es.len() ==> #[trigger] ents[j] == (es@[j].0@, model_of(es@[j].1)),
                    sequential <==> forall|j: int|
                        0 <= j < i ==> #[trigger] ents[j].0 == KeyModel::Index((j + 1) as nat),
                decreases es.len() - i,
            {
                let want: usize = i + 1;
                let ghost before = sequential;
                match &es[i].0 {
                    ScriptKey::Index(k) => {
                        assert(want as u64 as nat == want as nat);
                        if *k != want as u64 {
                            sequential = false;
                        }
                    },
                    _ => {
                        sequential = false;
                    },
                }
                proof {
                    if before && !sequential {
                        assert(ents[i as int].0 != KeyModel::Index((i + 1) as nat));
                    }
                }
                i = i + 1;
            }
            if sequential && (*marked || es.len() > 0) {
                assert(is_sequence(ents));
                let mut out: Vec<Value> = Vec::new();
                let mut i: usize = 0;
                while i < es.len()
                    invariant
                        i <= es.len(),
                        s@ == ScriptModel::Table(*marked, ents),
                        ents == entries_of(es@),
                        ents.len() == es.len(),
                        forall|j: int| 0 <= j < es.len() ==> #[trigger] ents[j] == (es@[j].0@, model_of(es@[j].1)),
                        is_sequence(ents) && (*marked || es.len() > 0),
                        out.len() == i,
                        forall|j: int|
                            0 <= j < i ==> json_of_script(ents[j].1) == Some(json_of(#[trigger] out@[j])),
                    decreases es.len() - i,
                {
                    proof {
                        assert(decreases_to!(s@ => s@->Table_1));
                        assert(decreases_to!(ents => ents[i as int]));
                        assert(decreases_to!(ents[i as int] => ents[i as int].1));
                    }
                    match from_script(&es[i].1) {
                        Ok(x) => {
                            out.push(x);
                        },
                        Err(e) => {
                            proof {
                                lemma_items_from(ents);
                                assert(json_of_script(ents[i as int].1) is None);
                            }
                            return Err(e);
                        },
                    }
                    i = i + 1;
                }
                proof {
                    lemma_items_from(ents);
                    lemma_jsons_of(out@);
                    assert forall|j: int| 0 <= j < ents.len() implies (#[trigger] json_of_script(ents[j].1)) is Some by {
                        assert(json_of_script(ents[j].1) == Some(json_of(out@[j])));
                    }
                    let xs = items_from(ents)->Some_0;
                    assert forall|j: int| 0 <= j < ents.len() implies #[trigger] xs[j] == jsons_of(out@)[j] by {
                        assert(json_of_script(ents[j].1) == Some(json_of(out@[j])));
                    }
                    assert(xs =~= jsons_of(out@));
                }
                Ok(Value::Array(out))
            } else {
                proof {
                    if is_sequence(ents) {
                        assert forall|j: int| 0 <= j < es.len() implies #[trigger] ents[j].0 == KeyModel::Index((j + 1) as nat) by {}
                    }
                }
                if *marked {
                    return Err(MarshalError::NoPlainForm);
                }
                let mut record = true;
                let mut i: usize = 0;
                while i < es.len()
                    invariant
                        i <= es.len(),
                        ents == entries_of(es@),
                        ents.len() == es.len(),
                        forall|j: int| 0 <= j < es.len() ==> #[trigger] ents[j] == (es@[j].0@, model_of(es@[j].1)),
                        record <==> forall|j: int| 0 <= j < i ==> #[trigger] ents[j].0 is Name,
                        s@ == ScriptModel::Table(*marked, ents),
                        !(is_sequence(ents) && (*marked || es.len() > 0)),
                        !*marked,
                    decreases es.len() - i,
                {
                    match &es[i].0 {
                        ScriptKey::Name(_) => {},
                        _ => {
                            record = false;
                            assert(!(ents[i as int].0 is Name));
                        },
                    }
                    i = i + 1;
                }
                if !record {
                    return Err(MarshalError::NoPlainForm);
                }
                let mut out: Vec<(String, Value)> = Vec::new();
                let mut i: usize = 0;
                while i < es.len()
                    invariant
                        i <= es.len(),
                        s@ == ScriptModel::Table(*marked, ents),
                        ents == entries_of(es@),
                        ents.len() == es.len(),
                        forall|j: int| 0 <= j < es.len() ==> #[trigger] ents[j] == (es@[j].0@, model_of(es@[j].1)),
                        is_record(ents),
                        !(is_sequence(ents) && (*marked || es.len() > 0)),
                        !*marked,
                        out.len() == i,
                        forall|j: int|
                            0 <= j < i ==> json_of_script(ents[j].1) == Some(json_of((#[trigger] out@[j]).1))
                                && out@[j].0@ == ents[j].0->Name_0,
                    decreases es.len() - i,
                {
                    proof {
                        assert(decreases_to!(s@ => s@->Table_1));
                        assert(decreases_to!(ents => ents[i as int]));
                        assert(decreases_to!(ents[i as int] => ents[i as int].1));
                        assert(ents[i as int].0 is Name);
                    }
                    let key = match &es[i].0 {
                        ScriptKey::Name(n) => n.clone(),
                        _ => {
                            return Err(MarshalError::NoPlainForm);
                        },
                    };
                    match from_script(&es[i].1) {
                        Ok(x) => {
                            out.push((key, x));
                        },
                        Err(e) => {
                            proof {
                                lemma_members_from(ents);
                                assert(json_of_script(ents[i as int].1) is None);
                            }
                            return Err(e);
                        },
                    }
                    i = i + 1;
                }
                proof {
                    lemma_members_from(ents);
                    lemma_members_of(out@);
                    assert forall|j: int| 0 <= j < ents.len() implies (#[trigger] json_of_script(ents[j].1)) is Some by {
                        assert(json_of_script(ents[j].1) == Some(json_of(out@[j].1)));
                    }
                    let ms = members_from(ents)->Some_0;
                    assert forall|j: int| 0 <= j < ents.len() implies #[trigger] ms[j] == members_of(out@)[j] by {
                        assert(json_of_script(ents[j].1) == Some(json_of(out@[j].1)));
                        assert(Some(ms[j].1) == json_of_script(ents[j].1));
                        assert(ms[j].0 == ents[j].0->Name_0);
                        assert(members_of(out@)[j] == (out@[j].0@, json_of(out@[j].1)));
                    }
                    assert(ms =~= members_of(out@));
                }
                Ok(Value::Object(out))
            }
        },
    }
}

impl Value {
    /// A deep copy of the value.
    pub fn copy(&self) -> (r: Value)
        ensures
            r@ == self@,
        decreases self@,
    {
        match self {
            Value::Null => Value::Null,
            Value::Bool(b) => Value::Bool(*b),
            Value::Number(n) => Value::Number(*n),
            Value::Str(t) => Value::Str(t.clone()),
            Value::Array(a) => {
                let ghost items = jsons_of(a@);
                proof {
                    lemma_jsons_of(a@);
                }
                let mut out: Vec<Value> = Vec::new();
                let mut i: usize = 0;
                while i < a.len()
                    invariant
                        i <= a.len(),
                        self@ == Json::Array(items),
                        items == jsons_of(a@),
                        items.len() == a.len(),
                        forall|j: int| 0 <= j < a.len() ==> #[trigger] items[j] == json_of(a@[j]),
                        out.len() == i,
                        forall|j: int| 0 <= j < i ==> json_of(#[trigger] out@[j]) == items[j],
                    decreases a.len() - i,
                {
                    proof {
                        assert(decreases_to!(self@ => self@->Array_0));
                        assert(decreases_to!(items => items[i as int]));
                    }
                    let c = a[i].copy();
                    out.push(c);
                    i = i + 1;
                }
                proof {
                    lemma_jsons_of(out@);
                    assert(jsons_of(out@) =~= items);
                }
                Value::Array(out)
            },
            Value::Object(m) => {
                let ghost members = members_of(m@);
                proof {
                    lemma_members_of(m@);
                }
                let mut out: Vec<(String, Value)> = Vec::new();
                let mut i: usize = 0;
                while i < m.len()
                    invariant
                        i <= m.len(),
                        self@ == Json::Object(members),
                        members == members_of(m@),
                        members.len() == m.len(),
                        forall|j: int|
                            0 <= j < m.len() ==> #[trigger] members[j] == (m@[j].0@, json_of(m@[j].1)),
                        out.len() == i,
                        forall|j: int|
                            0 <= j < i ==> (#[trigger] out@[j]).0@ == members[j].0 && json_of(out@[j].1)
                                == members[j].1,
                    decreases m.len() - i,
                {
                    proof {
                        assert(decreases_to!(self@ => self@->Object_0));
                        assert(decreases_to!(members => members[i as int]));
                        assert(decreases_to!(members[i as int] => members[i as int].1));
                    }
                    let c = m[i].1.copy();
                    out.push((m[i].0.clone(), c));
                    i = i + 1;
                }
                proof {
                    lemma_members_of(out@);
                    assert(members_of(out@) =~= members);
                }
                Value::Object(out)
            },
        }
    }
}

} // verus!
