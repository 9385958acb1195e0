//! Association lists keyed by strings: the representation of every
//! string-keyed mapping in the store, with a map as their model.
use vstd::prelude::*;

verus! {

/// The pairs of an association list, each seen through its views.
pub open spec fn pairs_view<T: View>(s: Seq<(String, T)>) -> Seq<(Seq<char>, T::V)> {
    s.map_values(|p: (String, T)| (p.0@, p.1@))
}

/// The map that an association list stands for: later pairs override
/// earlier ones with the same key.
pub open spec fn map_of<X>(s: Seq<(Seq<char>, X)>) -> Map<Seq<char>, X>
    decreases s.len(),
{
    if s.len() == 0 {
        Map::empty()
    } else {
        map_of(s.drop_last()).insert(s.last().0, s.last().1)
    }
}

/// No key occurs twice.
pub open spec fn keys_unique<X>(s: Seq<(Seq<char>, X)>) -> bool {
    forall|i: int, j: int| 0 <= i < s.len() && 0 <= j < s.len() && i != j ==> s[i].0 != s[j].0
}

pub proof fn lemma_map_of_dom<X>(s: Seq<(Seq<char>, X)>)
    ensures
        forall|k: Seq<char>|
            #[trigger] map_of(s).contains_key(k) <==> exists|i: int| 0 <= i < s.len() && s[i].0 == k,
    decreases s.len(),
{
    if s.len() > 0 {
        let init = s.drop_last();
        lemma_map_of_dom(init);
        assert forall|k: Seq<char>| #[trigger] map_of(s).contains_key(k) implies exists|i: int|
            0 <= i < s.len() && s[i].0 == k by {
            if k != s.last().0 {
                assert(map_of(init).contains_key(k));
                let i = choose|i: int| 0 <= i < init.len() && init[i].0 == k;
                assert(s[i].0 == k);
            } else {
                assert(s[s.len() - 1].0 == k);
            }
        }
        assert forall|k: Seq<char>| (exists|i: int| 0 <= i < s.len() && s[i].0 == k) implies #[trigger] map_of(s).contains_key(k) by {
            let i = choose|i: int| 0 <= i < s.len() && s[i].0 == k;
            if i < s.len() - 1 {
                assert(init[i].0 == k);
                assert(map_of(init).contains_key(k));
            }
        }
    }
}

pub proof fn lemma_map_of_index<X>(s: Seq<(Seq<char>, X)>, i: int)
    requires
        keys_unique(s),
        0 <= i < s.len(),
    ensures
        map_of(s).contains_key(s[i].0),
        map_of(s)[s[i].0] == s[i].1,
    decreases s.len(),
{
    let init = s.drop_last();
    if i < s.len() - 1 {
        assert(keys_unique(init)) by {
            assert forall|a: int, b: int| 0 <= a < init.len() && 0 <= b < init.len() && a != b implies init[a].0 != init[b].0 by {
                assert(s[a].0 != s[b].0);
            }
        }
        lemma_map_of_index(init, i);
        assert(s[i].0 != s[s.len() - 1].0);
        assert(init[i] == s[i]);
    }
}

pub proof fn lemma_keys_unique_push<X>(s: Seq<(Seq<char>, X)>, k: Seq<char>, x: X)
    requires
        keys_unique(s),
        !map_of(s).contains_key(k),
    ensures
        keys_unique(s.push((k, x))),
{
    lemma_map_of_dom(s);
    let t = s.push((k, x));
    assert forall|a: int, b: int| 0 <= a < t.len() && 0 <= b < t.len() && a != b implies t[a].0 != t[b].0 by {
        if a < s.len() && b < s.len() {
            assert(s[a].0 != s[b].0);
        } else if a < s.len() {
            assert(s[a].0 != k);
        } else {
            assert(s[b].0 != k);
        }
    }
}

pub proof fn lemma_map_of_update<X>(s: Seq<(Seq<char>, X)>, i: int, x: X)
    requires
        keys_unique(s),
        0 <= i < s.len(),
    ensures
        keys_unique(s.update(i, (s[i].0, x))),
        map_of(s.update(i, (s[i].0, x))) == map_of(s).insert(s[i].0, x),
    decreases s.len(),
{
    let t = s.update(i, (s[i].0, x));
    assert forall|a: int, b: int| 0 <= a < t.len() && 0 <= b < t.len() && a != b implies t[a].0 != t[b].0 by {
        assert(s[a].0 != s[b].0);
    }
    let init = s.drop_last();
    assert(keys_unique(init)) by {
        assert forall|a: int, b: int| 0 <= a < init.len() && 0 <= b < init.len() && a != b implies init[a].0 != init[b].0 by {
            assert(s[a].0 != s[b].0);
        }
    }
    if i == s.len() - 1 {
        assert(t.drop_last() =~= init);
        lemma_map_of_dom(init);
        assert(map_of(t) =~= map_of(s).insert(s[i].0, x));
    } else {
        lemma_map_of_update(init, i, x);
        assert(t.drop_last() =~= init.update(i, (s[i].0, x)));
        assert(s[i].0 != s.last().0);
        assert(map_of(t) =~= map_of(s).insert(s[i].0, x));
    }
}

pub proof fn lemma_map_of_remove<X>(s: Seq<(Seq<char>, X)>, i: int)
    requires
        keys_unique(s),
        0 <= i < s.len(),
    ensures
        keys_unique(s.remove(i)),
        map_of(s.remove(i)) == map_of(s).remove(s[i].0),
    decreases s.len(),
{
    let t = s.remove(i);
    assert forall|a: int, b: int| 0 <= a < t.len() && 0 <= b < t.len() && a != b implies t[a].0 != t[b].0 by {
        let a2 = if a < i { a } else { a + 1 };
        let b2 = if b < i { b } else { b + 1 };
        assert(t[a] == s[a2]);
        assert(t[b] == s[b2]);
        assert(s[a2].0 != s[b2].0);
    }
    let init = s.drop_last();
    assert(keys_unique(init)) by {
        assert forall|a: int, b: int| 0 <= a < init.len() && 0 <= b < init.len() && a != b implies init[a].0 != init[b].0 by {
            assert(s[a].0 != s[b].0);
        }
    }
    if i == s.len() - 1 {
        assert(t =~= init);
        lemma_map_of_dom(init);
        assert forall|a: int| 0 <= a < init.len() implies init[a].0 != s[i].0 by {
            assert(s[a].0 != s[i].0);
        }
        assert(map_of(t) =~= map_of(s).remove(s[i].0));
    } else {
        lemma_map_of_remove(init, i);
        assert(t.drop_last() =~= init.remove(i));
        assert(t.last() == s.last());
        assert(s[i].0 != s.last().0);
        assert(map_of(t) =~= map_of(s).remove(s[i].0));
    }
}

/// Position of `key` in the list, if it occurs.
pub fn find_key<T: View>(entries: &Vec<(String, T)>, key: &String) -> (r: Option<usize>)
    ensures
        match r {
            Some(i) => i < entries.len() && entries@[i as int].0@ == key@,
            None => forall|i: int| 0 <= i < entries.len() ==> entries@[i].0@ != key@,
        },
{
    let mut i: usize = 0;
    while i < entries.len()
        invariant
            i <= entries.len(),
            forall|j: int| 0 <= j < i ==> entries@[j].0@ != key@,
        decreases entries.len() - i,
    {
        if entries[i].0 == *key {
            return Some(i);
        }
        i = i + 1;
    }
    None
}

/// Binds `key` to `val`, in place where the key occurs, at the end otherwise.
pub fn set_key<T: View>(entries: &mut Vec<(String, T)>, key: String, val: T)
    requires
        keys_unique(pairs_view(old(entries)@)),
    ensures
        keys_unique(pairs_view(final(entries)@)),
        map_of(pairs_view(final(entries)@)) == map_of(pairs_view(old(entries)@)).insert(key@, val@),
        forall|i: int|
            0 <= i < final(entries).len() ==> #[trigger] final(entries)@[i] == (key, val) || old(
                entries,
            )@.contains(final(entries)@[i]),
{
    let ghost olds = entries@;
    let ghost pair = (key, val);
    let ghost pv = pairs_view(entries@);
    let ghost k = key@;
    let ghost x = val@;
    match find_key(entries, &key) {
        Some(i) => {
            entries.set(i, (key, val));
            proof {
                assert(pv[i as int].0 == k);
                lemma_map_of_update(pv, i as int, x);
                assert(pairs_view(entries@) =~= pv.update(i as int, (pv[i as int].0, x)));
                assert forall|a: int| 0 <= a < entries.len() implies #[trigger] entries@[a] == pair || olds.contains(entries@[a]) by {
                    if a != i {
                        assert(olds[a] == entries@[a]);
                    }
                }
            }
        },
        None => {
            proof {
                lemma_map_of_dom(pv);
                if map_of(pv).contains_key(k) {
                    let j = choose|j: int| 0 <= j < pv.len() && pv[j].0 == k;
                    assert(entries@[j].0@ != k);
                }
                lemma_keys_unique_push(pv, k, x);
            }
            entries.push((key, val));
            proof {
                assert(pairs_view(entries@) =~= pv.push((k, x)));
                assert(pv.push((k, x)).drop_last() =~= pv);
                assert forall|a: int| 0 <= a < entries.len() implies #[trigger] entries@[a] == pair || olds.contains(entries@[a]) by {
                    if a < olds.len() {
                        assert(olds[a] == entries@[a]);
                    }
                }
            }
        },
    }
}

/// Unbinds `key`, if it is bound.
pub fn remove_key<T: View>(entries: &mut Vec<(String, T)>, key: &String)
    requires
        keys_unique(pairs_view(old(entries)@)),
    ensures
        keys_unique(pairs_view(final(entries)@)),
        map_of(pairs_view(final(entries)@)) == map_of(pairs_view(old(entries)@)).remove(key@),
        forall|i: int|
            0 <= i < final(entries).len() ==> old(entries)@.contains(#[trigger] final(entries)@[i]),
{
    let ghost pv = pairs_view(entries@);
    let ghost olds = entries@;
    match find_key(entries, key) {
        Some(i) => {
            entries.remove(i);
            proof {
                lemma_map_of_remove(pv, i as int);
                assert(pairs_view(entries@) =~= pv.remove(i as int));
                assert forall|a: int| 0 <= a < entries.len() implies olds.contains(#[trigger] entries@[a]) by {
                    if a < i {
                        assert(olds[a] == entries@[a]);
                    } else {
                        assert(olds[a + 1] == entries@[a]);
                    }
                }
            }
        },
        None => {
            proof {
                lemma_map_of_dom(pv);
                if map_of(pv).contains_key(key@) {
                    let j = choose|j: int| 0 <= j < pv.len() && pv[j].0 == key@;
                    assert(entries@[j].0@ != key@);
                }
                assert(map_of(pv) =~= map_of(pv).remove(key@));
                assert forall|a: int| 0 <= a < entries.len() implies olds.contains(#[trigger] entries@[a]) by {
                    assert(olds[a] == entries@[a]);
                }
            }
        },
    }
}

/// The value bound to `key`, if any.
pub fn get_key<'a, T: View>(entries: &'a Vec<(String, T)>, key: &String) -> (r: Option<&'a T>)
    requires
        keys_unique(pairs_view(entries@)),
    ensures
        match r {
            Some(v) => map_of(pairs_view(entries@)).contains_key(key@) && map_of(
                pairs_view(entries@),
            )[key@] == v@,
            None => !map_of(pairs_view(entries@)).contains_key(key@),
        },
{
    let ghost pv = pairs_view(entries@);
    proof {
        lemma_map_of_dom(pv);
    }
    match find_key(entries, key) {
        Some(i) => {
            proof {
                lemma_map_of_index(pv, i as int);
            }
            Some(&entries[i].1)
        },
        None => {
            proof {
                if map_of(pv).contains_key(key@) {
                    let j = choose|j: int| 0 <= j < pv.len() && pv[j].0 == key@;
                    assert(entries@[j].0@ != key@);
                }
            }
            None
        },
    }
}

} // verus!
