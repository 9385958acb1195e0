//! The module loader's plan: which script files under the resource root
//! become lazily loaded modules, and under which dotted names.
use vstd::prelude::*;

verus! {

/// The path with every `/` turned into `.`.
pub open spec fn dotted(p: Seq<char>) -> Seq<char> {
    p.map_values(|c: char| if c == '/' { '.' } else { c })
}

/// The module name of a file, given by its path relative to the resource
/// root with `/` between components: the path without its `.lua` extension,
/// components joined by dots. Files of other kinds have none, nor has a
/// file whose whole name is `.lua` (its name has no stem, so no extension).
pub open spec fn module_name_of(p: Seq<char>) -> Option<Seq<char>> {
    if p.len() > 4 && p.subrange(p.len() - 4, p.len() as int) == ".lua"@ && p[p.len() - 5] != '/' {
        Some(dotted(p.subrange(0, p.len() - 4)))
    } else {
        None
    }
}

/// The name of the entry script, which the runtime loads itself.
pub open spec fn entry_name() -> Seq<char> {
    "main"@
}

pub open spec fn names(reg: Seq<(Seq<char>, nat)>) -> Seq<Seq<char>> {
    reg.map_values(|e: (Seq<char>, nat)| e.0)
}

/// The registry that the files give, in order: each file's module name
/// with the file's position, but for the entry script and for a name that
/// an earlier file already took.
pub open spec fn registry_of(files: Seq<Seq<char>>) -> Seq<(Seq<char>, nat)>
    decreases files.len(),
{
    if files.len() == 0 {
        Seq::empty()
    } else {
        let before = registry_of(files.drop_last());
        match module_name_of(files.last()) {
            Some(n) => if n != entry_name() && !names(before).contains(n) {
                before.push((n, (files.len() - 1) as nat))
            } else {
                before
            },
            None => before,
        }
    }
}

/// The module name of a file (see [`module_name_of`]).
pub fn module_name(path: &String) -> (r: Option<String>)
    ensures
        match module_name_of(path@) {
            Some(n) => r is Some && r->Some_0@ == n,
            None => r is None,
        },
{
    let p = path.as_str();
    let len = p.unicode_len();
    if len <= 4 {
        return None;
    }
    let ext = String::from_str(p.substring_char(len - 4, len));
    if ext != String::from_str(".lua") {
        return None;
    }
    if p.get_char(len - 5) == '/' {
        return None;
    }
    let stem_len = len - 4;
    let mut out = String::new();
    let mut start: usize = 0;
    let mut i: usize = 0;
    proof {
        reveal_strlit(".");
    }
    while i < stem_len
        invariant
            len == p@.len(),
            stem_len == len - 4,
            p@ == path@,
            start <= i <= stem_len,
            out@ == dotted(p@.subrange(0, start as int)),
            forall|j: int| start <= j < i ==> p@[j] != '/',
        decreases stem_len - i,
    {
        if p.get_char(i) == '/' {
            let piece = p.substring_char(start, i);
            out.append(piece);
            out.append(".");
            proof {
                reveal_strlit(".");
                let lhs = dotted(p@.subrange(0, i + 1));
                let rhs = dotted(p@.subrange(0, start as int)) + piece@ + "."@;
                assert(lhs.len() == rhs.len());
                assert forall|j: int| 0 <= j < lhs.len() implies lhs[j] == rhs[j] by {
                    if j < start {
                    } else if j < i {
                        assert(piece@[j - start] == p@[j]);
                    } else {
                        assert("."@[0] == '.');
                    }
                }
                assert(lhs =~= rhs);
            }
            start = i + 1;
        }
        i = i + 1;
    }
    let piece = p.substring_char(start, stem_len);
    out.append(piece);
    proof {
        assert(dotted(p@.subrange(0, stem_len as int)) =~= dotted(p@.subrange(0, start as int)) + piece@);
    }
    Some(out)
}

/// The modules to register for the files, each name with the position of
/// the file it is loaded from.
pub fn plan_modules(files: &Vec<String>) -> (r: Vec<(String, usize)>)
    ensures
        r@.len() == registry_of(files@.map_values(|f: String| f@)).len(),
        forall|i: int|
            0 <= i < r@.len() ==> (#[trigger] r@[i]).0@ == registry_of(files@.map_values(|f: String| f@))[i].0
                && r@[i].1 as nat == registry_of(files@.map_values(|f: String| f@))[i].1,
{
    let ghost fs = files@.map_values(|f: String| f@);
    let entry = String::from_str("main");
    let mut out: Vec<(String, usize)> = Vec::new();
    let mut i: usize = 0;
    while i < files.len()
        invariant
            i <= files.len(),
            fs == files@.map_values(|f: String| f@),
            entry@ == entry_name(),
            out@.len() == registry_of(fs.take(i as int)).len(),
            forall|k: int|
                0 <= k < out@.len() ==> (#[trigger] out@[k]).0@ == registry_of(fs.take(i as int))[k].0
                    && out@[k].1 as nat == registry_of(fs.take(i as int))[k].1,
        decreases files.len() - i,
    {
        let ghost before = registry_of(fs.take(i as int));
        proof {
            assert(fs.take(i + 1).drop_last() =~= fs.take(i as int));
            assert(fs.take(i + 1).last() == files@[i as int]@);
        }
        match module_name(&files[i]) {
            Some(n) => {
                if n != entry {
                    let mut taken = false;
                    let mut k: usize = 0;
                    while k < out.len()
                        invariant
                            k <= out.len(),
                            out@.len() == before.len(),
                            forall|q: int| 0 <= q < out@.len() ==> (#[trigger] out@[q]).0@ == before[q].0,
                            taken <==> exists|q: int| 0 <= q < k && (#[trigger] out@[q]).0@ == n@,
                        decreases out.len() - k,
                    {
                        if out[k].0 == n {
                            taken = true;
                        }
                        k = k + 1;
                    }
                    proof {
                        if taken {
                            let q = choose|q: int| 0 <= q < out.len() && (#[trigger] out@[q]).0@ == n@;
                            assert(names(before)[q] == n@);
                        }
                        if names(before).contains(n@) {
                            let q = choose|q: int| 0 <= q < names(before).len() && names(before)[q] == n@;
                            assert(out@[q].0@ == n@);
                        }
                    }
                    if !taken {
                        out.push((n, i));
                    }
                }
            },
            None => {},
        }
        i = i + 1;
    }
    proof {
        assert(fs.take(files.len() as int) =~= fs);
    }
    out
}

/// Every module of the registry comes from a file that bears its name, no
/// name is registered twice, the entry script is never registered, and
/// every other script file has its name registered (the first file with a
/// name wins).
pub proof fn lemma_registry(files: Seq<Seq<char>>)
    ensures
        forall|i: int| 0 <= i < registry_of(files).len() ==> {
            let e = #[trigger] registry_of(files)[i];
            &&& e.0 != entry_name()
            &&& e.1 < files.len()
            &&& module_name_of(files[e.1 as int]) == Some(e.0)
        },
        forall|i: int, j: int|
            0 <= i < registry_of(files).len() && 0 <= j < registry_of(files).len() && i != j
                ==> (#[trigger] registry_of(files)[i]).0 != (#[trigger] registry_of(files)[j]).0,
        forall|k: int|
            0 <= k < files.len() && (#[trigger] module_name_of(files[k])) is Some
                && module_name_of(files[k])->Some_0 != entry_name() ==> names(
                registry_of(files),
            ).contains(module_name_of(files[k])->Some_0),
    decreases files.len(),
{
    if files.len() > 0 {
        let init = files.drop_last();
        lemma_registry(init);
        let before = registry_of(init);
        let reg = registry_of(files);
        assert forall|i: int| 0 <= i < reg.len() implies {
            let e = #[trigger] reg[i];
            &&& e.0 != entry_name()
            &&& e.1 < files.len()
            &&& module_name_of(files[e.1 as int]) == Some(e.0)
        } by {
            if i < before.len() {
                assert(reg[i] == before[i]);
                assert(init[before[i].1 as int] == files[before[i].1 as int]);
            }
        }
        assert forall|i: int, j: int|
            0 <= i < reg.len() && 0 <= j < reg.len() && i != j implies (#[trigger] reg[i]).0 != (#[trigger] reg[j]).0 by {
            if i < before.len() && j < before.len() {
                assert(reg[i] == before[i] && reg[j] == before[j]);
            } else if i < before.len() {
                assert(names(before)[i] == reg[i].0);
            } else {
                assert(names(before)[j] == reg[j].0);
            }
        }
        assert forall|k: int|
            0 <= k < files.len() && (#[trigger] module_name_of(files[k])) is Some
                && module_name_of(files[k])->Some_0 != entry_name() implies names(reg).contains(
                module_name_of(files[k])->Some_0,
            ) by {
            let n = module_name_of(files[k])->Some_0;
            if k < init.len() {
                assert(init[k] == files[k]);
                assert(module_name_of(init[k]) is Some);
                assert(names(before).contains(n));
                let q = choose|q: int| 0 <= q < names(before).len() && names(before)[q] == n;
                assert(names(reg)[q] == n);
            } else if names(before).contains(n) {
                let q = choose|q: int| 0 <= q < names(before).len() && names(before)[q] == n;
                assert(names(reg)[q] == n);
            } else {
                assert(names(reg)[before.len() as int] == n);
            }
        }
    }
}

} // verus!
