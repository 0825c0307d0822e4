//! Dependencies between files through their imports and through string
//! literals that name a file.
//!
//! Which indexed file an import source or a literal names, seen from a
//! file, depends on the file system (paths are made canonical on disk), so
//! the caller works it out and hands it in as an [`ImportTargets`] table.

use vstd::prelude::*;
use vstd::hash_map::StringHashMap;
use std::collections::HashMap;
use crate::schema::{FileId, WorkspaceIndex, lists};
use crate::indexer::resolve::{increasing, keys_of, sorted_ids, sort_all_lists};
use crate::indexer::links::{apply_links, gains_links, module_links, same_but_links};

verus! {

/// For each file, the indexed file that each path it names (an import or
/// export source, or a string literal) leads to, where one does.
pub struct ImportTargets {
    pub by_file: HashMap<FileId, StringHashMap<FileId>>,
}

impl ImportTargets {
    /// The file that path `src`, named in file `f`, leads to.
    pub open spec fn target(&self, f: FileId, src: Seq<char>) -> Option<FileId> {
        if self.by_file@.contains_key(f) && self.by_file@[f]@.contains_key(src) {
            Some(self.by_file@[f]@[src])
        } else {
            None
        }
    }

    /// A table in which no path leads anywhere.
    pub fn new() -> (r: Self)
        ensures
            forall|f: FileId, src: Seq<char>| #[trigger] r.target(f, src) is None,
    {
        ImportTargets { by_file: HashMap::new() }
    }

    /// Records that path `src`, named in file `f`, leads to file `t`.
    pub fn set(&mut self, f: FileId, src: String, t: FileId)
        ensures
            forall|g: FileId, s: Seq<char>| #[trigger] final(self).target(g, s) == if g == f && s == src@ {
                Some(t)
            } else {
                old(self).target(g, s)
            },
    {
        let mut inner: StringHashMap<FileId> = StringHashMap::new();
        match self.by_file.remove(&f) {
            Some(m) => {
                inner = m;
            },
            None => {},
        }
        let ghost before = inner@;
        inner.insert(src, t);
        self.by_file.insert(f, inner);
        proof {
            assert forall|g: FileId, s: Seq<char>| #[trigger] self.target(g, s) == if g == f && s == src@ {
                Some(t)
            } else {
                old(self).target(g, s)
            } by {
                if g == f {
                    if old(self).by_file@.contains_key(f) {
                        assert(before == old(self).by_file@[f]@);
                    } else {
                        assert(before == Map::<Seq<char>, FileId>::empty());
                    }
                }
            }
        }
    }

    /// The file that path `src`, named in file `f`, leads to.
    pub fn get(&self, f: FileId, src: &str) -> (r: Option<FileId>)
        ensures
            r == self.target(f, src@),
    {
        match self.by_file.get(&f) {
            Some(m) => match m.get(src) {
                Some(t) => Some(*t),
                None => None,
            },
            None => None,
        }
    }
}

/// File `f` imports, by a source that leads there, file `t`.
pub open spec fn import_dep(ix: WorkspaceIndex, tab: ImportTargets, f: FileId, t: FileId) -> bool {
    ix.file_imports@.contains_key(f) && exists|j: int|
        0 <= j < ix.file_imports@[f]@.len() && tab.target(f, (#[trigger] ix.file_imports@[f]@[j]).source@) == Some(t)
}

/// The files that the imports of file `f` lead to, each once, in order.
fn import_targets_of(ix: &WorkspaceIndex, tab: &ImportTargets, f: FileId) -> (r: Vec<FileId>)
    ensures
        increasing(r@),
        forall|t: FileId| #[trigger] r@.contains(t) <==> import_dep(*ix, *tab, f, t),
{
    let mut out: Vec<FileId> = Vec::new();
    match ix.file_imports.get(&f) {
        Some(imps) => {
            let mut j: usize = 0;
            while j < imps.len()
                invariant
                    0 <= j <= imps@.len(),
                    ix.file_imports@.contains_key(f),
                    imps@ == ix.file_imports@[f]@,
                    forall|t: FileId| #[trigger] out@.contains(t) <==> exists|q: int|
                        0 <= q < j && tab.target(f, (#[trigger] imps@[q]).source@) == Some(t),
                decreases imps@.len() - j,
            {
                let ghost before = out@;
                match tab.get(f, imps[j].source.as_str()) {
                    Some(t) => {
                        out.push(t);
                        proof {
                            crate::lemmas::lemma_push_contains(before, t);
                        }
                    },
                    None => {},
                }
                proof {
                    assert forall|t: FileId| #[trigger] out@.contains(t) <==> exists|q: int|
                        0 <= q < j + 1 && tab.target(f, (#[trigger] imps@[q]).source@) == Some(t) by {
                        if tab.target(f, imps@[j as int].source@) == Some(t) {
                            assert(0 <= j < j + 1);
                        }
                    }
                }
                j = j + 1;
            }
        },
        None => {},
    }
    let r = sorted_ids(&out);
    proof {
        assert forall|t: FileId| #[trigger] r@.contains(t) <==> out@.contains(t) by {
            assert(r@.to_set().contains(t) == r@.contains(t));
            assert(out@.to_set().contains(t) == out@.contains(t));
        }
    }
    r
}

/// File `f` imports, by a source that leads there, some file.
pub open spec fn imports_some(ix: WorkspaceIndex, tab: ImportTargets, f: FileId) -> bool {
    exists|t: FileId| #[trigger] import_dep(ix, tab, f, t)
}

/// Sets the dependencies of each file whose imports lead to indexed files to
/// exactly those files, each once, in increasing order; links the module
/// scope of such a file to that of each file it imports, where both have
/// one; and leaves every call list sorted, without repeats.
pub fn link_file_imports(ix: &mut WorkspaceIndex, tab: &ImportTargets)
    ensures
        same_but_links(*old(ix), *final(ix)),
        forall|f: FileId| #[trigger]
            final(ix).file_dependencies@.contains_key(f) <==> old(ix).file_dependencies@.contains_key(f) || imports_some(
                *old(ix),
                *tab,
                f,
            ),
        forall|f: FileId| #[trigger]
            imports_some(*old(ix), *tab, f) ==> increasing(final(ix).file_dependencies@[f]@),
        forall|f: FileId, t: FileId| #[trigger]
            lists(final(ix).file_dependencies@, f, t) <==> if imports_some(*old(ix), *tab, f) {
                import_dep(*old(ix), *tab, f, t)
            } else {
                lists(old(ix).file_dependencies@, f, t)
            },
        gains_links(
            old(ix).resolved_calls@,
            final(ix).resolved_calls@,
            |k: u32, x: u32| module_links(old(ix).symbols@, |f: u32, t: u32| import_dep(*old(ix), *tab, f, t), k, x),
        ),
        forall|k: u32| #[trigger] final(ix).resolved_calls@.contains_key(k) ==> increasing(final(ix).resolved_calls@[k]@),
{
    let ghost ix0 = *ix;
    let keys = keys_of(&ix.file_imports);
    let mut pairs: Vec<(FileId, FileId)> = Vec::new();
    let mut sets: Vec<(FileId, Vec<FileId>)> = Vec::new();
    let mut i: usize = 0;
    while i < keys.len()
        invariant
            0 <= i <= keys@.len(),
            keys@.to_set() == ix0.file_imports@.dom(),
            *ix == ix0,
            forall|a: FileId, b: FileId| #[trigger] pairs@.contains((a, b)) <==> keys@.take(i as int).contains(a)
                && import_dep(ix0, *tab, a, b),
            forall|q: int| 0 <= q < sets@.len() ==> increasing((#[trigger] sets@[q]).1@) && sets@[q].1@.len() > 0 && forall|t: FileId| #[trigger]
                sets@[q].1@.contains(t) <==> import_dep(ix0, *tab, sets@[q].0, t),
            forall|q: int| 0 <= q < sets@.len() ==> keys@.take(i as int).contains((#[trigger] sets@[q]).0),
            forall|f: FileId| #[trigger] imports_some(ix0, *tab, f) && keys@.take(i as int).contains(f) ==> exists|q: int|
                0 <= q < sets@.len() && (#[trigger] sets@[q]).0 == f,
        decreases keys@.len() - i,
    {
        let f = keys[i];
        proof {
            assert(keys@.take(i + 1) =~= keys@.take(i as int).push(f));
            crate::lemmas::lemma_push_contains(keys@.take(i as int), f);
        }
        let ts = import_targets_of(ix, tab, f);
        let ghost p0 = pairs@;
        let mut k: usize = 0;
        while k < ts.len()
            invariant
                0 <= k <= ts@.len(),
                forall|a: FileId, b: FileId| #[trigger] pairs@.contains((a, b)) <==> p0.contains((a, b)) || (a == f
                    && ts@.take(k as int).contains(b)),
            decreases ts@.len() - k,
        {
            let ghost before = pairs@;
            pairs.push((f, ts[k]));
            proof {
                assert(ts@.take(k + 1) =~= ts@.take(k as int).push(ts@[k as int]));
                crate::lemmas::lemma_push_contains(ts@.take(k as int), ts@[k as int]);
                crate::lemmas::lemma_push_contains(before, (f, ts@[k as int]));
            }
            k = k + 1;
        }
        proof {
            assert(ts@.take(ts@.len() as int) =~= ts@);
        }
        let ghost s0 = sets@;
        let ghost tsv = ts@;
        if ts.len() > 0 {
            sets.push((f, ts));
            proof {
                assert(sets@[s0.len() as int].0 == f);
                assert(sets@[s0.len() as int].1@.contains(sets@[s0.len() as int].1@[0]));
            }
        }
        proof {
            assert forall|q: int| 0 <= q < sets@.len() implies increasing((#[trigger] sets@[q]).1@) && sets@[q].1@.len() > 0 && forall|t: FileId|
                #[trigger] sets@[q].1@.contains(t) <==> import_dep(ix0, *tab, sets@[q].0, t) by {
                if q < s0.len() {
                    assert(sets@[q] == s0[q]);
                }
            }
        }
        let ghost i0 = i as int;
        i = i + 1;
        proof {
            assert(keys@.take(i as int).contains(f));
            assert forall|q: int| 0 <= q < sets@.len() implies keys@.take(i as int).contains((#[trigger] sets@[q]).0) by {
                if q < s0.len() {
                    assert(s0[q] == sets@[q]);
                    assert(keys@.take(i0).contains(s0[q].0));
                }
            }
            assert forall|g: FileId| #[trigger] imports_some(ix0, *tab, g) && keys@.take(i as int).contains(g) implies exists|q: int|
                0 <= q < sets@.len() && (#[trigger] sets@[q]).0 == g by {
                if g == f {
                    let t = choose|t: FileId| #[trigger] import_dep(ix0, *tab, g, t);
                    assert(tsv.contains(t));
                    assert(sets@[s0.len() as int].0 == f);
                } else {
                    assert(keys@.take(i0).contains(g));
                    let q = choose|q: int| 0 <= q < s0.len() && (#[trigger] s0[q]).0 == g;
                    assert(sets@[q] == s0[q]);
                }
            }
        }
    }
    proof {
        assert(keys@.take(keys@.len() as int) =~= keys@);
        assert forall|f: FileId, t: FileId| #[trigger] import_dep(ix0, *tab, f, t) implies keys@.contains(f) by {
            assert(keys@.to_set().contains(f));
        }
        assert forall|f: FileId| #[trigger] imports_some(ix0, *tab, f) <==> exists|r: int|
            0 <= r < sets@.len() && (#[trigger] sets@[r]).0 == f by {
            if imports_some(ix0, *tab, f) {
                let t = choose|t: FileId| #[trigger] import_dep(ix0, *tab, f, t);
                assert(keys@.contains(f));
            }
            if exists|r: int| 0 <= r < sets@.len() && (#[trigger] sets@[r]).0 == f {
                let r = choose|r: int| 0 <= r < sets@.len() && (#[trigger] sets@[r]).0 == f;
                assert(sets@[r].1@.contains(sets@[r].1@[0]));
            }
        }
    }
    apply_links(ix, &pairs);
    proof {
        assert((|f: u32, t: u32| pairs@.contains((f, t))) =~= (|f: u32, t: u32| import_dep(ix0, *tab, f, t)));
    }
    let ghost ix1 = *ix;
    proof {
        assert forall|f: FileId| #[trigger] ix1.file_dependencies@.contains_key(f) <==> ix0.file_dependencies@.contains_key(f)
            || imports_some(ix0, *tab, f) by {
            if imports_some(ix0, *tab, f) {
                let t = choose|t: FileId| #[trigger] import_dep(ix0, *tab, f, t);
                assert(lists(ix1.file_dependencies@, f, t));
            }
        }
    }
    let mut q: usize = 0;
    while q < sets.len()
        invariant
            0 <= q <= sets@.len(),
            same_but_links(ix0, *ix),
            ix.resolved_calls@ == ix1.resolved_calls@,
            ix.file_dependencies@.dom() == ix1.file_dependencies@.dom(),
            forall|r: int| 0 <= r < sets@.len() ==> increasing((#[trigger] sets@[r]).1@) && sets@[r].1@.len() > 0 && forall|t: FileId| #[trigger]
                sets@[r].1@.contains(t) <==> import_dep(ix0, *tab, sets@[r].0, t),
            forall|f: FileId| #[trigger] imports_some(ix0, *tab, f) <==> exists|r: int|
                0 <= r < sets@.len() && (#[trigger] sets@[r]).0 == f,
            gains_links(ix0.file_dependencies@, ix1.file_dependencies@, |f: u32, t: u32| import_dep(ix0, *tab, f, t)),
            forall|f: FileId| #[trigger]
                ix.file_dependencies@.contains_key(f) ==> (exists|r: int| 0 <= r < q && (#[trigger] sets@[r]).0 == f)
                    ==> increasing(ix.file_dependencies@[f]@) && forall|t: FileId| #[trigger]
                    ix.file_dependencies@[f]@.contains(t) <==> import_dep(ix0, *tab, f, t),
            forall|f: FileId| #[trigger]
                ix.file_dependencies@.contains_key(f) ==> !(exists|r: int| 0 <= r < q && (#[trigger] sets@[r]).0 == f)
                    ==> ix.file_dependencies@[f] == ix1.file_dependencies@[f],
        decreases sets@.len() - q,
    {
        let f = sets[q].0;
        let ghost prev = ix.file_dependencies@;
        proof {
            assert(import_dep(ix0, *tab, f, sets@[q as int].1@[0])) by {
                assert(sets@[q as int].1@.contains(sets@[q as int].1@[0]));
            }
            assert(imports_some(ix0, *tab, f));
            assert(lists(ix1.file_dependencies@, f, sets@[q as int].1@[0]));
            assert(ix1.file_dependencies@.contains_key(f));
        }
        ix.file_dependencies.insert(f, sets[q].1.clone());
        proof {
            assert(ix.file_dependencies@.dom() =~= ix1.file_dependencies@.dom());
            assert forall|g: FileId| #[trigger] ix.file_dependencies@.contains_key(g) implies (exists|r: int|
                0 <= r < q + 1 && (#[trigger] sets@[r]).0 == g) ==> increasing(ix.file_dependencies@[g]@) && forall|t: FileId|
                #[trigger] ix.file_dependencies@[g]@.contains(t) <==> import_dep(ix0, *tab, g, t) by {
                if g != f && exists|r: int| 0 <= r < q + 1 && (#[trigger] sets@[r]).0 == g {
                    let r = choose|r: int| 0 <= r < q + 1 && (#[trigger] sets@[r]).0 == g;
                    assert(r < q);
                    assert(prev.contains_key(g));
                }
            }
            assert forall|g: FileId| #[trigger] ix.file_dependencies@.contains_key(g) implies !(exists|r: int|
                0 <= r < q + 1 && (#[trigger] sets@[r]).0 == g) ==> ix.file_dependencies@[g] == ix1.file_dependencies@[g] by {
                if !(exists|r: int| 0 <= r < q + 1 && (#[trigger] sets@[r]).0 == g) {
                    assert(g != f) by {
                        assert(sets@[q as int].0 == f);
                    }
                    assert(!(exists|r: int| 0 <= r < q && (#[trigger] sets@[r]).0 == g)) by {
                        if exists|r: int| 0 <= r < q && (#[trigger] sets@[r]).0 == g {
                            let r = choose|r: int| 0 <= r < q && (#[trigger] sets@[r]).0 == g;
                            assert(0 <= r < q + 1 && sets@[r].0 == g);
                        }
                    }
                    assert(prev.contains_key(g));
                }
            }
        }
        q = q + 1;
    }
    let ghost ix2 = *ix;
    sort_all_lists(&mut ix.resolved_calls);
    proof {
        assert forall|f: FileId| #[trigger] imports_some(ix0, *tab, f) implies increasing(ix.file_dependencies@[f]@) by {
            let r = choose|r: int| 0 <= r < sets@.len() && (#[trigger] sets@[r]).0 == f;
            assert(ix1.file_dependencies@.contains_key(f)) by {
                let t = choose|t: FileId| #[trigger] import_dep(ix0, *tab, f, t);
                assert(lists(ix1.file_dependencies@, f, t));
            }
        }
        assert forall|f: FileId, t: FileId| #[trigger] lists(ix.file_dependencies@, f, t) <==> if imports_some(ix0, *tab, f) {
            import_dep(ix0, *tab, f, t)
        } else {
            lists(ix0.file_dependencies@, f, t)
        } by {
            if imports_some(ix0, *tab, f) {
                let r = choose|r: int| 0 <= r < sets@.len() && (#[trigger] sets@[r]).0 == f;
                let u = choose|u: FileId| #[trigger] import_dep(ix0, *tab, f, u);
                assert(lists(ix1.file_dependencies@, f, u));
            } else {
                assert(!import_dep(ix0, *tab, f, t));
                if ix.file_dependencies@.contains_key(f) {
                    assert(!(exists|r: int| 0 <= r < sets@.len() && (#[trigger] sets@[r]).0 == f));
                    assert(lists(ix1.file_dependencies@, f, t) == lists(ix.file_dependencies@, f, t));
                }
            }
        }
        assert forall|k: u32, x: u32| #[trigger] lists(ix.resolved_calls@, k, x) <==> lists(ix2.resolved_calls@, k, x) by {
            if ix.resolved_calls@.contains_key(k) {
                assert(ix.resolved_calls@[k]@.to_set().contains(x) == ix.resolved_calls@[k]@.contains(x));
                assert(ix2.resolved_calls@[k]@.to_set().contains(x) == ix2.resolved_calls@[k]@.contains(x));
            }
        }
    }
}

} // verus!
