//! Links between files, and between the module scopes of those files, that
//! several resolution passes add to the index.

use vstd::prelude::*;
use std::collections::HashMap;
use crate::schema::{FileId, SymbolId, SymbolNode, WorkspaceIndex, contains_id, lists};
use crate::text::str_eq;
use crate::indexer::resolve::keys_of;
use crate::indexer::recording::{same_file_tables, same_symbol_tables};

verus! {

/// `b` is `a` with the pairs of `rel` added: a key is in `b` when it was in
/// `a` or relates to something, and `b` lists what `a` listed and what `rel`
/// relates.
pub open spec fn gains_links(a: Map<u32, Vec<u32>>, b: Map<u32, Vec<u32>>, rel: spec_fn(u32, u32) -> bool) -> bool {
    &&& forall|f: u32| #[trigger] b.contains_key(f) <==> a.contains_key(f) || exists|t: u32| #[trigger] rel(f, t)
    &&& forall|f: u32, t: u32| #[trigger] lists(b, f, t) <==> lists(a, f, t) || rel(f, t)
}

/// Symbol `m` is a module scope of file `f`.
pub open spec fn is_module_of(syms: Map<SymbolId, SymbolNode>, f: FileId, m: SymbolId) -> bool {
    syms.contains_key(m) && syms[m].file_id == f && syms[m].kind@ == seq!['m', 'o', 'd', 'u', 'l', 'e']
}

/// Symbol `m` is the module scope of file `f` with the smallest identifier.
pub open spec fn module_symbol(syms: Map<SymbolId, SymbolNode>, f: FileId, m: SymbolId) -> bool {
    is_module_of(syms, f, m) && forall|x: SymbolId| #[trigger] is_module_of(syms, f, x) ==> m <= x
}

/// The modules of the files that `rel` relates, related in turn.
pub open spec fn module_links(syms: Map<SymbolId, SymbolNode>, rel: spec_fn(u32, u32) -> bool, k: SymbolId, x: SymbolId) -> bool {
    exists|f: FileId, t: FileId| #[trigger] rel(f, t) && module_symbol(syms, f, k) && module_symbol(syms, t, x)
}

/// The modules of the files of a pair of `pairs`, related in turn.
pub open spec fn pair_modules(syms: Map<SymbolId, SymbolNode>, pairs: Seq<(FileId, FileId)>, k: SymbolId, x: SymbolId) -> bool {
    exists|f: FileId, t: FileId| #[trigger] pairs.contains((f, t)) && module_symbol(syms, f, k) && module_symbol(syms, t, x)
}

/// The module scope of file `f` with the smallest identifier, if it has one.
pub(crate) fn module_of(ix: &WorkspaceIndex, f: FileId) -> (r: Option<SymbolId>)
    ensures
        r matches Some(m) ==> module_symbol(ix.symbols@, f, m),
        r is None ==> forall|x: SymbolId| !#[trigger] is_module_of(ix.symbols@, f, x),
{
    let keys = keys_of(&ix.symbols);
    let mut best: Option<SymbolId> = None;
    let mut i: usize = 0;
    while i < keys.len()
        invariant
            0 <= i <= keys@.len(),
            keys@.to_set() == ix.symbols@.dom(),
            best matches Some(m) ==> is_module_of(ix.symbols@, f, m) && forall|x: SymbolId|
                #[trigger] is_module_of(ix.symbols@, f, x) && keys@.take(i as int).contains(x) ==> m <= x,
            best is None ==> forall|x: SymbolId|
                #[trigger] is_module_of(ix.symbols@, f, x) ==> !keys@.take(i as int).contains(x),
        decreases keys@.len() - i,
    {
        let k = keys[i];
        proof {
            assert(keys@.take(i + 1) =~= keys@.take(i as int).push(k));
            crate::lemmas::lemma_push_contains(keys@.take(i as int), k);
            assert(keys@.contains(k));
            assert(keys@.to_set().contains(k));
        }
        match ix.symbols.get(&k) {
            Some(s) => {
                if s.file_id == f && str_eq(s.kind.as_str(), "module") {
                    proof {
                        reveal_strlit("module");
                        assert("module"@ =~= seq!['m', 'o', 'd', 'u', 'l', 'e']);
                        assert(is_module_of(ix.symbols@, f, k));
                    }
                    match best {
                        Some(m) => {
                            if k < m {
                                best = Some(k);
                            }
                        },
                        None => {
                            best = Some(k);
                        },
                    }
                } else {
                    proof {
                        reveal_strlit("module");
                        assert("module"@ =~= seq!['m', 'o', 'd', 'u', 'l', 'e']);
                        assert(!is_module_of(ix.symbols@, f, k));
                    }
                }
            },
            None => {},
        }
        i = i + 1;
    }
    proof {
        assert(keys@.take(keys@.len() as int) =~= keys@);
        assert forall|x: SymbolId| #[trigger] is_module_of(ix.symbols@, f, x) implies keys@.contains(x) by {
            assert(keys@.to_set().contains(x));
        }
    }
    best
}

/// Adds `y` to the list of `x` in `m`, unless it is there already.
pub(crate) fn add_link(m: &mut HashMap<u32, Vec<u32>>, x: u32, y: u32)
    ensures
        final(m)@.dom() == old(m)@.dom().insert(x),
        forall|k: u32| k != x && #[trigger] old(m)@.contains_key(k) ==> final(m)@[k] == old(m)@[k],
        forall|k: u32, z: u32| #[trigger] lists(final(m)@, k, z) <==> lists(old(m)@, k, z) || (k == x && z == y),
{
    let mut list: Vec<u32> = match m.get(&x) {
        Some(l) => l.clone(),
        None => Vec::new(),
    };
    let ghost before = list@;
    if !contains_id(&list, y) {
        list.push(y);
    }
    proof {
        crate::lemmas::lemma_push_contains(before, y);
    }
    m.insert(x, list);
    proof {
        assert(m@.dom() =~= old(m)@.dom().insert(x));
    }
}

/// `b` is `a` but for its file dependencies and the calls of its symbols.
pub open spec fn same_but_links(a: WorkspaceIndex, b: WorkspaceIndex) -> bool {
    &&& same_file_tables(a, b)
    &&& same_symbol_tables(a, b)
    &&& b.resolved_type_refs@ == a.resolved_type_refs@
    &&& b.inheritance@ == a.inheritance@
}

/// A file has one module scope with the smallest identifier.
pub proof fn lemma_module_symbol_unique(syms: Map<SymbolId, SymbolNode>, f: FileId, a: SymbolId, b: SymbolId)
    requires
        module_symbol(syms, f, a),
        module_symbol(syms, f, b),
    ensures
        a == b,
{
    assert(is_module_of(syms, f, a) && is_module_of(syms, f, b));
}

/// Adds to the index each link of `pairs` from a file to a file, and one
/// from the module scope of the first file to that of the second where both
/// have one.
pub(crate) fn apply_links(ix: &mut WorkspaceIndex, pairs: &Vec<(FileId, FileId)>)
    ensures
        same_but_links(*old(ix), *final(ix)),
        gains_links(old(ix).file_dependencies@, final(ix).file_dependencies@, |f: u32, t: u32| pairs@.contains((f, t))),
        gains_links(
            old(ix).resolved_calls@,
            final(ix).resolved_calls@,
            |k: u32, x: u32| module_links(old(ix).symbols@, |f: u32, t: u32| pairs@.contains((f, t)), k, x),
        ),
{
    let ghost ix0 = *ix;
    let ghost syms = ix.symbols@;
    let mut i: usize = 0;
    while i < pairs.len()
        invariant
            0 <= i <= pairs@.len(),
            same_but_links(ix0, *ix),
            syms == ix0.symbols@,
            forall|f: u32| #[trigger] ix.file_dependencies@.contains_key(f) <==> ix0.file_dependencies@.contains_key(f)
                || exists|t: u32| #[trigger] pairs@.take(i as int).contains((f, t)),
            forall|f: u32, t: u32| #[trigger] lists(ix.file_dependencies@, f, t) <==> lists(ix0.file_dependencies@, f, t)
                || pairs@.take(i as int).contains((f, t)),
            forall|k: u32| #[trigger] ix.resolved_calls@.contains_key(k) <==> ix0.resolved_calls@.contains_key(k)
                || exists|x: u32| #[trigger] pair_modules(syms, pairs@.take(i as int), k, x),
            forall|k: u32, x: u32| #[trigger] lists(ix.resolved_calls@, k, x) <==> lists(ix0.resolved_calls@, k, x)
                || pair_modules(syms, pairs@.take(i as int), k, x),
        decreases pairs@.len() - i,
    {
        let (f, t) = pairs[i];
        let ghost p0 = pairs@.take(i as int);
        let ghost p1 = pairs@.take(i + 1);
        proof {
            assert(p1 =~= p0.push((f, t)));
            crate::lemmas::lemma_push_contains(p0, (f, t));
        }
        let ghost fd0 = ix.file_dependencies@;
        let ghost rc0 = ix.resolved_calls@;
        add_link(&mut ix.file_dependencies, f, t);
        let sm = module_of(ix, f);
        let tm = module_of(ix, t);
        match (sm, tm) {
            (Some(s), Some(x)) => {
                add_link(&mut ix.resolved_calls, s, x);
            },
            _ => {},
        }
        proof {
            assert forall|k: u32| #[trigger] ix.file_dependencies@.contains_key(k) <==> ix0.file_dependencies@.contains_key(k)
                || exists|b: u32| #[trigger] p1.contains((k, b)) by {
                if k == f {
                    assert(p1.contains((f, t)));
                }
                if fd0.contains_key(k) {
                    if !ix0.file_dependencies@.contains_key(k) {
                        let b = choose|b: u32| #[trigger] p0.contains((k, b));
                        assert(p1.contains((k, b)));
                    }
                }
                if exists|b: u32| #[trigger] p1.contains((k, b)) {
                    let b = choose|b: u32| #[trigger] p1.contains((k, b));
                    if !(k == f && b == t) {
                        assert(p0.contains((k, b)));
                        assert(fd0.contains_key(k));
                    }
                }
                if ix0.file_dependencies@.contains_key(k) {
                    assert(fd0.contains_key(k));
                }
            }
            assert forall|k: u32, x: u32| #[trigger] pair_modules(syms, p1, k, x) <==> pair_modules(syms, p0, k, x) || (
            module_symbol(syms, f, k) && module_symbol(syms, t, x)) by {
                if pair_modules(syms, p1, k, x) {
                    let (a, b) = choose|a: FileId, b: FileId| #[trigger] p1.contains((a, b)) && module_symbol(syms, a, k)
                        && module_symbol(syms, b, x);
                    if !(a == f && b == t) {
                        assert(p0.contains((a, b)));
                    }
                }
                if module_symbol(syms, f, k) && module_symbol(syms, t, x) {
                    assert(p1.contains((f, t)));
                }
                if pair_modules(syms, p0, k, x) {
                    let (a, b) = choose|a: FileId, b: FileId| #[trigger] p0.contains((a, b)) && module_symbol(syms, a, k)
                        && module_symbol(syms, b, x);
                    assert(p1.contains((a, b)));
                }
            }
            assert forall|k: u32, x: u32| #[trigger] lists(ix.resolved_calls@, k, x) <==> lists(ix0.resolved_calls@, k, x)
                || pair_modules(syms, p1, k, x) by {
                match (sm, tm) {
                    (Some(s), Some(y)) => {
                        if module_symbol(syms, f, k) && module_symbol(syms, t, x) {
                            lemma_module_symbol_unique(syms, f, k, s);
                            lemma_module_symbol_unique(syms, t, x, y);
                        }
                    },
                    _ => {},
                }
            }
            assert forall|k: u32| #[trigger] ix.resolved_calls@.contains_key(k) <==> ix0.resolved_calls@.contains_key(k)
                || exists|x: u32| #[trigger] pair_modules(syms, p1, k, x) by {
                if rc0.contains_key(k) {
                    if !ix0.resolved_calls@.contains_key(k) {
                        let x = choose|x: u32| #[trigger] pair_modules(syms, p0, k, x);
                        assert(pair_modules(syms, p1, k, x));
                    }
                }
                if ix0.resolved_calls@.contains_key(k) {
                    assert(rc0.contains_key(k));
                }
                match (sm, tm) {
                    (Some(s), Some(y)) => {
                        if k == s {
                            assert(pair_modules(syms, p1, k, y));
                        }
                    },
                    _ => {},
                }
                if exists|x: u32| #[trigger] pair_modules(syms, p1, k, x) {
                    let x = choose|x: u32| #[trigger] pair_modules(syms, p1, k, x);
                    if !pair_modules(syms, p0, k, x) {
                        match (sm, tm) {
                            (Some(s), Some(y)) => {
                                lemma_module_symbol_unique(syms, f, k, s);
                            },
                            _ => {},
                        }
                    } else {
                        assert(rc0.contains_key(k));
                    }
                }
            }
        }
        i = i + 1;
    }
    proof {
        assert(pairs@.take(pairs@.len() as int) =~= pairs@);
        let rel = |a: u32, b: u32| pairs@.contains((a, b));
        assert forall|f: u32| #[trigger] ix.file_dependencies@.contains_key(f) <==> ix0.file_dependencies@.contains_key(f)
            || exists|t: u32| #[trigger] rel(f, t) by {
            if exists|t: u32| #[trigger] pairs@.contains((f, t)) {
                let t = choose|t: u32| #[trigger] pairs@.contains((f, t));
                assert(rel(f, t));
            }
        }
        assert(gains_links(ix0.file_dependencies@, ix.file_dependencies@, rel));
        assert forall|k: u32, x: u32| #[trigger] pair_modules(syms, pairs@, k, x) <==> module_links(syms, rel, k, x) by {
            if pair_modules(syms, pairs@, k, x) {
                let (a, b) = choose|a: FileId, b: FileId| #[trigger] pairs@.contains((a, b)) && module_symbol(syms, a, k)
                    && module_symbol(syms, b, x);
                assert(rel(a, b));
            }
        }
        let mrel = |k: u32, x: u32| module_links(syms, rel, k, x);
        assert forall|k: u32| #[trigger] ix.resolved_calls@.contains_key(k) <==> ix0.resolved_calls@.contains_key(k)
            || exists|x: u32| #[trigger] mrel(k, x) by {
            if exists|x: u32| #[trigger] pair_modules(syms, pairs@, k, x) {
                let x = choose|x: u32| #[trigger] pair_modules(syms, pairs@, k, x);
                assert(mrel(k, x));
            }
            if exists|x: u32| #[trigger] mrel(k, x) {
                let x = choose|x: u32| #[trigger] mrel(k, x);
                assert(pair_modules(syms, pairs@, k, x));
            }
        }
        assert forall|k: u32, x: u32| #[trigger] lists(ix.resolved_calls@, k, x) <==> lists(ix0.resolved_calls@, k, x)
            || mrel(k, x) by {
            assert(pair_modules(syms, pairs@, k, x) <==> module_links(syms, rel, k, x));
        }
        assert(gains_links(ix0.resolved_calls@, ix.resolved_calls@, mrel));
    }
}

} // verus!
