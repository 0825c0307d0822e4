//! The consistency of the index the indexer keeps, and dropping what was
//! recorded of a file.

use vstd::prelude::*;
use crate::text::str_eq;
use crate::schema::{SymbolNode, SymbolId, FileId, WorkspaceIndex, contains_id};
use crate::lemmas::{lemma_filter_take_step, lemma_push_to_set};
use std::collections::HashMap;
use vstd::std_specs::iter::IteratorSpec;

verus! {

// ---------------------------------------------------------------------------
// Consistency of the index the indexer keeps
// ---------------------------------------------------------------------------

/// The entries of an association list, by their views.
pub open spec fn assoc_ids_view(v: Seq<(String, Vec<SymbolId>)>) -> Seq<(Seq<char>, Seq<SymbolId>)> {
    v.map_values(|e: (String, Vec<SymbolId>)| (e.0@, e.1@))
}

/// The keys of an association list are distinct.
pub open spec fn distinct_keys<V>(v: Seq<(String, V)>) -> bool {
    forall|i: int, j: int| 0 <= i < j < v.len() ==> (#[trigger] v[i]).0@ != (#[trigger] v[j]).0@
}

/// The index is consistent: files and paths correspond one to one, every
/// file and symbol identifier was handed out before, every symbol is filed
/// under its own identifier, the name map lists existing symbols of that
/// name, and a symbol's parent is a symbol of the same file.
pub open spec fn index_ok(ix: WorkspaceIndex) -> bool {
    &&& forall|k: FileId| #[trigger] ix.files@.contains_key(k) ==> ix.files@[k].id == k && k
        < ix.next_file_id && ix.file_paths@.contains_key(ix.files@[k].path@) && ix.file_paths@[ix.files@[k].path@]
        == k
    &&& forall|p: Seq<char>| #[trigger]
        ix.file_paths@.contains_key(p) ==> ix.files@.contains_key(ix.file_paths@[p])
            && ix.files@[ix.file_paths@[p]].path@ == p
    &&& forall|k: SymbolId| #[trigger]
        ix.symbols@.contains_key(k) ==> ix.symbols@[k].id == k && k < ix.next_symbol_id
    &&& forall|n: Seq<char>| #[trigger]
        ix.symbol_map@.contains_key(n) ==> forall|i: int|
            0 <= i < ix.symbol_map@[n]@.len() ==> ix.symbols@.contains_key(
                #[trigger] ix.symbol_map@[n]@[i],
            ) && ix.symbols@[ix.symbol_map@[n]@[i]].name@ == n
    &&& forall|k: SymbolId| #[trigger]
        ix.symbols@.contains_key(k) ==> (ix.symbols@[k].parent_id matches Some(p)
            ==> ix.symbols@.contains_key(p) && ix.symbols@[p].file_id == ix.symbols@[k].file_id)
    &&& distinct_keys(ix.config_definitions@)
    &&& distinct_keys(ix.implicit_routes@)
}

/// The symbols of file `fid`.
pub open spec fn symbols_in_file(syms: Map<SymbolId, SymbolNode>, fid: FileId) -> Set<SymbolId> {
    syms.dom().filter(|k: SymbolId| syms[k].file_id == fid)
}

/// `x` is a symbol of file `fid` named `n`.
pub open spec fn named_in_file(syms: Map<SymbolId, SymbolNode>, fid: FileId, n: Seq<char>, x: SymbolId) -> bool {
    syms.contains_key(x) && syms[x].file_id == fid && syms[x].name@ == n
}

/// The list of the name `n` without the symbols of file `fid`.
pub open spec fn list_without_file(
    l: Seq<SymbolId>,
    syms: Map<SymbolId, SymbolNode>,
    fid: FileId,
    n: Seq<char>,
) -> Seq<SymbolId> {
    l.filter(keeps_outside(syms, fid, n))
}

/// The test that keeps the symbols other than those of file `fid` named `n`.
pub open spec fn keeps_outside(syms: Map<SymbolId, SymbolNode>, fid: FileId, n: Seq<char>) -> spec_fn(
    SymbolId,
) -> bool {
    |x: SymbolId| !named_in_file(syms, fid, n, x)
}

/// The test that keeps the symbols outside `gone`.
pub open spec fn not_in(gone: Set<SymbolId>) -> spec_fn(SymbolId) -> bool {
    |x: SymbolId| !gone.contains(x)
}

/// Some symbol of file `fid` is named `n`.
pub open spec fn file_has_name(syms: Map<SymbolId, SymbolNode>, fid: FileId, n: Seq<char>) -> bool {
    exists|k: SymbolId| #[trigger] named_in_file(syms, fid, n, k)
}

/// The definitions of configuration keys without the symbols in `gone`: each
/// list filtered, and the keys left with no symbol dropped.
pub open spec fn defs_without(v: Seq<(Seq<char>, Seq<SymbolId>)>, gone: Set<SymbolId>) -> Seq<
    (Seq<char>, Seq<SymbolId>),
>
    decreases v.len(),
{
    if v.len() == 0 {
        v
    } else {
        let r = defs_without(v.drop_last(), gone);
        let l = v.last().1.filter(not_in(gone));
        if l.len() == 0 {
            r
        } else {
            r.push((v.last().0, l))
        }
    }
}

/// `after` is `before` without the symbols of file `fid` and what was
/// recorded for them and for the file.
pub open spec fn cleared(before: WorkspaceIndex, after: WorkspaceIndex, fid: FileId) -> bool {
    let syms = before.symbols@;
    let gone = symbols_in_file(syms, fid);
    &&& after.symbols@ == syms.remove_keys(gone)
    &&& forall|n: Seq<char>| #[trigger]
        after.symbol_map@.contains_key(n) <==> before.symbol_map@.contains_key(n) && !(file_has_name(
            syms,
            fid,
            n,
        ) && list_without_file(before.symbol_map@[n]@, syms, fid, n).len() == 0)
    &&& forall|n: Seq<char>| #[trigger]
        after.symbol_map@.contains_key(n) ==> after.symbol_map@[n]@ == list_without_file(
            before.symbol_map@[n]@,
            syms,
            fid,
            n,
        )
    &&& after.raw_calls@ == before.raw_calls@.remove_keys(gone)
    &&& after.raw_implementations@ == before.raw_implementations@.remove_keys(gone)
    &&& after.resolved_calls@ == before.resolved_calls@.remove_keys(gone)
    &&& after.fingerprints@ == before.fingerprints@.remove_keys(gone)
    &&& after.container_methods@ == before.container_methods@.remove_keys(gone)
    &&& after.local_variable_types@ == before.local_variable_types@.remove_keys(gone)
    &&& after.inheritance@ == before.inheritance@.remove_keys(gone)
    &&& after.symbol_config_refs@ == before.symbol_config_refs@.remove_keys(gone)
    &&& after.raw_type_refs@ == before.raw_type_refs@.remove_keys(gone)
    &&& after.resolved_type_refs@ == before.resolved_type_refs@.remove_keys(gone)
    &&& after.raw_decorators@ == before.raw_decorators@.remove_keys(gone)
    &&& assoc_ids_view(after.config_definitions@) == defs_without(
        assoc_ids_view(before.config_definitions@),
        gone,
    )
    &&& after.file_imports@ == before.file_imports@.remove(fid)
    &&& after.file_exports@ == before.file_exports@.remove(fid)
    &&& after.raw_literals@ == before.raw_literals@.remove(fid)
    &&& after.next_file_id == before.next_file_id
    &&& after.next_symbol_id == before.next_symbol_id
    &&& after.files@ == before.files@
    &&& after.file_paths@ == before.file_paths@
    &&& after.implicit_routes@ == before.implicit_routes@
    &&& after.file_dependencies@ == before.file_dependencies@
}

/// Removes the entries of `ids` from a table keyed by symbol.
pub(crate) fn remove_all<V>(m: &mut HashMap<SymbolId, V>, ids: &Vec<SymbolId>)
    ensures
        final(m)@ == old(m)@.remove_keys(ids@.to_set()),
{
    let mut i: usize = 0;
    proof {
        assert(old(m)@.remove_keys(ids@.take(0).to_set()) =~= old(m)@);
    }
    while i < ids.len()
        invariant
            0 <= i <= ids@.len(),
            m@ == old(m)@.remove_keys(ids@.take(i as int).to_set()),
        decreases ids@.len() - i,
    {
        let ghost before = m@;
        m.remove(&ids[i]);
        proof {
            assert(ids@.take(i + 1) =~= ids@.take(i as int).push(ids@[i as int]));
            lemma_push_to_set(ids@.take(i as int), ids@[i as int]);
            assert(m@ =~= old(m)@.remove_keys(ids@.take(i + 1).to_set()));
        }
        i = i + 1;
    }
    proof {
        assert(ids@.take(ids@.len() as int) =~= ids@);
    }
}

/// The symbols of file `fid`, as a list.
pub(crate) fn file_symbol_keys(syms: &HashMap<SymbolId, SymbolNode>, fid: FileId) -> (r: Vec<SymbolId>)
    ensures
        r@.to_set() == symbols_in_file(syms@, fid),
{
    let mut out: Vec<SymbolId> = Vec::new();
    broadcast use vstd::std_specs::hash::axiom_spec_hash_map_iter;
    let ghost pairs = vstd::std_specs::hash::spec_hash_map_iter(syms).remaining();
    for pair in it: syms.iter()
        invariant
            it.seq() == pairs,
            pairs == vstd::std_specs::hash::spec_hash_map_iter(syms).remaining(),
            forall|y: SymbolId| out@.contains(y) ==> symbols_in_file(syms@, fid).contains(y),
            forall|j: int|
                0 <= j < it.index() ==> (#[trigger] pairs[j].1).file_id == fid ==> out@.contains(
                    *pairs[j].0,
                ),
    {
        let (k, v) = pair;
        let ghost idx = it.index() as int;
        proof {
            assert(pair == pairs[idx]);
            assert(syms@.contains_key(*pairs[idx].0));
            assert(syms@[*pairs[idx].0] == *pairs[idx].1);
        }
        let ghost before = out@;
        if v.file_id == fid {
            out.push(*k);
            proof {
                crate::lemmas::lemma_push_contains(before, *k);
            }
        }
    }
    proof {
        assert forall|y: SymbolId| symbols_in_file(syms@, fid).contains(y) implies out@.contains(y) by {
            assert(syms@.contains_key(y));
            assert(pairs.contains((&y, &syms@[y])));
            let j = choose|j: int| 0 <= j < pairs.len() && pairs[j] == (&y, &syms@[y]);
            assert(pairs[j].1.file_id == fid);
        }
        assert(out@.to_set() =~= symbols_in_file(syms@, fid));
    }
    out
}

/// Whether `x` is a symbol of file `fid` named `n`.
pub(crate) fn named_in_file_exec(syms: &HashMap<SymbolId, SymbolNode>, fid: FileId, n: &str, x: SymbolId) -> (r: bool)
    ensures
        r == named_in_file(syms@, fid, n@, x),
{
    match syms.get(&x) {
        Some(s) => s.file_id == fid && str_eq(s.name.as_str(), n),
        None => false,
    }
}

/// The list of the name `n` without the symbols of file `fid`.
pub(crate) fn list_without_file_exec(l: &Vec<SymbolId>, syms: &HashMap<SymbolId, SymbolNode>, fid: FileId, n: &str) -> (r:
    Vec<SymbolId>)
    ensures
        r@ == list_without_file(l@, syms@, fid, n@),
{
    let ghost pred = keeps_outside(syms@, fid, n@);
    let mut out: Vec<SymbolId> = Vec::new();
    let mut i: usize = 0;
    while i < l.len()
        invariant
            0 <= i <= l@.len(),
            pred == keeps_outside(syms@, fid, n@),
            out@ == l@.take(i as int).filter(pred),
        decreases l@.len() - i,
    {
        proof {
            lemma_filter_take_step(l@, pred, i as int);
        }
        if !named_in_file_exec(syms, fid, n, l[i]) {
            out.push(l[i]);
        }
        i = i + 1;
    }
    proof {
        assert(l@.take(l@.len() as int) =~= l@);
    }
    out
}

/// Filtering twice by the same test is filtering once.
pub(crate) proof fn lemma_filter_twice(s: Seq<SymbolId>, pred: spec_fn(SymbolId) -> bool)
    ensures
        s.filter(pred).filter(pred) == s.filter(pred),
    decreases s.len(),
{
    reveal(Seq::filter);
    if s.len() > 0 {
        lemma_filter_twice(s.drop_last(), pred);
        let f = s.drop_last().filter(pred);
        if pred(s.last()) {
            assert(s.filter(pred) == f.push(s.last()));
            assert(f.push(s.last()).drop_last() =~= f);
            assert(f.push(s.last()).filter(pred) == f.filter(pred).push(s.last()));
        }
    }
}

/// Some of the first symbols of `ids` is named `n`.
pub open spec fn names_among(syms: Map<SymbolId, SymbolNode>, ids: Seq<SymbolId>, n: Seq<char>) -> bool {
    exists|j: int| 0 <= j < ids.len() && syms[#[trigger] ids[j]].name@ == n
}

/// The definitions of configuration keys without the symbols in `gone`.
pub(crate) fn defs_without_exec(v: &Vec<(String, Vec<SymbolId>)>, gone: &Vec<SymbolId>) -> (r: Vec<(String, Vec<SymbolId>)>)
    requires
        distinct_keys(v@),
    ensures
        assoc_ids_view(r@) == defs_without(assoc_ids_view(v@), gone@.to_set()),
        distinct_keys(r@),
{
    let ghost g = gone@.to_set();
    let ghost vv = assoc_ids_view(v@);
    let mut out: Vec<(String, Vec<SymbolId>)> = Vec::new();
    let mut i: usize = 0;
    while i < v.len()
        invariant
            0 <= i <= v@.len(),
            g == gone@.to_set(),
            vv == assoc_ids_view(v@),
            distinct_keys(v@),
            assoc_ids_view(out@) == defs_without(vv.take(i as int), g),
            distinct_keys(out@),
            forall|p: int| 0 <= p < out@.len() ==> exists|q: int| 0 <= q < i && (#[trigger] out@[p]).0@ == v@[q].0@,
        decreases v@.len() - i,
    {
        let entry = &v[i];
        let mut kept: Vec<SymbolId> = Vec::new();
        let mut j: usize = 0;
        while j < entry.1.len()
            invariant
                0 <= j <= entry.1@.len(),
                g == gone@.to_set(),
                kept@ == entry.1@.take(j as int).filter(not_in(g)),
            decreases entry.1@.len() - j,
        {
            proof {
                lemma_filter_take_step(entry.1@, not_in(g), j as int);
            }
            if !contains_id(gone, entry.1[j]) {
                kept.push(entry.1[j]);
            }
            j = j + 1;
        }
        proof {
            assert(entry.1@.take(entry.1@.len() as int) =~= entry.1@);
            assert(vv.take(i + 1).drop_last() =~= vv.take(i as int));
            assert(vv.take(i + 1).last() == (entry.0@, entry.1@));
        }
        if kept.len() > 0 {
            let ghost before = out@;
            let name = entry.0.clone();
            out.push((name, kept));
            proof {
                assert(assoc_ids_view(out@) =~= assoc_ids_view(before).push((entry.0@, kept@)));
                assert forall|a: int, b: int| 0 <= a < b < out@.len() implies (#[trigger] out@[a]).0@
                    != (#[trigger] out@[b]).0@ by {
                    if b == out@.len() - 1 {
                        let q = choose|q: int| 0 <= q < i && before[a].0@ == v@[q].0@;
                        assert(v@[q].0@ != v@[i as int].0@);
                    }
                }
                assert forall|p: int| 0 <= p < out@.len() implies exists|q: int|
                    0 <= q < i + 1 && (#[trigger] out@[p]).0@ == v@[q].0@ by {
                    if p < before.len() {
                        let q = choose|q: int| 0 <= q < i && before[p].0@ == v@[q].0@;
                        assert(0 <= q < i + 1 && out@[p].0@ == v@[q].0@);
                    } else {
                        assert(out@[p].0@ == v@[i as int].0@);
                    }
                }
            }
        }
        i = i + 1;
    }
    proof {
        assert(vv.take(v@.len() as int) =~= vv);
    }
    out
}

/// Filters the name lists of the symbols in `gone` (the symbols of file
/// `fid`) so that they no longer list them.
pub(crate) fn unlist_file_symbols(ix: &mut WorkspaceIndex, fid: FileId, gone: &Vec<SymbolId>)
    requires
        gone@.to_set() == symbols_in_file(old(ix).symbols@, fid),
    ensures
        final(ix).symbols@ == old(ix).symbols@,
        forall|n: Seq<char>| #[trigger]
            final(ix).symbol_map@.contains_key(n) <==> old(ix).symbol_map@.contains_key(n) && !(
            file_has_name(old(ix).symbols@, fid, n) && list_without_file(
                old(ix).symbol_map@[n]@,
                old(ix).symbols@,
                fid,
                n,
            ).len() == 0),
        forall|n: Seq<char>| #[trigger]
            final(ix).symbol_map@.contains_key(n) ==> final(ix).symbol_map@[n]@ == list_without_file(
                old(ix).symbol_map@[n]@,
                old(ix).symbols@,
                fid,
                n,
            ),
        final(ix).next_file_id == old(ix).next_file_id,
        final(ix).next_symbol_id == old(ix).next_symbol_id,
        final(ix).files@ == old(ix).files@,
        final(ix).file_paths@ == old(ix).file_paths@,
        final(ix).resolved_calls@ == old(ix).resolved_calls@,
        final(ix).resolved_type_refs@ == old(ix).resolved_type_refs@,
        final(ix).inheritance@ == old(ix).inheritance@,
        final(ix).file_dependencies@ == old(ix).file_dependencies@,
        final(ix).file_imports@ == old(ix).file_imports@,
        final(ix).file_exports@ == old(ix).file_exports@,
        final(ix).raw_literals@ == old(ix).raw_literals@,
        final(ix).implicit_routes@ == old(ix).implicit_routes@,
        final(ix).raw_calls@ == old(ix).raw_calls@,
        final(ix).raw_type_refs@ == old(ix).raw_type_refs@,
        final(ix).raw_decorators@ == old(ix).raw_decorators@,
        final(ix).symbol_config_refs@ == old(ix).symbol_config_refs@,
        final(ix).raw_implementations@ == old(ix).raw_implementations@,
        final(ix).fingerprints@ == old(ix).fingerprints@,
        final(ix).local_variable_types@ == old(ix).local_variable_types@,
        final(ix).container_methods@ == old(ix).container_methods@,
        final(ix).config_definitions@ == old(ix).config_definitions@,
{
    let ghost syms = ix.symbols@;
    let ghost sm0 = ix.symbol_map@;
    let mut i: usize = 0;
    while i < gone.len()
        invariant
            0 <= i <= gone@.len(),
            ix.symbols@ == syms,
            syms == old(ix).symbols@,
            sm0 == old(ix).symbol_map@,
            gone@.to_set() == symbols_in_file(syms, fid),
            forall|n: Seq<char>| #[trigger]
                ix.symbol_map@.contains_key(n) <==> sm0.contains_key(n) && !(names_among(
                    syms,
                    gone@.take(i as int),
                    n,
                ) && list_without_file(sm0[n]@, syms, fid, n).len() == 0),
            forall|n: Seq<char>| #[trigger]
                ix.symbol_map@.contains_key(n) ==> ix.symbol_map@[n]@ == if names_among(
                    syms,
                    gone@.take(i as int),
                    n,
                ) {
                    list_without_file(sm0[n]@, syms, fid, n)
                } else {
                    sm0[n]@
                },
            ix.next_file_id == old(ix).next_file_id,
            ix.next_symbol_id == old(ix).next_symbol_id,
            ix.files@ == old(ix).files@,
            ix.file_paths@ == old(ix).file_paths@,
            ix.resolved_calls@ == old(ix).resolved_calls@,
            ix.resolved_type_refs@ == old(ix).resolved_type_refs@,
            ix.inheritance@ == old(ix).inheritance@,
            ix.file_dependencies@ == old(ix).file_dependencies@,
            ix.file_imports@ == old(ix).file_imports@,
            ix.file_exports@ == old(ix).file_exports@,
            ix.raw_literals@ == old(ix).raw_literals@,
            ix.implicit_routes@ == old(ix).implicit_routes@,
            ix.raw_calls@ == old(ix).raw_calls@,
            ix.raw_type_refs@ == old(ix).raw_type_refs@,
            ix.raw_decorators@ == old(ix).raw_decorators@,
            ix.symbol_config_refs@ == old(ix).symbol_config_refs@,
            ix.raw_implementations@ == old(ix).raw_implementations@,
            ix.fingerprints@ == old(ix).fingerprints@,
            ix.local_variable_types@ == old(ix).local_variable_types@,
            ix.container_methods@ == old(ix).container_methods@,
            ix.config_definitions@ == old(ix).config_definitions@,
        decreases gone@.len() - i,
    {
        let id = gone[i];
        proof {
            assert(gone@.to_set().contains(id)) by {
                assert(gone@.contains(id));
            }
            assert(syms.contains_key(id));
        }
        let name = match ix.symbols.get(&id) {
            Some(sym) => sym.name.clone(),
            None => String::new(),
        };
        let ghost nm = name@;
        proof {
            assert(nm == syms[id].name@);
            assert(gone@.take(i + 1) =~= gone@.take(i as int).push(id));
            assert forall|n: Seq<char>| n != nm implies (names_among(syms, gone@.take(i + 1), n)
                == names_among(syms, gone@.take(i as int), n)) by {
                if names_among(syms, gone@.take(i + 1), n) {
                    let j = choose|j: int| 0 <= j < i + 1 && syms[#[trigger] gone@.take(i + 1)[j]].name@ == n;
                    assert(j < i);
                    assert(gone@.take(i as int)[j] == gone@.take(i + 1)[j]);
                }
                if names_among(syms, gone@.take(i as int), n) {
                    let j = choose|j: int| 0 <= j < i && syms[#[trigger] gone@.take(i as int)[j]].name@ == n;
                    assert(gone@.take(i as int)[j] == gone@.take(i + 1)[j]);
                }
            }
            assert(names_among(syms, gone@.take(i + 1), nm)) by {
                assert(gone@.take(i + 1)[i as int] == id);
            }
        }
        let current = match ix.symbol_map.get(name.as_str()) {
            Some(list) => Some(list_without_file_exec(list, &ix.symbols, fid, name.as_str())),
            None => None,
        };
        match current {
            Some(kept) => {
                proof {
                    let l0 = sm0[nm]@;
                    let pred = keeps_outside(syms, fid, nm);
                    if names_among(syms, gone@.take(i as int), nm) {
                        lemma_filter_twice(l0, pred);
                    }
                    assert(kept@ == list_without_file(sm0[nm]@, syms, fid, nm));
                }
                if kept.len() == 0 {
                    ix.symbol_map.remove(name.as_str());
                } else {
                    ix.symbol_map.insert(name, kept);
                }
            },
            None => {},
        }
        i = i + 1;
    }
    proof {
        assert(gone@.take(gone@.len() as int) =~= gone@);
        assert forall|n: Seq<char>| names_among(syms, gone@, n) == file_has_name(syms, fid, n) by {
            if names_among(syms, gone@, n) {
                let j = choose|j: int| 0 <= j < gone@.len() && syms[#[trigger] gone@[j]].name@ == n;
                assert(gone@.to_set().contains(gone@[j]));
                assert(named_in_file(syms, fid, n, gone@[j]));
            }
            if file_has_name(syms, fid, n) {
                let k = choose|k: SymbolId| #[trigger] named_in_file(syms, fid, n, k);
                assert(symbols_in_file(syms, fid).contains(k));
                assert(gone@.to_set().contains(k));
                assert(gone@.contains(k));
                let j = choose|j: int| 0 <= j < gone@.len() && gone@[j] == k;
                assert(syms[gone@[j]].name@ == n);
            }
        }
        assert forall|n: Seq<char>| #[trigger] ix.symbol_map@.contains_key(n) && !names_among(
            syms,
            gone@,
            n,
        ) implies sm0[n]@ == list_without_file(sm0[n]@, syms, fid, n) by {
            let pred = keeps_outside(syms, fid, n);
            assert forall|x: SymbolId| #[trigger] sm0[n]@.contains(x) implies pred(x) by {
                if named_in_file(syms, fid, n, x) {
                    assert(file_has_name(syms, fid, n));
                }
            }
            lemma_filter_all_kept(sm0[n]@, pred);
        }
    }
}

/// Filtering by a test that every element passes changes nothing.
pub(crate) proof fn lemma_filter_all_kept(s: Seq<SymbolId>, pred: spec_fn(SymbolId) -> bool)
    requires
        forall|x: SymbolId| #[trigger] s.contains(x) ==> pred(x),
    ensures
        s.filter(pred) == s,
    decreases s.len(),
{
    reveal(Seq::filter);
    if s.len() > 0 {
        assert forall|x: SymbolId| #[trigger] s.drop_last().contains(x) implies pred(x) by {
            let j = choose|j: int| 0 <= j < s.drop_last().len() && s.drop_last()[j] == x;
            assert(s[j] == x);
            assert(s.contains(x));
        }
        lemma_filter_all_kept(s.drop_last(), pred);
        assert(s.contains(s.last())) by {
            assert(s[s.len() - 1] == s.last());
        }
        assert(s.drop_last().push(s.last()) =~= s);
    }
}

} // verus!
