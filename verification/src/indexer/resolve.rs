//! Resolution of the raw references of the index into relations between
//! symbols and between files.

use vstd::prelude::*;
use vstd::std_specs::iter::IteratorSpec;
use std::collections::HashMap;
use crate::schema::{SymbolId, SymbolNode, WorkspaceIndex};
use crate::text::str_eq;
use crate::indexer::consistency::distinct_keys;
use crate::indexer::recording::{same_file_tables, same_symbol_tables};

verus! {

/// A list in strictly increasing order.
pub open spec fn increasing(s: Seq<u32>) -> bool {
    forall|i: int, j: int| 0 <= i < j < s.len() ==> s[i] < s[j]
}

/// The keys of a table, as a list.
pub(crate) fn keys_of<V>(m: &HashMap<u32, V>) -> (r: Vec<u32>)
    ensures
        r@.to_set() == m@.dom(),
{
    let mut out: Vec<u32> = Vec::new();
    broadcast use vstd::std_specs::hash::axiom_spec_hash_map_iter;
    let ghost pairs = vstd::std_specs::hash::spec_hash_map_iter(m).remaining();
    for pair in it: m.iter()
        invariant
            it.seq() == pairs,
            pairs == vstd::std_specs::hash::spec_hash_map_iter(m).remaining(),
            forall|y: u32| out@.contains(y) ==> m@.contains_key(y),
            forall|j: int| 0 <= j < it.index() ==> out@.contains(*(#[trigger] pairs[j]).0),
    {
        let (k, _v) = pair;
        let ghost idx = it.index() as int;
        proof {
            assert(pair == pairs[idx]);
            assert(m@.contains_key(*pairs[idx].0));
        }
        let ghost before = out@;
        out.push(*k);
        proof {
            crate::lemmas::lemma_push_contains(before, *k);
        }
    }
    proof {
        assert forall|y: u32| m@.contains_key(y) implies out@.contains(y) by {
            assert(pairs.contains((&y, &m@[y])));
            let j = choose|j: int| 0 <= j < pairs.len() && pairs[j] == (&y, &m@[y]);
            assert(*pairs[j].0 == y);
        }
        assert(out@.to_set() =~= m@.dom());
    }
    out
}

/// Inserts `x` into an increasing list, keeping it increasing.
fn insert_sorted(v: &mut Vec<u32>, x: u32)
    requires
        increasing(old(v)@),
    ensures
        increasing(final(v)@),
        final(v)@.to_set() == old(v)@.to_set().insert(x),
{
    let mut i: usize = 0;
    while i < v.len() && v[i] < x
        invariant
            0 <= i <= v@.len(),
            forall|j: int| 0 <= j < i ==> v@[j] < x,
        decreases v@.len() - i,
    {
        i = i + 1;
    }
    let ghost before = v@;
    if i < v.len() && v[i] == x {
        return;
    }
    v.insert(i, x);
    proof {
        assert(v@ =~= before.take(i as int).push(x) + before.skip(i as int));
        assert forall|a: int, b: int| 0 <= a < b < v@.len() implies v@[a] < v@[b] by {
            if b < i {
            } else if b == i {
            } else if a < i {
                assert(v@[b] == before[b - 1]);
                assert(before[i as int] > x);
                if b - 1 > i {
                    assert(before[i as int] < before[b - 1]);
                }
            } else if a == i {
                assert(v@[b] == before[b - 1]);
                if b - 1 > i {
                    assert(before[i as int] < before[b - 1]);
                }
            } else {
                assert(v@[a] == before[a - 1]);
                assert(v@[b] == before[b - 1]);
            }
        }
        assert forall|y: u32| v@.to_set().contains(y) <==> before.to_set().insert(x).contains(y) by {
            if v@.contains(y) {
                let k = choose|k: int| 0 <= k < v@.len() && v@[k] == y;
                if k < i {
                    assert(before[k] == y);
                } else if k > i {
                    assert(before[k - 1] == y);
                }
            }
            if before.contains(y) {
                let k = choose|k: int| 0 <= k < before.len() && before[k] == y;
                if k < i {
                    assert(v@[k] == y);
                } else {
                    assert(v@[k + 1] == y);
                }
            }
            if y == x {
                assert(v@[i as int] == x);
            }
        }
        assert(v@.to_set() =~= before.to_set().insert(x));
    }
}

/// The elements of `v`, each once, in increasing order.
pub(crate) fn sorted_ids(v: &Vec<u32>) -> (r: Vec<u32>)
    ensures
        increasing(r@),
        r@.to_set() == v@.to_set(),
{
    let mut out: Vec<u32> = Vec::new();
    let mut i: usize = 0;
    proof {
        assert(v@.take(0).to_set() =~= Set::<u32>::empty());
        assert(out@.to_set() =~= Set::<u32>::empty());
    }
    while i < v.len()
        invariant
            0 <= i <= v@.len(),
            increasing(out@),
            out@.to_set() == v@.take(i as int).to_set(),
        decreases v@.len() - i,
    {
        insert_sorted(&mut out, v[i]);
        proof {
            assert(v@.take(i + 1) =~= v@.take(i as int).push(v@[i as int]));
            crate::lemmas::lemma_push_to_set(v@.take(i as int), v@[i as int]);
        }
        i = i + 1;
    }
    proof {
        assert(v@.take(v@.len() as int) =~= v@);
    }
    out
}

/// Every list of `m` sorted, without repeats; the keys are the same.
pub(crate) fn sort_all_lists(m: &mut HashMap<SymbolId, Vec<SymbolId>>)
    ensures
        final(m)@.dom() == old(m)@.dom(),
        forall|k: SymbolId| #[trigger] final(m)@.contains_key(k) ==> increasing(final(m)@[k]@)
            && final(m)@[k]@.to_set() == old(m)@[k]@.to_set(),
{
    let keys = keys_of(m);
    let ghost m0 = m@;
    let mut i: usize = 0;
    while i < keys.len()
        invariant
            0 <= i <= keys@.len(),
            keys@.to_set() == m0.dom(),
            m@.dom() == m0.dom(),
            forall|k: SymbolId| #[trigger] m@.contains_key(k) ==> m@[k]@.to_set() == m0[k]@.to_set(),
            forall|k: SymbolId| #[trigger] keys@.take(i as int).contains(k) ==> increasing(m@[k]@),
            m0 == old(m)@,
        decreases keys@.len() - i,
    {
        let k = keys[i];
        proof {
            assert(keys@.contains(k));
            assert(keys@.to_set().contains(k));
        }
        let sorted = match m.get(&k) {
            Some(l) => sorted_ids(l),
            None => Vec::new(),
        };
        m.insert(k, sorted);
        proof {
            assert(m@.dom() =~= m0.dom());
            assert forall|q: SymbolId| #[trigger] keys@.take(i + 1).contains(q) implies increasing(m@[q]@) by {
                assert(keys@.take(i + 1) =~= keys@.take(i as int).push(k));
                crate::lemmas::lemma_push_contains(keys@.take(i as int), k);
            }
        }
        i = i + 1;
    }
    proof {
        assert(keys@.take(keys@.len() as int) =~= keys@);
        assert forall|k: SymbolId| #[trigger] m@.contains_key(k) implies increasing(m@[k]@) by {
            assert(keys@.to_set().contains(k));
            assert(keys@.contains(k));
        }
    }
}

/// Some of the configuration keys `refs` is defined by symbol `t`, by the
/// definitions `defs`.
pub open spec fn defined_by(refs: Seq<String>, defs: Seq<(String, Vec<SymbolId>)>, t: SymbolId) -> bool {
    exists|i: int, d: int|
        0 <= i < refs.len() && 0 <= d < defs.len() && #[trigger] defs[d].0@ == #[trigger] refs[i]@ && defs[d].1@.contains(t)
}

/// Symbol `c` reads a configuration key that symbol `t` defines, both being
/// symbols of the index.
pub open spec fn config_link(ix: WorkspaceIndex, c: SymbolId, t: SymbolId) -> bool {
    &&& ix.symbol_config_refs@.contains_key(c)
    &&& defined_by(ix.symbol_config_refs@[c]@, ix.config_definitions@, t)
    &&& ix.symbols@.contains_key(c)
    &&& ix.symbols@.contains_key(t)
}

/// The elements of `v` that are symbols of the index.
fn existing_only(syms: &HashMap<SymbolId, SymbolNode>, v: &Vec<SymbolId>) -> (r: Vec<SymbolId>)
    ensures
        forall|t: SymbolId| #[trigger] r@.contains(t) <==> v@.contains(t) && syms@.contains_key(t),
{
    let mut out: Vec<SymbolId> = Vec::new();
    let mut i: usize = 0;
    while i < v.len()
        invariant
            0 <= i <= v@.len(),
            forall|t: SymbolId| #[trigger] out@.contains(t) <==> v@.take(i as int).contains(t) && syms@.contains_key(t),
        decreases v@.len() - i,
    {
        let ghost before = out@;
        proof {
            assert(v@.take(i + 1) =~= v@.take(i as int).push(v@[i as int]));
            crate::lemmas::lemma_push_contains(v@.take(i as int), v@[i as int]);
        }
        if syms.contains_key(&v[i]) {
            out.push(v[i]);
            proof {
                crate::lemmas::lemma_push_contains(before, v@[i as int]);
            }
        }
        i = i + 1;
    }
    proof {
        assert(v@.take(v@.len() as int) =~= v@);
    }
    out
}

/// The symbols that define the configuration key `key`.
fn definitions_of<'a>(defs: &'a Vec<(String, Vec<SymbolId>)>, key: &str) -> (r: Option<&'a Vec<SymbolId>>)
    requires
        distinct_keys(defs@),
    ensures
        match r {
            Some(l) => exists|d: int| 0 <= d < defs@.len() && defs@[d].0@ == key@ && l@ == defs@[d].1@,
            None => forall|d: int| 0 <= d < defs@.len() ==> defs@[d].0@ != key@,
        },
{
    let mut d: usize = 0;
    while d < defs.len()
        invariant
            0 <= d <= defs@.len(),
            forall|q: int| 0 <= q < d ==> defs@[q].0@ != key@,
        decreases defs@.len() - d,
    {
        if str_eq(defs[d].0.as_str(), key) {
            return Some(&defs[d].1);
        }
        d = d + 1;
    }
    None
}

/// The symbols that define one of the configuration keys `refs`.
fn config_targets(refs: &Vec<String>, defs: &Vec<(String, Vec<SymbolId>)>) -> (r: Vec<SymbolId>)
    requires
        distinct_keys(defs@),
    ensures
        forall|t: SymbolId| #[trigger] r@.contains(t) <==> defined_by(refs@, defs@, t),
{
    let mut out: Vec<SymbolId> = Vec::new();
    let mut i: usize = 0;
    while i < refs.len()
        invariant
            0 <= i <= refs@.len(),
            distinct_keys(defs@),
            forall|t: SymbolId| #[trigger] out@.contains(t) <==> defined_by(refs@.take(i as int), defs@, t),
        decreases refs@.len() - i,
    {
        let ghost before = out@;
        match definitions_of(defs, refs[i].as_str()) {
            Some(l) => {
                let mut more = l.clone();
                let ghost m = more@;
                out.append(&mut more);
                proof {
                    assert forall|t: SymbolId| #[trigger] out@.contains(t) <==> defined_by(
                        refs@.take(i + 1),
                        defs@,
                        t,
                    ) by {
                        crate::lemmas::lemma_concat_contains(before, m);
                        let d0 = choose|d: int| 0 <= d < defs@.len() && defs@[d].0@ == refs@[i as int]@ && m == defs@[d].1@;
                        if defined_by(refs@.take(i + 1), defs@, t) {
                            let (a, d) = choose|a: int, d: int|
                                0 <= a < i + 1 && 0 <= d < defs@.len() && #[trigger] defs@[d].0@ == #[trigger] refs@.take(i + 1)[a]@
                                    && defs@[d].1@.contains(t);
                            if a < i {
                                assert(refs@.take(i as int)[a] == refs@.take(i + 1)[a]);
                                assert(defined_by(refs@.take(i as int), defs@, t));
                            } else {
                                if d != d0 {
                                    if d < d0 {
                                        assert(defs@[d].0@ != defs@[d0].0@);
                                    } else {
                                        assert(defs@[d0].0@ != defs@[d].0@);
                                    }
                                }
                            }
                        }
                        if before.contains(t) {
                            let (a, d) = choose|a: int, d: int|
                                0 <= a < i && 0 <= d < defs@.len() && #[trigger] defs@[d].0@ == #[trigger] refs@.take(i as int)[a]@
                                    && defs@[d].1@.contains(t);
                            assert(refs@.take(i + 1)[a] == refs@.take(i as int)[a]);
                        }
                        if m.contains(t) {
                            assert(refs@.take(i + 1)[i as int] == refs@[i as int]);
                        }
                    }
                }
            },
            None => {
                proof {
                    assert forall|t: SymbolId| #[trigger] out@.contains(t) <==> defined_by(
                        refs@.take(i + 1),
                        defs@,
                        t,
                    ) by {
                        if defined_by(refs@.take(i + 1), defs@, t) {
                            let (a, d) = choose|a: int, d: int|
                                0 <= a < i + 1 && 0 <= d < defs@.len() && #[trigger] defs@[d].0@ == #[trigger] refs@.take(i + 1)[a]@
                                    && defs@[d].1@.contains(t);
                            assert(a < i);
                            assert(refs@.take(i as int)[a] == refs@.take(i + 1)[a]);
                        }
                        if before.contains(t) {
                            let (a, d) = choose|a: int, d: int|
                                0 <= a < i && 0 <= d < defs@.len() && #[trigger] defs@[d].0@ == #[trigger] refs@.take(i as int)[a]@
                                    && defs@[d].1@.contains(t);
                            assert(refs@.take(i + 1)[a] == refs@.take(i as int)[a]);
                        }
                    }
                }
            },
        }
        i = i + 1;
    }
    proof {
        assert(refs@.take(refs@.len() as int) =~= refs@);
    }
    out
}

/// The relations between symbols that `b` holds beside those of `a`, the
/// rest of the index being the same.
pub open spec fn only_calls_change(a: WorkspaceIndex, b: WorkspaceIndex) -> bool {
    &&& same_file_tables(a, b)
    &&& same_symbol_tables(a, b)
    &&& b.resolved_type_refs@ == a.resolved_type_refs@
    &&& b.inheritance@ == a.inheritance@
    &&& b.file_dependencies@ == a.file_dependencies@
}

/// Links each symbol that reads a configuration key to the symbols of data
/// files that define it, both being symbols of the index; every call list
/// then comes sorted, without repeats.
pub fn link_config_keys(ix: &mut WorkspaceIndex)
    requires
        distinct_keys(old(ix).config_definitions@),
    ensures
        only_calls_change(*old(ix), *final(ix)),
        forall|k: SymbolId| #[trigger]
            final(ix).resolved_calls@.contains_key(k) <==> old(ix).resolved_calls@.contains_key(k) || exists|t: SymbolId|
                config_link(*old(ix), k, t),
        forall|k: SymbolId| #[trigger]
            final(ix).resolved_calls@.contains_key(k) ==> increasing(final(ix).resolved_calls@[k]@),
        forall|k: SymbolId, t: SymbolId|
            final(ix).resolved_calls@.contains_key(k) ==> (#[trigger] final(ix).resolved_calls@[k]@.contains(t) <==> (old(
                ix,
            ).resolved_calls@.contains_key(k) && old(ix).resolved_calls@[k]@.contains(t)) || config_link(*old(ix), k, t)),
{
    let ghost ix0 = *ix;
    let keys = keys_of(&ix.symbol_config_refs);
    let mut i: usize = 0;
    while i < keys.len()
        invariant
            0 <= i <= keys@.len(),
            keys@.to_set() == ix0.symbol_config_refs@.dom(),
            distinct_keys(ix.config_definitions@),
            only_calls_change(ix0, *ix),
            forall|k: SymbolId| #[trigger]
                ix.resolved_calls@.contains_key(k) <==> ix0.resolved_calls@.contains_key(k) || (keys@.take(
                    i as int,
                ).contains(k) && exists|t: SymbolId| config_link(ix0, k, t)),
            forall|k: SymbolId, t: SymbolId|
                ix.resolved_calls@.contains_key(k) ==> (#[trigger] ix.resolved_calls@[k]@.contains(t) <==> (
                ix0.resolved_calls@.contains_key(k) && ix0.resolved_calls@[k]@.contains(t)) || (keys@.take(
                    i as int,
                ).contains(k) && config_link(ix0, k, t))),
        decreases keys@.len() - i,
    {
        let c = keys[i];
        proof {
            assert(keys@.contains(c));
            assert(keys@.to_set().contains(c));
            assert(keys@.take(i + 1) =~= keys@.take(i as int).push(c));
            crate::lemmas::lemma_push_contains(keys@.take(i as int), c);
        }
        let found = match ix.symbol_config_refs.get(&c) {
            Some(refs) => config_targets(refs, &ix.config_definitions),
            None => Vec::new(),
        };
        let targets = if ix.symbols.contains_key(&c) {
            existing_only(&ix.symbols, &found)
        } else {
            Vec::new()
        };
        let ghost tv = targets@;
        proof {
            assert forall|t: SymbolId| #[trigger] tv.contains(t) <==> config_link(ix0, c, t) by {}
        }
        if targets.len() > 0 {
            let mut list: Vec<SymbolId> = match ix.resolved_calls.get(&c) {
                Some(l) => l.clone(),
                None => Vec::new(),
            };
            let ghost lv = list@;
            let mut more = targets;
            list.append(&mut more);
            proof {
                crate::lemmas::lemma_concat_contains(lv, tv);
            }
            ix.resolved_calls.insert(c, list);
            proof {
                assert(tv.contains(tv[0]));
                assert(config_link(ix0, c, tv[0]));
                assert forall|k: SymbolId, t: SymbolId|
                    ix.resolved_calls@.contains_key(k) implies (#[trigger] ix.resolved_calls@[k]@.contains(t) <==> (
                    ix0.resolved_calls@.contains_key(k) && ix0.resolved_calls@[k]@.contains(t)) || (keys@.take(
                        i + 1,
                    ).contains(k) && config_link(ix0, k, t))) by {
                    if k == c {
                        if !keys@.take(i as int).contains(c) {
                        }
                    }
                }
            }
        } else {
            proof {
                assert forall|t: SymbolId| !config_link(ix0, c, t) by {
                    if config_link(ix0, c, t) {
                        assert(tv.contains(t));
                    }
                }
            }
        }
        i = i + 1;
    }
    proof {
        assert(keys@.take(keys@.len() as int) =~= keys@);
        assert forall|k: SymbolId| (exists|t: SymbolId| config_link(ix0, k, t)) implies keys@.contains(k) by {
            assert(ix0.symbol_config_refs@.contains_key(k));
            assert(keys@.to_set().contains(k));
        }
    }
    let ghost ix1 = *ix;
    sort_all_lists(&mut ix.resolved_calls);
    proof {
        assert forall|k: SymbolId, t: SymbolId|
            ix.resolved_calls@.contains_key(k) implies (#[trigger] ix.resolved_calls@[k]@.contains(t) <==> ix1.resolved_calls@[k]@.contains(t)) by {
            assert(ix.resolved_calls@[k]@.to_set().contains(t) == ix.resolved_calls@[k]@.contains(t));
            assert(ix1.resolved_calls@[k]@.to_set().contains(t) == ix1.resolved_calls@[k]@.contains(t));
        }
    }
}

/// Symbol `c`, a symbol of the index, implements or extends a type named
/// like symbol `p`.
pub open spec fn implements(ix: WorkspaceIndex, p: SymbolId, c: SymbolId) -> bool {
    ix.symbols@.contains_key(c) && ix.raw_implementations@.contains_key(c) && exists|i: int|
        0 <= i < ix.raw_implementations@[c]@.len() && ix.symbol_map@.contains_key(
            #[trigger] ix.raw_implementations@[c]@[i]@,
        ) && ix.symbol_map@[ix.raw_implementations@[c]@[i]@]@.contains(p)
}

/// The symbols named like one of `parents`.
fn named_like(ix: &WorkspaceIndex, parents: &Vec<String>) -> (r: Vec<SymbolId>)
    ensures
        forall|p: SymbolId| #[trigger] r@.contains(p) <==> exists|i: int|
            0 <= i < parents@.len() && ix.symbol_map@.contains_key(#[trigger] parents@[i]@)
                && ix.symbol_map@[parents@[i]@]@.contains(p),
{
    let mut out: Vec<SymbolId> = Vec::new();
    let mut i: usize = 0;
    while i < parents.len()
        invariant
            0 <= i <= parents@.len(),
            forall|p: SymbolId| #[trigger] out@.contains(p) <==> exists|q: int|
                0 <= q < i && ix.symbol_map@.contains_key(#[trigger] parents@[q]@)
                    && ix.symbol_map@[parents@[q]@]@.contains(p),
        decreases parents@.len() - i,
    {
        let ghost before = out@;
        match ix.symbol_map.get(parents[i].as_str()) {
            Some(ids) => {
                let mut more = ids.clone();
                let ghost m = more@;
                out.append(&mut more);
                proof {
                    crate::lemmas::lemma_concat_contains(before, m);
                    assert forall|p: SymbolId| #[trigger] out@.contains(p) <==> exists|q: int|
                        0 <= q < i + 1 && ix.symbol_map@.contains_key(#[trigger] parents@[q]@)
                            && ix.symbol_map@[parents@[q]@]@.contains(p) by {
                        if m.contains(p) {
                            assert(0 <= i < i + 1 && ix.symbol_map@.contains_key(parents@[i as int]@)
                                && ix.symbol_map@[parents@[i as int]@]@.contains(p));
                        }
                    }
                }
            },
            None => {},
        }
        i = i + 1;
    }
    out
}

/// Adds `c` to the list of `p` in `m`.
fn push_id(m: &mut HashMap<SymbolId, Vec<SymbolId>>, p: SymbolId, c: SymbolId)
    ensures
        final(m)@.dom() == old(m)@.dom().insert(p),
        forall|k: SymbolId| k != p && #[trigger] old(m)@.contains_key(k) ==> final(m)@[k] == old(m)@[k],
        forall|x: SymbolId| #[trigger] final(m)@[p]@.contains(x) <==> (old(m)@.contains_key(p) && old(m)@[p]@.contains(x)) || x == c,
{
    let mut list: Vec<SymbolId> = match m.get(&p) {
        Some(l) => l.clone(),
        None => Vec::new(),
    };
    let ghost before = list@;
    list.push(c);
    proof {
        crate::lemmas::lemma_push_contains(before, c);
    }
    m.insert(p, list);
    proof {
        assert(m@.dom() =~= old(m)@.dom().insert(p));
    }
}

/// Rebuilds the inheritance relation from the recorded implementations: each
/// symbol named like a type that a symbol of the index implements or extends
/// lists that symbol (in an order that depends on the order in which the
/// recorded implementations are walked).
pub fn connect_implementations(ix: &mut WorkspaceIndex)
    ensures
        same_file_tables(*old(ix), *final(ix)),
        same_symbol_tables(*old(ix), *final(ix)),
        final(ix).resolved_calls@ == old(ix).resolved_calls@,
        final(ix).resolved_type_refs@ == old(ix).resolved_type_refs@,
        final(ix).file_dependencies@ == old(ix).file_dependencies@,
        forall|p: SymbolId| #[trigger]
            final(ix).inheritance@.contains_key(p) <==> exists|c: SymbolId| implements(*old(ix), p, c),
        forall|p: SymbolId, c: SymbolId|
            final(ix).inheritance@.contains_key(p) ==> (#[trigger] final(ix).inheritance@[p]@.contains(c)
                <==> implements(*old(ix), p, c)),
{
    let ghost ix0 = *ix;
    ix.inheritance.clear();
    let keys = keys_of(&ix.raw_implementations);
    let mut i: usize = 0;
    while i < keys.len()
        invariant
            0 <= i <= keys@.len(),
            keys@.to_set() == ix0.raw_implementations@.dom(),
            same_file_tables(ix0, *ix),
            same_symbol_tables(ix0, *ix),
            ix.resolved_calls@ == ix0.resolved_calls@,
            ix.resolved_type_refs@ == ix0.resolved_type_refs@,
            ix.file_dependencies@ == ix0.file_dependencies@,
            forall|p: SymbolId| #[trigger]
                ix.inheritance@.contains_key(p) <==> exists|c: SymbolId|
                    keys@.take(i as int).contains(c) && implements(ix0, p, c),
            forall|p: SymbolId, c: SymbolId|
                ix.inheritance@.contains_key(p) ==> (#[trigger] ix.inheritance@[p]@.contains(c) <==> (keys@.take(
                    i as int,
                ).contains(c) && implements(ix0, p, c))),
        decreases keys@.len() - i,
    {
        let c = keys[i];
        proof {
            assert(keys@.contains(c));
            assert(keys@.to_set().contains(c));
            assert(keys@.take(i + 1) =~= keys@.take(i as int).push(c));
            crate::lemmas::lemma_push_contains(keys@.take(i as int), c);
        }
        let parents = if ix.symbols.contains_key(&c) {
            match ix.raw_implementations.get(&c) {
                Some(ps) => named_like(ix, ps),
                None => Vec::new(),
            }
        } else {
            Vec::new()
        };
        let ghost pv = parents@;
        proof {
            assert forall|p: SymbolId| #[trigger] pv.contains(p) <==> implements(ix0, p, c) by {
                if implements(ix0, p, c) {
                    let q = choose|q: int|
                        0 <= q < ix0.raw_implementations@[c]@.len() && ix0.symbol_map@.contains_key(
                            #[trigger] ix0.raw_implementations@[c]@[q]@,
                        ) && ix0.symbol_map@[ix0.raw_implementations@[c]@[q]@]@.contains(p);
                }
            }
        }
        let ghost mid = ix.inheritance@;
        let mut j: usize = 0;
        while j < parents.len()
            invariant
                0 <= j <= parents@.len(),
                pv == parents@,
                same_file_tables(ix0, *ix),
                same_symbol_tables(ix0, *ix),
                ix.resolved_calls@ == ix0.resolved_calls@,
                ix.resolved_type_refs@ == ix0.resolved_type_refs@,
                ix.file_dependencies@ == ix0.file_dependencies@,
                forall|p: SymbolId| #[trigger]
                    ix.inheritance@.contains_key(p) <==> mid.contains_key(p) || pv.take(j as int).contains(p),
                forall|p: SymbolId, x: SymbolId|
                    ix.inheritance@.contains_key(p) ==> (#[trigger] ix.inheritance@[p]@.contains(x) <==> (
                    mid.contains_key(p) && mid[p]@.contains(x)) || (pv.take(j as int).contains(p) && x == c)),
            decreases parents@.len() - j,
        {
            let p = parents[j];
            push_id(&mut ix.inheritance, p, c);
            proof {
                assert(pv.take(j + 1) =~= pv.take(j as int).push(p));
                crate::lemmas::lemma_push_contains(pv.take(j as int), p);
            }
            j = j + 1;
        }
        proof {
            assert(pv.take(pv.len() as int) =~= pv);
            assert forall|p: SymbolId| #[trigger] ix.inheritance@.contains_key(p) <==> exists|x: SymbolId|
                keys@.take(i + 1).contains(x) && implements(ix0, p, x) by {
                if pv.contains(p) {
                    assert(keys@.take(i + 1).contains(c) && implements(ix0, p, c));
                }
                if exists|x: SymbolId| keys@.take(i + 1).contains(x) && implements(ix0, p, x) {
                    let x = choose|x: SymbolId| keys@.take(i + 1).contains(x) && implements(ix0, p, x);
                    if x == c {
                        assert(pv.contains(p));
                    } else {
                        assert(keys@.take(i as int).contains(x));
                    }
                }
            }
        }
        i = i + 1;
    }
    proof {
        assert(keys@.take(keys@.len() as int) =~= keys@);
        assert forall|p: SymbolId, c: SymbolId| #[trigger] implements(ix0, p, c) implies keys@.contains(c) by {
            assert(keys@.to_set().contains(c));
        }
    }
}

} // verus!
