//! Calls through receivers: a symbol that calls methods on a receiver is
//! linked to each container (or module scope) that holds all of those
//! methods, and to the methods of that container it calls.

use vstd::prelude::*;
use std::collections::HashMap;
use crate::schema::{SymbolId, WorkspaceIndex, lists};
use crate::analysis::enrichment::last_entry;
use crate::indexer::resolve::{increasing, keys_of, only_calls_change, sorted_ids};
use crate::indexer::call_links::seen_before;

verus! {

/// Container `cont`, a symbol of the index, holds every one of the methods
/// `ms`.
pub open spec fn covers(ix: WorkspaceIndex, cont: SymbolId, ms: Seq<String>) -> bool {
    ix.symbols@.contains_key(cont) && ix.container_methods@.contains_key(cont) && forall|i: int|
        0 <= i < ms.len() ==> ix.container_methods@[cont]@.contains(#[trigger] ms[i]@)
}

/// Symbol `t` is a method named among `ms` whose parent is `cont`.
pub open spec fn child_link(ix: WorkspaceIndex, ms: Seq<String>, cont: SymbolId, t: SymbolId) -> bool {
    exists|i: int|
        0 <= i < ms.len() && ix.symbol_map@.contains_key(#[trigger] ms[i]@) && ix.symbol_map@[ms[i]@]@.contains(t)
            && ix.symbols@.contains_key(t) && ix.symbols@[t].parent_id == Some(cont)
}

/// The methods `ms`, called on one receiver, link to `t`: a container that
/// holds them all, or one of them in such a container.
pub open spec fn entry_link(ix: WorkspaceIndex, ms: Seq<String>, t: SymbolId) -> bool {
    exists|cont: SymbolId| #[trigger] covers(ix, cont, ms) && (t == cont || child_link(ix, ms, cont, t))
}

/// Symbol `c`, a symbol of the index, calls, on one of its receivers (by
/// the last entry of that receiver), methods that link it to `t`.
pub open spec fn fp_link(ix: WorkspaceIndex, c: SymbolId, t: SymbolId) -> bool {
    ix.symbols@.contains_key(c) && ix.fingerprints@.contains_key(c) && exists|j: int|
        #[trigger] last_entry(ix.fingerprints@[c]@, j, ix.fingerprints@[c]@[j].0@) && entry_link(
            ix,
            ix.fingerprints@[c]@[j].1@,
            t,
        )
}

/// Whether container `cont` holds every one of the methods `ms`.
fn covers_exec(ix: &WorkspaceIndex, cont: SymbolId, ms: &Vec<String>) -> (r: bool)
    ensures
        r == covers(*ix, cont, ms@),
{
    if !ix.symbols.contains_key(&cont) {
        return false;
    }
    match ix.container_methods.get(&cont) {
        Some(set) => {
            let mut i: usize = 0;
            while i < ms.len()
                invariant
                    0 <= i <= ms@.len(),
                    ix.container_methods@.contains_key(cont),
                    ix.symbols@.contains_key(cont),
                    *set == ix.container_methods@[cont],
                    forall|q: int| 0 <= q < i ==> set@.contains(#[trigger] ms@[q]@),
                decreases ms@.len() - i,
            {
                if !set.contains(ms[i].as_str()) {
                    return false;
                }
                i = i + 1;
            }
            true
        },
        None => false,
    }
}

/// The methods named among `ms` whose parent is `cont`.
fn children_exec(ix: &WorkspaceIndex, ms: &Vec<String>, cont: SymbolId) -> (r: Vec<SymbolId>)
    ensures
        forall|t: SymbolId| #[trigger] r@.contains(t) <==> child_link(*ix, ms@, cont, t),
{
    let mut out: Vec<SymbolId> = Vec::new();
    let mut i: usize = 0;
    while i < ms.len()
        invariant
            0 <= i <= ms@.len(),
            forall|t: SymbolId| #[trigger] out@.contains(t) <==> exists|q: int|
                0 <= q < i && ix.symbol_map@.contains_key(#[trigger] ms@[q]@) && ix.symbol_map@[ms@[q]@]@.contains(t)
                    && ix.symbols@.contains_key(t) && ix.symbols@[t].parent_id == Some(cont),
        decreases ms@.len() - i,
    {
        let ghost mid = out@;
        match ix.symbol_map.get(ms[i].as_str()) {
            Some(ids) => {
                let mut k: usize = 0;
                while k < ids.len()
                    invariant
                        0 <= k <= ids@.len(),
                        ix.symbol_map@.contains_key(ms@[i as int]@),
                        ids@ == ix.symbol_map@[ms@[i as int]@]@,
                        forall|t: SymbolId| #[trigger] out@.contains(t) <==> mid.contains(t) || (ids@.take(k as int).contains(
                            t,
                        ) && ix.symbols@.contains_key(t) && ix.symbols@[t].parent_id == Some(cont)),
                    decreases ids@.len() - k,
                {
                    let t = ids[k];
                    let ghost before = out@;
                    proof {
                        assert(ids@.take(k + 1) =~= ids@.take(k as int).push(t));
                        crate::lemmas::lemma_push_contains(ids@.take(k as int), t);
                    }
                    match ix.symbols.get(&t) {
                        Some(s) => {
                            if s.parent_id == Some(cont) {
                                out.push(t);
                                proof {
                                    crate::lemmas::lemma_push_contains(before, t);
                                }
                            }
                        },
                        None => {},
                    }
                    k = k + 1;
                }
                proof {
                    assert(ids@.take(ids@.len() as int) =~= ids@);
                }
            },
            None => {},
        }
        proof {
            assert forall|t: SymbolId| #[trigger] out@.contains(t) <==> exists|q: int|
                0 <= q < i + 1 && ix.symbol_map@.contains_key(#[trigger] ms@[q]@) && ix.symbol_map@[ms@[q]@]@.contains(t)
                    && ix.symbols@.contains_key(t) && ix.symbols@[t].parent_id == Some(cont) by {
                if ix.symbol_map@.contains_key(ms@[i as int]@) && ix.symbol_map@[ms@[i as int]@]@.contains(t)
                    && ix.symbols@.contains_key(t) && ix.symbols@[t].parent_id == Some(cont) {
                    assert(0 <= i < i + 1);
                }
            }
        }
        i = i + 1;
    }
    out
}

/// What the methods `ms`, called on one receiver, link to; `conts` lists
/// the containers.
fn entry_targets(ix: &WorkspaceIndex, conts: &Vec<SymbolId>, ms: &Vec<String>) -> (r: Vec<SymbolId>)
    requires
        conts@.to_set() == ix.container_methods@.dom(),
    ensures
        forall|t: SymbolId| #[trigger] r@.contains(t) <==> entry_link(*ix, ms@, t),
{
    let mut out: Vec<SymbolId> = Vec::new();
    let mut i: usize = 0;
    while i < conts.len()
        invariant
            0 <= i <= conts@.len(),
            conts@.to_set() == ix.container_methods@.dom(),
            forall|t: SymbolId| #[trigger] out@.contains(t) <==> exists|cont: SymbolId|
                conts@.take(i as int).contains(cont) && #[trigger] covers(*ix, cont, ms@) && (t == cont || child_link(
                    *ix,
                    ms@,
                    cont,
                    t,
                )),
        decreases conts@.len() - i,
    {
        let cont = conts[i];
        let ghost before = out@;
        proof {
            assert(conts@.take(i + 1) =~= conts@.take(i as int).push(cont));
            crate::lemmas::lemma_push_contains(conts@.take(i as int), cont);
        }
        if covers_exec(ix, cont, ms) {
            out.push(cont);
            let mut kids = children_exec(ix, ms, cont);
            let ghost kv = kids@;
            let ghost b1 = out@;
            out.append(&mut kids);
            proof {
                crate::lemmas::lemma_push_contains(before, cont);
                crate::lemmas::lemma_concat_contains(b1, kv);
            }
        }
        proof {
            assert forall|t: SymbolId| #[trigger] out@.contains(t) <==> exists|c: SymbolId|
                conts@.take(i + 1).contains(c) && #[trigger] covers(*ix, c, ms@) && (t == c || child_link(*ix, ms@, c, t)) by {
                if exists|c: SymbolId| conts@.take(i + 1).contains(c) && #[trigger] covers(*ix, c, ms@) && (t == c || child_link(
                    *ix,
                    ms@,
                    c,
                    t,
                )) {
                    let c = choose|c: SymbolId| conts@.take(i + 1).contains(c) && #[trigger] covers(*ix, c, ms@) && (t == c
                        || child_link(*ix, ms@, c, t));
                    if c != cont {
                        assert(conts@.take(i as int).contains(c));
                    }
                }
                if covers(*ix, cont, ms@) && (t == cont || child_link(*ix, ms@, cont, t)) {
                    assert(conts@.take(i + 1).contains(cont));
                }
            }
        }
        i = i + 1;
    }
    proof {
        assert(conts@.take(conts@.len() as int) =~= conts@);
        assert forall|t: SymbolId| #[trigger] out@.contains(t) <==> entry_link(*ix, ms@, t) by {
            if entry_link(*ix, ms@, t) {
                let c = choose|c: SymbolId| #[trigger] covers(*ix, c, ms@) && (t == c || child_link(*ix, ms@, c, t));
                assert(conts@.to_set().contains(c));
            }
        }
    }
    out
}

/// Whether no entry of `v` after the `j`th is for the receiver of the `j`th.
pub(crate) fn is_last_entry(v: &Vec<(String, Vec<String>)>, j: usize) -> (r: bool)
    requires
        j < v@.len(),
    ensures
        r == last_entry(v@, j as int, v@[j as int].0@),
{
    let n = v.len();
    let mut k: usize = j + 1;
    while k < n
        invariant
            j < k <= v@.len(),
            n == v@.len(),
            forall|q: int| j < q < k ==> (#[trigger] v@[q]).0@ != v@[j as int].0@,
        decreases v@.len() - k,
    {
        if crate::text::str_eq(v[k].0.as_str(), v[j].0.as_str()) {
            return false;
        }
        k = k + 1;
    }
    true
}

/// What the receivers of symbol `c` link it to.
fn fp_targets(ix: &WorkspaceIndex, conts: &Vec<SymbolId>, c: SymbolId) -> (r: Vec<SymbolId>)
    requires
        conts@.to_set() == ix.container_methods@.dom(),
    ensures
        forall|t: SymbolId| #[trigger] r@.contains(t) <==> fp_link(*ix, c, t),
{
    let mut out: Vec<SymbolId> = Vec::new();
    if !ix.symbols.contains_key(&c) {
        return out;
    }
    match ix.fingerprints.get(&c) {
        Some(v) => {
            let mut j: usize = 0;
            while j < v.len()
                invariant
                    0 <= j <= v@.len(),
                    conts@.to_set() == ix.container_methods@.dom(),
                    ix.fingerprints@.contains_key(c),
                    ix.symbols@.contains_key(c),
                    v@ == ix.fingerprints@[c]@,
                    forall|t: SymbolId| #[trigger] out@.contains(t) <==> exists|q: int|
                        0 <= q < j && #[trigger] last_entry(v@, q, v@[q].0@) && entry_link(*ix, v@[q].1@, t),
                decreases v@.len() - j,
            {
                let ghost before = out@;
                if is_last_entry(v, j) {
                    let mut more = entry_targets(ix, conts, &v[j].1);
                    let ghost mv = more@;
                    out.append(&mut more);
                    proof {
                        crate::lemmas::lemma_concat_contains(before, mv);
                    }
                }
                proof {
                    assert forall|t: SymbolId| #[trigger] out@.contains(t) <==> exists|q: int|
                        0 <= q < j + 1 && #[trigger] last_entry(v@, q, v@[q].0@) && entry_link(*ix, v@[q].1@, t) by {
                        if last_entry(v@, j as int, v@[j as int].0@) && entry_link(*ix, v@[j as int].1@, t) {
                            assert(0 <= j < j + 1);
                        }
                    }
                }
                j = j + 1;
            }
        },
        None => {},
    }
    out
}

/// Links each symbol that calls methods on a receiver to every container
/// that holds all the methods called on that receiver (by the last entry of
/// each receiver), and to those methods in that container; each call list
/// that gains a link comes sorted, without repeats.
pub fn link_fingerprints(ix: &mut WorkspaceIndex)
    ensures
        only_calls_change(*old(ix), *final(ix)),
        forall|k: SymbolId| #[trigger]
            final(ix).resolved_calls@.contains_key(k) <==> old(ix).resolved_calls@.contains_key(k) || exists|t: SymbolId|
                fp_link(*old(ix), k, t),
        forall|k: SymbolId, t: SymbolId| #[trigger]
            lists(final(ix).resolved_calls@, k, t) <==> lists(old(ix).resolved_calls@, k, t) || fp_link(*old(ix), k, t),
        forall|k: SymbolId| #[trigger]
            final(ix).resolved_calls@.contains_key(k) ==> (exists|t: SymbolId| fp_link(*old(ix), k, t)) ==> increasing(
                final(ix).resolved_calls@[k]@,
            ),
        forall|k: SymbolId| #[trigger]
            old(ix).resolved_calls@.contains_key(k) ==> !(exists|t: SymbolId| fp_link(*old(ix), k, t))
                ==> final(ix).resolved_calls@[k] == old(ix).resolved_calls@[k],
{
    let ghost ix0 = *ix;
    let conts = keys_of(&ix.container_methods);
    let keys = keys_of(&ix.fingerprints);
    let mut m: HashMap<SymbolId, Vec<SymbolId>> = ix.resolved_calls.clone();
    let mut i: usize = 0;
    while i < keys.len()
        invariant
            0 <= i <= keys@.len(),
            keys@.to_set() == ix0.fingerprints@.dom(),
            conts@.to_set() == ix0.container_methods@.dom(),
            *ix == ix0,
            forall|k: SymbolId| #[trigger]
                m@.contains_key(k) <==> ix0.resolved_calls@.contains_key(k) || (keys@.take(i as int).contains(k)
                    && exists|t: SymbolId| fp_link(ix0, k, t)),
            forall|k: SymbolId, t: SymbolId| #[trigger]
                lists(m@, k, t) <==> lists(ix0.resolved_calls@, k, t) || (keys@.take(i as int).contains(k) && fp_link(
                    ix0,
                    k,
                    t,
                )),
            forall|k: SymbolId| #[trigger]
                m@.contains_key(k) ==> (keys@.take(i as int).contains(k) && exists|t: SymbolId| fp_link(ix0, k, t))
                    ==> increasing(m@[k]@),
            forall|k: SymbolId| #[trigger]
                ix0.resolved_calls@.contains_key(k) ==> !(keys@.take(i as int).contains(k) && exists|t: SymbolId|
                    fp_link(ix0, k, t)) ==> m@[k] == ix0.resolved_calls@[k],
        decreases keys@.len() - i,
    {
        let c = keys[i];
        let ghost mb = m@;
        let seen = seen_before(&keys, i, c);
        let ghost tv: Seq<SymbolId> = Seq::empty();
        if !seen {
            let targets = fp_targets(ix, &conts, c);
            proof {
                tv = targets@;
            }
            if targets.len() > 0 {
                let mut list: Vec<SymbolId> = match m.get(&c) {
                    Some(l) => l.clone(),
                    None => Vec::new(),
                };
                let ghost lv = list@;
                let mut more = targets;
                list.append(&mut more);
                let sorted = sorted_ids(&list);
                m.insert(c, sorted);
                proof {
                    crate::lemmas::lemma_concat_contains(lv, tv);
                    assert forall|t: SymbolId| #[trigger] sorted@.contains(t) <==> list@.contains(t) by {
                        assert(sorted@.to_set().contains(t) == sorted@.contains(t));
                        assert(list@.to_set().contains(t) == list@.contains(t));
                    }
                }
            }
        }
        let ghost i0 = i as int;
        i = i + 1;
        proof {
            assert(keys@.take(i as int) =~= keys@.take(i0).push(c));
            crate::lemmas::lemma_push_contains(keys@.take(i0), c);
            if !seen {
                assert(forall|t: SymbolId| #[trigger] tv.contains(t) <==> fp_link(ix0, c, t));
                if tv.len() > 0 {
                    assert(tv.contains(tv[0]));
                } else {
                    assert forall|t: SymbolId| !fp_link(ix0, c, t) by {
                        if fp_link(ix0, c, t) {
                            assert(tv.contains(t));
                        }
                    }
                }
            }
            assert forall|k: SymbolId| #[trigger] m@.contains_key(k) <==> ix0.resolved_calls@.contains_key(k) || (
            keys@.take(i as int).contains(k) && exists|t: SymbolId| fp_link(ix0, k, t)) by {
                if k != c {
                    assert(m@.contains_key(k) == mb.contains_key(k));
                }
            }
            assert forall|k: SymbolId, t: SymbolId| #[trigger] lists(m@, k, t) <==> lists(ix0.resolved_calls@, k, t) || (
            keys@.take(i as int).contains(k) && fp_link(ix0, k, t)) by {
                if k != c {
                    assert(lists(m@, k, t) == lists(mb, k, t));
                }
            }
            assert forall|k: SymbolId| #[trigger] m@.contains_key(k) implies (keys@.take(i as int).contains(k) && exists|
                t: SymbolId,
            | fp_link(ix0, k, t)) ==> increasing(m@[k]@) by {
                if k != c {
                    assert(m@.contains_key(k) == mb.contains_key(k));
                }
            }
            assert forall|k: SymbolId| #[trigger] ix0.resolved_calls@.contains_key(k) implies !(keys@.take(i as int).contains(k)
                && exists|t: SymbolId| fp_link(ix0, k, t)) ==> m@[k] == ix0.resolved_calls@[k] by {
                if k != c {
                    assert(mb.contains_key(k));
                }
            }
        }
    }
    ix.resolved_calls = m;
    proof {
        assert(keys@.take(keys@.len() as int) =~= keys@);
        assert forall|k: SymbolId, t: SymbolId| #[trigger] fp_link(ix0, k, t) implies keys@.contains(k) by {
            assert(keys@.to_set().contains(k));
        }
    }
}

} // verus!
