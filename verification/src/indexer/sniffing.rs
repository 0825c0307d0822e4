//! Calls through typed receivers: where a receiver's type is known from a
//! local variable of an enclosing scope, the caller is linked to the symbols
//! of that type and to the methods it calls on them.

use vstd::prelude::*;
use std::collections::HashMap;
use crate::schema::{SymbolId, WorkspaceIndex, lists};
use crate::text::{chars_of, starts_with, str_starts_with, string_of, string_of_range, take_until, take_until_exec};
use crate::analysis::enrichment::last_entry;
use crate::indexer::resolve::{keys_of, only_calls_change};
use crate::indexer::call_links::seen_before;
use crate::indexer::links::add_link;

verus! {

/// The type that the local variable `r` has in scope `sid` or, failing
/// that, in the enclosing scopes, going out at most `n` times.
pub open spec fn scope_hint(ix: WorkspaceIndex, sid: SymbolId, r: Seq<char>, n: nat) -> Option<Seq<char>>
    decreases n,
{
    if ix.local_variable_types@.contains_key(sid) && ix.local_variable_types@[sid]@.contains_key(r) {
        Some(ix.local_variable_types@[sid]@[r]@)
    } else if n == 0 || !ix.symbols@.contains_key(sid) {
        None
    } else {
        match ix.symbols@[sid].parent_id {
            Some(p) => scope_hint(ix, p, r, (n - 1) as nat),
            None => None,
        }
    }
}

/// The type a hint names: for `returns:name`, the return type of the first
/// symbol of that name; otherwise the hint itself.
pub open spec fn hinted_type(ix: WorkspaceIndex, h: Seq<char>) -> Option<Seq<char>> {
    if starts_with(h, seq!['r', 'e', 't', 'u', 'r', 'n', 's', ':']) {
        let n = h.skip(8);
        if ix.symbol_map@.contains_key(n) && ix.symbol_map@[n]@.len() > 0 && ix.symbols@.contains_key(
            ix.symbol_map@[n]@[0],
        ) {
            match ix.symbols@[ix.symbol_map@[n]@[0]].return_type {
                Some(t) => Some(t@),
                None => None,
            }
        } else {
            None
        }
    } else {
        Some(h)
    }
}

/// The type of receiver `r` of symbol `c`, without generic arguments.
pub open spec fn receiver_type(ix: WorkspaceIndex, c: SymbolId, r: Seq<char>) -> Option<Seq<char>> {
    match scope_hint(ix, c, r, ix.symbols@.len()) {
        Some(h) => match hinted_type(ix, h) {
            Some(t) => Some(take_until(t, seq!['<'])),
            None => None,
        },
        None => None,
    }
}

/// Symbol `t` is a symbol of type `ty`, or a method of one that the methods
/// `ms` name and its container holds.
pub open spec fn type_link(ix: WorkspaceIndex, ty: Seq<char>, ms: Seq<String>, t: SymbolId) -> bool {
    ix.symbol_map@.contains_key(ty) && exists|tid: SymbolId|
        #[trigger] ix.symbol_map@[ty]@.contains(tid) && (t == tid || (ix.container_methods@.contains_key(tid)
            && exists|i: int|
            0 <= i < ms.len() && ix.container_methods@[tid]@.contains(#[trigger] ms[i]@) && ix.symbol_map@.contains_key(
                ms[i]@,
            ) && ix.symbol_map@[ms[i]@]@.contains(t) && ix.symbols@.contains_key(t) && ix.symbols@[t].parent_id
                == Some(tid)))
}

/// Symbol `c`, a symbol of the index, calls methods on a receiver (by its
/// last entry) whose type is known, and so reaches `t`.
pub open spec fn sniff_link(ix: WorkspaceIndex, c: SymbolId, t: SymbolId) -> bool {
    ix.symbols@.contains_key(c) && ix.fingerprints@.contains_key(c) && exists|j: int|
        #[trigger] last_entry(ix.fingerprints@[c]@, j, ix.fingerprints@[c]@[j].0@) && receiver_type(
            ix,
            c,
            ix.fingerprints@[c]@[j].0@,
        ) is Some && type_link(
            ix,
            receiver_type(ix, c, ix.fingerprints@[c]@[j].0@)->0,
            ix.fingerprints@[c]@[j].1@,
            t,
        )
}

/// The type local variable `r` has in scope `sid` or an enclosing one.
fn scope_hint_exec(ix: &WorkspaceIndex, sid: SymbolId, r: &str) -> (h: Option<String>)
    ensures
        match h {
            Some(s) => scope_hint(*ix, sid, r@, ix.symbols@.len()) == Some(s@),
            None => scope_hint(*ix, sid, r@, ix.symbols@.len()) is None,
        },
{
    let mut cur = sid;
    let mut left: usize = ix.symbols.len();
    loop
        invariant
            left <= ix.symbols@.len(),
            scope_hint(*ix, sid, r@, ix.symbols@.len()) == scope_hint(*ix, cur, r@, left as nat),
        decreases left,
    {
        match ix.local_variable_types.get(&cur) {
            Some(vars) => match vars.get(r) {
                Some(h) => {
                    return Some(h.clone());
                },
                None => {},
            },
            None => {},
        }
        if left == 0 {
            return None;
        }
        match ix.symbols.get(&cur) {
            Some(s) => match s.parent_id {
                Some(p) => {
                    cur = p;
                    left = left - 1;
                },
                None => {
                    return None;
                },
            },
            None => {
                return None;
            },
        }
    }
}

/// The type a hint names.
fn hinted_type_exec(ix: &WorkspaceIndex, h: &String) -> (t: Option<String>)
    ensures
        match t {
            Some(s) => hinted_type(*ix, h@) == Some(s@),
            None => hinted_type(*ix, h@) is None,
        },
{
    proof {
        reveal_strlit("returns:");
        assert("returns:"@ =~= seq!['r', 'e', 't', 'u', 'r', 'n', 's', ':']);
    }
    if str_starts_with(h.as_str(), "returns:") {
        let cs = chars_of(h.as_str());
        let name = string_of_range(&cs, 8, cs.len());
        proof {
            assert(cs@.subrange(8, cs@.len() as int) =~= h@.skip(8));
        }
        match ix.symbol_map.get(name.as_str()) {
            Some(ids) => {
                if ids.len() == 0 {
                    return None;
                }
                match ix.symbols.get(&ids[0]) {
                    Some(s) => match &s.return_type {
                        Some(rt) => Some(rt.clone()),
                        None => None,
                    },
                    None => None,
                }
            },
            None => None,
        }
    } else {
        Some(h.clone())
    }
}

/// The type of receiver `r` of symbol `c`, without generic arguments.
fn receiver_type_exec(ix: &WorkspaceIndex, c: SymbolId, r: &str) -> (t: Option<String>)
    ensures
        match t {
            Some(s) => receiver_type(*ix, c, r@) == Some(s@),
            None => receiver_type(*ix, c, r@) is None,
        },
{
    match scope_hint_exec(ix, c, r) {
        Some(h) => match hinted_type_exec(ix, &h) {
            Some(ty) => {
                let cs = chars_of(ty.as_str());
                let stop = vec!['<'];
                proof {
                    assert(stop@ =~= seq!['<']);
                }
                let head = take_until_exec(&cs, &stop);
                Some(string_of(&head))
            },
            None => None,
        },
        None => None,
    }
}

/// Symbol `t` is a method of symbol `tid`, which holds one of the methods
/// `ms` as a member, named by that method.
pub open spec fn typed_child(ix: WorkspaceIndex, ms: Seq<String>, tid: SymbolId, t: SymbolId) -> bool {
    ix.container_methods@.contains_key(tid) && exists|i: int|
        0 <= i < ms.len() && ix.container_methods@[tid]@.contains(#[trigger] ms[i]@) && ix.symbol_map@.contains_key(
            ms[i]@,
        ) && ix.symbol_map@[ms[i]@]@.contains(t) && ix.symbols@.contains_key(t) && ix.symbols@[t].parent_id == Some(tid)
}

/// The methods of `tid` among `ms` that it holds.
fn typed_children(ix: &WorkspaceIndex, ms: &Vec<String>, tid: SymbolId) -> (r: Vec<SymbolId>)
    ensures
        forall|t: SymbolId| #[trigger] r@.contains(t) <==> typed_child(*ix, ms@, tid, t),
{
    let mut out: Vec<SymbolId> = Vec::new();
    match ix.container_methods.get(&tid) {
        Some(mems) => {
            let mut i: usize = 0;
            while i < ms.len()
                invariant
                    0 <= i <= ms@.len(),
                    ix.container_methods@.contains_key(tid),
                    *mems == ix.container_methods@[tid],
                    forall|t: SymbolId| #[trigger] out@.contains(t) <==> exists|q: int|
                        0 <= q < i && mems@.contains(#[trigger] ms@[q]@) && ix.symbol_map@.contains_key(ms@[q]@)
                            && ix.symbol_map@[ms@[q]@]@.contains(t) && ix.symbols@.contains_key(t) && ix.symbols@[t].parent_id
                            == Some(tid),
                decreases ms@.len() - i,
            {
                let ghost mid = out@;
                if mems.contains(ms[i].as_str()) {
                    match ix.symbol_map.get(ms[i].as_str()) {
                        Some(ids) => {
                            let mut k: usize = 0;
                            while k < ids.len()
                                invariant
                                    0 <= k <= ids@.len(),
                                    ix.symbol_map@.contains_key(ms@[i as int]@),
                                    ids@ == ix.symbol_map@[ms@[i as int]@]@,
                                    forall|t: SymbolId| #[trigger] out@.contains(t) <==> mid.contains(t) || (ids@.take(
                                        k as int,
                                    ).contains(t) && ix.symbols@.contains_key(t) && ix.symbols@[t].parent_id == Some(tid)),
                                decreases ids@.len() - k,
                            {
                                let t = ids[k];
                                let ghost before = out@;
                                proof {
                                    assert(ids@.take(k + 1) =~= ids@.take(k as int).push(t));
                                    crate::lemmas::lemma_push_contains(ids@.take(k as int), t);
                                }
                                match ix.symbols.get(&t) {
                                    Some(s) => {
                                        if s.parent_id == Some(tid) {
                                            out.push(t);
                                            proof {
                                                crate::lemmas::lemma_push_contains(before, t);
                                            }
                                        }
                                    },
                                    None => {},
                                }
                                k = k + 1;
                            }
                            proof {
                                assert(ids@.take(ids@.len() as int) =~= ids@);
                            }
                        },
                        None => {},
                    }
                }
                proof {
                    assert forall|t: SymbolId| #[trigger] out@.contains(t) <==> exists|q: int|
                        0 <= q < i + 1 && mems@.contains(#[trigger] ms@[q]@) && ix.symbol_map@.contains_key(ms@[q]@)
                            && ix.symbol_map@[ms@[q]@]@.contains(t) && ix.symbols@.contains_key(t) && ix.symbols@[t].parent_id
                            == Some(tid) by {
                        if mems@.contains(ms@[i as int]@) && ix.symbol_map@.contains_key(ms@[i as int]@)
                            && ix.symbol_map@[ms@[i as int]@]@.contains(t) && ix.symbols@.contains_key(t)
                            && ix.symbols@[t].parent_id == Some(tid) {
                            assert(0 <= i < i + 1);
                        }
                    }
                }
                i = i + 1;
            }
        },
        None => {},
    }
    out
}

/// The symbols of type `ty` and their methods among `ms`.
fn type_targets(ix: &WorkspaceIndex, ty: &str, ms: &Vec<String>) -> (r: Vec<SymbolId>)
    ensures
        forall|t: SymbolId| #[trigger] r@.contains(t) <==> type_link(*ix, ty@, ms@, t),
{
    let mut out: Vec<SymbolId> = Vec::new();
    match ix.symbol_map.get(ty) {
        Some(tids) => {
            let mut q: usize = 0;
            while q < tids.len()
                invariant
                    0 <= q <= tids@.len(),
                    ix.symbol_map@.contains_key(ty@),
                    tids@ == ix.symbol_map@[ty@]@,
                    forall|t: SymbolId| #[trigger] out@.contains(t) <==> exists|tid: SymbolId|
                        #[trigger] tids@.take(q as int).contains(tid) && (t == tid || typed_child(*ix, ms@, tid, t)),
                decreases tids@.len() - q,
            {
                let tid = tids[q];
                let ghost before = out@;
                proof {
                    assert(tids@.take(q + 1) =~= tids@.take(q as int).push(tid));
                    crate::lemmas::lemma_push_contains(tids@.take(q as int), tid);
                }
                out.push(tid);
                let ghost b1 = out@;
                let mut kids = typed_children(ix, ms, tid);
                let ghost kv = kids@;
                out.append(&mut kids);
                proof {
                    crate::lemmas::lemma_push_contains(before, tid);
                    crate::lemmas::lemma_concat_contains(b1, kv);
                    assert forall|t: SymbolId| #[trigger] out@.contains(t) <==> exists|x: SymbolId|
                        #[trigger] tids@.take(q + 1).contains(x) && (t == x || typed_child(*ix, ms@, x, t)) by {
                        if exists|x: SymbolId| #[trigger] tids@.take(q + 1).contains(x) && (t == x || typed_child(*ix, ms@, x, t)) {
                            let x = choose|x: SymbolId| #[trigger] tids@.take(q + 1).contains(x) && (t == x || typed_child(
                                *ix,
                                ms@,
                                x,
                                t,
                            ));
                            if x != tid {
                                assert(tids@.take(q as int).contains(x));
                            }
                        }
                        if t == tid || typed_child(*ix, ms@, tid, t) {
                            assert(tids@.take(q + 1).contains(tid));
                        }
                        if before.contains(t) {
                            let x = choose|x: SymbolId| #[trigger] tids@.take(q as int).contains(x) && (t == x || typed_child(
                                *ix,
                                ms@,
                                x,
                                t,
                            ));
                            assert(tids@.take(q + 1).contains(x));
                        }
                    }
                }
                q = q + 1;
            }
            proof {
                assert(tids@.take(tids@.len() as int) =~= tids@);
                assert forall|t: SymbolId| #[trigger] out@.contains(t) <==> type_link(*ix, ty@, ms@, t) by {
                    if type_link(*ix, ty@, ms@, t) {
                        let tid = choose|tid: SymbolId| #[trigger] ix.symbol_map@[ty@]@.contains(tid) && (t == tid || (
                        ix.container_methods@.contains_key(tid) && exists|i: int|
                            0 <= i < ms@.len() && ix.container_methods@[tid]@.contains(#[trigger] ms@[i]@)
                                && ix.symbol_map@.contains_key(ms@[i]@) && ix.symbol_map@[ms@[i]@]@.contains(t)
                                && ix.symbols@.contains_key(t) && ix.symbols@[t].parent_id == Some(tid)));
                        if t != tid {
                            assert(typed_child(*ix, ms@, tid, t));
                        }
                    }
                }
            }
        },
        None => {},
    }
    out
}

/// What the typed receivers of symbol `c` link it to.
fn sniff_targets(ix: &WorkspaceIndex, c: SymbolId) -> (r: Vec<SymbolId>)
    ensures
        forall|t: SymbolId| #[trigger] r@.contains(t) <==> sniff_link(*ix, c, t),
{
    let mut out: Vec<SymbolId> = Vec::new();
    if !ix.symbols.contains_key(&c) {
        return out;
    }
    match ix.fingerprints.get(&c) {
        Some(v) => {
            let mut j: usize = 0;
            while j < v.len()
                invariant
                    0 <= j <= v@.len(),
                    ix.fingerprints@.contains_key(c),
                    ix.symbols@.contains_key(c),
                    v@ == ix.fingerprints@[c]@,
                    forall|t: SymbolId| #[trigger] out@.contains(t) <==> exists|q: int|
                        0 <= q < j && #[trigger] last_entry(v@, q, v@[q].0@) && receiver_type(*ix, c, v@[q].0@) is Some
                            && type_link(*ix, receiver_type(*ix, c, v@[q].0@)->0, v@[q].1@, t),
                decreases v@.len() - j,
            {
                let ghost before = out@;
                if crate::indexer::fingerprints::is_last_entry(v, j) {
                    match receiver_type_exec(ix, c, v[j].0.as_str()) {
                        Some(ty) => {
                            let mut more = type_targets(ix, ty.as_str(), &v[j].1);
                            let ghost mv = more@;
                            out.append(&mut more);
                            proof {
                                crate::lemmas::lemma_concat_contains(before, mv);
                            }
                        },
                        None => {},
                    }
                }
                proof {
                    assert forall|t: SymbolId| #[trigger] out@.contains(t) <==> exists|q: int|
                        0 <= q < j + 1 && #[trigger] last_entry(v@, q, v@[q].0@) && receiver_type(*ix, c, v@[q].0@) is Some
                            && type_link(*ix, receiver_type(*ix, c, v@[q].0@)->0, v@[q].1@, t) by {
                        if last_entry(v@, j as int, v@[j as int].0@) && receiver_type(*ix, c, v@[j as int].0@) is Some
                            && type_link(*ix, receiver_type(*ix, c, v@[j as int].0@)->0, v@[j as int].1@, t) {
                            assert(0 <= j < j + 1);
                        }
                    }
                }
                j = j + 1;
            }
        },
        None => {},
    }
    out
}

/// Adds to the calls of each symbol the symbols of the known type of each
/// of its receivers (by the last entry of each receiver; the type is that of
/// a local variable of the symbol or of an enclosing scope, through a return
/// type for a `returns:` hint, without generic arguments), and the methods
/// of those symbols it calls on that receiver.
pub fn link_receiver_types(ix: &mut WorkspaceIndex)
    ensures
        only_calls_change(*old(ix), *final(ix)),
        forall|k: SymbolId| #[trigger]
            final(ix).resolved_calls@.contains_key(k) <==> old(ix).resolved_calls@.contains_key(k) || exists|t: SymbolId|
                sniff_link(*old(ix), k, t),
        forall|k: SymbolId, t: SymbolId| #[trigger]
            lists(final(ix).resolved_calls@, k, t) <==> lists(old(ix).resolved_calls@, k, t) || sniff_link(*old(ix), k, t),
{
    let ghost ix0 = *ix;
    let keys = keys_of(&ix.fingerprints);
    let mut m: HashMap<SymbolId, Vec<SymbolId>> = ix.resolved_calls.clone();
    let mut i: usize = 0;
    while i < keys.len()
        invariant
            0 <= i <= keys@.len(),
            keys@.to_set() == ix0.fingerprints@.dom(),
            *ix == ix0,
            forall|k: SymbolId| #[trigger]
                m@.contains_key(k) <==> ix0.resolved_calls@.contains_key(k) || (keys@.take(i as int).contains(k)
                    && exists|t: SymbolId| sniff_link(ix0, k, t)),
            forall|k: SymbolId, t: SymbolId| #[trigger]
                lists(m@, k, t) <==> lists(ix0.resolved_calls@, k, t) || (keys@.take(i as int).contains(k) && sniff_link(
                    ix0,
                    k,
                    t,
                )),
        decreases keys@.len() - i,
    {
        let c = keys[i];
        let ghost mb = m@;
        let targets = sniff_targets(ix, c);
        let mut q: usize = 0;
        while q < targets.len()
            invariant
                0 <= q <= targets@.len(),
                forall|k: SymbolId| #[trigger] m@.contains_key(k) <==> mb.contains_key(k) || (k == c && q > 0),
                forall|k: SymbolId, t: SymbolId| #[trigger] lists(m@, k, t) <==> lists(mb, k, t) || (k == c
                    && targets@.take(q as int).contains(t)),
            decreases targets@.len() - q,
        {
            proof {
                assert(targets@.take(q + 1) =~= targets@.take(q as int).push(targets@[q as int]));
                crate::lemmas::lemma_push_contains(targets@.take(q as int), targets@[q as int]);
            }
            add_link(&mut m, c, targets[q]);
            q = q + 1;
        }
        let ghost i0 = i as int;
        i = i + 1;
        proof {
            assert(targets@.take(targets@.len() as int) =~= targets@);
            assert(keys@.take(i as int) =~= keys@.take(i0).push(c));
            crate::lemmas::lemma_push_contains(keys@.take(i0), c);
            if targets@.len() > 0 {
                assert(targets@.contains(targets@[0]));
                assert(sniff_link(ix0, c, targets@[0]));
            } else {
                assert forall|t: SymbolId| !sniff_link(ix0, c, t) by {
                    if sniff_link(ix0, c, t) {
                        assert(targets@.contains(t));
                    }
                }
            }
            assert forall|k: SymbolId| #[trigger] m@.contains_key(k) <==> ix0.resolved_calls@.contains_key(k) || (
            keys@.take(i as int).contains(k) && exists|t: SymbolId| sniff_link(ix0, k, t)) by {
                if k == c && keys@.take(i0).contains(c) && exists|t: SymbolId| sniff_link(ix0, c, t) {
                    assert(mb.contains_key(c));
                }
            }
        }
    }
    ix.resolved_calls = m;
    proof {
        assert(keys@.take(keys@.len() as int) =~= keys@);
        assert forall|k: SymbolId, t: SymbolId| #[trigger] sniff_link(ix0, k, t) implies keys@.contains(k) by {
            assert(keys@.to_set().contains(k));
        }
    }
}

} // verus!
