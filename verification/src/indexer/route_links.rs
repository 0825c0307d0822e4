//! Links from the files whose string literals name a route to the files
//! that serve that route by their path.

use vstd::prelude::*;
use crate::schema::{FileId, WorkspaceIndex};
use crate::text::{str_eq, trim_quotes, trim_quote_chars};
use crate::indexer::consistency::distinct_keys;
use crate::indexer::resolve::keys_of;
use crate::indexer::links::{apply_links, gains_links, module_links, same_but_links};

verus! {

/// File `t` serves route `r` in the route list.
pub open spec fn serves(routes: Seq<(String, FileId)>, r: Seq<char>, t: FileId) -> bool {
    exists|i: int| 0 <= i < routes.len() && (#[trigger] routes[i]).0@ == r && routes[i].1 == t
}

/// A string literal of file `f`, stripped of its quotes, is a route that
/// another file `t` serves.
pub open spec fn route_link(ix: WorkspaceIndex, f: FileId, t: FileId) -> bool {
    &&& f != t
    &&& ix.raw_literals@.contains_key(f)
    &&& exists|j: int|
        0 <= j < ix.raw_literals@[f]@.len() && serves(
            ix.implicit_routes@,
            trim_quotes(#[trigger] ix.raw_literals@[f]@[j]@),
            t,
        )
}

/// The file that serves route `key`, if any.
fn route_lookup(routes: &Vec<(String, FileId)>, key: &str) -> (r: Option<FileId>)
    requires
        distinct_keys(routes@),
    ensures
        forall|t: FileId| #[trigger] serves(routes@, key@, t) <==> r == Some(t),
{
    let mut i: usize = 0;
    while i < routes.len()
        invariant
            0 <= i <= routes@.len(),
            distinct_keys(routes@),
            forall|j: int| 0 <= j < i ==> (#[trigger] routes@[j]).0@ != key@,
        decreases routes@.len() - i,
    {
        if str_eq(routes[i].0.as_str(), key) {
            let t = routes[i].1;
            proof {
                assert forall|u: FileId| #[trigger] serves(routes@, key@, u) implies u == t by {
                    let j = choose|j: int| 0 <= j < routes@.len() && (#[trigger] routes@[j]).0@ == key@ && routes@[j].1 == u;
                    if j != i {
                        if j < i {
                            assert(routes@[j].0@ != key@);
                        } else {
                            assert(routes@[i as int].0@ != routes@[j].0@);
                        }
                    }
                }
                assert(serves(routes@, key@, t));
            }
            return Some(t);
        }
        i = i + 1;
    }
    None
}

/// The files that another file serves a route of, named by a literal of
/// file `f`.
fn route_targets(ix: &WorkspaceIndex, f: FileId) -> (r: Vec<FileId>)
    requires
        distinct_keys(ix.implicit_routes@),
    ensures
        forall|t: FileId| #[trigger] r@.contains(t) <==> route_link(*ix, f, t),
{
    let mut out: Vec<FileId> = Vec::new();
    match ix.raw_literals.get(&f) {
        Some(lits) => {
            let mut j: usize = 0;
            while j < lits.len()
                invariant
                    0 <= j <= lits@.len(),
                    distinct_keys(ix.implicit_routes@),
                    ix.raw_literals@.contains_key(f),
                    lits@ == ix.raw_literals@[f]@,
                    forall|t: FileId| #[trigger] out@.contains(t) <==> f != t && exists|q: int|
                        0 <= q < j && serves(ix.implicit_routes@, trim_quotes(#[trigger] lits@[q]@), t),
                decreases lits@.len() - j,
            {
                let clean = trim_quote_chars(lits[j].as_str());
                let ghost before = out@;
                match route_lookup(&ix.implicit_routes, clean.as_str()) {
                    Some(t) => {
                        if t != f {
                            out.push(t);
                        }
                        proof {
                            crate::lemmas::lemma_push_contains(before, t);
                        }
                    },
                    None => {},
                }
                proof {
                    assert forall|t: FileId| #[trigger] out@.contains(t) <==> f != t && exists|q: int|
                        0 <= q < j + 1 && serves(ix.implicit_routes@, trim_quotes(#[trigger] lits@[q]@), t) by {
                        if serves(ix.implicit_routes@, trim_quotes(lits@[j as int]@), t) {
                            assert(0 <= j < j + 1);
                        }
                    }
                }
                j = j + 1;
            }
        },
        None => {},
    }
    out
}

/// Every pair of a file and a file that it names a route of.
fn route_pairs(ix: &WorkspaceIndex) -> (r: Vec<(FileId, FileId)>)
    requires
        distinct_keys(ix.implicit_routes@),
    ensures
        forall|f: FileId, t: FileId| #[trigger] r@.contains((f, t)) <==> route_link(*ix, f, t),
{
    let keys = keys_of(&ix.raw_literals);
    let mut out: Vec<(FileId, FileId)> = Vec::new();
    let mut i: usize = 0;
    while i < keys.len()
        invariant
            0 <= i <= keys@.len(),
            keys@.to_set() == ix.raw_literals@.dom(),
            distinct_keys(ix.implicit_routes@),
            forall|f: FileId, t: FileId| #[trigger] out@.contains((f, t)) <==> keys@.take(i as int).contains(f)
                && route_link(*ix, f, t),
        decreases keys@.len() - i,
    {
        let f = keys[i];
        proof {
            assert(keys@.take(i + 1) =~= keys@.take(i as int).push(f));
            crate::lemmas::lemma_push_contains(keys@.take(i as int), f);
        }
        let targets = route_targets(ix, f);
        let ghost mid = out@;
        let mut k: usize = 0;
        while k < targets.len()
            invariant
                0 <= k <= targets@.len(),
                forall|a: FileId, b: FileId| #[trigger] out@.contains((a, b)) <==> mid.contains((a, b)) || (a == f
                    && targets@.take(k as int).contains(b)),
            decreases targets@.len() - k,
        {
            let ghost before = out@;
            out.push((f, targets[k]));
            proof {
                assert(targets@.take(k + 1) =~= targets@.take(k as int).push(targets@[k as int]));
                crate::lemmas::lemma_push_contains(targets@.take(k as int), targets@[k as int]);
                crate::lemmas::lemma_push_contains(before, (f, targets@[k as int]));
            }
            k = k + 1;
        }
        proof {
            assert(targets@.take(targets@.len() as int) =~= targets@);
        }
        i = i + 1;
    }
    proof {
        assert(keys@.take(keys@.len() as int) =~= keys@);
        assert forall|f: FileId, t: FileId| #[trigger] route_link(*ix, f, t) implies keys@.contains(f) by {
            assert(keys@.to_set().contains(f));
        }
    }
    out
}

/// Links each file whose string literals, stripped of their quotes, name a
/// route that another file serves, to that file, and the module scope of the
/// first to that of the second where both have one.
pub fn link_routes(ix: &mut WorkspaceIndex)
    requires
        distinct_keys(old(ix).implicit_routes@),
    ensures
        same_but_links(*old(ix), *final(ix)),
        gains_links(old(ix).file_dependencies@, final(ix).file_dependencies@, |f: u32, t: u32| route_link(*old(ix), f, t)),
        gains_links(
            old(ix).resolved_calls@,
            final(ix).resolved_calls@,
            |k: u32, x: u32| module_links(old(ix).symbols@, |f: u32, t: u32| route_link(*old(ix), f, t), k, x),
        ),
{
    let ghost ix0 = *ix;
    let pairs = route_pairs(ix);
    apply_links(ix, &pairs);
    proof {
        assert((|f: u32, t: u32| pairs@.contains((f, t))) =~= (|f: u32, t: u32| route_link(ix0, f, t)));
    }
}

} // verus!
