//! Dependencies of files on the files their string literals name by path.

use vstd::prelude::*;
use vstd::utf8::encode_utf8;
use crate::schema::{FileId, WorkspaceIndex};
use crate::text::{chars_of, has_char};
use crate::indexer::resolve::keys_of;
use crate::indexer::links::{apply_links, gains_links, module_links, same_but_links};
use crate::indexer::import_links::ImportTargets;

verus! {

/// A literal that may be a path: it holds `/` or `.`, no space and no line
/// break, and is longer than three bytes.
pub open spec fn path_like(s: Seq<char>) -> bool {
    &&& s.contains('/') || s.contains('.')
    &&& !s.contains(' ')
    &&& !s.contains('\n')
    &&& encode_utf8(s).len() as usize > 3
}

/// A path-like literal of file `f` leads to another file `t`.
pub open spec fn literal_dep(ix: WorkspaceIndex, tab: ImportTargets, f: FileId, t: FileId) -> bool {
    &&& f != t
    &&& ix.raw_literals@.contains_key(f)
    &&& exists|j: int|
        0 <= j < ix.raw_literals@[f]@.len() && path_like((#[trigger] ix.raw_literals@[f]@[j])@) && tab.target(
            f,
            ix.raw_literals@[f]@[j]@,
        ) == Some(t)
}

/// Whether a literal may be a path.
fn is_path_like(lit: &String) -> (r: bool)
    ensures
        r == path_like(lit@),
{
    let ls = lit.as_str();
    let n = ls.len();
    proof {
        assert(ls@ == lit@);
        assert(n == encode_utf8(ls@).len() as usize);
    }
    let cs = chars_of(ls);
    (has_char(&cs, '/') || has_char(&cs, '.')) && !has_char(&cs, ' ') && !has_char(&cs, '\n') && n > 3
}

/// The files other than `f` that a path-like literal of `f` leads to.
fn literal_targets(ix: &WorkspaceIndex, tab: &ImportTargets, f: FileId) -> (r: Vec<FileId>)
    ensures
        forall|t: FileId| #[trigger] r@.contains(t) <==> literal_dep(*ix, *tab, f, t),
{
    let mut out: Vec<FileId> = Vec::new();
    match ix.raw_literals.get(&f) {
        Some(lits) => {
            let mut j: usize = 0;
            while j < lits.len()
                invariant
                    0 <= j <= lits@.len(),
                    ix.raw_literals@.contains_key(f),
                    lits@ == ix.raw_literals@[f]@,
                    forall|t: FileId| #[trigger] out@.contains(t) <==> f != t && exists|q: int|
                        0 <= q < j && path_like((#[trigger] lits@[q])@) && tab.target(f, lits@[q]@) == Some(t),
                decreases lits@.len() - j,
            {
                let ghost before = out@;
                if is_path_like(&lits[j]) {
                    match tab.get(f, lits[j].as_str()) {
                        Some(t) => {
                            if t != f {
                                out.push(t);
                            }
                            proof {
                                crate::lemmas::lemma_push_contains(before, t);
                            }
                        },
                        None => {},
                    }
                }
                proof {
                    assert forall|t: FileId| #[trigger] out@.contains(t) <==> f != t && exists|q: int|
                        0 <= q < j + 1 && path_like((#[trigger] lits@[q])@) && tab.target(f, lits@[q]@) == Some(t) by {
                        if path_like(lits@[j as int]@) && tab.target(f, lits@[j as int]@) == Some(t) {
                            assert(0 <= j < j + 1);
                        }
                    }
                }
                j = j + 1;
            }
        },
        None => {},
    }
    out
}

/// Links each file to every other file that one of its path-like string
/// literals leads to, and the module scope of the first to that of the
/// second where both have one.
pub fn link_literal_paths(ix: &mut WorkspaceIndex, tab: &ImportTargets)
    ensures
        same_but_links(*old(ix), *final(ix)),
        gains_links(old(ix).file_dependencies@, final(ix).file_dependencies@, |f: u32, t: u32| literal_dep(*old(ix), *tab, f, t)),
        gains_links(
            old(ix).resolved_calls@,
            final(ix).resolved_calls@,
            |k: u32, x: u32| module_links(old(ix).symbols@, |f: u32, t: u32| literal_dep(*old(ix), *tab, f, t), k, x),
        ),
{
    let ghost ix0 = *ix;
    let keys = keys_of(&ix.raw_literals);
    let mut pairs: Vec<(FileId, FileId)> = Vec::new();
    let mut i: usize = 0;
    while i < keys.len()
        invariant
            0 <= i <= keys@.len(),
            keys@.to_set() == ix.raw_literals@.dom(),
            *ix == ix0,
            forall|f: FileId, t: FileId| #[trigger] pairs@.contains((f, t)) <==> keys@.take(i as int).contains(f)
                && literal_dep(ix0, *tab, f, t),
        decreases keys@.len() - i,
    {
        let f = keys[i];
        proof {
            assert(keys@.take(i + 1) =~= keys@.take(i as int).push(f));
            crate::lemmas::lemma_push_contains(keys@.take(i as int), f);
        }
        let targets = literal_targets(ix, tab, f);
        let ghost mid = pairs@;
        let mut k: usize = 0;
        while k < targets.len()
            invariant
                0 <= k <= targets@.len(),
                forall|a: FileId, b: FileId| #[trigger] pairs@.contains((a, b)) <==> mid.contains((a, b)) || (a == f
                    && targets@.take(k as int).contains(b)),
            decreases targets@.len() - k,
        {
            let ghost before = pairs@;
            pairs.push((f, targets[k]));
            proof {
                assert(targets@.take(k + 1) =~= targets@.take(k as int).push(targets@[k as int]));
                crate::lemmas::lemma_push_contains(targets@.take(k as int), targets@[k as int]);
                crate::lemmas::lemma_push_contains(before, (f, targets@[k as int]));
            }
            k = k + 1;
        }
        proof {
            assert(targets@.take(targets@.len() as int) =~= targets@);
        }
        i = i + 1;
    }
    proof {
        assert(keys@.take(keys@.len() as int) =~= keys@);
        assert forall|f: FileId, t: FileId| #[trigger] literal_dep(ix0, *tab, f, t) implies keys@.contains(f) by {
            assert(keys@.to_set().contains(f));
        }
    }
    apply_links(ix, &pairs);
    proof {
        assert((|f: u32, t: u32| pairs@.contains((f, t))) =~= (|f: u32, t: u32| literal_dep(ix0, *tab, f, t)));
    }
}

} // verus!
