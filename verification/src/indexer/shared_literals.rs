//! Links between files that hold the same distinctive string literal: a
//! route, or a long identifier-like string.

use vstd::prelude::*;
use vstd::hash_map::StringHashMap;
use vstd::utf8::encode_utf8;
use crate::schema::{FileId, WorkspaceIndex};
use crate::text::{chars_of, has_char};
use crate::indexer::resolve::keys_of;
use crate::indexer::links::{apply_links, gains_links, module_links, same_but_links};

verus! {

/// A literal distinctive enough to link the files that share it: longer
/// than three bytes, and either a route (it starts with `/`) or longer than
/// ten bytes, without a space, with `_`, `-` or `.` in it.
pub open spec fn distinctive(s: Seq<char>) -> bool {
    let n = encode_utf8(s).len() as usize;
    &&& n > 3
    &&& (s.len() > 0 && s[0] == '/') || (n > 10 && !s.contains(' ') && (s.contains('_') || s.contains('-')
        || s.contains('.')))
}

/// File `f` holds the distinctive literal `s`.
pub open spec fn holds_literal(ix: WorkspaceIndex, f: FileId, s: Seq<char>) -> bool {
    &&& ix.raw_literals@.contains_key(f)
    &&& exists|j: int| 0 <= j < ix.raw_literals@[f]@.len() && (#[trigger] ix.raw_literals@[f]@[j])@ == s
    &&& distinctive(s)
}

/// Two different files hold the same distinctive literal.
pub open spec fn shares_literal(ix: WorkspaceIndex, a: FileId, b: FileId) -> bool {
    a != b && exists|s: Seq<char>| #[trigger] holds_literal(ix, a, s) && holds_literal(ix, b, s)
}

/// The list holds the entry of file `f` and literal `s`.
pub open spec fn has_entry(e: Seq<(FileId, String)>, f: FileId, s: Seq<char>) -> bool {
    exists|k: int| 0 <= k < e.len() && (#[trigger] e[k]).0 == f && e[k].1@ == s
}

/// Whether a literal is distinctive.
fn is_distinctive(lit: &String) -> (r: bool)
    ensures
        r == distinctive(lit@),
{
    let ls = lit.as_str();
    let n = ls.len();
    proof {
        assert(ls@ == lit@);
        assert(n == encode_utf8(ls@).len() as usize);
    }
    if n <= 3 {
        return false;
    }
    let cs = chars_of(lit.as_str());
    if cs.len() > 0 && cs[0] == '/' {
        return true;
    }
    n > 10 && !has_char(&cs, ' ') && (has_char(&cs, '_') || has_char(&cs, '-') || has_char(&cs, '.'))
}

/// Every file with each distinctive literal it holds.
fn literal_entries(ix: &WorkspaceIndex) -> (r: Vec<(FileId, String)>)
    ensures
        forall|f: FileId, s: Seq<char>| #[trigger] has_entry(r@, f, s) <==> holds_literal(*ix, f, s),
{
    let keys = keys_of(&ix.raw_literals);
    let mut out: Vec<(FileId, String)> = Vec::new();
    let mut i: usize = 0;
    while i < keys.len()
        invariant
            0 <= i <= keys@.len(),
            keys@.to_set() == ix.raw_literals@.dom(),
            forall|f: FileId, s: Seq<char>| #[trigger] has_entry(out@, f, s) <==> keys@.take(i as int).contains(f)
                && holds_literal(*ix, f, s),
        decreases keys@.len() - i,
    {
        let f = keys[i];
        proof {
            assert(keys@.take(i + 1) =~= keys@.take(i as int).push(f));
            crate::lemmas::lemma_push_contains(keys@.take(i as int), f);
            assert(keys@.contains(f));
            assert(keys@.to_set().contains(f));
        }
        let ghost mid = out@;
        match ix.raw_literals.get(&f) {
            Some(lits) => {
                let mut j: usize = 0;
                while j < lits.len()
                    invariant
                        0 <= j <= lits@.len(),
                        ix.raw_literals@.contains_key(f),
                        lits@ == ix.raw_literals@[f]@,
                        forall|a: FileId, s: Seq<char>| #[trigger] has_entry(out@, a, s) <==> has_entry(mid, a, s) || (a
                            == f && distinctive(s) && exists|q: int| 0 <= q < j && (#[trigger] lits@[q])@ == s),
                    decreases lits@.len() - j,
                {
                    let ghost before = out@;
                    if is_distinctive(&lits[j]) {
                        out.push((f, lits[j].clone()));
                        proof {
                            assert forall|a: FileId, s: Seq<char>| #[trigger] has_entry(out@, a, s) <==> has_entry(before, a, s)
                                || (a == f && s == lits@[j as int]@) by {
                                if has_entry(out@, a, s) {
                                    let k = choose|k: int| 0 <= k < out@.len() && (#[trigger] out@[k]).0 == a && out@[k].1@ == s;
                                    if k < before.len() {
                                        assert(before[k] == out@[k]);
                                    }
                                }
                                if has_entry(before, a, s) {
                                    let k = choose|k: int| 0 <= k < before.len() && (#[trigger] before[k]).0 == a && before[k].1@ == s;
                                    assert(out@[k] == before[k]);
                                }
                                if a == f && s == lits@[j as int]@ {
                                    assert(out@[before.len() as int] == (f, lits@[j as int]));
                                }
                            }
                        }
                    }
                    proof {
                        assert forall|a: FileId, s: Seq<char>| #[trigger] has_entry(out@, a, s) <==> has_entry(mid, a, s) || (a
                            == f && distinctive(s) && exists|q: int| 0 <= q < j + 1 && (#[trigger] lits@[q])@ == s) by {
                            if a == f && s == lits@[j as int]@ {
                                assert(0 <= j < j + 1 && lits@[j as int]@ == s);
                            }
                        }
                    }
                    j = j + 1;
                }
            },
            None => {},
        }
        proof {
            assert forall|a: FileId, s: Seq<char>| #[trigger] has_entry(out@, a, s) <==> keys@.take(i + 1).contains(a)
                && holds_literal(*ix, a, s) by {
                if a == f && holds_literal(*ix, a, s) {
                    let q = choose|q: int| 0 <= q < ix.raw_literals@[f]@.len() && (#[trigger] ix.raw_literals@[f]@[q])@ == s;
                    assert(ix.raw_literals@[f]@[q]@ == s);
                }
            }
        }
        i = i + 1;
    }
    proof {
        assert(keys@.take(keys@.len() as int) =~= keys@);
        assert forall|f: FileId, s: Seq<char>| #[trigger] holds_literal(*ix, f, s) implies keys@.contains(f) by {
            assert(keys@.to_set().contains(f));
        }
    }
    out
}

/// Two different files have entries with the same literal.
pub open spec fn pair_share(e: Seq<(FileId, String)>, a: FileId, b: FileId) -> bool {
    a != b && exists|s: Seq<char>| #[trigger] has_entry(e, a, s) && has_entry(e, b, s)
}

/// One more entry.
proof fn lemma_entry_push(e: Seq<(FileId, String)>, x: (FileId, String))
    ensures
        forall|f: FileId, s: Seq<char>| #[trigger] has_entry(e.push(x), f, s) <==> has_entry(e, f, s) || (f == x.0
            && s == x.1@),
{
    assert forall|f: FileId, s: Seq<char>| #[trigger] has_entry(e.push(x), f, s) <==> has_entry(e, f, s) || (f == x.0
        && s == x.1@) by {
        if has_entry(e.push(x), f, s) {
            let k = choose|k: int| 0 <= k < e.push(x).len() && (#[trigger] e.push(x)[k]).0 == f && e.push(x)[k].1@ == s;
            if k < e.len() {
                assert(e[k] == e.push(x)[k]);
            }
        }
        if has_entry(e, f, s) {
            let k = choose|k: int| 0 <= k < e.len() && (#[trigger] e[k]).0 == f && e[k].1@ == s;
            assert(e.push(x)[k] == e[k]);
        }
        if f == x.0 && s == x.1@ {
            assert(e.push(x)[e.len() as int] == x);
        }
    }
}

/// Every pair of different files with entries of the same literal.
fn shared_pairs(entries: &Vec<(FileId, String)>) -> (r: Vec<(FileId, FileId)>)
    ensures
        forall|a: FileId, b: FileId| #[trigger] r@.contains((a, b)) <==> pair_share(entries@, a, b),
{
    let mut groups: StringHashMap<Vec<FileId>> = StringHashMap::new();
    let mut out: Vec<(FileId, FileId)> = Vec::new();
    let mut i: usize = 0;
    while i < entries.len()
        invariant
            0 <= i <= entries@.len(),
            forall|s: Seq<char>| #[trigger] groups@.contains_key(s) ==> forall|g: FileId| #[trigger]
                groups@[s]@.contains(g) <==> has_entry(entries@.take(i as int), g, s),
            forall|g: FileId, s: Seq<char>| #[trigger] has_entry(entries@.take(i as int), g, s) ==> groups@.contains_key(s),
            forall|a: FileId, b: FileId| #[trigger] out@.contains((a, b)) <==> pair_share(entries@.take(i as int), a, b),
        decreases entries@.len() - i,
    {
        let f = entries[i].0;
        let ghost e0 = entries@.take(i as int);
        let ghost e1 = entries@.take(i + 1);
        let ghost s0 = entries@[i as int].1@;
        proof {
            assert(e1 =~= e0.push(entries@[i as int]));
            lemma_entry_push(e0, entries@[i as int]);
        }
        let prior: Vec<FileId> = match groups.get(entries[i].1.as_str()) {
            Some(l) => l.clone(),
            None => Vec::new(),
        };
        proof {
            assert forall|g: FileId| #[trigger] prior@.contains(g) <==> has_entry(e0, g, s0) by {
                if has_entry(e0, g, s0) {
                    assert(groups@.contains_key(s0));
                }
            }
        }
        let ghost mid = out@;
        let mut k: usize = 0;
        while k < prior.len()
            invariant
                0 <= k <= prior@.len(),
                forall|a: FileId, b: FileId| #[trigger] out@.contains((a, b)) <==> mid.contains((a, b)) || (a == f && b
                    != f && prior@.take(k as int).contains(b)) || (b == f && a != f && prior@.take(k as int).contains(a)),
            decreases prior@.len() - k,
        {
            let g = prior[k];
            let ghost before = out@;
            proof {
                assert(prior@.take(k + 1) =~= prior@.take(k as int).push(g));
                crate::lemmas::lemma_push_contains(prior@.take(k as int), g);
            }
            if g != f {
                out.push((f, g));
                let ghost b1 = out@;
                out.push((g, f));
                proof {
                    crate::lemmas::lemma_push_contains(before, (f, g));
                    crate::lemmas::lemma_push_contains(b1, (g, f));
                }
            }
            k = k + 1;
        }
        proof {
            assert(prior@.take(prior@.len() as int) =~= prior@);
            assert forall|a: FileId, b: FileId| #[trigger] out@.contains((a, b)) <==> pair_share(e1, a, b) by {
                if pair_share(e1, a, b) {
                    let s = choose|s: Seq<char>| #[trigger] has_entry(e1, a, s) && has_entry(e1, b, s);
                    if !(has_entry(e0, a, s) && has_entry(e0, b, s)) {
                        if a == f && s == s0 {
                            assert(prior@.contains(b));
                        } else {
                            assert(prior@.contains(a));
                        }
                    } else {
                        assert(pair_share(e0, a, b));
                    }
                }
                if pair_share(e0, a, b) {
                    let s = choose|s: Seq<char>| #[trigger] has_entry(e0, a, s) && has_entry(e0, b, s);
                    assert(has_entry(e1, a, s) && has_entry(e1, b, s));
                }
                if a == f && b != f && prior@.contains(b) {
                    assert(has_entry(e1, a, s0) && has_entry(e1, b, s0));
                }
                if b == f && a != f && prior@.contains(a) {
                    assert(has_entry(e1, a, s0) && has_entry(e1, b, s0));
                }
            }
        }
        let mut list = prior;
        let ghost lv = list@;
        list.push(f);
        proof {
            crate::lemmas::lemma_push_contains(lv, f);
        }
        groups.insert(entries[i].1.clone(), list);
        i = i + 1;
    }
    proof {
        assert(entries@.take(entries@.len() as int) =~= entries@);
    }
    out
}

/// Links every two different files that hold the same distinctive literal
/// to each other, and their module scopes to each other where both have one.
pub fn link_shared_literals(ix: &mut WorkspaceIndex)
    ensures
        same_but_links(*old(ix), *final(ix)),
        gains_links(old(ix).file_dependencies@, final(ix).file_dependencies@, |a: u32, b: u32| shares_literal(*old(ix), a, b)),
        gains_links(
            old(ix).resolved_calls@,
            final(ix).resolved_calls@,
            |k: u32, x: u32| module_links(old(ix).symbols@, |a: u32, b: u32| shares_literal(*old(ix), a, b), k, x),
        ),
{
    let ghost ix0 = *ix;
    let entries = literal_entries(ix);
    let pairs = shared_pairs(&entries);
    apply_links(ix, &pairs);
    proof {
        assert forall|a: u32, b: u32| #[trigger] pairs@.contains((a, b)) == shares_literal(ix0, a, b) by {
            if pair_share(entries@, a, b) {
                let s = choose|s: Seq<char>| #[trigger] has_entry(entries@, a, s) && has_entry(entries@, b, s);
                assert(holds_literal(ix0, a, s));
            }
            if shares_literal(ix0, a, b) {
                let s = choose|s: Seq<char>| #[trigger] holds_literal(ix0, a, s) && holds_literal(ix0, b, s);
                assert(has_entry(entries@, a, s));
            }
        }
        assert((|f: u32, t: u32| pairs@.contains((f, t))) =~= (|a: u32, b: u32| shares_literal(ix0, a, b)));
    }
}

} // verus!
