//! Local constants: names bound to literal values in a file, used to resolve
//! dynamic imports, template strings and action names.

use vstd::prelude::*;
use crate::syntax::{CaptureData, MatchData};
use crate::text::{trim_quotes, str_eq, trim_quote_chars};

verus! {

/// The name and value a match of the constants query binds: the text of the
/// last `val.name` capture and the unquoted text of the last `val.value`
/// capture.
pub open spec fn binding_fold(caps: Seq<CaptureData>) -> (Seq<char>, Seq<char>)
    decreases caps.len(),
{
    if caps.len() == 0 {
        (Seq::empty(), Seq::empty())
    } else {
        let (n, v) = binding_fold(caps.drop_last());
        let c = caps.last();
        if c.name@ == "val.name"@ {
            (c.node.text@, v)
        } else if c.name@ == "val.value"@ {
            (n, trim_quotes(c.node.text@))
        } else {
            (n, v)
        }
    }
}

/// The model of a list of pairs of strings.
pub open spec fn pairs_view(v: Seq<(String, String)>) -> Seq<(Seq<char>, Seq<char>)> {
    v.map_values(|p: (String, String)| (p.0@, p.1@))
}

/// The names of an association list.
pub open spec fn assoc_keys(l: Seq<(Seq<char>, Seq<char>)>) -> Seq<Seq<char>> {
    l.map_values(|e: (Seq<char>, Seq<char>)| e.0)
}

/// The value an association list gives a name, where it has one.
pub open spec fn assoc_get(l: Seq<(Seq<char>, Seq<char>)>, k: Seq<char>) -> Option<Seq<char>> {
    if assoc_keys(l).contains(k) {
        Some(l[assoc_keys(l).index_of(k)].1)
    } else {
        None
    }
}

/// An association list with `k` bound to `v`: the value of a name already
/// there replaced in place, a new name last.
pub open spec fn assoc_set(l: Seq<(Seq<char>, Seq<char>)>, k: Seq<char>, v: Seq<char>) -> Seq<(Seq<char>, Seq<char>)> {
    if assoc_keys(l).contains(k) {
        l.update(assoc_keys(l).index_of(k), (k, v))
    } else {
        l.push((k, v))
    }
}

/// The constants bound by the matches, as an association list: a later
/// binding of a name replaces the earlier one where it stands; bindings with
/// an empty name or value are ignored.
pub open spec fn constants_list(ms: Seq<MatchData>) -> Seq<(Seq<char>, Seq<char>)>
    decreases ms.len(),
{
    if ms.len() == 0 {
        Seq::empty()
    } else {
        let l = constants_list(ms.drop_last());
        let (n, v) = binding_fold(ms.last().captures@);
        if n.len() > 0 && v.len() > 0 {
            assoc_set(l, n, v)
        } else {
            l
        }
    }
}

/// The value of `key` in an association list with distinct names.
pub fn assoc_lookup(l: &Vec<(String, String)>, key: &str) -> (r: Option<String>)
    requires
        assoc_keys(pairs_view(l@)).no_duplicates(),
    ensures
        match r {
            Some(v) => assoc_get(pairs_view(l@), key@) == Some(v@),
            None => assoc_get(pairs_view(l@), key@) is None,
        },
{
    let ghost pv = pairs_view(l@);
    let mut i: usize = 0;
    while i < l.len()
        invariant
            pv == pairs_view(l@),
            assoc_keys(pv).no_duplicates(),
            0 <= i <= l@.len(),
            forall|j: int| 0 <= j < i ==> l@[j].0@ != key@,
        decreases l@.len() - i,
    {
        if str_eq(l[i].0.as_str(), key) {
            proof {
                let ks = assoc_keys(pv);
                assert(ks[i as int] == key@);
                assert(ks.contains(key@));
                assert(ks.index_of(key@) == i) by {
                    assert(ks[ks.index_of(key@)] == key@);
                }
            }
            return Some(l[i].1.clone());
        }
        i = i + 1;
    }
    proof {
        let ks = assoc_keys(pv);
        assert(!ks.contains(key@)) by {
            if ks.contains(key@) {
                let j = choose|j: int| 0 <= j < ks.len() && ks[j] == key@;
                assert(l@[j].0@ == key@);
            }
        }
    }
    None
}

/// Binds `key` to `value` in an association list with distinct names.
fn assoc_insert(l: &mut Vec<(String, String)>, key: String, value: String)
    requires
        assoc_keys(pairs_view(old(l)@)).no_duplicates(),
    ensures
        assoc_keys(pairs_view(final(l)@)).no_duplicates(),
        pairs_view(final(l)@) == assoc_set(pairs_view(old(l)@), key@, value@),
{
    let ghost l0 = pairs_view(l@);
    let ghost (kk, kv) = (key@, value@);
    let mut i: usize = 0;
    while i < l.len()
        invariant
            pairs_view(l@) == l0,
            l0 == pairs_view(old(l)@),
            assoc_keys(l0).no_duplicates(),
            kk == key@,
            kv == value@,
            0 <= i <= l@.len(),
            forall|j: int| 0 <= j < i ==> l@[j].0@ != key@,
        decreases l@.len() - i,
    {
        if str_eq(l[i].0.as_str(), key.as_str()) {
            l.set(i, (key, value));
            proof {
                let ks0 = assoc_keys(l0);
                assert(ks0[i as int] == kk);
                assert(ks0.contains(kk));
                assert(ks0.index_of(kk) == i) by {
                    assert(ks0[ks0.index_of(kk)] == kk);
                }
                assert(pairs_view(l@) =~= l0.update(i as int, (kk, kv)));
                assert(assoc_keys(pairs_view(l@)) =~= ks0);
            }
            return;
        }
        i = i + 1;
    }
    l.push((key, value));
    proof {
        let ks0 = assoc_keys(l0);
        assert(!ks0.contains(kk)) by {
            if ks0.contains(kk) {
                let j = choose|j: int| 0 <= j < ks0.len() && ks0[j] == kk;
                assert(l0[j].0 == kk);
            }
        }
        assert(pairs_view(l@) =~= l0.push((kk, kv)));
        assert(assoc_keys(pairs_view(l@)) =~= ks0.push(kk));
        crate::lemmas::lemma_push_no_dup(ks0, kk);
    }
}

/// The name and value one match binds.
fn binding_of(caps: &Vec<CaptureData>) -> (r: (String, String))
    ensures
        (r.0@, r.1@) == binding_fold(caps@),
{
    let mut name = String::new();
    let mut val = String::new();
    let mut i: usize = 0;
    while i < caps.len()
        invariant
            0 <= i <= caps@.len(),
            (name@, val@) == binding_fold(caps@.take(i as int)),
        decreases caps@.len() - i,
    {
        let c = &caps[i];
        proof {
            assert(caps@.take(i + 1).drop_last() =~= caps@.take(i as int));
            assert(caps@.take(i + 1).last() == c);
        }
        if str_eq(c.name.as_str(), "val.name") {
            name = c.node.text.clone();
        } else if str_eq(c.name.as_str(), "val.value") {
            val = trim_quote_chars(c.node.text.as_str());
        }
        i = i + 1;
    }
    proof {
        assert(caps@.take(caps@.len() as int) =~= caps@);
    }
    (name, val)
}

/// The constants a file binds, from the matches of its constants query:
/// each name with its last non-empty value, as an association list with
/// distinct names in the order they were first bound.
pub fn extract_local_constants(ms: &Vec<MatchData>) -> (r: Vec<(String, String)>)
    ensures
        assoc_keys(pairs_view(r@)).no_duplicates(),
        pairs_view(r@) == constants_list(ms@),
{
    let mut out: Vec<(String, String)> = Vec::new();
    let mut i: usize = 0;
    proof {
        assert(pairs_view(out@) =~= Seq::<(Seq<char>, Seq<char>)>::empty());
        assert(assoc_keys(pairs_view(out@)) =~= Seq::<Seq<char>>::empty());
    }
    while i < ms.len()
        invariant
            0 <= i <= ms@.len(),
            assoc_keys(pairs_view(out@)).no_duplicates(),
            pairs_view(out@) == constants_list(ms@.take(i as int)),
        decreases ms@.len() - i,
    {
        proof {
            assert(ms@.take(i + 1).drop_last() =~= ms@.take(i as int));
            assert(ms@.take(i + 1).last() == ms@[i as int]);
        }
        let (name, val) = binding_of(&ms[i].captures);
        let nv = crate::text::chars_of(name.as_str());
        let vv = crate::text::chars_of(val.as_str());
        if nv.len() > 0 && vv.len() > 0 {
            assoc_insert(&mut out, name, val);
        }
        i = i + 1;
    }
    proof {
        assert(ms@.take(ms@.len() as int) =~= ms@);
    }
    out
}

} // verus!
