//! Calls and type references between symbols, resolved from the names each
//! symbol uses: the symbol a name stands for where it can be traced, else
//! every symbol of that name.

use vstd::prelude::*;
use std::collections::HashMap;
use crate::schema::{FileId, SymbolId, WorkspaceIndex, lists};
use crate::text::{chars_of, str_eq, string_of, take_until, take_until_exec, trim_whitespace, trim_ws};
use crate::models::strings_view;
use crate::indexer::resolve::{increasing, keys_of, sorted_ids};
use crate::indexer::calls::{resolve_name, resolve_name_exec};
use crate::indexer::import_links::ImportTargets;
use crate::indexer::resolve::only_calls_change;
use crate::indexer::recording::{same_file_tables, same_symbol_tables};

verus! {

/// A symbol of the list `l` is named `n`.
pub open spec fn names_one(ix: WorkspaceIndex, l: Seq<SymbolId>, n: Seq<char>) -> bool {
    exists|i: int|
        0 <= i < l.len() && ix.symbols@.contains_key(#[trigger] l[i]) && ix.symbols@[l[i]].name@ == n
}

/// Whether a name used in file `f` leads anywhere: to the symbol it stands
/// for, or to symbols of that name.
pub open spec fn guesses_any(ix: WorkspaceIndex, tab: ImportTargets, f: FileId, n: Seq<char>) -> bool {
    resolve_name(ix, tab, f, n) is Some || ix.symbol_map@.contains_key(n)
}

/// List `l` with the symbol that name `n`, used in file `f`, stands for, or
/// else with every symbol of that name.
pub open spec fn with_guess(ix: WorkspaceIndex, tab: ImportTargets, f: FileId, l: Seq<SymbolId>, n: Seq<char>) -> Seq<SymbolId> {
    match resolve_name(ix, tab, f, n) {
        Some(t) => l.push(t),
        None => l + (if ix.symbol_map@.contains_key(n) {
            ix.symbol_map@[n]@
        } else {
            Seq::empty()
        }),
    }
}

/// The list that the names `names`, used in file `f`, leave, from `start`
/// (none where there was no list): for each name in turn, unless
/// `skip_named` and the list already holds a symbol of that name, what it
/// leads to is added.
pub open spec fn fold_refs(
    ix: WorkspaceIndex,
    tab: ImportTargets,
    f: FileId,
    names: Seq<Seq<char>>,
    start: Option<Seq<SymbolId>>,
    skip_named: bool,
) -> Option<Seq<SymbolId>>
    decreases names.len(),
{
    if names.len() == 0 {
        start
    } else {
        let prev = fold_refs(ix, tab, f, names.drop_last(), start, skip_named);
        let n = names.last();
        let l = match prev {
            Some(l) => l,
            None => Seq::empty(),
        };
        if skip_named && prev is Some && names_one(ix, l, n) {
            prev
        } else if guesses_any(ix, tab, f, n) {
            Some(with_guess(ix, tab, f, l, n))
        } else {
            prev
        }
    }
}

/// A decorator's name without its arguments: what comes before `(`,
/// trimmed.
pub open spec fn bare_decorator(s: Seq<char>) -> Seq<char> {
    trim_ws(take_until(s, seq!['(']))
}

/// The names as the pass uses them: bare decorator names where `clean`.
pub open spec fn used_names(v: Seq<String>, clean: bool) -> Seq<Seq<char>> {
    if clean {
        v.map_values(|s: String| bare_decorator(s@))
    } else {
        strings_view(v)
    }
}

/// The list of `m` for `k`, if any.
pub open spec fn entry_of(m: Map<SymbolId, Vec<SymbolId>>, k: SymbolId) -> Option<Seq<SymbolId>> {
    if m.contains_key(k) {
        Some(m[k]@)
    } else {
        None
    }
}

/// `after` is `before` with the list of each symbol of the index that `raw`
/// gives names for replaced by what those names leave from it (see
/// [`fold_refs`]), sorted without repeats; the other lists are kept.
pub open spec fn folded(
    ix: WorkspaceIndex,
    tab: ImportTargets,
    raw: Map<SymbolId, Vec<String>>,
    clean: bool,
    skip_named: bool,
    before: Map<SymbolId, Vec<SymbolId>>,
    after: Map<SymbolId, Vec<SymbolId>>,
) -> bool {
    forall|k: SymbolId| #[trigger]
        after.contains_key(k) || before.contains_key(k) || raw.contains_key(k) ==> if raw.contains_key(k)
            && ix.symbols@.contains_key(k) {
            let res = fold_refs(
                ix,
                tab,
                ix.symbols@[k].file_id,
                used_names(raw[k]@, clean),
                entry_of(before, k),
                skip_named,
            );
            &&& (after.contains_key(k) <==> res is Some)
            &&& after.contains_key(k) ==> increasing(after[k]@) && after[k]@.to_set() == res->0.to_set()
        } else {
            &&& (after.contains_key(k) <==> before.contains_key(k))
            &&& before.contains_key(k) ==> after[k] == before[k]
        }
}

/// A list that was there stays there.
proof fn lemma_fold_keeps(
    ix: WorkspaceIndex,
    tab: ImportTargets,
    f: FileId,
    names: Seq<Seq<char>>,
    start: Option<Seq<SymbolId>>,
    skip_named: bool,
)
    requires
        start is Some,
    ensures
        fold_refs(ix, tab, f, names, start, skip_named) is Some,
    decreases names.len(),
{
    if names.len() > 0 {
        lemma_fold_keeps(ix, tab, f, names.drop_last(), start, skip_named);
    }
}

/// Whether a symbol of the list `l` is named `n`.
fn names_one_exec(ix: &WorkspaceIndex, l: &Vec<SymbolId>, n: &str) -> (r: bool)
    ensures
        r == names_one(*ix, l@, n@),
{
    let mut i: usize = 0;
    while i < l.len()
        invariant
            0 <= i <= l@.len(),
            forall|j: int| 0 <= j < i ==> !(ix.symbols@.contains_key(#[trigger] l@[j]) && ix.symbols@[l@[j]].name@ == n@),
        decreases l@.len() - i,
    {
        match ix.symbols.get(&l[i]) {
            Some(s) => {
                if str_eq(s.name.as_str(), n) {
                    return true;
                }
            },
            None => {},
        }
        i = i + 1;
    }
    false
}

/// A decorator's name without its arguments.
fn bare_decorator_exec(s: &String) -> (r: String)
    ensures
        r@ == bare_decorator(s@),
{
    let cs = chars_of(s.as_str());
    let stop = vec!['('];
    proof {
        assert(stop@ =~= seq!['(']);
    }
    let head = take_until_exec(&cs, &stop);
    let hs = string_of(&head);
    trim_whitespace(hs.as_str())
}

/// The view of an optional list.
pub open spec fn opt_view(o: Option<Vec<SymbolId>>) -> Option<Seq<SymbolId>> {
    match o {
        Some(v) => Some(v@),
        None => None,
    }
}

/// What the names `names`, used in file `f`, leave from `start`.
fn fold_refs_exec(
    ix: &WorkspaceIndex,
    tab: &ImportTargets,
    f: FileId,
    names: &Vec<String>,
    clean: bool,
    skip_named: bool,
    start: Option<Vec<SymbolId>>,
) -> (r: Option<Vec<SymbolId>>)
    ensures
        opt_view(r) == fold_refs(*ix, *tab, f, used_names(names@, clean), opt_view(start), skip_named),
{
    let ghost nv = used_names(names@, clean);
    let mut cur = start;
    let mut j: usize = 0;
    proof {
        assert(nv.take(0) =~= Seq::<Seq<char>>::empty());
    }
    while j < names.len()
        invariant
            0 <= j <= names@.len(),
            nv == used_names(names@, clean),
            nv.len() == names@.len(),
            opt_view(cur) == fold_refs(*ix, *tab, f, nv.take(j as int), opt_view(start), skip_named),
        decreases names@.len() - j,
    {
        let n = if clean {
            bare_decorator_exec(&names[j])
        } else {
            names[j].clone()
        };
        proof {
            assert(n@ == nv[j as int]);
            assert(nv.take(j + 1).drop_last() =~= nv.take(j as int));
            assert(nv.take(j + 1).last() == nv[j as int]);
        }
        let named = match &cur {
            Some(l) => skip_named && names_one_exec(ix, l, n.as_str()),
            None => false,
        };
        if !named {
            match resolve_name_exec(ix, tab, f, n.as_str()) {
                Some(t) => {
                    let mut l = match cur {
                        Some(l) => l,
                        None => Vec::new(),
                    };
                    l.push(t);
                    cur = Some(l);
                },
                None => {
                    match ix.symbol_map.get(n.as_str()) {
                        Some(ids) => {
                            let mut l = match cur {
                                Some(l) => l,
                                None => Vec::new(),
                            };
                            let mut more = ids.clone();
                            l.append(&mut more);
                            cur = Some(l);
                        },
                        None => {},
                    }
                },
            }
        }
        j = j + 1;
    }
    proof {
        assert(nv.take(names@.len() as int) =~= nv);
    }
    cur
}

/// Whether `x` is among the first `i` elements of `v`.
pub(crate) fn seen_before(v: &Vec<u32>, i: usize, x: u32) -> (r: bool)
    requires
        i <= v@.len(),
    ensures
        r == v@.take(i as int).contains(x),
{
    let mut j: usize = 0;
    while j < i
        invariant
            0 <= j <= i <= v@.len(),
            forall|q: int| 0 <= q < j ==> v@[q] != x,
        decreases i - j,
    {
        if v[j] == x {
            proof {
                assert(v@.take(i as int)[j as int] == x);
            }
            return true;
        }
        j = j + 1;
    }
    proof {
        if v@.take(i as int).contains(x) {
            let q = choose|q: int| 0 <= q < i && v@.take(i as int)[q] == x;
            assert(v@[q] == x);
        }
    }
    false
}

/// Replaces, in `m`, the list of each symbol of the index that `raw` gives
/// names for by what those names leave from it, sorted without repeats.
fn fold_table(
    ix: &WorkspaceIndex,
    tab: &ImportTargets,
    raw: &HashMap<SymbolId, Vec<String>>,
    clean: bool,
    skip_named: bool,
    m: &mut HashMap<SymbolId, Vec<SymbolId>>,
)
    ensures
        folded(*ix, *tab, raw@, clean, skip_named, old(m)@, final(m)@),
{
    let ghost m0 = m@;
    let keys = keys_of(raw);
    let mut i: usize = 0;
    while i < keys.len()
        invariant
            0 <= i <= keys@.len(),
            keys@.to_set() == raw@.dom(),
            m0 == old(m)@,
            forall|k: SymbolId| #[trigger]
                m@.contains_key(k) || m0.contains_key(k) || raw@.contains_key(k) ==> if raw@.contains_key(k)
                    && ix.symbols@.contains_key(k) && keys@.take(i as int).contains(k) {
                    let res = fold_refs(
                        *ix,
                        *tab,
                        ix.symbols@[k].file_id,
                        used_names(raw@[k]@, clean),
                        entry_of(m0, k),
                        skip_named,
                    );
                    &&& (m@.contains_key(k) <==> res is Some)
                    &&& m@.contains_key(k) ==> increasing(m@[k]@) && m@[k]@.to_set() == res->0.to_set()
                } else {
                    &&& (m@.contains_key(k) <==> m0.contains_key(k))
                    &&& m0.contains_key(k) ==> m@[k] == m0[k]
                },
        decreases keys@.len() - i,
    {
        let c = keys[i];
        proof {
            assert(keys@.take(i + 1) =~= keys@.take(i as int).push(c));
            crate::lemmas::lemma_push_contains(keys@.take(i as int), c);
            assert(keys@.contains(c));
            assert(keys@.to_set().contains(c));
        }
        let ghost mb = m@;
        if !seen_before(&keys, i, c) {
            match (ix.symbols.get(&c), raw.get(&c)) {
                (Some(sym), Some(names)) => {
                    let start = match m.get(&c) {
                        Some(l) => Some(l.clone()),
                        None => None,
                    };
                    proof {
                        assert(opt_view(start) == entry_of(m0, c));
                    }
                    let res = fold_refs_exec(ix, tab, sym.file_id, names, clean, skip_named, start);
                    match res {
                        Some(l) => {
                            let sorted = sorted_ids(&l);
                            m.insert(c, sorted);
                        },
                        None => {},
                    }
                },
                _ => {},
            }
        }
        let ghost i0 = i as int;
        i = i + 1;
        proof {
            let sn = keys@.take(i0).contains(c);
            assert(keys@.take(i as int) =~= keys@.take(i0).push(c));
            assert forall|k: SymbolId| #[trigger]
                m@.contains_key(k) || m0.contains_key(k) || raw@.contains_key(k) implies if raw@.contains_key(k)
                    && ix.symbols@.contains_key(k) && keys@.take(i as int).contains(k) {
                    let res = fold_refs(
                        *ix,
                        *tab,
                        ix.symbols@[k].file_id,
                        used_names(raw@[k]@, clean),
                        entry_of(m0, k),
                        skip_named,
                    );
                    &&& (m@.contains_key(k) <==> res is Some)
                    &&& m@.contains_key(k) ==> increasing(m@[k]@) && m@[k]@.to_set() == res->0.to_set()
                } else {
                    &&& (m@.contains_key(k) <==> m0.contains_key(k))
                    &&& m0.contains_key(k) ==> m@[k] == m0[k]
                } by {
                if mb.contains_key(k) || m0.contains_key(k) || raw@.contains_key(k) {
                }
                if k != c {
                    assert(m@.contains_key(k) == mb.contains_key(k));
                    if mb.contains_key(k) {
                        assert(m@[k] == mb[k]);
                    }
                } else if !sn && raw@.contains_key(k) && ix.symbols@.contains_key(k) {
                    if m0.contains_key(k) {
                        lemma_fold_keeps(
                            *ix,
                            *tab,
                            ix.symbols@[k].file_id,
                            used_names(raw@[k]@, clean),
                            entry_of(m0, k),
                            skip_named,
                        );
                    }
                }
            }
        }
    }
    proof {
        assert(keys@.take(keys@.len() as int) =~= keys@);
        assert forall|k: SymbolId| #[trigger] raw@.contains_key(k) implies keys@.contains(k) by {
            assert(keys@.to_set().contains(k));
        }
    }
}

/// `b` is `a` but for the type references of its symbols.
pub open spec fn only_type_refs_change(a: WorkspaceIndex, b: WorkspaceIndex) -> bool {
    &&& same_file_tables(a, b)
    &&& same_symbol_tables(a, b)
    &&& b.resolved_calls@ == a.resolved_calls@
    &&& b.inheritance@ == a.inheritance@
    &&& b.file_dependencies@ == a.file_dependencies@
}

/// Adds to the calls of each symbol of the index what its decorators, each
/// without its arguments, lead to: the symbol the name stands for, else
/// every symbol of that name; each call list it touches comes sorted,
/// without repeats.
pub fn link_decorators(ix: &mut WorkspaceIndex, tab: &ImportTargets)
    ensures
        only_calls_change(*old(ix), *final(ix)),
        folded(*old(ix), *tab, old(ix).raw_decorators@, true, false, old(ix).resolved_calls@, final(ix).resolved_calls@),
{
    let mut m = ix.resolved_calls.clone();
    fold_table(ix, tab, &ix.raw_decorators, true, false, &mut m);
    ix.resolved_calls = m;
}

/// Adds to the calls of each symbol of the index, for each name it calls
/// that none of its calls is named yet, the symbol the name stands for,
/// else every symbol of that name; each call list it touches comes sorted,
/// without repeats.
pub fn link_calls(ix: &mut WorkspaceIndex, tab: &ImportTargets)
    ensures
        only_calls_change(*old(ix), *final(ix)),
        folded(*old(ix), *tab, old(ix).raw_calls@, false, true, old(ix).resolved_calls@, final(ix).resolved_calls@),
{
    let mut m = ix.resolved_calls.clone();
    fold_table(ix, tab, &ix.raw_calls, false, true, &mut m);
    ix.resolved_calls = m;
}

/// Adds to the type references of each symbol of the index, for each type
/// name it mentions, the symbol the name stands for, else every symbol of
/// that name; each list it touches comes sorted, without repeats.
pub fn link_type_refs(ix: &mut WorkspaceIndex, tab: &ImportTargets)
    ensures
        only_type_refs_change(*old(ix), *final(ix)),
        folded(*old(ix), *tab, old(ix).raw_type_refs@, false, false, old(ix).resolved_type_refs@, final(ix).resolved_type_refs@),
{
    let mut m = ix.resolved_type_refs.clone();
    fold_table(ix, tab, &ix.raw_type_refs, false, false, &mut m);
    ix.resolved_type_refs = m;
}

/// What the names leave holds symbols of the index only, where the start
/// does and the name map lists symbols of the index.
pub proof fn lemma_fold_in(
    ix: WorkspaceIndex,
    tab: ImportTargets,
    f: FileId,
    names: Seq<Seq<char>>,
    start: Option<Seq<SymbolId>>,
    skip_named: bool,
)
    requires
        start matches Some(l) ==> forall|x: SymbolId| #[trigger] l.contains(x) ==> ix.symbols@.contains_key(x),
        forall|n: Seq<char>| #[trigger]
            ix.symbol_map@.contains_key(n) ==> forall|i: int|
                0 <= i < ix.symbol_map@[n]@.len() ==> ix.symbols@.contains_key(#[trigger] ix.symbol_map@[n]@[i]),
    ensures
        fold_refs(ix, tab, f, names, start, skip_named) matches Some(l) ==> forall|x: SymbolId| #[trigger]
            l.contains(x) ==> ix.symbols@.contains_key(x),
    decreases names.len(),
{
    if names.len() > 0 {
        lemma_fold_in(ix, tab, f, names.drop_last(), start, skip_named);
        let prev = fold_refs(ix, tab, f, names.drop_last(), start, skip_named);
        let n = names.last();
        let l = match prev {
            Some(l) => l,
            None => Seq::empty(),
        };
        crate::indexer::calls::lemma_resolve_in(ix, tab, f, n);
        match resolve_name(ix, tab, f, n) {
            Some(t) => {
                crate::lemmas::lemma_push_contains(l, t);
            },
            None => {
                let more = if ix.symbol_map@.contains_key(n) {
                    ix.symbol_map@[n]@
                } else {
                    Seq::empty()
                };
                crate::lemmas::lemma_concat_contains(l, more);
                assert forall|x: SymbolId| #[trigger] more.contains(x) implies ix.symbols@.contains_key(x) by {
                    let i = choose|i: int| 0 <= i < more.len() && more[i] == x;
                    assert(ix.symbols@.contains_key(ix.symbol_map@[n]@[i]));
                }
            },
        }
    }
}

/// A folded table lists symbols of the index only, under symbols of the
/// index, where the table before did and the name map lists symbols of the
/// index.
pub proof fn lemma_folded_in(
    ix: WorkspaceIndex,
    tab: ImportTargets,
    raw: Map<SymbolId, Vec<String>>,
    clean: bool,
    skip_named: bool,
    before: Map<SymbolId, Vec<SymbolId>>,
    after: Map<SymbolId, Vec<SymbolId>>,
)
    requires
        folded(ix, tab, raw, clean, skip_named, before, after),
        forall|k: SymbolId| #[trigger] before.contains_key(k) ==> ix.symbols@.contains_key(k),
        forall|k: SymbolId, x: SymbolId| #[trigger] lists(before, k, x) ==> ix.symbols@.contains_key(x),
        forall|n: Seq<char>| #[trigger]
            ix.symbol_map@.contains_key(n) ==> forall|i: int|
                0 <= i < ix.symbol_map@[n]@.len() ==> ix.symbols@.contains_key(#[trigger] ix.symbol_map@[n]@[i]),
    ensures
        forall|k: SymbolId| #[trigger] after.contains_key(k) ==> ix.symbols@.contains_key(k),
        forall|k: SymbolId, x: SymbolId| #[trigger] lists(after, k, x) ==> ix.symbols@.contains_key(x),
{
    assert forall|k: SymbolId, x: SymbolId| #[trigger] lists(after, k, x) implies ix.symbols@.contains_key(x) by {
        if raw.contains_key(k) && ix.symbols@.contains_key(k) {
            let start = entry_of(before, k);
            if before.contains_key(k) {
                assert forall|y: SymbolId| #[trigger] before[k]@.contains(y) implies ix.symbols@.contains_key(y) by {
                    assert(lists(before, k, y));
                }
            }
            lemma_fold_in(ix, tab, ix.symbols@[k].file_id, used_names(raw[k]@, clean), start, skip_named);
            let res = fold_refs(ix, tab, ix.symbols@[k].file_id, used_names(raw[k]@, clean), start, skip_named);
            assert(after[k]@.to_set().contains(x));
            assert(res->0.to_set().contains(x));
        } else {
            assert(lists(before, k, x));
        }
    }
}

} // verus!
