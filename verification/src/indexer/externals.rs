//! Stub symbols for what files import from packages outside the workspace.

use vstd::prelude::*;
use crate::schema::{FileId, ImportNode, SymbolId, SymbolNode, WorkspaceIndex};
use crate::text::{chars_of, owned, starts_with, str_starts_with, string_of};
use crate::indexer::consistency::index_ok;
use crate::indexer::recording::{same_file_tables, same_relations};
use crate::indexer::resolve::{increasing, keys_of, sorted_ids};

verus! {

/// An import source that names a package: it is neither relative nor
/// absolute.
pub open spec fn is_package_source(s: Seq<char>) -> bool {
    !starts_with(s, seq!['.', '/']) && !starts_with(s, seq!['.', '.', '/']) && !starts_with(s, seq!['/'])
}

/// The name an import binds: its alias, or else its name.
pub open spec fn bound_name(imp: ImportNode) -> Seq<char> {
    match imp.alias {
        Some(a) => a@,
        None => imp.name@,
    }
}

/// Symbol `id` is an external stub for package `pkg`.
pub open spec fn is_stub_of(syms: Map<SymbolId, SymbolNode>, id: SymbolId, pkg: Seq<char>) -> bool {
    syms.contains_key(id) && syms[id].is_external && (syms[id].external_source matches Some(s) && s@ == pkg)
}

/// A symbol named `name` is already an external stub for package `pkg`.
pub open spec fn has_stub(ix: WorkspaceIndex, name: Seq<char>, pkg: Seq<char>) -> bool {
    ix.symbol_map@.contains_key(name) && exists|i: int|
        0 <= i < ix.symbol_map@[name]@.len() && is_stub_of(ix.symbols@, #[trigger] ix.symbol_map@[name]@[i], pkg)
}

/// An import from a package that no stub stands for yet.
pub open spec fn needs_stub(ix: WorkspaceIndex, imp: ImportNode) -> bool {
    is_package_source(imp.source@) && !has_stub(ix, bound_name(imp), imp.source@)
}

/// The name and package of each of `imps` that needs a stub, in order.
pub open spec fn import_requests(ix: WorkspaceIndex, imps: Seq<ImportNode>) -> Seq<(Seq<char>, Seq<char>)>
    decreases imps.len(),
{
    if imps.len() == 0 {
        Seq::empty()
    } else {
        let r = import_requests(ix, imps.drop_last());
        let imp = imps.last();
        if needs_stub(ix, imp) {
            r.push((bound_name(imp), imp.source@))
        } else {
            r
        }
    }
}

/// The stubs the imports of the files `order` need, file after file.
pub open spec fn stub_requests(ix: WorkspaceIndex, order: Seq<FileId>) -> Seq<(Seq<char>, Seq<char>)>
    decreases order.len(),
{
    if order.len() == 0 {
        Seq::empty()
    } else {
        let f = order.last();
        stub_requests(ix, order.drop_last()) + (if ix.file_imports@.contains_key(f) {
            import_requests(ix, ix.file_imports@[f]@)
        } else {
            Seq::empty()
        })
    }
}

/// The doc comment of a stub for package `pkg`.
pub open spec fn stub_doc(pkg: Seq<char>) -> Seq<char> {
    seq!['E', 'x', 't', 'e', 'r', 'n', 'a', 'l', ' ', 'i', 'm', 'p', 'o', 'r', 't', ' ', 'f', 'r', 'o', 'm', ' ', 'p',
    'a', 'c', 'k', 'a', 'g', 'e', ' ', '`'] + pkg + seq!['`']
}

/// `sym` is the stub numbered `id` for the name and package of `req`.
pub open spec fn is_stub(sym: SymbolNode, id: SymbolId, req: (Seq<char>, Seq<char>)) -> bool {
    &&& sym.id == id
    &&& sym.file_id == 0
    &&& sym.parent_id is None
    &&& sym.name@ == req.0
    &&& sym.kind@ == seq!['e', 'x', 't', 'e', 'r', 'n', 'a', 'l']
    &&& sym.range_start == 0 && sym.range_end == 0
    &&& (sym.doc_comment matches Some(d) && d@ == stub_doc(req.1))
    &&& sym.return_type is None
    &&& !sym.is_test
    &&& sym.is_external
    &&& (sym.external_source matches Some(s) && s@ == req.1)
    &&& sym.decorators@.len() == 0
}

/// The identifiers, numbered from `first`, of the requests for name `n`.
pub open spec fn ids_named(reqs: Seq<(Seq<char>, Seq<char>)>, first: int, n: Seq<char>) -> Seq<SymbolId>
    decreases reqs.len(),
{
    if reqs.len() == 0 {
        Seq::empty()
    } else {
        let r = ids_named(reqs.drop_last(), first, n);
        if reqs.last().0 == n {
            r.push((first + reqs.len() - 1) as u32)
        } else {
            r
        }
    }
}

/// `b` is `a` with a stub symbol for each of `reqs`, numbered in order from
/// the next free identifier, each listed under its name after the symbols
/// of that name.
pub open spec fn adds_stubs(a: WorkspaceIndex, b: WorkspaceIndex, reqs: Seq<(Seq<char>, Seq<char>)>) -> bool {
    &&& b.next_symbol_id == a.next_symbol_id + reqs.len()
    &&& forall|id: SymbolId| #[trigger]
        b.symbols@.contains_key(id) <==> a.symbols@.contains_key(id) || (a.next_symbol_id <= id < a.next_symbol_id
            + reqs.len())
    &&& forall|id: SymbolId| #[trigger] a.symbols@.contains_key(id) ==> b.symbols@[id] == a.symbols@[id]
    &&& forall|id: SymbolId|
        a.next_symbol_id <= id < a.next_symbol_id + reqs.len() ==> is_stub(
            #[trigger] b.symbols@[id],
            id,
            reqs[id - a.next_symbol_id],
        )
    &&& forall|n: Seq<char>| #[trigger]
        b.symbol_map@.contains_key(n) <==> a.symbol_map@.contains_key(n) || ids_named(
            reqs,
            a.next_symbol_id as int,
            n,
        ).len() > 0
    &&& forall|n: Seq<char>| #[trigger]
        b.symbol_map@.contains_key(n) ==> b.symbol_map@[n]@ == (if a.symbol_map@.contains_key(n) {
            a.symbol_map@[n]@
        } else {
            Seq::empty()
        }) + ids_named(reqs, a.next_symbol_id as int, n)
}

/// `b` is `a` but for its symbols, name map and next symbol identifier.
pub open spec fn same_but_symbols(a: WorkspaceIndex, b: WorkspaceIndex) -> bool {
    &&& same_file_tables(a, b)
    &&& same_relations(a, b)
    &&& b.raw_calls@ == a.raw_calls@
    &&& b.raw_type_refs@ == a.raw_type_refs@
    &&& b.raw_decorators@ == a.raw_decorators@
    &&& b.symbol_config_refs@ == a.symbol_config_refs@
    &&& b.raw_implementations@ == a.raw_implementations@
    &&& b.fingerprints@ == a.fingerprints@
    &&& b.local_variable_types@ == a.local_variable_types@
    &&& b.container_methods@ == a.container_methods@
    &&& b.config_definitions@ == a.config_definitions@
}

/// The view of a list of name and package pairs.
pub open spec fn requests_view(v: Seq<(String, String)>) -> Seq<(Seq<char>, Seq<char>)> {
    v.map_values(|p: (String, String)| (p.0@, p.1@))
}

/// Whether an import source names a package.
fn is_package_source_exec(s: &str) -> (r: bool)
    ensures
        r == is_package_source(s@),
{
    proof {
        reveal_strlit("./");
        reveal_strlit("../");
        reveal_strlit("/");
        assert("./"@ =~= seq!['.', '/']);
        assert("../"@ =~= seq!['.', '.', '/']);
        assert("/"@ =~= seq!['/']);
    }
    !str_starts_with(s, "./") && !str_starts_with(s, "../") && !str_starts_with(s, "/")
}

/// Whether a symbol named `name` is already a stub for package `pkg`.
fn has_stub_exec(ix: &WorkspaceIndex, name: &str, pkg: &str) -> (r: bool)
    ensures
        r == has_stub(*ix, name@, pkg@),
{
    match ix.symbol_map.get(name) {
        Some(ids) => {
            let mut i: usize = 0;
            while i < ids.len()
                invariant
                    0 <= i <= ids@.len(),
                    ix.symbol_map@.contains_key(name@),
                    ids@ == ix.symbol_map@[name@]@,
                    forall|j: int| 0 <= j < i ==> !is_stub_of(ix.symbols@, #[trigger] ids@[j], pkg@),
                decreases ids@.len() - i,
            {
                match ix.symbols.get(&ids[i]) {
                    Some(s) => {
                        let hit = s.is_external && match &s.external_source {
                            Some(src) => crate::text::str_eq(src.as_str(), pkg),
                            None => false,
                        };
                        if hit {
                            proof {
                                assert(is_stub_of(ix.symbols@, ids@[i as int], pkg@));
                            }
                            return true;
                        }
                    },
                    None => {},
                }
                i = i + 1;
            }
            false
        },
        None => false,
    }
}

/// The requests of the imports `imps` that need a stub, after those in `out`.
fn push_import_requests(ix: &WorkspaceIndex, imps: &Vec<ImportNode>, out: &mut Vec<(String, String)>)
    ensures
        requests_view(final(out)@) == requests_view(old(out)@) + import_requests(*ix, imps@),
{
    let ghost start = requests_view(out@);
    let mut j: usize = 0;
    while j < imps.len()
        invariant
            0 <= j <= imps@.len(),
            requests_view(out@) == start + import_requests(*ix, imps@.take(j as int)),
        decreases imps@.len() - j,
    {
        let imp = &imps[j];
        proof {
            assert(imps@.take(j + 1).drop_last() =~= imps@.take(j as int));
            assert(imps@.take(j + 1).last() == imps@[j as int]);
        }
        let name = match &imp.alias {
            Some(a) => a,
            None => &imp.name,
        };
        if is_package_source_exec(imp.source.as_str()) && !has_stub_exec(ix, name.as_str(), imp.source.as_str()) {
            let ghost before = out@;
            out.push((name.clone(), imp.source.clone()));
            proof {
                assert(requests_view(out@) =~= requests_view(before).push((name@, imp.source@)));
            }
        }
        j = j + 1;
    }
    proof {
        assert(imps@.take(imps@.len() as int) =~= imps@);
    }
}

/// The stubs the imports of the files `order` need, file after file.
fn requests_for(ix: &WorkspaceIndex, order: &Vec<FileId>) -> (r: Vec<(String, String)>)
    ensures
        requests_view(r@) == stub_requests(*ix, order@),
{
    let mut out: Vec<(String, String)> = Vec::new();
    let mut i: usize = 0;
    proof {
        assert(requests_view(out@) =~= Seq::<(Seq<char>, Seq<char>)>::empty());
        assert(order@.take(0) =~= Seq::<FileId>::empty());
    }
    while i < order.len()
        invariant
            0 <= i <= order@.len(),
            requests_view(out@) == stub_requests(*ix, order@.take(i as int)),
        decreases order@.len() - i,
    {
        let f = order[i];
        proof {
            assert(order@.take(i + 1).drop_last() =~= order@.take(i as int));
            assert(order@.take(i + 1).last() == f);
        }
        match ix.file_imports.get(&f) {
            Some(imps) => {
                push_import_requests(ix, imps, &mut out);
            },
            None => {
                proof {
                    assert(requests_view(out@) + Seq::<(Seq<char>, Seq<char>)>::empty() =~= requests_view(out@));
                }
            },
        }
        i = i + 1;
    }
    proof {
        assert(order@.take(order@.len() as int) =~= order@);
    }
    out
}

/// The stub numbered `id` for name `name` of package `pkg`.
fn make_stub(id: SymbolId, name: &String, pkg: &String) -> (r: SymbolNode)
    ensures
        is_stub(r, id, (name@, pkg@)),
{
    let mut doc = chars_of("External import from package `");
    let more = chars_of(pkg.as_str());
    let mut i: usize = 0;
    let ghost d0 = doc@;
    while i < more.len()
        invariant
            0 <= i <= more@.len(),
            doc@ == d0 + more@.take(i as int),
        decreases more@.len() - i,
    {
        doc.push(more[i]);
        proof {
            assert(more@.take(i + 1) =~= more@.take(i as int).push(more@[i as int]));
        }
        i = i + 1;
    }
    doc.push('`');
    proof {
        reveal_strlit("External import from package `");
        reveal_strlit("external");
        assert(more@.take(more@.len() as int) =~= more@);
        assert(doc@ =~= stub_doc(pkg@));
        assert("external"@ =~= seq!['e', 'x', 't', 'e', 'r', 'n', 'a', 'l']);
    }
    SymbolNode {
        id,
        file_id: 0,
        parent_id: None,
        name: name.clone(),
        kind: owned("external"),
        range_start: 0,
        range_end: 0,
        doc_comment: Some(string_of(&doc)),
        return_type: None,
        is_test: false,
        is_external: true,
        external_source: Some(pkg.clone()),
        decorators: Vec::new(),
    }
}

/// One more request in [`ids_named`].
proof fn lemma_ids_named_step(reqs: Seq<(Seq<char>, Seq<char>)>, k: int, first: int)
    requires
        0 <= k < reqs.len(),
    ensures
        forall|n: Seq<char>| #[trigger] ids_named(reqs.take(k + 1), first, n) == ids_named(reqs.take(k), first, n) + (
        if reqs[k].0 == n {
            seq![(first + k) as u32]
        } else {
            Seq::empty()
        }),
{
    assert(reqs.take(k + 1).drop_last() =~= reqs.take(k));
    assert forall|n: Seq<char>| #[trigger] ids_named(reqs.take(k + 1), first, n) == ids_named(reqs.take(k), first, n) + (
    if reqs[k].0 == n {
        seq![(first + k) as u32]
    } else {
        Seq::empty()
    }) by {
        assert(ids_named(reqs.take(k), first, n).push((first + k) as u32) =~= ids_named(reqs.take(k), first, n) + seq![(
        first + k) as u32]);
        assert(ids_named(reqs.take(k), first, n) + Seq::<SymbolId>::empty() =~= ids_named(reqs.take(k), first, n));
    }
}

/// Adds a stub symbol for each of `reqs`, numbered in order from the next
/// free identifier.
fn add_stubs(ix: &mut WorkspaceIndex, reqs: &Vec<(String, String)>)
    requires
        index_ok(*old(ix)),
        old(ix).next_symbol_id + reqs@.len() <= u32::MAX,
    ensures
        index_ok(*final(ix)),
        same_but_symbols(*old(ix), *final(ix)),
        adds_stubs(*old(ix), *final(ix), requests_view(reqs@)),
{
    let ghost ix0 = *ix;
    let ghost rv = requests_view(reqs@);
    let mut k: usize = 0;
    proof {
        assert(rv.take(0) =~= Seq::<(Seq<char>, Seq<char>)>::empty());
        assert forall|n: Seq<char>| #[trigger] ix.symbol_map@.contains_key(n) implies ix.symbol_map@[n]@ == ix0.symbol_map@[n]@
            + ids_named(rv.take(0), ix0.next_symbol_id as int, n) by {
            assert(ix0.symbol_map@[n]@ + Seq::<SymbolId>::empty() =~= ix0.symbol_map@[n]@);
        }
    }
    while k < reqs.len()
        invariant
            0 <= k <= reqs@.len(),
            rv == requests_view(reqs@),
            ix0.next_symbol_id + reqs@.len() <= u32::MAX,
            ix.next_symbol_id == ix0.next_symbol_id + k,
            index_ok(*ix),
            same_but_symbols(ix0, *ix),
            adds_stubs(ix0, *ix, rv.take(k as int)),
        decreases reqs@.len() - k,
    {
        let ghost prev = *ix;
        let id = ix.next_symbol_id;
        let stub = make_stub(id, &reqs[k].0, &reqs[k].1);
        let ghost req = rv[k as int];
        proof {
            assert(req == (reqs@[k as int].0@, reqs@[k as int].1@));
            lemma_ids_named_step(rv, k as int, ix0.next_symbol_id as int);
            assert(rv.take(k + 1).len() == k + 1);
            assert forall|j: int| 0 <= j < k implies rv.take(k + 1)[j] == rv.take(k as int)[j] by {}
            assert(rv.take(k + 1)[k as int] == req);
        }
        ix.symbols.insert(id, stub);
        let mut list: Vec<SymbolId> = match ix.symbol_map.get(reqs[k].0.as_str()) {
            Some(l) => l.clone(),
            None => Vec::new(),
        };
        let ghost lv = list@;
        list.push(id);
        ix.symbol_map.insert(reqs[k].0.clone(), list);
        ix.next_symbol_id = id + 1;
        proof {
            let first = ix0.next_symbol_id as int;
            let name = req.0;
            assert(lv == (if prev.symbol_map@.contains_key(name) {
                prev.symbol_map@[name]@
            } else {
                Seq::empty()
            }));
            assert forall|n: Seq<char>| #[trigger] ix.symbol_map@.contains_key(n) implies ix.symbol_map@[n]@ == (
            if ix0.symbol_map@.contains_key(n) {
                ix0.symbol_map@[n]@
            } else {
                Seq::empty()
            }) + ids_named(rv.take(k + 1), first, n) by {
                if n == name {
                    assert(ix.symbol_map@[n]@ =~= lv.push(id));
                    if prev.symbol_map@.contains_key(n) {
                        assert(prev.symbol_map@[n]@ == (if ix0.symbol_map@.contains_key(n) {
                            ix0.symbol_map@[n]@
                        } else {
                            Seq::empty()
                        }) + ids_named(rv.take(k as int), first, n));
                    } else {
                        assert(!ix0.symbol_map@.contains_key(n));
                        assert(ids_named(rv.take(k as int), first, n).len() == 0);
                        assert(ids_named(rv.take(k as int), first, n) =~= Seq::<SymbolId>::empty());
                    }
                    assert(ix.symbol_map@[n]@ =~= (if ix0.symbol_map@.contains_key(n) {
                        ix0.symbol_map@[n]@
                    } else {
                        Seq::empty()
                    }) + ids_named(rv.take(k + 1), first, n));
                } else {
                    assert(ids_named(rv.take(k as int), first, n) + Seq::<SymbolId>::empty() =~= ids_named(
                        rv.take(k as int),
                        first,
                        n,
                    ));
                    assert(prev.symbol_map@.contains_key(n));
                }
            }
            assert forall|n: Seq<char>| #[trigger] ix.symbol_map@.contains_key(n) <==> ix0.symbol_map@.contains_key(n)
                || ids_named(rv.take(k + 1), first, n).len() > 0 by {
                if n == name {
                    assert(ids_named(rv.take(k + 1), first, n).len() > 0);
                } else {
                    assert(ids_named(rv.take(k as int), first, n) + Seq::<SymbolId>::empty() =~= ids_named(
                        rv.take(k as int),
                        first,
                        n,
                    ));
                }
            }
            assert forall|x: SymbolId|
                ix0.next_symbol_id <= x < ix0.next_symbol_id + rv.take(k + 1).len() implies is_stub(
                #[trigger] ix.symbols@[x],
                x,
                rv.take(k + 1)[x - ix0.next_symbol_id],
            ) by {
                if x != id {
                    assert(prev.symbols@.contains_key(x));
                }
            }
            assert forall|n: Seq<char>| #[trigger] ix.symbol_map@.contains_key(n) implies forall|i: int|
                0 <= i < ix.symbol_map@[n]@.len() ==> ix.symbols@.contains_key(#[trigger] ix.symbol_map@[n]@[i])
                    && ix.symbols@[ix.symbol_map@[n]@[i]].name@ == n by {
                if n == name {
                    assert forall|i: int| 0 <= i < ix.symbol_map@[n]@.len() implies ix.symbols@.contains_key(
                        #[trigger] ix.symbol_map@[n]@[i],
                    ) && ix.symbols@[ix.symbol_map@[n]@[i]].name@ == n by {
                        if i < lv.len() {
                            assert(ix.symbol_map@[n]@[i] == lv[i]);
                            assert(prev.symbol_map@.contains_key(n));
                            assert(prev.symbol_map@[n]@[i] == lv[i]);
                            assert(prev.symbols@.contains_key(lv[i]));
                            assert(lv[i] < prev.next_symbol_id);
                        } else {
                            assert(ix.symbol_map@[n]@[i] == id);
                        }
                    }
                } else {
                    assert(prev.symbol_map@.contains_key(n));
                    assert forall|i: int| 0 <= i < ix.symbol_map@[n]@.len() implies ix.symbols@.contains_key(
                        #[trigger] ix.symbol_map@[n]@[i],
                    ) && ix.symbols@[ix.symbol_map@[n]@[i]].name@ == n by {
                        assert(prev.symbols@.contains_key(prev.symbol_map@[n]@[i]));
                        assert(prev.symbol_map@[n]@[i] < prev.next_symbol_id);
                    }
                }
            }
            assert forall|x: SymbolId| #[trigger] ix.symbols@.contains_key(x) implies (ix.symbols@[x].parent_id matches Some(
                q,
            ) ==> ix.symbols@.contains_key(q) && ix.symbols@[q].file_id == ix.symbols@[x].file_id) by {
                if x != id {
                    assert(prev.symbols@.contains_key(x));
                    if let Some(q) = prev.symbols@[x].parent_id {
                        assert(prev.symbols@.contains_key(q));
                        assert(q < prev.next_symbol_id);
                    }
                }
            }
        }
        k = k + 1;
    }
    proof {
        assert(rv.take(rv.len() as int) =~= rv);
    }
}

/// Adds a stub symbol for each import from a package (a source that is
/// neither relative nor absolute) that no symbol of its bound name stands
/// for yet, as an external symbol of that package. The files are taken in
/// increasing order of their identifiers, the imports of a file in order,
/// and the stubs numbered from the next free identifier. Returns whether it
/// did: where the identifiers would run out, the index is left as it was.
pub fn link_external_imports(ix: &mut WorkspaceIndex) -> (r: bool)
    requires
        index_ok(*old(ix)),
    ensures
        index_ok(*final(ix)),
        exists|order: Seq<FileId>|
            increasing(order) && order.to_set() == old(ix).file_imports@.dom() && (r <==> old(ix).next_symbol_id
                + stub_requests(*old(ix), order).len() <= u32::MAX) && (r ==> adds_stubs(
                *old(ix),
                *final(ix),
                #[trigger] stub_requests(*old(ix), order),
            )),
        r ==> same_but_symbols(*old(ix), *final(ix)),
        !r ==> *final(ix) == *old(ix),
{
    let keys = keys_of(&ix.file_imports);
    let order = sorted_ids(&keys);
    let reqs = requests_for(ix, &order);
    if reqs.len() as u64 > (u32::MAX - ix.next_symbol_id) as u64 {
        return false;
    }
    add_stubs(ix, &reqs);
    true
}

} // verus!
