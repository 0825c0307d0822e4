//! What holds of the indexer across its operations.

use vstd::prelude::*;
use crate::analysis::FileAnalysis;
use crate::analysis::language::SupportedLanguage;
use crate::schema::{FileId, SymbolId, WorkspaceIndex, lists};
use crate::indexer::consistency::{cleared, symbols_in_file};
use crate::indexer::recording::records_file;
use crate::indexer::removal::removes_file;
use crate::indexer::shared_literals::shares_literal;
use crate::indexer::resolution::{calls_step, config_step, decorators_step, fingerprints_step, imports_step, inheritance_step, literals_step, namespaces_step, receivers_step, relations_emptied, resolution, routes_step, shared_step, sniffing_step, stubs_step, tables_step, type_refs_step};
use crate::indexer::import_links::{ImportTargets, import_dep, imports_some};
use crate::indexer::queries::depends_on;
use crate::indexer::resolve::increasing;
use crate::schema::ImportNode;
use crate::indexer::externals::{adds_stubs, bound_name, has_stub, ids_named, import_requests, is_package_source, is_stub, is_stub_of, needs_stub, same_but_symbols, stub_requests};

use crate::indexer::{content_digest, needs_analysis};

verus! {

/// A file just recorded is current: the index knows its path, under the
/// hash it was recorded with, so it needs no new analysis for that content.
pub proof fn law_recorded_file_is_current(
    a: WorkspaceIndex,
    b: WorkspaceIndex,
    path_key: Seq<char>,
    path: Seq<char>,
    hash: [u8; 32],
    is_test: bool,
    lang: SupportedLanguage,
    analysis: Result<FileAnalysis, String>,
)
    requires
        records_file(a, b, path_key, path, hash, is_test, lang, analysis),
    ensures
        b.file_paths@.contains_key(path_key),
        b.files@.contains_key(b.file_paths@[path_key]),
        b.files@[b.file_paths@[path_key]].hash == hash,
        b.files@[b.file_paths@[path_key]].path@ == path_key,
{
    reveal(records_file);
}

/// A file recorded with the hash of some content needs no new analysis for
/// that same content: re-indexing skips a file whose content is unchanged.
pub proof fn law_unchanged_content_is_skipped(
    a: WorkspaceIndex,
    b: WorkspaceIndex,
    path_key: Seq<char>,
    path: Seq<char>,
    hash: [u8; 32],
    is_test: bool,
    lang: SupportedLanguage,
    analysis: Result<FileAnalysis, String>,
    content: Seq<char>,
)
    requires
        records_file(a, b, path_key, path, hash, is_test, lang, analysis),
        hash@ == content_digest(content),
    ensures
        !needs_analysis(b, path_key, content),
{
    law_recorded_file_is_current(a, b, path_key, path, hash, is_test, lang, analysis);
}

/// Removing a file just recorded forgets it: its path, its file node and
/// every symbol of it are gone.
pub proof fn law_remove_after_record(
    a: WorkspaceIndex,
    b: WorkspaceIndex,
    c: WorkspaceIndex,
    path_key: Seq<char>,
    path: Seq<char>,
    hash: [u8; 32],
    is_test: bool,
    lang: SupportedLanguage,
    analysis: Result<FileAnalysis, String>,
)
    requires
        records_file(a, b, path_key, path, hash, is_test, lang, analysis),
        removes_file(b, c, path_key),
    ensures
        !c.file_paths@.contains_key(path_key),
        !c.files@.contains_key(b.file_paths@[path_key]),
        symbols_in_file(c.symbols@, b.file_paths@[path_key]) == Set::<SymbolId>::empty(),
{
    law_recorded_file_is_current(a, b, path_key, path, hash, is_test, lang, analysis);
    reveal(removes_file);
    let fid = b.file_paths@[path_key];
    let mid = choose|mid: WorkspaceIndex|
        {
            &&& #[trigger] cleared(b, mid, fid)
            &&& c.files@ == mid.files@.remove(fid)
            &&& c.file_paths@ == mid.file_paths@.remove(path_key)
            &&& c.file_dependencies@ == mid.file_dependencies@.remove(fid)
            &&& routes_ok(b, mid, c, fid)
            &&& c.next_file_id == mid.next_file_id
            &&& c.file_imports@ == mid.file_imports@
            &&& c.file_exports@ == mid.file_exports@
            &&& c.raw_literals@ == mid.raw_literals@
            &&& c.resolved_calls@ == mid.resolved_calls@
            &&& c.resolved_type_refs@ == mid.resolved_type_refs@
            &&& c.inheritance@ == mid.inheritance@
            &&& crate::indexer::recording::same_symbol_tables(mid, c)
        };
    assert(symbols_in_file(c.symbols@, fid) =~= Set::<SymbolId>::empty()) by {
        assert forall|k: SymbolId| !symbols_in_file(c.symbols@, fid).contains(k) by {
            if symbols_in_file(c.symbols@, fid).contains(k) {
                assert(symbols_in_file(b.symbols@, fid).contains(k));
            }
        }
    }
}

/// The routes of `c` are those of `mid` that another file than `fid` serves.
pub open spec fn routes_ok(b: WorkspaceIndex, mid: WorkspaceIndex, c: WorkspaceIndex, fid: FileId) -> bool {
    crate::indexer::recording::routes_view(c.implicit_routes@) == crate::indexer::recording::routes_view(
        mid.implicit_routes@,
    ).filter(crate::indexer::removal::served_elsewhere(fid))
}

/// Files that share a distinctive literal depend on each other, both ways.
pub proof fn law_shared_literals_link_both_ways(a: WorkspaceIndex, b: WorkspaceIndex, x: FileId, y: FileId)
    requires
        shared_step(a, b),
        shares_literal(a, x, y),
    ensures
        lists(b.file_dependencies@, x, y),
        lists(b.file_dependencies@, y, x),
{
    let s = choose|s: Seq<char>| #[trigger] crate::indexer::shared_literals::holds_literal(a, x, s)
        && crate::indexer::shared_literals::holds_literal(a, y, s);
    assert(shares_literal(a, y, x)) by {
        assert(crate::indexer::shared_literals::holds_literal(a, y, s) && crate::indexer::shared_literals::holds_literal(a, x, s));
    }
    let rel = |f: u32, t: u32| shares_literal(a, f, t);
    assert(rel(x, y));
    assert(rel(y, x));
}

/// A request of an import that needs a stub is among the requests of the
/// imports.
proof fn lemma_request_of_import(a: WorkspaceIndex, imps: Seq<ImportNode>, j: int)
    requires
        0 <= j < imps.len(),
        needs_stub(a, imps[j]),
    ensures
        import_requests(a, imps).contains((bound_name(imps[j]), imps[j].source@)),
    decreases imps.len(),
{
    let r = import_requests(a, imps.drop_last());
    if j == imps.len() - 1 {
        assert(import_requests(a, imps) == r.push((bound_name(imps[j]), imps[j].source@)));
        assert(import_requests(a, imps)[r.len() as int] == (bound_name(imps[j]), imps[j].source@));
    } else {
        assert(imps.drop_last()[j] == imps[j]);
        lemma_request_of_import(a, imps.drop_last(), j);
        let k = choose|k: int| 0 <= k < r.len() && r[k] == (bound_name(imps[j]), imps[j].source@);
        if needs_stub(a, imps.last()) {
            assert(import_requests(a, imps)[k] == r[k]);
        }
    }
}

/// The request of an import of a file of `order` that needs a stub is among
/// the requests of the files `order`.
proof fn lemma_request_of_file(a: WorkspaceIndex, order: Seq<FileId>, f: FileId, j: int)
    requires
        order.contains(f),
        a.file_imports@.contains_key(f),
        0 <= j < a.file_imports@[f]@.len(),
        needs_stub(a, a.file_imports@[f]@[j]),
    ensures
        stub_requests(a, order).contains((bound_name(a.file_imports@[f]@[j]), a.file_imports@[f]@[j].source@)),
    decreases order.len(),
{
    let imp = a.file_imports@[f]@[j];
    let req = (bound_name(imp), imp.source@);
    let prev = stub_requests(a, order.drop_last());
    let last = order.last();
    let tail = if a.file_imports@.contains_key(last) {
        import_requests(a, a.file_imports@[last]@)
    } else {
        Seq::empty()
    };
    crate::lemmas::lemma_concat_contains(prev, tail);
    if last == f {
        lemma_request_of_import(a, a.file_imports@[f]@, j);
    } else {
        let q = choose|q: int| 0 <= q < order.len() && order[q] == f;
        assert(q < order.len() - 1);
        assert(order.drop_last()[q] == f);
        lemma_request_of_file(a, order.drop_last(), f, j);
    }
}

/// The identifier numbered for a request of name `n` is listed under `n`.
proof fn lemma_ids_named_has(reqs: Seq<(Seq<char>, Seq<char>)>, first: int, k: int)
    requires
        0 <= k < reqs.len(),
        0 <= first,
        first + reqs.len() <= u32::MAX,
    ensures
        ids_named(reqs, first, reqs[k].0).contains((first + k) as u32),
    decreases reqs.len(),
{
    let n = reqs[k].0;
    let r = ids_named(reqs.drop_last(), first, n);
    if k == reqs.len() - 1 {
        assert(ids_named(reqs, first, n) == r.push((first + k) as u32));
        assert(ids_named(reqs, first, n)[r.len() as int] == (first + k) as u32);
    } else {
        assert(reqs.drop_last()[k] == reqs[k]);
        lemma_ids_named_has(reqs.drop_last(), first, k);
        let q = choose|q: int| 0 <= q < r.len() && r[q] == (first + k) as u32;
        if reqs.last().0 == n {
            assert(ids_named(reqs, first, n)[q] == r[q]);
        }
    }
}

/// After the stubs pass, no import of the index needs a stub any more.
proof fn lemma_no_import_needs_stub(a: WorkspaceIndex, b: WorkspaceIndex, order: Seq<FileId>, f: FileId, j: int)
    requires
        adds_stubs(a, b, stub_requests(a, order)),
        same_but_symbols(a, b),
        order.to_set() == a.file_imports@.dom(),
        a.file_imports@.contains_key(f),
        0 <= j < a.file_imports@[f]@.len(),
    ensures
        !needs_stub(b, b.file_imports@[f]@[j]),
{
    let imp = a.file_imports@[f]@[j];
    let name = bound_name(imp);
    let pkg = imp.source@;
    let reqs = stub_requests(a, order);
    let first = a.next_symbol_id as int;
    if is_package_source(pkg) {
        if has_stub(a, name, pkg) {
            let i = choose|i: int| 0 <= i < a.symbol_map@[name]@.len() && is_stub_of(a.symbols@, #[trigger] a.symbol_map@[name]@[i], pkg);
            let id = a.symbol_map@[name]@[i];
            assert(b.symbol_map@.contains_key(name));
            assert(b.symbol_map@[name]@[i] == id);
            assert(is_stub_of(b.symbols@, b.symbol_map@[name]@[i], pkg));
        } else {
            assert(order.to_set().contains(f));
            lemma_request_of_file(a, order, f, j);
            let k = choose|k: int| 0 <= k < reqs.len() && reqs[k] == (name, pkg);
            lemma_ids_named_has(reqs, first, k);
            let id = (first + k) as u32;
            assert(is_stub(b.symbols@[id], id, reqs[id - a.next_symbol_id]));
            let ids = ids_named(reqs, first, name);
            let q = choose|q: int| 0 <= q < ids.len() && ids[q] == id;
            let base = if a.symbol_map@.contains_key(name) {
                a.symbol_map@[name]@
            } else {
                Seq::empty()
            };
            assert(b.symbol_map@.contains_key(name));
            assert(b.symbol_map@[name]@ == base + ids);
            assert(b.symbol_map@[name]@[base.len() + q] == id);
            assert(is_stub_of(b.symbols@, b.symbol_map@[name]@[base.len() + q], pkg));
        }
    }
}

/// Imports that need no stub ask for none.
proof fn lemma_no_requests(b: WorkspaceIndex, imps: Seq<ImportNode>)
    requires
        forall|j: int| 0 <= j < imps.len() ==> !needs_stub(b, #[trigger] imps[j]),
    ensures
        import_requests(b, imps) == Seq::<(Seq<char>, Seq<char>)>::empty(),
    decreases imps.len(),
{
    if imps.len() > 0 {
        assert forall|j: int| 0 <= j < imps.drop_last().len() implies !needs_stub(b, #[trigger] imps.drop_last()[j]) by {
            assert(imps.drop_last()[j] == imps[j]);
        }
        lemma_no_requests(b, imps.drop_last());
        assert(!needs_stub(b, imps[imps.len() - 1]));
    }
}

/// Files whose imports need no stub ask for none.
proof fn lemma_no_stub_requests(a: WorkspaceIndex, b: WorkspaceIndex, order: Seq<FileId>, order2: Seq<FileId>)
    requires
        adds_stubs(a, b, stub_requests(a, order)),
        same_but_symbols(a, b),
        order.to_set() == a.file_imports@.dom(),
    ensures
        stub_requests(b, order2) == Seq::<(Seq<char>, Seq<char>)>::empty(),
    decreases order2.len(),
{
    if order2.len() > 0 {
        lemma_no_stub_requests(a, b, order, order2.drop_last());
        let f = order2.last();
        if b.file_imports@.contains_key(f) {
            assert forall|j: int| 0 <= j < b.file_imports@[f]@.len() implies !needs_stub(b, #[trigger] b.file_imports@[f]@[j]) by {
                lemma_no_import_needs_stub(a, b, order, f, j);
            }
            lemma_no_requests(b, b.file_imports@[f]@);
        }
        assert(stub_requests(b, order2) =~= Seq::<(Seq<char>, Seq<char>)>::empty());
    }
}

/// Stubs are added once: after a stubs pass that added its stubs, a second
/// one asks for none, whatever order it takes the files in.
pub proof fn law_stubs_added_once(a: WorkspaceIndex, b: WorkspaceIndex)
    requires
        stubs_step(a, b, true),
    ensures
        forall|order2: Seq<FileId>| #[trigger] stub_requests(b, order2).len() == 0,
{
    let order = choose|order: Seq<FileId>|
        increasing(order) && order.to_set() == a.file_imports@.dom() && (true <==> a.next_symbol_id + stub_requests(
            a,
            order,
        ).len() <= u32::MAX) && (true ==> adds_stubs(a, b, #[trigger] stub_requests(a, order)));
    assert forall|order2: Seq<FileId>| #[trigger] stub_requests(b, order2).len() == 0 by {
        lemma_no_stub_requests(a, b, order, order2);
    }
}

/// After resolution, a file whose import leads to file `t` depends on `t`,
/// so it is among the files that a change to `t` impacts; and it depends on
/// exactly the files its imports lead to.
pub proof fn law_importers_are_impacted(
    a: WorkspaceIndex,
    b: WorkspaceIndex,
    tab: ImportTargets,
    added: bool,
    f: FileId,
    t: FileId,
)
    requires
        resolution(a, b, tab, added),
        import_dep(a, tab, f, t),
        a.files@.contains_key(f),
    ensures
        lists(b.file_dependencies@, f, t),
        depends_on(b.file_dependencies@, b.files@, t, b.files@[f].path@),
        forall|u: FileId| #[trigger] lists(b.file_dependencies@, f, u) <==> import_dep(a, tab, f, u),
{
    let (c0, c1, c2, c3, n3, c4, c5, s5, f5, c6, c7, c8, c9, d9, e9) = choose|
        c0: WorkspaceIndex,
        c1: WorkspaceIndex,
        c2: WorkspaceIndex,
        c3: WorkspaceIndex,
        n3: WorkspaceIndex,
        c4: WorkspaceIndex,
        c5: WorkspaceIndex,
        s5: WorkspaceIndex,
        f5: WorkspaceIndex,
        c6: WorkspaceIndex,
        c7: WorkspaceIndex,
        c8: WorkspaceIndex,
        c9: WorkspaceIndex,
        d9: WorkspaceIndex,
        e9: WorkspaceIndex,
    |
        {
            &&& relations_emptied(a, c0)
            &&& stubs_step(c0, c1, added)
            &&& decorators_step(c1, c2, tab)
            &&& routes_step(c2, c3)
            &&& namespaces_step(c3, n3, tab)
            &&& literals_step(n3, c4, tab)
            &&& shared_step(c4, c5)
            &&& sniffing_step(c5, s5)
            &&& fingerprints_step(s5, f5)
            &&& inheritance_step(f5, c6)
            &&& calls_step(c6, c7, tab)
            &&& config_step(c7, c8)
            &&& type_refs_step(c8, c9, tab)
            &&& tables_step(c9, d9)
            &&& receivers_step(d9, e9)
            &&& imports_step(e9, b, tab)
        };
    assert(e9.file_imports@ == a.file_imports@);
    assert(b.files@ == a.files@);
    assert(import_dep(e9, tab, f, t));
    assert(imports_some(e9, tab, f));
    assert(lists(b.file_dependencies@, f, t));
    assert(b.file_dependencies@.contains_key(f) && b.file_dependencies@[f]@.contains(t) && b.files@.contains_key(f)
        && b.files@[f].path@ == b.files@[f].path@);
    assert forall|u: FileId| #[trigger] lists(b.file_dependencies@, f, u) <==> import_dep(a, tab, f, u) by {
        assert(import_dep(e9, tab, f, u) == import_dep(a, tab, f, u));
    }
}

} // verus!
