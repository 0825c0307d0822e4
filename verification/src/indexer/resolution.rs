//! Resolving the raw references of the index into its relations, pass after
//! pass.

use vstd::prelude::*;
use crate::schema::{FileId, SymbolId, WorkspaceIndex, lists};
use crate::indexer::Indexer;
use crate::indexer::consistency::index_ok;
use crate::indexer::recording::{same_file_tables, same_symbol_tables};
use crate::indexer::resolve::{config_link, connect_implementations, implements, increasing, link_config_keys, only_calls_change};
use crate::indexer::links::{gains_links, module_links, module_symbol, same_but_links};
use crate::indexer::externals::{adds_stubs, link_external_imports, same_but_symbols, stub_requests};
use crate::indexer::route_links::{link_routes, route_link};
use crate::indexer::literal_links::{link_literal_paths, literal_dep};
use crate::indexer::shared_literals::{link_shared_literals, shares_literal};
use crate::indexer::import_links::{ImportTargets, import_dep, imports_some, link_file_imports};
use crate::indexer::namespaces::{link_namespaces, namespace_fold, namespace_scope, only_local_types_change, scope_types, types_view};
use crate::indexer::calls::imports_of;
use crate::indexer::database::{is_word_of, link_table_receivers, link_tables, receiver_table, schema_table, table_use};
use crate::indexer::fingerprints::{child_link, covers, entry_link, fp_link, link_fingerprints};
use crate::indexer::sniffing::{link_receiver_types, receiver_type, sniff_link, type_link};
use crate::analysis::enrichment::last_entry;
use crate::text::trim_quotes;
use crate::indexer::call_links::{folded, lemma_folded_in, link_calls, link_decorators, link_type_refs, only_type_refs_change};

verus! {

/// `b` is `a` with its four relations emptied.
pub open spec fn relations_emptied(a: WorkspaceIndex, b: WorkspaceIndex) -> bool {
    &&& same_file_tables(a, b)
    &&& same_symbol_tables(a, b)
    &&& b.resolved_calls@ == Map::<SymbolId, Vec<SymbolId>>::empty()
    &&& b.resolved_type_refs@ == Map::<SymbolId, Vec<SymbolId>>::empty()
    &&& b.inheritance@ == Map::<SymbolId, Vec<SymbolId>>::empty()
    &&& b.file_dependencies@ == Map::<FileId, Vec<FileId>>::empty()
}

/// The stubs pass: `b` is `a` with a stub for each import from a package
/// that needs one, where `added`; `a` itself where the identifiers would run
/// out.
pub open spec fn stubs_step(a: WorkspaceIndex, b: WorkspaceIndex, added: bool) -> bool {
    &&& exists|order: Seq<FileId>|
        increasing(order) && order.to_set() == a.file_imports@.dom() && (added <==> a.next_symbol_id + stub_requests(
            a,
            order,
        ).len() <= u32::MAX) && (added ==> adds_stubs(a, b, #[trigger] stub_requests(a, order)))
    &&& added ==> same_but_symbols(a, b)
    &&& !added ==> b == a
}

/// A linking pass: `b` is `a` with a dependency for each pair of files that
/// `rel` relates, and a call between their module scopes.
pub open spec fn links_step(a: WorkspaceIndex, b: WorkspaceIndex, rel: spec_fn(u32, u32) -> bool) -> bool {
    &&& same_but_links(a, b)
    &&& gains_links(a.file_dependencies@, b.file_dependencies@, rel)
    &&& gains_links(a.resolved_calls@, b.resolved_calls@, |k: u32, x: u32| module_links(a.symbols@, rel, k, x))
}

/// The route pass (see [`route_link`]).
pub open spec fn routes_step(a: WorkspaceIndex, b: WorkspaceIndex) -> bool {
    links_step(a, b, |f: u32, t: u32| route_link(a, f, t))
}

/// The namespace pass (see [`link_namespaces`]).
pub open spec fn namespaces_step(a: WorkspaceIndex, b: WorkspaceIndex, tab: ImportTargets) -> bool {
    &&& only_local_types_change(a, b)
    &&& forall|s: SymbolId| #[trigger]
        b.local_variable_types@.contains_key(s) || a.local_variable_types@.contains_key(s) ==> if namespace_scope(
            a,
            tab,
            s,
        ) {
            b.local_variable_types@.contains_key(s) && types_view(b.local_variable_types@[s]@) == namespace_fold(
                a.symbols@,
                tab,
                a.symbols@[s].file_id,
                imports_of(a, a.symbols@[s].file_id),
                scope_types(a.local_variable_types@, s),
            )
        } else {
            &&& (b.local_variable_types@.contains_key(s) <==> a.local_variable_types@.contains_key(s))
            &&& a.local_variable_types@.contains_key(s) ==> b.local_variable_types@[s] == a.local_variable_types@[s]
        }
    &&& forall|s: SymbolId| #[trigger] namespace_scope(a, tab, s) ==> b.local_variable_types@.contains_key(s)
}

/// The path-literal pass (see [`literal_dep`]).
pub open spec fn literals_step(a: WorkspaceIndex, b: WorkspaceIndex, tab: ImportTargets) -> bool {
    links_step(a, b, |f: u32, t: u32| literal_dep(a, tab, f, t))
}

/// The shared-literal pass (see [`shares_literal`]).
pub open spec fn shared_step(a: WorkspaceIndex, b: WorkspaceIndex) -> bool {
    links_step(a, b, |f: u32, t: u32| shares_literal(a, f, t))
}

/// The decorator pass (see [`link_decorators`]).
pub open spec fn decorators_step(a: WorkspaceIndex, b: WorkspaceIndex, tab: ImportTargets) -> bool {
    only_calls_change(a, b) && folded(a, tab, a.raw_decorators@, true, false, a.resolved_calls@, b.resolved_calls@)
}

/// The call pass (see [`link_calls`]).
pub open spec fn calls_step(a: WorkspaceIndex, b: WorkspaceIndex, tab: ImportTargets) -> bool {
    only_calls_change(a, b) && folded(a, tab, a.raw_calls@, false, true, a.resolved_calls@, b.resolved_calls@)
}

/// The type-reference pass (see [`link_type_refs`]).
pub open spec fn type_refs_step(a: WorkspaceIndex, b: WorkspaceIndex, tab: ImportTargets) -> bool {
    only_type_refs_change(a, b) && folded(
        a,
        tab,
        a.raw_type_refs@,
        false,
        false,
        a.resolved_type_refs@,
        b.resolved_type_refs@,
    )
}

/// The schema-table pass (see [`link_tables`]).
pub open spec fn tables_step(a: WorkspaceIndex, b: WorkspaceIndex) -> bool {
    only_calls_change(a, b) && gains_links(a.resolved_calls@, b.resolved_calls@, |k: u32, t: u32| table_use(a, k, t))
}

/// The receiver-type pass (see [`link_receiver_types`]).
pub open spec fn sniffing_step(a: WorkspaceIndex, b: WorkspaceIndex) -> bool {
    &&& only_calls_change(a, b)
    &&& forall|k: SymbolId| #[trigger]
        b.resolved_calls@.contains_key(k) <==> a.resolved_calls@.contains_key(k) || exists|t: SymbolId| sniff_link(a, k, t)
    &&& forall|k: SymbolId, t: SymbolId| #[trigger]
        lists(b.resolved_calls@, k, t) <==> lists(a.resolved_calls@, k, t) || sniff_link(a, k, t)
}

/// The receiver pass (see [`link_fingerprints`]).
pub open spec fn fingerprints_step(a: WorkspaceIndex, b: WorkspaceIndex) -> bool {
    &&& only_calls_change(a, b)
    &&& forall|k: SymbolId| #[trigger]
        b.resolved_calls@.contains_key(k) <==> a.resolved_calls@.contains_key(k) || exists|t: SymbolId| fp_link(a, k, t)
    &&& forall|k: SymbolId, t: SymbolId| #[trigger]
        lists(b.resolved_calls@, k, t) <==> lists(a.resolved_calls@, k, t) || fp_link(a, k, t)
    &&& forall|k: SymbolId| #[trigger]
        b.resolved_calls@.contains_key(k) ==> (exists|t: SymbolId| fp_link(a, k, t)) ==> increasing(b.resolved_calls@[k]@)
    &&& forall|k: SymbolId| #[trigger]
        a.resolved_calls@.contains_key(k) ==> !(exists|t: SymbolId| fp_link(a, k, t)) ==> b.resolved_calls@[k]
            == a.resolved_calls@[k]
}

/// The table-receiver pass (see [`link_table_receivers`]).
pub open spec fn receivers_step(a: WorkspaceIndex, b: WorkspaceIndex) -> bool {
    only_calls_change(a, b) && gains_links(
        a.resolved_calls@,
        b.resolved_calls@,
        |k: u32, t: u32| receiver_table(a, k, t),
    )
}

/// The inheritance pass: `b` is `a` with its inheritance relation rebuilt
/// from the recorded implementations.
pub open spec fn inheritance_step(a: WorkspaceIndex, b: WorkspaceIndex) -> bool {
    &&& same_file_tables(a, b)
    &&& same_symbol_tables(a, b)
    &&& b.resolved_calls@ == a.resolved_calls@
    &&& b.resolved_type_refs@ == a.resolved_type_refs@
    &&& b.file_dependencies@ == a.file_dependencies@
    &&& forall|p: SymbolId| #[trigger] b.inheritance@.contains_key(p) <==> exists|c: SymbolId| implements(a, p, c)
    &&& forall|p: SymbolId, c: SymbolId|
        b.inheritance@.contains_key(p) ==> (#[trigger] b.inheritance@[p]@.contains(c) <==> implements(a, p, c))
}

/// The configuration pass: `b` is `a` with a call from each symbol that reads
/// a configuration key to each symbol that defines it, every call list
/// sorted without repeats.
pub open spec fn config_step(a: WorkspaceIndex, b: WorkspaceIndex) -> bool {
    &&& only_calls_change(a, b)
    &&& forall|k: SymbolId| #[trigger]
        b.resolved_calls@.contains_key(k) <==> a.resolved_calls@.contains_key(k) || exists|t: SymbolId|
            config_link(a, k, t)
    &&& forall|k: SymbolId| #[trigger] b.resolved_calls@.contains_key(k) ==> increasing(b.resolved_calls@[k]@)
    &&& forall|k: SymbolId, t: SymbolId|
        b.resolved_calls@.contains_key(k) ==> (#[trigger] b.resolved_calls@[k]@.contains(t) <==> (
        a.resolved_calls@.contains_key(k) && a.resolved_calls@[k]@.contains(t)) || config_link(a, k, t))
}

/// The import pass: `b` is `a` with the dependencies of each file whose
/// imports lead to indexed files set to those files, in increasing order,
/// and a call between the module scopes of each such pair; every call list
/// sorted without repeats.
pub open spec fn imports_step(a: WorkspaceIndex, b: WorkspaceIndex, tab: ImportTargets) -> bool {
    &&& same_but_links(a, b)
    &&& forall|f: FileId| #[trigger]
        b.file_dependencies@.contains_key(f) <==> a.file_dependencies@.contains_key(f) || imports_some(a, tab, f)
    &&& forall|f: FileId| #[trigger] imports_some(a, tab, f) ==> increasing(b.file_dependencies@[f]@)
    &&& forall|f: FileId, t: FileId| #[trigger]
        lists(b.file_dependencies@, f, t) <==> if imports_some(a, tab, f) {
            import_dep(a, tab, f, t)
        } else {
            lists(a.file_dependencies@, f, t)
        }
    &&& gains_links(
        a.resolved_calls@,
        b.resolved_calls@,
        |k: u32, x: u32| module_links(a.symbols@, |f: u32, t: u32| import_dep(a, tab, f, t), k, x),
    )
    &&& forall|k: u32| #[trigger] b.resolved_calls@.contains_key(k) ==> increasing(b.resolved_calls@[k]@)
}

/// The whole resolution, from index `a` to index `b` with the import
/// targets `tab`: the relations emptied, then the stubs pass (which `added`
/// tells the outcome of), the decorator pass, the route pass, the namespace
/// pass, the path-literal and shared-literal linking passes, the inheritance, call, configuration,
/// type-reference and import passes, in that order.
pub open spec fn resolution(a: WorkspaceIndex, b: WorkspaceIndex, tab: ImportTargets, added: bool) -> bool {
    exists|
        c0: WorkspaceIndex,
        c1: WorkspaceIndex,
        c2: WorkspaceIndex,
        c3: WorkspaceIndex,
        n3: WorkspaceIndex,
        c4: WorkspaceIndex,
        c5: WorkspaceIndex,
        s5: WorkspaceIndex,
        f5: WorkspaceIndex,
        c6: WorkspaceIndex,
        c7: WorkspaceIndex,
        c8: WorkspaceIndex,
        c9: WorkspaceIndex,
        d9: WorkspaceIndex,
        e9: WorkspaceIndex,
    |
        #![trigger relations_emptied(a, c0), stubs_step(c0, c1, added), decorators_step(c1, c2, tab), routes_step(c2, c3), namespaces_step(c3, n3, tab), literals_step(n3, c4, tab), shared_step(c4, c5), sniffing_step(c5, s5), fingerprints_step(s5, f5), inheritance_step(f5, c6), calls_step(c6, c7, tab), config_step(c7, c8), type_refs_step(c8, c9, tab), tables_step(c9, d9), receivers_step(d9, e9)]
        {
            &&& relations_emptied(a, c0)
            &&& stubs_step(c0, c1, added)
            &&& decorators_step(c1, c2, tab)
            &&& routes_step(c2, c3)
            &&& namespaces_step(c3, n3, tab)
            &&& literals_step(n3, c4, tab)
            &&& shared_step(c4, c5)
            &&& sniffing_step(c5, s5)
            &&& fingerprints_step(s5, f5)
            &&& inheritance_step(f5, c6)
            &&& calls_step(c6, c7, tab)
            &&& config_step(c7, c8)
            &&& type_refs_step(c8, c9, tab)
            &&& tables_step(c9, d9)
            &&& receivers_step(d9, e9)
            &&& imports_step(e9, b, tab)
        }
}

/// Every relation of the index lists symbols of the index, under symbols of
/// the index.
pub open spec fn relations_within(ix: WorkspaceIndex) -> bool {
    &&& forall|k: SymbolId| #[trigger] ix.resolved_calls@.contains_key(k) ==> ix.symbols@.contains_key(k)
    &&& forall|k: SymbolId, x: SymbolId| #[trigger] lists(ix.resolved_calls@, k, x) ==> ix.symbols@.contains_key(x)
    &&& forall|k: SymbolId| #[trigger] ix.resolved_type_refs@.contains_key(k) ==> ix.symbols@.contains_key(k)
    &&& forall|k: SymbolId, x: SymbolId| #[trigger] lists(ix.resolved_type_refs@, k, x) ==> ix.symbols@.contains_key(x)
    &&& forall|k: SymbolId| #[trigger] ix.inheritance@.contains_key(k) ==> ix.symbols@.contains_key(k)
    &&& forall|k: SymbolId, x: SymbolId| #[trigger] lists(ix.inheritance@, k, x) ==> ix.symbols@.contains_key(x)
}

/// A consistent index whose relations stay among its symbols is well formed.
proof fn lemma_well_formed(ix: WorkspaceIndex)
    requires
        index_ok(ix),
        relations_within(ix),
    ensures
        ix.wf(),
{
    assert forall|k: SymbolId| #[trigger] ix.resolved_calls@.contains_key(k) implies ix.symbols@.contains_key(k) && forall|i: int|
        0 <= i < ix.resolved_calls@[k]@.len() ==> ix.symbols@.contains_key(#[trigger] ix.resolved_calls@[k]@[i]) by {
        assert forall|i: int| 0 <= i < ix.resolved_calls@[k]@.len() implies ix.symbols@.contains_key(
            #[trigger] ix.resolved_calls@[k]@[i],
        ) by {
            assert(lists(ix.resolved_calls@, k, ix.resolved_calls@[k]@[i]));
        }
    }
    assert forall|k: SymbolId| #[trigger] ix.resolved_type_refs@.contains_key(k) implies ix.symbols@.contains_key(k)
        && forall|i: int| 0 <= i < ix.resolved_type_refs@[k]@.len() ==> ix.symbols@.contains_key(
        #[trigger] ix.resolved_type_refs@[k]@[i],
    ) by {
        assert forall|i: int| 0 <= i < ix.resolved_type_refs@[k]@.len() implies ix.symbols@.contains_key(
            #[trigger] ix.resolved_type_refs@[k]@[i],
        ) by {
            assert(lists(ix.resolved_type_refs@, k, ix.resolved_type_refs@[k]@[i]));
        }
    }
    assert forall|k: SymbolId| #[trigger] ix.inheritance@.contains_key(k) implies ix.symbols@.contains_key(k) && forall|i: int|
        0 <= i < ix.inheritance@[k]@.len() ==> ix.symbols@.contains_key(#[trigger] ix.inheritance@[k]@[i]) by {
        assert forall|i: int| 0 <= i < ix.inheritance@[k]@.len() implies ix.symbols@.contains_key(
            #[trigger] ix.inheritance@[k]@[i],
        ) by {
            assert(lists(ix.inheritance@, k, ix.inheritance@[k]@[i]));
        }
    }
}

/// Calls added between module scopes keep the relations among the symbols.
proof fn lemma_links_within(a: WorkspaceIndex, b: WorkspaceIndex, rel: spec_fn(u32, u32) -> bool)
    requires
        relations_within(a),
        b.symbols@ == a.symbols@,
        b.resolved_type_refs@ == a.resolved_type_refs@,
        b.inheritance@ == a.inheritance@,
        gains_links(a.resolved_calls@, b.resolved_calls@, |k: u32, x: u32| module_links(a.symbols@, rel, k, x)),
    ensures
        relations_within(b),
{
    let mrel = |k: u32, x: u32| module_links(a.symbols@, rel, k, x);
    assert forall|k: SymbolId| #[trigger] b.resolved_calls@.contains_key(k) implies b.symbols@.contains_key(k) by {
        if !a.resolved_calls@.contains_key(k) {
            let x = choose|x: u32| #[trigger] mrel(k, x);
            let (f, t) = choose|f: FileId, t: FileId| #[trigger] rel(f, t) && module_symbol(a.symbols@, f, k)
                && module_symbol(a.symbols@, t, x);
        }
    }
    assert forall|k: SymbolId, x: SymbolId| #[trigger] lists(b.resolved_calls@, k, x) implies b.symbols@.contains_key(x) by {
        if !lists(a.resolved_calls@, k, x) {
            assert(mrel(k, x));
            let (f, t) = choose|f: FileId, t: FileId| #[trigger] rel(f, t) && module_symbol(a.symbols@, f, k)
                && module_symbol(a.symbols@, t, x);
        }
    }
}

impl Indexer {
    /// Resolves the raw references of the index into its relations (see
    /// [`resolution`]), with `targets` telling which indexed file each path
    /// named in a file leads to. Returns whether the stubs pass added its
    /// stubs (it adds none where the symbol identifiers would run out). The
    /// relations then hold symbols of the index only.
    pub fn resolve_references(&mut self, targets: &ImportTargets) -> (r: bool)
        requires
            index_ok(old(self).index),
        ensures
            index_ok(final(self).index),
            final(self).configs@ == old(self).configs@,
            final(self).index.wf(),
            resolution(old(self).index, final(self).index, *targets, r),
    {
        self.index.resolved_calls.clear();
        self.index.resolved_type_refs.clear();
        self.index.inheritance.clear();
        self.index.file_dependencies.clear();
        let ghost c0 = self.index;
        let added = link_external_imports(&mut self.index);
        let ghost c1 = self.index;
        link_decorators(&mut self.index, targets);
        let ghost c2 = self.index;
        link_routes(&mut self.index);
        let ghost c3 = self.index;
        link_namespaces(&mut self.index, targets);
        let ghost n3 = self.index;
        link_literal_paths(&mut self.index, targets);
        let ghost c4 = self.index;
        link_shared_literals(&mut self.index);
        let ghost c5 = self.index;
        link_receiver_types(&mut self.index);
        let ghost s5 = self.index;
        link_fingerprints(&mut self.index);
        let ghost f5 = self.index;
        connect_implementations(&mut self.index);
        let ghost c6 = self.index;
        link_calls(&mut self.index, targets);
        let ghost c7 = self.index;
        link_config_keys(&mut self.index);
        let ghost c8 = self.index;
        link_type_refs(&mut self.index, targets);
        let ghost c9 = self.index;
        link_tables(&mut self.index);
        let ghost d9 = self.index;
        link_table_receivers(&mut self.index);
        let ghost e9 = self.index;
        link_file_imports(&mut self.index, targets);
        proof {
            let b = self.index;
            assert(relations_emptied(old(self).index, c0));
            assert(stubs_step(c0, c1, added));
            assert(decorators_step(c1, c2, *targets));
            assert(routes_step(c2, c3));
            assert(namespaces_step(c3, n3, *targets));
            assert(literals_step(n3, c4, *targets));
            assert(shared_step(c4, c5));
            assert(sniffing_step(c5, s5));
            assert(fingerprints_step(s5, f5));
            assert(inheritance_step(f5, c6));
            assert(calls_step(c6, c7, *targets));
            assert(config_step(c7, c8));
            assert(type_refs_step(c8, c9, *targets));
            assert(tables_step(c9, d9));
            assert(receivers_step(d9, e9));
            assert(imports_step(e9, b, *targets));
            assert(relations_within(c0));
            assert(relations_within(c1));
            lemma_folded_in(c1, *targets, c1.raw_decorators@, true, false, c1.resolved_calls@, c2.resolved_calls@);
            assert(relations_within(c2));
            lemma_links_within(c2, c3, |f: u32, t: u32| route_link(c2, f, t));
            assert(relations_within(n3));
            lemma_links_within(n3, c4, |f: u32, t: u32| literal_dep(n3, *targets, f, t));
            lemma_links_within(c4, c5, |f: u32, t: u32| shares_literal(c4, f, t));
            assert(relations_within(s5)) by {
                assert forall|k: SymbolId, x: SymbolId| #[trigger] lists(s5.resolved_calls@, k, x) implies s5.symbols@.contains_key(x) by {
                    if !lists(c5.resolved_calls@, k, x) {
                        assert(sniff_link(c5, k, x));
                        let j = choose|j: int| #[trigger] last_entry(c5.fingerprints@[k]@, j, c5.fingerprints@[k]@[j].0@)
                            && receiver_type(c5, k, c5.fingerprints@[k]@[j].0@) is Some && type_link(
                            c5,
                            receiver_type(c5, k, c5.fingerprints@[k]@[j].0@)->0,
                            c5.fingerprints@[k]@[j].1@,
                            x,
                        );
                        let ty = receiver_type(c5, k, c5.fingerprints@[k]@[j].0@)->0;
                        let ms = c5.fingerprints@[k]@[j].1@;
                        let tid = choose|tid: SymbolId| #[trigger] c5.symbol_map@[ty]@.contains(tid) && (x == tid || (
                        c5.container_methods@.contains_key(tid) && exists|i: int|
                            0 <= i < ms.len() && c5.container_methods@[tid]@.contains(#[trigger] ms[i]@)
                                && c5.symbol_map@.contains_key(ms[i]@) && c5.symbol_map@[ms[i]@]@.contains(x)
                                && c5.symbols@.contains_key(x) && c5.symbols@[x].parent_id == Some(tid)));
                        let q = choose|q: int| 0 <= q < c5.symbol_map@[ty]@.len() && c5.symbol_map@[ty]@[q] == tid;
                        assert(c5.symbols@.contains_key(c5.symbol_map@[ty]@[q]));
                    }
                }
                assert forall|k: SymbolId| #[trigger] s5.resolved_calls@.contains_key(k) implies s5.symbols@.contains_key(k) by {
                    if !c5.resolved_calls@.contains_key(k) {
                        let t = choose|t: SymbolId| sniff_link(c5, k, t);
                    }
                }
            }
            assert(relations_within(f5)) by {
                assert forall|k: SymbolId, x: SymbolId| #[trigger] lists(f5.resolved_calls@, k, x) implies f5.symbols@.contains_key(x) by {
                    if !lists(s5.resolved_calls@, k, x) {
                        assert(fp_link(s5, k, x));
                        let j = choose|j: int| #[trigger] last_entry(s5.fingerprints@[k]@, j, s5.fingerprints@[k]@[j].0@)
                            && entry_link(s5, s5.fingerprints@[k]@[j].1@, x);
                        let ms = s5.fingerprints@[k]@[j].1@;
                        let cont = choose|cont: SymbolId| #[trigger] covers(s5, cont, ms) && (x == cont || child_link(s5, ms, cont, x));
                    }
                }
                assert forall|k: SymbolId| #[trigger] f5.resolved_calls@.contains_key(k) implies f5.symbols@.contains_key(k) by {
                    if !s5.resolved_calls@.contains_key(k) {
                        let t = choose|t: SymbolId| fp_link(s5, k, t);
                    }
                }
            }
            assert(relations_within(c6)) by {
                assert forall|p: SymbolId| #[trigger] c6.inheritance@.contains_key(p) implies c6.symbols@.contains_key(p) by {
                    let c = choose|c: SymbolId| implements(f5, p, c);
                    let i = choose|i: int|
                        0 <= i < f5.raw_implementations@[c]@.len() && f5.symbol_map@.contains_key(
                            #[trigger] f5.raw_implementations@[c]@[i]@,
                        ) && f5.symbol_map@[f5.raw_implementations@[c]@[i]@]@.contains(p);
                    let n = f5.raw_implementations@[c]@[i]@;
                    let j = choose|j: int| 0 <= j < f5.symbol_map@[n]@.len() && f5.symbol_map@[n]@[j] == p;
                    assert(f5.symbols@.contains_key(f5.symbol_map@[n]@[j]));
                }
                assert forall|p: SymbolId, c: SymbolId| #[trigger] lists(c6.inheritance@, p, c) implies c6.symbols@.contains_key(c) by {
                    assert(c6.inheritance@[p]@.contains(c));
                }
            }
            lemma_folded_in(c6, *targets, c6.raw_calls@, false, true, c6.resolved_calls@, c7.resolved_calls@);
            assert(relations_within(c7));
            assert(relations_within(c8)) by {
                assert forall|k: SymbolId| #[trigger] c8.resolved_calls@.contains_key(k) implies c8.symbols@.contains_key(k) by {
                    if !c7.resolved_calls@.contains_key(k) {
                        let t = choose|t: SymbolId| config_link(c7, k, t);
                    }
                }
                assert forall|k: SymbolId, x: SymbolId| #[trigger] lists(c8.resolved_calls@, k, x) implies c8.symbols@.contains_key(x) by {
                    assert(c8.resolved_calls@[k]@.contains(x));
                    if !lists(c7.resolved_calls@, k, x) {
                        assert(config_link(c7, k, x));
                    }
                }
            }
            lemma_folded_in(c8, *targets, c8.raw_type_refs@, false, false, c8.resolved_type_refs@, c9.resolved_type_refs@);
            assert(relations_within(c9));
            assert(relations_within(d9)) by {
                let rel = |k: u32, t: u32| table_use(c9, k, t);
                assert forall|k: SymbolId| #[trigger] d9.resolved_calls@.contains_key(k) implies d9.symbols@.contains_key(k) by {
                    if !c9.resolved_calls@.contains_key(k) {
                        let t = choose|t: u32| #[trigger] rel(k, t);
                        let (f, j) = choose|f: FileId, j: int| #![trigger module_symbol(c9.symbols@, f, k), c9.raw_literals@[f]@[j]]
                            module_symbol(c9.symbols@, f, k) && c9.raw_literals@.contains_key(f) && 0 <= j
                                < c9.raw_literals@[f]@.len() && schema_table(c9, c9.symbols@[t].name@, t) && is_word_of(
                                trim_quotes(c9.raw_literals@[f]@[j]@),
                                c9.symbols@[t].name@,
                            );
                    }
                }
                assert forall|k: SymbolId, x: SymbolId| #[trigger] lists(d9.resolved_calls@, k, x) implies d9.symbols@.contains_key(x) by {
                    if !lists(c9.resolved_calls@, k, x) {
                        assert(rel(k, x));
                    }
                }
            }
            assert(relations_within(e9)) by {
                let rel = |k: u32, t: u32| receiver_table(d9, k, t);
                assert forall|k: SymbolId| #[trigger] e9.resolved_calls@.contains_key(k) implies e9.symbols@.contains_key(k) by {
                    if !d9.resolved_calls@.contains_key(k) {
                        let t = choose|t: u32| #[trigger] rel(k, t);
                    }
                }
                assert forall|k: SymbolId, x: SymbolId| #[trigger] lists(e9.resolved_calls@, k, x) implies e9.symbols@.contains_key(x) by {
                    if !lists(d9.resolved_calls@, k, x) {
                        assert(rel(k, x));
                    }
                }
            }
            lemma_links_within(e9, b, |f: u32, t: u32| import_dep(e9, *targets, f, t));
            lemma_well_formed(b);
        }
        added
    }
}

} // verus!
