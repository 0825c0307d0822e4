//! Namespace imports (`import * as name from ...`): within the importing
//! file's module scope, the alias stands for the module of the file imported.

use vstd::prelude::*;
use vstd::hash_map::StringHashMap;
use crate::schema::{FileId, ImportNode, SymbolId, SymbolNode, WorkspaceIndex};
use crate::text::str_eq;
use crate::indexer::resolve::keys_of;
use crate::indexer::links::{lemma_module_symbol_unique, module_of, module_symbol};
use crate::indexer::calls::imports_of;
use crate::indexer::import_links::ImportTargets;
use crate::indexer::recording::{same_file_tables, same_relations};

verus! {

/// The view of a table of local names and the types they stand for.
pub open spec fn types_view(m: Map<Seq<char>, String>) -> Map<Seq<char>, Seq<char>> {
    m.map_values(|s: String| s@)
}

/// The name of the module scope of file `t`, where it has one.
pub open spec fn module_name(syms: Map<SymbolId, SymbolNode>, t: FileId) -> Option<Seq<char>> {
    if exists|m: SymbolId| module_symbol(syms, t, m) {
        Some(syms[choose|m: SymbolId| module_symbol(syms, t, m)].name@)
    } else {
        None
    }
}

/// The alias and module name that an import of file `f` gives: a namespace
/// import (`*`) with an alias, whose source leads to a file with a module
/// scope.
pub open spec fn namespace_of(syms: Map<SymbolId, SymbolNode>, tab: ImportTargets, f: FileId, imp: ImportNode) -> Option<(Seq<char>, Seq<char>)> {
    if imp.name@ == seq!['*'] && imp.alias is Some && tab.target(f, imp.source@) is Some && module_name(
        syms,
        tab.target(f, imp.source@)->0,
    ) is Some {
        Some((imp.alias->0@, module_name(syms, tab.target(f, imp.source@)->0)->0))
    } else {
        None
    }
}

/// The table `m` with, for each of the imports `imps` of file `f` in turn
/// that is a namespace import, its alias standing for the module it names.
pub open spec fn namespace_fold(
    syms: Map<SymbolId, SymbolNode>,
    tab: ImportTargets,
    f: FileId,
    imps: Seq<ImportNode>,
    m: Map<Seq<char>, Seq<char>>,
) -> Map<Seq<char>, Seq<char>>
    decreases imps.len(),
{
    if imps.len() == 0 {
        m
    } else {
        let prev = namespace_fold(syms, tab, f, imps.drop_last(), m);
        match namespace_of(syms, tab, f, imps.last()) {
            Some((a, n)) => prev.insert(a, n),
            None => prev,
        }
    }
}

/// Some of the imports `imps` of file `f` is a namespace import.
pub open spec fn has_namespace(syms: Map<SymbolId, SymbolNode>, tab: ImportTargets, f: FileId, imps: Seq<ImportNode>) -> bool {
    exists|i: int| 0 <= i < imps.len() && namespace_of(syms, tab, f, #[trigger] imps[i]) is Some
}

/// Scope `s` is the module scope of a file with a namespace import.
pub open spec fn namespace_scope(ix: WorkspaceIndex, tab: ImportTargets, s: SymbolId) -> bool {
    &&& ix.symbols@.contains_key(s)
    &&& module_symbol(ix.symbols@, ix.symbols@[s].file_id, s)
    &&& has_namespace(ix.symbols@, tab, ix.symbols@[s].file_id, imports_of(ix, ix.symbols@[s].file_id))
}

/// The module scope of file `t` and its name, where it has one.
fn module_name_exec(ix: &WorkspaceIndex, t: FileId) -> (r: Option<String>)
    ensures
        match r {
            Some(n) => module_name(ix.symbols@, t) == Some(n@),
            None => module_name(ix.symbols@, t) is None,
        },
{
    match module_of(ix, t) {
        Some(m) => {
            proof {
                let c = choose|x: SymbolId| module_symbol(ix.symbols@, t, x);
                lemma_module_symbol_unique(ix.symbols@, t, c, m);
            }
            match ix.symbols.get(&m) {
                Some(s) => Some(s.name.clone()),
                None => None,
            }
        },
        None => {
            proof {
                assert forall|x: SymbolId| !module_symbol(ix.symbols@, t, x) by {
                    if module_symbol(ix.symbols@, t, x) {
                        assert(crate::indexer::links::is_module_of(ix.symbols@, t, x));
                    }
                }
            }
            None
        },
    }
}

/// The alias and module name a namespace import of file `f` gives.
fn namespace_exec(ix: &WorkspaceIndex, tab: &ImportTargets, f: FileId, imp: &ImportNode) -> (r: Option<(String, String)>)
    ensures
        match r {
            Some((a, n)) => namespace_of(ix.symbols@, *tab, f, *imp) == Some((a@, n@)),
            None => namespace_of(ix.symbols@, *tab, f, *imp) is None,
        },
{
    proof {
        reveal_strlit("*");
        assert("*"@ =~= seq!['*']);
    }
    if !str_eq(imp.name.as_str(), "*") {
        return None;
    }
    let alias = match &imp.alias {
        Some(a) => a,
        None => {
            return None;
        },
    };
    let t = match tab.get(f, imp.source.as_str()) {
        Some(t) => t,
        None => {
            return None;
        },
    };
    match module_name_exec(ix, t) {
        Some(n) => Some((alias.clone(), n)),
        None => None,
    }
}

/// Adds to `m` the alias of each namespace import among `imps`, of file
/// `f`, standing for the module it names; tells whether there was one.
fn namespaces_of_file(
    ix: &WorkspaceIndex,
    tab: &ImportTargets,
    f: FileId,
    imps: &Vec<ImportNode>,
    m: &mut StringHashMap<String>,
) -> (any: bool)
    ensures
        types_view(final(m)@) == namespace_fold(ix.symbols@, *tab, f, imps@, types_view(old(m)@)),
        any == has_namespace(ix.symbols@, *tab, f, imps@),
        !any ==> *final(m) == *old(m),
{
    let ghost start = types_view(m@);
    let ghost m0 = *m;
    let mut any = false;
    let mut j: usize = 0;
    proof {
        assert(imps@.take(0) =~= Seq::<ImportNode>::empty());
    }
    while j < imps.len()
        invariant
            0 <= j <= imps@.len(),
            start == types_view(old(m)@),
            types_view(m@) == namespace_fold(ix.symbols@, *tab, f, imps@.take(j as int), start),
            any == has_namespace(ix.symbols@, *tab, f, imps@.take(j as int)),
            m0 == *old(m),
            !any ==> *m == m0,
        decreases imps@.len() - j,
    {
        proof {
            assert(imps@.take(j + 1).drop_last() =~= imps@.take(j as int));
            assert(imps@.take(j + 1).last() == imps@[j as int]);
        }
        let ghost before = m@;
        match namespace_exec(ix, tab, f, &imps[j]) {
            Some((a, n)) => {
                m.insert(a, n);
                any = true;
                proof {
                    assert(types_view(m@) =~= types_view(before).insert(a@, n@));
                    assert(imps@.take(j + 1)[j as int] == imps@[j as int]);
                }
            },
            None => {},
        }
        proof {
            assert(has_namespace(ix.symbols@, *tab, f, imps@.take(j + 1)) == (has_namespace(
                ix.symbols@,
                *tab,
                f,
                imps@.take(j as int),
            ) || namespace_of(ix.symbols@, *tab, f, imps@[j as int]) is Some)) by {
                if has_namespace(ix.symbols@, *tab, f, imps@.take(j + 1)) {
                    let i = choose|i: int| 0 <= i < j + 1 && namespace_of(ix.symbols@, *tab, f, #[trigger] imps@.take(j + 1)[i]) is Some;
                    if i < j {
                        assert(imps@.take(j as int)[i] == imps@.take(j + 1)[i]);
                    }
                }
                if has_namespace(ix.symbols@, *tab, f, imps@.take(j as int)) {
                    let i = choose|i: int| 0 <= i < j && namespace_of(ix.symbols@, *tab, f, #[trigger] imps@.take(j as int)[i]) is Some;
                    assert(imps@.take(j + 1)[i] == imps@.take(j as int)[i]);
                }
                if namespace_of(ix.symbols@, *tab, f, imps@[j as int]) is Some {
                    assert(imps@.take(j + 1)[j as int] == imps@[j as int]);
                }
            }
        }
        j = j + 1;
    }
    proof {
        assert(imps@.take(imps@.len() as int) =~= imps@);
    }
    any
}

/// Without namespace imports, the table stays as it was.
proof fn lemma_no_namespace(
    syms: Map<SymbolId, SymbolNode>,
    tab: ImportTargets,
    f: FileId,
    imps: Seq<ImportNode>,
    m: Map<Seq<char>, Seq<char>>,
)
    requires
        !has_namespace(syms, tab, f, imps),
    ensures
        namespace_fold(syms, tab, f, imps, m) == m,
    decreases imps.len(),
{
    if imps.len() > 0 {
        assert(!has_namespace(syms, tab, f, imps.drop_last())) by {
            if has_namespace(syms, tab, f, imps.drop_last()) {
                let i = choose|i: int| 0 <= i < imps.drop_last().len() && namespace_of(syms, tab, f, #[trigger] imps.drop_last()[i]) is Some;
                assert(imps[i] == imps.drop_last()[i]);
            }
        }
        lemma_no_namespace(syms, tab, f, imps.drop_last(), m);
        assert(namespace_of(syms, tab, f, imps[imps.len() - 1]) is None);
    }
}

/// `b` is `a` but for the local types of its scopes.
pub open spec fn only_local_types_change(a: WorkspaceIndex, b: WorkspaceIndex) -> bool {
    &&& same_file_tables(a, b)
    &&& same_relations(a, b)
    &&& b.next_symbol_id == a.next_symbol_id
    &&& b.symbols@ == a.symbols@
    &&& b.symbol_map@ == a.symbol_map@
    &&& b.raw_calls@ == a.raw_calls@
    &&& b.raw_type_refs@ == a.raw_type_refs@
    &&& b.raw_decorators@ == a.raw_decorators@
    &&& b.symbol_config_refs@ == a.symbol_config_refs@
    &&& b.raw_implementations@ == a.raw_implementations@
    &&& b.fingerprints@ == a.fingerprints@
    &&& b.container_methods@ == a.container_methods@
    &&& b.config_definitions@ == a.config_definitions@
}

/// The local types of scope `s` in `lvt`, by their view, none where it has
/// none.
pub open spec fn scope_types(lvt: Map<SymbolId, StringHashMap<String>>, s: SymbolId) -> Map<Seq<char>, Seq<char>> {
    if lvt.contains_key(s) {
        types_view(lvt[s]@)
    } else {
        Map::empty()
    }
}

/// `after` is `before` with the namespace imports of file `f` handled: in
/// the module scope of `f`, where it has namespace imports, each alias
/// stands for the module it names; the other scopes are left as they were.
pub open spec fn file_handled(
    syms: Map<SymbolId, SymbolNode>,
    tab: ImportTargets,
    imps: Seq<ImportNode>,
    f: FileId,
    before: Map<SymbolId, StringHashMap<String>>,
    after: Map<SymbolId, StringHashMap<String>>,
) -> bool {
    &&& forall|s: SymbolId| #[trigger]
        after.contains_key(s) || before.contains_key(s) ==> if module_symbol(syms, f, s) && has_namespace(
            syms,
            tab,
            f,
            imps,
        ) {
            after.contains_key(s) && types_view(after[s]@) == namespace_fold(syms, tab, f, imps, scope_types(before, s))
        } else {
            &&& (after.contains_key(s) <==> before.contains_key(s))
            &&& before.contains_key(s) ==> after[s] == before[s]
        }
    &&& forall|s: SymbolId| #[trigger] module_symbol(syms, f, s) && has_namespace(syms, tab, f, imps) ==> after.contains_key(s)
}

/// Handles the namespace imports of file `f` in `lvt`.
fn handle_file(ix: &WorkspaceIndex, tab: &ImportTargets, f: FileId, lvt: &mut std::collections::HashMap<SymbolId, StringHashMap<String>>)
    ensures
        file_handled(ix.symbols@, *tab, imports_of(*ix, f), f, old(lvt)@, final(lvt)@),
{
    match module_of(ix, f) {
        Some(s) => {
            let empty: Vec<ImportNode> = Vec::new();
            let imps = match ix.file_imports.get(&f) {
                Some(v) => v,
                None => &empty,
            };
            proof {
                assert(imps@ == imports_of(*ix, f));
            }
            let ghost lb = lvt@;
            let (mut inner, had) = match lvt.remove(&s) {
                Some(m) => (m, true),
                None => (StringHashMap::new(), false),
            };
            let ghost i0 = inner;
            proof {
                if !had {
                    assert(types_view(inner@) =~= Map::<Seq<char>, Seq<char>>::empty());
                }
                assert(types_view(inner@) == scope_types(lb, s));
            }
            let any = namespaces_of_file(ix, tab, f, imps, &mut inner);
            if any || had {
                lvt.insert(s, inner);
            }
            proof {
                assert forall|x: SymbolId| #[trigger] module_symbol(ix.symbols@, f, x) implies x == s by {
                    lemma_module_symbol_unique(ix.symbols@, f, x, s);
                }
                if !any {
                    lemma_no_namespace(ix.symbols@, *tab, f, imps@, types_view(i0@));
                }
            }
        },
        None => {
            proof {
                assert forall|x: SymbolId| !module_symbol(ix.symbols@, f, x) by {
                    if module_symbol(ix.symbols@, f, x) {
                        assert(crate::indexer::links::is_module_of(ix.symbols@, f, x));
                    }
                }
            }
        },
    }
}

/// In the module scope of each file with namespace imports, makes each
/// alias stand for the module of the file imported (a later import of an
/// alias replacing an earlier one); the other scopes are left as they were.
pub fn link_namespaces(ix: &mut WorkspaceIndex, tab: &ImportTargets)
    ensures
        only_local_types_change(*old(ix), *final(ix)),
        forall|s: SymbolId| #[trigger]
            final(ix).local_variable_types@.contains_key(s) || old(ix).local_variable_types@.contains_key(s)
                ==> if namespace_scope(*old(ix), *tab, s) {
                final(ix).local_variable_types@.contains_key(s) && types_view(final(ix).local_variable_types@[s]@)
                    == namespace_fold(
                    old(ix).symbols@,
                    *tab,
                    old(ix).symbols@[s].file_id,
                    imports_of(*old(ix), old(ix).symbols@[s].file_id),
                    scope_types(old(ix).local_variable_types@, s),
                )
            } else {
                &&& (final(ix).local_variable_types@.contains_key(s) <==> old(ix).local_variable_types@.contains_key(s))
                &&& old(ix).local_variable_types@.contains_key(s) ==> final(ix).local_variable_types@[s]
                    == old(ix).local_variable_types@[s]
            },
        forall|s: SymbolId| #[trigger] namespace_scope(*old(ix), *tab, s) ==> final(ix).local_variable_types@.contains_key(s),
{
    let ghost ix0 = *ix;
    let mut lvt: std::collections::HashMap<SymbolId, StringHashMap<String>> = std::collections::HashMap::new();
    std::mem::swap(&mut lvt, &mut ix.local_variable_types);
    let ghost l0 = lvt@;
    let keys = keys_of(&ix.file_imports);
    let mut i: usize = 0;
    while i < keys.len()
        invariant
            0 <= i <= keys@.len(),
            keys@.to_set() == ix0.file_imports@.dom(),
            ix.symbols@ == ix0.symbols@,
            ix.file_imports@ == ix0.file_imports@,
            l0 == ix0.local_variable_types@,
            forall|s: SymbolId| #[trigger]
                lvt@.contains_key(s) || l0.contains_key(s) ==> if namespace_scope(ix0, *tab, s)
                    && keys@.take(i as int).contains(ix0.symbols@[s].file_id) {
                    lvt@.contains_key(s) && types_view(lvt@[s]@) == namespace_fold(
                        ix0.symbols@,
                        *tab,
                        ix0.symbols@[s].file_id,
                        imports_of(ix0, ix0.symbols@[s].file_id),
                        scope_types(l0, s),
                    )
                } else {
                    &&& (lvt@.contains_key(s) <==> l0.contains_key(s))
                    &&& l0.contains_key(s) ==> lvt@[s] == l0[s]
                },
            forall|s: SymbolId| #[trigger] namespace_scope(ix0, *tab, s) && keys@.take(i as int).contains(
                ix0.symbols@[s].file_id,
            ) ==> lvt@.contains_key(s),
        decreases keys@.len() - i,
    {
        let f = keys[i];
        let ghost lb = lvt@;
        let seen = crate::indexer::call_links::seen_before(&keys, i, f);
        if !seen {
            handle_file(ix, tab, f, &mut lvt);
        }
        let ghost i0 = i as int;
        i = i + 1;
        proof {
            assert(imports_of(*ix, f) == imports_of(ix0, f));
            assert(keys@.take(i as int) =~= keys@.take(i0).push(f));
            crate::lemmas::lemma_push_contains(keys@.take(i0), f);
            assert forall|s: SymbolId| #[trigger]
                lvt@.contains_key(s) || l0.contains_key(s) implies if namespace_scope(ix0, *tab, s)
                    && keys@.take(i as int).contains(ix0.symbols@[s].file_id) {
                    lvt@.contains_key(s) && types_view(lvt@[s]@) == namespace_fold(
                        ix0.symbols@,
                        *tab,
                        ix0.symbols@[s].file_id,
                        imports_of(ix0, ix0.symbols@[s].file_id),
                        scope_types(l0, s),
                    )
                } else {
                    &&& (lvt@.contains_key(s) <==> l0.contains_key(s))
                    &&& l0.contains_key(s) ==> lvt@[s] == l0[s]
                } by {
                if lb.contains_key(s) || l0.contains_key(s) {
                }
                if namespace_scope(ix0, *tab, s) && ix0.symbols@[s].file_id == f && !seen {
                    assert(module_symbol(ix0.symbols@, f, s));
                    assert(!keys@.take(i0).contains(f));
                    assert(scope_types(lb, s) == scope_types(l0, s));
                } else {
                    assert(keys@.take(i as int).contains(ix0.symbols@[s].file_id) == (keys@.take(i0).contains(
                        ix0.symbols@[s].file_id,
                    ) || ix0.symbols@[s].file_id == f));
                    if !seen {
                        if module_symbol(ix0.symbols@, f, s) && has_namespace(ix0.symbols@, *tab, f, imports_of(ix0, f)) {
                            assert(namespace_scope(ix0, *tab, s));
                        }
                    }
                }
            }
            assert forall|s: SymbolId| #[trigger] namespace_scope(ix0, *tab, s) && keys@.take(i as int).contains(
                ix0.symbols@[s].file_id,
            ) implies lvt@.contains_key(s) by {
                if ix0.symbols@[s].file_id == f && !seen {
                    assert(module_symbol(ix0.symbols@, f, s));
                } else {
                    assert(keys@.take(i0).contains(ix0.symbols@[s].file_id));
                    assert(lb.contains_key(s));
                    if !seen {
                        if module_symbol(ix0.symbols@, f, s) && has_namespace(ix0.symbols@, *tab, f, imports_of(ix0, f)) {
                            assert(namespace_scope(ix0, *tab, s));
                        }
                    }
                }
            }
        }
    }
    std::mem::swap(&mut lvt, &mut ix.local_variable_types);
    proof {
        assert(keys@.take(keys@.len() as int) =~= keys@);
        assert forall|s: SymbolId| #[trigger] namespace_scope(ix0, *tab, s) implies keys@.contains(ix0.symbols@[s].file_id) by {
            let fs = ix0.symbols@[s].file_id;
            let j = choose|j: int| 0 <= j < imports_of(ix0, fs).len() && namespace_of(ix0.symbols@, *tab, fs, #[trigger] imports_of(ix0, fs)[j]) is Some;
            assert(ix0.file_imports@.contains_key(fs));
            assert(keys@.to_set().contains(fs));
        }
    }
}

} // verus!
