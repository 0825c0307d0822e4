//! Which symbol a name used in a file stands for: through the file's
//! imports, following re-exports from file to file, or among the file's own
//! definitions.

use vstd::prelude::*;
use crate::schema::{ExportNode, FileId, ImportNode, SymbolId, WorkspaceIndex, contains_id};
use crate::text::str_eq;
use crate::indexer::externals::{bound_name, is_stub_of};
use crate::indexer::import_links::ImportTargets;

verus! {

/// As many files as there are file identifiers.
pub open spec fn all_files() -> nat {
    0x1_0000_0000
}

/// The first of the symbols named `name` that is defined in file `f`.
pub open spec fn own_symbol_from(ix: WorkspaceIndex, f: FileId, ids: Seq<SymbolId>) -> Option<SymbolId>
    decreases ids.len(),
{
    if ids.len() == 0 {
        None
    } else if ix.symbols@.contains_key(ids[0]) && ix.symbols@[ids[0]].file_id == f {
        Some(ids[0])
    } else {
        own_symbol_from(ix, f, ids.drop_first())
    }
}

/// The first symbol named `name` that file `f` defines, if any.
pub open spec fn own_symbol(ix: WorkspaceIndex, f: FileId, name: Seq<char>) -> Option<SymbolId> {
    if ix.symbol_map@.contains_key(name) {
        own_symbol_from(ix, f, ix.symbol_map@[name]@)
    } else {
        None
    }
}

/// The re-exports of file `f`.
pub open spec fn exports_of(ix: WorkspaceIndex, f: FileId) -> Seq<ExportNode> {
    if ix.file_exports@.contains_key(f) {
        ix.file_exports@[f]@
    } else {
        Seq::empty()
    }
}

/// Whether a re-export is one of those looked at in a pass: those of the
/// name (`named`), or the `export *` ones.
pub open spec fn export_matches(e: ExportNode, name: Seq<char>, named: bool) -> bool {
    if named {
        e.name matches Some(n) && n@ == name
    } else {
        e.name is None
    }
}

/// The symbol named `name` that file `f` defines or re-exports, searched
/// depth first: the file's own definition, else the files its re-exports of
/// that name lead to, else those its `export *` lead to; files already
/// visited (`vis`) are not searched again. Also gives the files visited
/// after the search. `fuel` bounds the depth of the search.
pub open spec fn barrel(
    ix: WorkspaceIndex,
    tab: ImportTargets,
    f: FileId,
    name: Seq<char>,
    vis: Seq<FileId>,
    fuel: nat,
) -> (Option<SymbolId>, Seq<FileId>)
    decreases fuel, 0nat, 0nat,
{
    if vis.contains(f) {
        (None, vis)
    } else if fuel == 0 {
        (None, vis.push(f))
    } else {
        let v1 = vis.push(f);
        match own_symbol(ix, f, name) {
            Some(id) => (Some(id), v1),
            None => {
                let (r, v2) = scan(ix, tab, f, name, 0, true, v1, (fuel - 1) as nat);
                if r is Some {
                    (r, v2)
                } else {
                    scan(ix, tab, f, name, 0, false, v2, (fuel - 1) as nat)
                }
            },
        }
    }
}

/// The search of [`barrel`] through the re-exports of file `f` from the
/// `k`th on, in one pass.
pub open spec fn scan(
    ix: WorkspaceIndex,
    tab: ImportTargets,
    f: FileId,
    name: Seq<char>,
    k: nat,
    named: bool,
    vis: Seq<FileId>,
    fuel: nat,
) -> (Option<SymbolId>, Seq<FileId>)
    decreases fuel, 1nat, exports_of(ix, f).len() - k,
{
    let exps = exports_of(ix, f);
    if k >= exps.len() {
        (None, vis)
    } else {
        let e = exps[k as int];
        if export_matches(e, name, named) && tab.target(f, e.source@) is Some {
            let (r, v) = barrel(ix, tab, tab.target(f, e.source@)->0, name, vis, fuel);
            if r is Some {
                (r, v)
            } else {
                scan(ix, tab, f, name, k + 1, named, v, fuel)
            }
        } else {
            scan(ix, tab, f, name, k + 1, named, vis, fuel)
        }
    }
}

/// The first of the symbols `ids` that is defined in file `f`.
fn own_symbol_in(ix: &WorkspaceIndex, f: FileId, ids: &Vec<SymbolId>) -> (r: Option<SymbolId>)
    ensures
        r == own_symbol_from(*ix, f, ids@),
{
    let mut i: usize = 0;
    proof {
        assert(ids@.skip(0) =~= ids@);
    }
    while i < ids.len()
        invariant
            0 <= i <= ids@.len(),
            own_symbol_from(*ix, f, ids@) == own_symbol_from(*ix, f, ids@.skip(i as int)),
        decreases ids@.len() - i,
    {
        proof {
            assert(ids@.skip(i as int).drop_first() =~= ids@.skip(i + 1));
        }
        match ix.symbols.get(&ids[i]) {
            Some(s) => {
                if s.file_id == f {
                    return Some(ids[i]);
                }
            },
            None => {},
        }
        i = i + 1;
    }
    None
}

/// The first symbol named `name` that file `f` defines.
fn own_symbol_exec(ix: &WorkspaceIndex, f: FileId, name: &str) -> (r: Option<SymbolId>)
    ensures
        r == own_symbol(*ix, f, name@),
{
    match ix.symbol_map.get(name) {
        Some(ids) => own_symbol_in(ix, f, ids),
        None => None,
    }
}

/// The search of [`barrel`], with the visited files in `vis`.
fn barrel_exec(
    ix: &WorkspaceIndex,
    tab: &ImportTargets,
    f: FileId,
    name: &str,
    vis: &mut Vec<FileId>,
    Ghost(fuel): Ghost<nat>,
) -> (r: Option<SymbolId>)
    requires
        old(vis)@.no_duplicates(),
        fuel + old(vis)@.len() >= all_files(),
    ensures
        (r, final(vis)@) == barrel(*ix, *tab, f, name@, old(vis)@, fuel),
        final(vis)@.no_duplicates(),
        final(vis)@.len() >= old(vis)@.len(),
    decreases fuel,
{
    if contains_id(vis, f) {
        return None;
    }
    proof {
        crate::lemmas::lemma_push_no_dup(vis@, f);
        crate::lemmas::lemma_distinct_u32_len(vis@.push(f));
    }
    vis.push(f);
    let ghost v1 = vis@;
    match own_symbol_exec(ix, f, name) {
        Some(id) => {
            return Some(id);
        },
        None => {},
    }
    let empty: Vec<ExportNode> = Vec::new();
    let exps = match ix.file_exports.get(&f) {
        Some(e) => e,
        None => &empty,
    };
    proof {
        assert(exps@ == exports_of(*ix, f));
    }
    let ghost fuel1: nat = (fuel - 1) as nat;
    let mut pass: usize = 0;
    let ghost mut start = v1;
    while pass < 2
        invariant
            pass <= 2,
            exps@ == exports_of(*ix, f),
            vis@.no_duplicates(),
            vis@.len() >= v1.len(),
            v1.len() == old(vis)@.len() + 1,
            fuel >= 1,
            fuel1 == fuel - 1,
            fuel1 + v1.len() >= all_files(),
            pass == 0 ==> vis@ == v1,
            pass == 1 ==> scan(*ix, *tab, f, name@, 0, true, v1, fuel1) == (None::<SymbolId>, vis@),
            pass == 2 ==> {
                let (r1, v2) = scan(*ix, *tab, f, name@, 0, true, v1, fuel1);
                r1 is None && scan(*ix, *tab, f, name@, 0, false, v2, fuel1) == (None::<SymbolId>, vis@)
            },
            barrel(*ix, *tab, f, name@, old(vis)@, fuel) == {
                let (r1, v2) = scan(*ix, *tab, f, name@, 0, true, v1, fuel1);
                if r1 is Some {
                    (r1, v2)
                } else {
                    scan(*ix, *tab, f, name@, 0, false, v2, fuel1)
                }
            },
        decreases 2 - pass,
    {
        let named = pass == 0;
        let ghost vs = vis@;
        let mut k: usize = 0;
        while k < exps.len()
            invariant
                0 <= k <= exps@.len(),
                exps@ == exports_of(*ix, f),
                vis@.no_duplicates(),
                vis@.len() >= vs.len(),
                vs.len() >= v1.len(),
                v1.len() == old(vis)@.len() + 1,
                fuel >= 1,
                fuel1 == fuel - 1,
                fuel1 + v1.len() >= all_files(),
                pass < 2,
                named == (pass == 0),
                pass == 0 ==> vs == v1,
                pass == 1 ==> scan(*ix, *tab, f, name@, 0, true, v1, fuel1) == (None::<SymbolId>, vs),
                barrel(*ix, *tab, f, name@, old(vis)@, fuel) == {
                    let (r1, v2) = scan(*ix, *tab, f, name@, 0, true, v1, fuel1);
                    if r1 is Some {
                        (r1, v2)
                    } else {
                        scan(*ix, *tab, f, name@, 0, false, v2, fuel1)
                    }
                },
                scan(*ix, *tab, f, name@, 0, named, vs, fuel1) == scan(*ix, *tab, f, name@, k as nat, named, vis@, fuel1),
            decreases exps@.len() - k,
        {
            let e = &exps[k];
            let hit = match &e.name {
                Some(n) => named && str_eq(n.as_str(), name),
                None => !named,
            };
            if hit {
                match tab.get(f, e.source.as_str()) {
                    Some(next) => {
                        let found = barrel_exec(ix, tab, next, name, vis, Ghost(fuel1));
                        if found.is_some() {
                            proof {
                                assert(scan(*ix, *tab, f, name@, 0, named, vs, fuel1) == (found, vis@));
                            }
                            return found;
                        }
                    },
                    None => {},
                }
            }
            k = k + 1;
        }
        proof {
            assert(scan(*ix, *tab, f, name@, 0, named, vs, fuel1) == (None::<SymbolId>, vis@));
        }
        pass = pass + 1;
    }
    None
}

/// The first of the symbols `ids` that is an external stub for package
/// `pkg`.
pub open spec fn stub_from(ix: WorkspaceIndex, ids: Seq<SymbolId>, pkg: Seq<char>) -> Option<SymbolId>
    decreases ids.len(),
{
    if ids.len() == 0 {
        None
    } else if is_stub_of(ix.symbols@, ids[0], pkg) {
        Some(ids[0])
    } else {
        stub_from(ix, ids.drop_first(), pkg)
    }
}

/// The symbol an import of file `f` stands for: what the file its source
/// leads to defines or re-exports under the imported name, else the first
/// external stub of that name for the import's package.
pub open spec fn import_symbol(ix: WorkspaceIndex, tab: ImportTargets, f: FileId, imp: ImportNode) -> Option<SymbolId> {
    let via_file = match tab.target(f, imp.source@) {
        Some(tf) => barrel(ix, tab, tf, imp.name@, Seq::empty(), all_files()).0,
        None => None,
    };
    if via_file is Some {
        via_file
    } else if ix.symbol_map@.contains_key(imp.name@) {
        stub_from(ix, ix.symbol_map@[imp.name@]@, imp.source@)
    } else {
        None
    }
}

/// The symbol that the first of `imps` binding `name` and standing for one
/// stands for.
pub open spec fn import_resolve(
    ix: WorkspaceIndex,
    tab: ImportTargets,
    f: FileId,
    name: Seq<char>,
    imps: Seq<ImportNode>,
) -> Option<SymbolId>
    decreases imps.len(),
{
    if imps.len() == 0 {
        None
    } else if bound_name(imps[0]) == name && import_symbol(ix, tab, f, imps[0]) is Some {
        import_symbol(ix, tab, f, imps[0])
    } else {
        import_resolve(ix, tab, f, name, imps.drop_first())
    }
}

/// The imports of file `f`.
pub open spec fn imports_of(ix: WorkspaceIndex, f: FileId) -> Seq<ImportNode> {
    if ix.file_imports@.contains_key(f) {
        ix.file_imports@[f]@
    } else {
        Seq::empty()
    }
}

/// The symbol that `name`, used in file `f`, stands for: through the file's
/// imports first, else the file's own definition of that name.
pub open spec fn resolve_name(ix: WorkspaceIndex, tab: ImportTargets, f: FileId, name: Seq<char>) -> Option<SymbolId> {
    match import_resolve(ix, tab, f, name, imports_of(ix, f)) {
        Some(x) => Some(x),
        None => own_symbol(ix, f, name),
    }
}

/// The first of the symbols `ids` that is a stub for package `pkg`.
fn stub_in(ix: &WorkspaceIndex, ids: &Vec<SymbolId>, pkg: &str) -> (r: Option<SymbolId>)
    ensures
        r == stub_from(*ix, ids@, pkg@),
{
    let mut i: usize = 0;
    proof {
        assert(ids@.skip(0) =~= ids@);
    }
    while i < ids.len()
        invariant
            0 <= i <= ids@.len(),
            stub_from(*ix, ids@, pkg@) == stub_from(*ix, ids@.skip(i as int), pkg@),
        decreases ids@.len() - i,
    {
        proof {
            assert(ids@.skip(i as int).drop_first() =~= ids@.skip(i + 1));
        }
        match ix.symbols.get(&ids[i]) {
            Some(s) => {
                let hit = s.is_external && match &s.external_source {
                    Some(src) => str_eq(src.as_str(), pkg),
                    None => false,
                };
                if hit {
                    return Some(ids[i]);
                }
            },
            None => {},
        }
        i = i + 1;
    }
    None
}

/// The symbol an import of file `f` stands for.
fn import_symbol_exec(ix: &WorkspaceIndex, tab: &ImportTargets, f: FileId, imp: &ImportNode) -> (r: Option<SymbolId>)
    ensures
        r == import_symbol(*ix, *tab, f, *imp),
{
    match tab.get(f, imp.source.as_str()) {
        Some(tf) => {
            let mut vis: Vec<FileId> = Vec::new();
            proof {
                assert(vis@ =~= Seq::<FileId>::empty());
            }
            let found = barrel_exec(ix, tab, tf, imp.name.as_str(), &mut vis, Ghost(all_files()));
            if found.is_some() {
                return found;
            }
        },
        None => {},
    }
    match ix.symbol_map.get(imp.name.as_str()) {
        Some(ids) => stub_in(ix, ids, imp.source.as_str()),
        None => None,
    }
}

/// The symbol that `name`, used in file `f`, stands for.
pub(crate) fn resolve_name_exec(ix: &WorkspaceIndex, tab: &ImportTargets, f: FileId, name: &str) -> (r: Option<SymbolId>)
    ensures
        r == resolve_name(*ix, *tab, f, name@),
{
    let empty: Vec<ImportNode> = Vec::new();
    let imps = match ix.file_imports.get(&f) {
        Some(v) => v,
        None => &empty,
    };
    proof {
        assert(imps@ == imports_of(*ix, f));
        assert(imps@.skip(0) =~= imps@);
    }
    let mut i: usize = 0;
    while i < imps.len()
        invariant
            0 <= i <= imps@.len(),
            imps@ == imports_of(*ix, f),
            import_resolve(*ix, *tab, f, name@, imps@) == import_resolve(*ix, *tab, f, name@, imps@.skip(i as int)),
        decreases imps@.len() - i,
    {
        proof {
            assert(imps@.skip(i as int).drop_first() =~= imps@.skip(i + 1));
            assert(imps@.skip(i as int)[0] == imps@[i as int]);
        }
        let imp = &imps[i];
        let bound = match &imp.alias {
            Some(a) => a,
            None => &imp.name,
        };
        if str_eq(bound.as_str(), name) {
            let found = import_symbol_exec(ix, tab, f, imp);
            if found.is_some() {
                proof {
                    assert(bound_name(imps@[i as int]) == name@);
                    assert(imps@.skip(i as int).len() > 0);
                    assert(import_resolve(*ix, *tab, f, name@, imps@.skip(i as int)) == found);
                }
                return found;
            }
        }
        i = i + 1;
    }
    own_symbol_exec(ix, f, name)
}

/// The first own symbol found is a symbol of the index.
proof fn lemma_own_in(ix: WorkspaceIndex, f: FileId, ids: Seq<SymbolId>)
    ensures
        own_symbol_from(ix, f, ids) matches Some(x) ==> ix.symbols@.contains_key(x),
    decreases ids.len(),
{
    if ids.len() > 0 {
        lemma_own_in(ix, f, ids.drop_first());
    }
}

/// The first stub found is a symbol of the index.
proof fn lemma_stub_in(ix: WorkspaceIndex, ids: Seq<SymbolId>, pkg: Seq<char>)
    ensures
        stub_from(ix, ids, pkg) matches Some(x) ==> ix.symbols@.contains_key(x),
    decreases ids.len(),
{
    if ids.len() > 0 {
        lemma_stub_in(ix, ids.drop_first(), pkg);
    }
}

/// What the search through re-exports finds is a symbol of the index.
proof fn lemma_barrel_in(ix: WorkspaceIndex, tab: ImportTargets, f: FileId, name: Seq<char>, vis: Seq<FileId>, fuel: nat)
    ensures
        barrel(ix, tab, f, name, vis, fuel).0 matches Some(x) ==> ix.symbols@.contains_key(x),
    decreases fuel, 0nat, 0nat,
{
    if !vis.contains(f) && fuel > 0 {
        let v1 = vis.push(f);
        if ix.symbol_map@.contains_key(name) {
            lemma_own_in(ix, f, ix.symbol_map@[name]@);
        }
        if own_symbol(ix, f, name) is None {
            lemma_scan_in(ix, tab, f, name, 0, true, v1, (fuel - 1) as nat);
            let v2 = scan(ix, tab, f, name, 0, true, v1, (fuel - 1) as nat).1;
            lemma_scan_in(ix, tab, f, name, 0, false, v2, (fuel - 1) as nat);
        }
    }
}

/// What one pass of the search finds is a symbol of the index.
proof fn lemma_scan_in(
    ix: WorkspaceIndex,
    tab: ImportTargets,
    f: FileId,
    name: Seq<char>,
    k: nat,
    named: bool,
    vis: Seq<FileId>,
    fuel: nat,
)
    ensures
        scan(ix, tab, f, name, k, named, vis, fuel).0 matches Some(x) ==> ix.symbols@.contains_key(x),
    decreases fuel, 1nat, exports_of(ix, f).len() - k,
{
    let exps = exports_of(ix, f);
    if k < exps.len() {
        let e = exps[k as int];
        if export_matches(e, name, named) && tab.target(f, e.source@) is Some {
            lemma_barrel_in(ix, tab, tab.target(f, e.source@)->0, name, vis, fuel);
            let v = barrel(ix, tab, tab.target(f, e.source@)->0, name, vis, fuel).1;
            lemma_scan_in(ix, tab, f, name, k + 1, named, v, fuel);
        } else {
            lemma_scan_in(ix, tab, f, name, k + 1, named, vis, fuel);
        }
    }
}

/// What an import stands for, through the first import that stands for
/// something, is a symbol of the index.
proof fn lemma_import_resolve_in(ix: WorkspaceIndex, tab: ImportTargets, f: FileId, name: Seq<char>, imps: Seq<ImportNode>)
    ensures
        import_resolve(ix, tab, f, name, imps) matches Some(x) ==> ix.symbols@.contains_key(x),
    decreases imps.len(),
{
    if imps.len() > 0 {
        let imp = imps[0];
        match tab.target(f, imp.source@) {
            Some(tf) => lemma_barrel_in(ix, tab, tf, imp.name@, Seq::empty(), all_files()),
            None => {},
        }
        if ix.symbol_map@.contains_key(imp.name@) {
            lemma_stub_in(ix, ix.symbol_map@[imp.name@]@, imp.source@);
        }
        lemma_import_resolve_in(ix, tab, f, name, imps.drop_first());
    }
}

/// The symbol a name stands for is a symbol of the index.
pub proof fn lemma_resolve_in(ix: WorkspaceIndex, tab: ImportTargets, f: FileId, name: Seq<char>)
    ensures
        resolve_name(ix, tab, f, name) matches Some(x) ==> ix.symbols@.contains_key(x),
{
    lemma_import_resolve_in(ix, tab, f, name, imports_of(ix, f));
    if ix.symbol_map@.contains_key(name) {
        lemma_own_in(ix, f, ix.symbol_map@[name]@);
    }
}

} // verus!
