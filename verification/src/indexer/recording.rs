//! Recording an analysed file in the index.

use vstd::prelude::*;
use crate::text::str_eq;
use crate::analysis::{FunctionInfo, FileAnalysis};
use crate::analysis::constants::pairs_view;
use crate::analysis::enrichment::clone_strings;
use crate::schema::{SymbolNode, SymbolId, FileId, WorkspaceIndex};
use crate::analysis::language::SupportedLanguage;
use vstd::hash_set::StringHashSet;
use vstd::std_specs::iter::IteratorSpec;
use vstd::hash_map::StringHashMap;
use crate::models::strings_view;
use crate::indexer::paths::framework_route;
use crate::indexer::symbols::{are_file_symbols, kind_at, symbol_kind_exec, symbols_of_file, within};
use crate::indexer::consistency::{assoc_ids_view, cleared, distinct_keys, index_ok, symbols_in_file};

verus! {

// ---------------------------------------------------------------------------
// Recording an analysed file
// ---------------------------------------------------------------------------

/// The association list `v` with `id` added to the list of `name` (a new
/// entry at the end where there is none).
pub open spec fn defs_push(v: Seq<(Seq<char>, Seq<SymbolId>)>, name: Seq<char>, id: SymbolId) -> Seq<
    (Seq<char>, Seq<SymbolId>),
> {
    if exists|i: int| 0 <= i < v.len() && v[i].0 == name {
        let i = choose|i: int| 0 <= i < v.len() && v[i].0 == name;
        v.update(i, (name, v[i].1.push(id)))
    } else {
        v.push((name, seq![id]))
    }
}

/// The view of a route list.
pub open spec fn routes_view(v: Seq<(String, FileId)>) -> Seq<(Seq<char>, FileId)> {
    v.map_values(|e: (String, FileId)| (e.0@, e.1))
}

/// The route list `v` with `route` served by file `fid` (replacing the file
/// that served it, if any).
pub open spec fn route_set(v: Seq<(Seq<char>, FileId)>, route: Seq<char>, fid: FileId) -> Seq<
    (Seq<char>, FileId),
> {
    if exists|i: int| 0 <= i < v.len() && v[i].0 == route {
        let i = choose|i: int| 0 <= i < v.len() && v[i].0 == route;
        v.update(i, (route, fid))
    } else {
        v.push((route, fid))
    }
}

/// The identifiers, numbered from `first`, of the definitions among `fs`
/// named `n`, in order; none for an anonymous definition, which is not
/// listed under a name.
pub open spec fn new_ids_named(fs: Seq<FunctionInfo>, first: SymbolId, n: Seq<char>) -> Seq<SymbolId>
    decreases fs.len(),
{
    if fs.len() == 0 {
        Seq::empty()
    } else {
        let r = new_ids_named(fs.drop_last(), first, n);
        if fs.last().name@ == n && n != "anonymous"@ {
            r.push((first + fs.len() - 1) as SymbolId)
        } else {
            r
        }
    }
}

/// The names of the other definitions that lie within definition `c`.
pub open spec fn member_names(fs: Seq<FunctionInfo>, c: int) -> Set<Seq<char>> {
    Set::new(
        |nm: Seq<char>|
            exists|s: int| 0 <= s < fs.len() && s != c && within(fs, s, c) && (#[trigger] fs[s]).name@ == nm,
    )
}

/// The names of the definitions among the first `upto`, other than `c`,
/// that lie within definition `c`.
pub open spec fn member_names_upto(fs: Seq<FunctionInfo>, c: int, upto: int) -> Set<Seq<char>> {
    Set::new(
        |nm: Seq<char>|
            exists|s: int| 0 <= s < upto && s != c && within(fs, s, c) && (#[trigger] fs[s]).name@ == nm,
    )
}

/// The definition that an implementing type named `child` is: the first
/// definition of the file with that name (never an anonymous one).
#[verifier::opaque]
pub open spec fn impl_target(fs: Seq<FunctionInfo>, child: Seq<char>) -> Option<int> {
    if child != "anonymous"@ && exists|j: int| 0 <= j < fs.len() && fs[j].name@ == child {
        Some(
            choose|j: int|
                0 <= j < fs.len() && fs[j].name@ == child && forall|k: int|
                    0 <= k < j ==> fs[k].name@ != child,
        )
    } else {
        None
    }
}

/// The types that definition `j` implements, by the implementation pairs
/// `imps`, in order.
pub open spec fn impl_parents(fs: Seq<FunctionInfo>, imps: Seq<(Seq<char>, Seq<char>)>, j: int) -> Seq<
    Seq<char>,
>
    decreases imps.len(),
{
    if imps.len() == 0 {
        Seq::empty()
    } else {
        let r = impl_parents(fs, imps.drop_last(), j);
        if impl_target(fs, imps.last().0) == Some(j) {
            r.push(imps.last().1)
        } else {
            r
        }
    }
}

/// Adds `id` to the list of `name` in an association list with distinct keys.
pub(crate) fn push_def(v: &mut Vec<(String, Vec<SymbolId>)>, name: String, id: SymbolId)
    requires
        distinct_keys(old(v)@),
    ensures
        distinct_keys(final(v)@),
        assoc_ids_view(final(v)@) == defs_push(assoc_ids_view(old(v)@), name@, id),
{
    let ghost vv = assoc_ids_view(v@);
    let mut i: usize = 0;
    while i < v.len()
        invariant
            0 <= i <= v@.len(),
            v@ == old(v)@,
            distinct_keys(v@),
            vv == assoc_ids_view(v@),
            forall|k: int| 0 <= k < i ==> v@[k].0@ != name@,
        decreases v@.len() - i,
    {
        if str_eq(v[i].0.as_str(), name.as_str()) {
            let mut entry = v.remove(i);
            let ghost rest = v@;
            entry.1.push(id);
            v.insert(i, entry);
            proof {
                assert(vv[i as int].0 == name@);
                assert forall|k: int| 0 <= k < vv.len() && vv[k].0 == name@ implies k == i by {
                    if k > i {
                        assert(old(v)@[i as int].0@ != old(v)@[k].0@);
                    }
                }
                let c = choose|c: int| 0 <= c < vv.len() && vv[c].0 == name@;
                assert(c == i);
                assert(assoc_ids_view(v@) =~= vv.update(i as int, (name@, vv[i as int].1.push(id))));
                assert forall|a: int, b: int| 0 <= a < b < v@.len() implies (#[trigger] v@[a]).0@
                    != (#[trigger] v@[b]).0@ by {
                    assert(v@[a].0@ == old(v)@[a].0@);
                    assert(v@[b].0@ == old(v)@[b].0@);
                }
            }
            return;
        }
        i = i + 1;
    }
    let ghost before = v@;
    let mut ids: Vec<SymbolId> = Vec::new();
    ids.push(id);
    proof {
        assert(ids@ =~= seq![id]);
    }
    v.push((name, ids));
    proof {
        assert(!(exists|k: int| 0 <= k < vv.len() && vv[k].0 == name@));
        assert(assoc_ids_view(v@) =~= vv.push((name@, seq![id])));
        assert forall|a: int, b: int| 0 <= a < b < v@.len() implies (#[trigger] v@[a]).0@
            != (#[trigger] v@[b]).0@ by {
            if b < before.len() {
                assert(v@[a] == before[a]);
                assert(v@[b] == before[b]);
            }
        }
    }
}

/// Records that file `fid` serves `route`, in a route list with distinct
/// routes.
pub(crate) fn set_route(v: &mut Vec<(String, FileId)>, route: String, fid: FileId)
    requires
        distinct_keys(old(v)@),
    ensures
        distinct_keys(final(v)@),
        routes_view(final(v)@) == route_set(routes_view(old(v)@), route@, fid),
{
    let ghost vv = routes_view(v@);
    let mut i: usize = 0;
    while i < v.len()
        invariant
            0 <= i <= v@.len(),
            v@ == old(v)@,
            distinct_keys(v@),
            vv == routes_view(v@),
            forall|k: int| 0 <= k < i ==> v@[k].0@ != route@,
        decreases v@.len() - i,
    {
        if str_eq(v[i].0.as_str(), route.as_str()) {
            proof {
                assert(vv[i as int].0 == route@);
            }
            v.set(i, (route, fid));
            proof {
                assert forall|k: int| 0 <= k < vv.len() && vv[k].0 == route@ implies k == i by {
                    if k > i {
                        assert(old(v)@[i as int].0@ != old(v)@[k].0@);
                    }
                }
                let c = choose|c: int| 0 <= c < vv.len() && vv[c].0 == route@;
                assert(c == i);
                assert(routes_view(v@) =~= vv.update(i as int, (route@, fid)));
                assert forall|a: int, b: int| 0 <= a < b < v@.len() implies (#[trigger] v@[a]).0@
                    != (#[trigger] v@[b]).0@ by {
                    assert(v@[a].0@ == old(v)@[a].0@);
                    assert(v@[b].0@ == old(v)@[b].0@);
                }
            }
            return;
        }
        i = i + 1;
    }
    let ghost before = v@;
    v.push((route, fid));
    proof {
        assert(!(exists|k: int| 0 <= k < vv.len() && vv[k].0 == route@));
        assert(routes_view(v@) =~= vv.push((route@, fid)));
        assert forall|a: int, b: int| 0 <= a < b < v@.len() implies (#[trigger] v@[a]).0@
            != (#[trigger] v@[b]).0@ by {
            if b < before.len() {
                assert(v@[a] == before[a]);
                assert(v@[b] == before[b]);
            }
        }
    }
}

/// The names of the other definitions that lie within definition `c`.
pub(crate) fn members_exec(fs: &Vec<FunctionInfo>, c: usize) -> (r: StringHashSet)
    requires
        c < fs@.len(),
    ensures
        r@ == member_names(fs@, c as int),
{
    let mut out = StringHashSet::new();
    let mut s: usize = 0;
    proof {
        assert(out@ =~= member_names_upto(fs@, c as int, 0));
    }
    while s < fs.len()
        invariant
            c < fs@.len(),
            0 <= s <= fs@.len(),
            out@ == member_names_upto(fs@, c as int, s as int),
        decreases fs@.len() - s,
    {
        let ghost before = out@;
        if s != c && fs[s].range_start >= fs[c].range_start && fs[s].range_end <= fs[c].range_end {
            out.insert(fs[s].name.clone());
            proof {
                assert forall|nm: Seq<char>| out@.contains(nm) <==> member_names_upto(
                    fs@,
                    c as int,
                    s + 1,
                ).contains(nm) by {
                    if nm == fs@[s as int].name@ {
                        assert(0 <= s < s + 1 && s != c && within(fs@, s as int, c as int)
                            && fs@[s as int].name@ == nm);
                    }
                    if member_names_upto(fs@, c as int, s + 1).contains(nm) {
                        let t = choose|t: int|
                            0 <= t < s + 1 && t != c && within(fs@, t, c as int) && (#[trigger] fs@[t]).name@
                                == nm;
                        if t < s {
                            assert(member_names_upto(fs@, c as int, s as int).contains(nm));
                        }
                    }
                    if before.contains(nm) {
                        let t = choose|t: int|
                            0 <= t < s && t != c && within(fs@, t, c as int) && (#[trigger] fs@[t]).name@
                                == nm;
                        assert(0 <= t < s + 1);
                    }
                }
                assert(out@ =~= member_names_upto(fs@, c as int, s + 1));
            }
        } else {
            proof {
                assert forall|nm: Seq<char>| member_names_upto(fs@, c as int, s + 1).contains(nm)
                    implies before.contains(nm) by {
                    let t = choose|t: int|
                        0 <= t < s + 1 && t != c && within(fs@, t, c as int) && (#[trigger] fs@[t]).name@
                            == nm;
                    assert(t < s);
                }
                assert forall|nm: Seq<char>| before.contains(nm) implies member_names_upto(
                    fs@,
                    c as int,
                    s + 1,
                ).contains(nm) by {
                    let t = choose|t: int|
                        0 <= t < s && t != c && within(fs@, t, c as int) && (#[trigger] fs@[t]).name@
                            == nm;
                    assert(0 <= t < s + 1);
                }
                assert(out@ =~= member_names_upto(fs@, c as int, s + 1));
            }
        }
        s = s + 1;
    }
    proof {
        assert(out@ =~= member_names(fs@, c as int));
    }
    out
}

/// `a` and `b` record the same files.
pub open spec fn same_file_tables(a: WorkspaceIndex, b: WorkspaceIndex) -> bool {
    &&& b.next_file_id == a.next_file_id
    &&& b.files@ == a.files@
    &&& b.file_paths@ == a.file_paths@
    &&& b.file_imports@ == a.file_imports@
    &&& b.file_exports@ == a.file_exports@
    &&& b.raw_literals@ == a.raw_literals@
    &&& b.implicit_routes@ == a.implicit_routes@
}

/// `a` and `b` have the same resolved relations.
pub open spec fn same_relations(a: WorkspaceIndex, b: WorkspaceIndex) -> bool {
    &&& b.resolved_calls@ == a.resolved_calls@
    &&& b.resolved_type_refs@ == a.resolved_type_refs@
    &&& b.inheritance@ == a.inheritance@
    &&& b.file_dependencies@ == a.file_dependencies@
}

/// `base` with, for each of the `n` definitions numbered from `first` for
/// which `has` holds, the value `val` gives.
pub open spec fn table_of<V>(
    base: Map<SymbolId, V>,
    first: SymbolId,
    n: int,
    has: spec_fn(int) -> bool,
    val: spec_fn(int) -> V,
) -> Map<SymbolId, V> {
    base.union_prefer_right(
        Map::new(|k: SymbolId| first <= k < first + n && has(k - first), |k: SymbolId| val(k - first)),
    )
}

/// One more definition in [`table_of`].
pub(crate) proof fn lemma_table_step<V>(
    base: Map<SymbolId, V>,
    first: SymbolId,
    j: int,
    has: spec_fn(int) -> bool,
    val: spec_fn(int) -> V,
)
    requires
        0 <= j,
        first + j + 1 <= u32::MAX,
    ensures
        table_of(base, first, j + 1, has, val) == if has(j) {
            table_of(base, first, j, has, val).insert((first + j) as SymbolId, val(j))
        } else {
            table_of(base, first, j, has, val)
        },
{
    let sid = (first + j) as SymbolId;
    assert(sid - first == j);
    if has(j) {
        assert(table_of(base, first, j + 1, has, val) =~= table_of(base, first, j, has, val).insert(sid, val(j)));
    } else {
        assert(table_of(base, first, j + 1, has, val) =~= table_of(base, first, j, has, val));
    }
}

/// No definition in [`table_of`].
pub(crate) proof fn lemma_table_none<V>(base: Map<SymbolId, V>, first: SymbolId, has: spec_fn(int) -> bool, val: spec_fn(int) -> V)
    ensures
        table_of(base, first, 0, has, val) == base,
{
    assert(table_of(base, first, 0, has, val) =~= base);
}

pub open spec fn has_config_keys(fs: Seq<FunctionInfo>) -> spec_fn(int) -> bool {
    |i: int| fs[i].config_keys@.len() > 0
}

pub open spec fn config_keys_of(fs: Seq<FunctionInfo>) -> spec_fn(int) -> Vec<String> {
    |i: int| fs[i].config_keys
}

pub open spec fn has_calls(fs: Seq<FunctionInfo>) -> spec_fn(int) -> bool {
    |i: int| fs[i].calls@.len() > 0
}

pub open spec fn calls_of(fs: Seq<FunctionInfo>) -> spec_fn(int) -> Vec<String> {
    |i: int| fs[i].calls
}

pub open spec fn has_fingerprints(fs: Seq<FunctionInfo>) -> spec_fn(int) -> bool {
    |i: int| fs[i].fingerprints@.len() > 0
}

pub open spec fn fingerprints_of(fs: Seq<FunctionInfo>) -> spec_fn(int) -> Vec<(String, Vec<String>)> {
    |i: int| fs[i].fingerprints
}

pub open spec fn has_local_types(fs: Seq<FunctionInfo>) -> spec_fn(int) -> bool {
    |i: int| !fs[i].local_types@.is_empty()
}

pub open spec fn local_types_of(fs: Seq<FunctionInfo>) -> spec_fn(int) -> StringHashMap<String> {
    |i: int| fs[i].local_types
}

pub open spec fn has_type_refs(fs: Seq<FunctionInfo>) -> spec_fn(int) -> bool {
    |i: int| fs[i].type_refs@.len() > 0
}

pub open spec fn type_refs_of(fs: Seq<FunctionInfo>) -> spec_fn(int) -> Vec<String> {
    |i: int| fs[i].type_refs
}

pub open spec fn has_decorators(fs: Seq<FunctionInfo>) -> spec_fn(int) -> bool {
    |i: int| fs[i].decorators@.len() > 0
}

pub open spec fn decorators_of(fs: Seq<FunctionInfo>) -> spec_fn(int) -> Vec<String> {
    |i: int| fs[i].decorators
}

/// The per-symbol tables of `b` that the first `n` of the definitions `fs`
/// (numbered from `first`) fill, over those of `a`: each definition's
/// configuration keys, calls, receivers, local types, type references and
/// decorators, where it has any.
pub open spec fn tables_upto(a: WorkspaceIndex, b: WorkspaceIndex, fs: Seq<FunctionInfo>, first: SymbolId, n: int) -> bool {
    &&& b.symbol_config_refs@ == table_of(a.symbol_config_refs@, first, n, has_config_keys(fs), config_keys_of(fs))
    &&& b.raw_calls@ == table_of(a.raw_calls@, first, n, has_calls(fs), calls_of(fs))
    &&& b.fingerprints@ == table_of(a.fingerprints@, first, n, has_fingerprints(fs), fingerprints_of(fs))
    &&& b.local_variable_types@ == table_of(a.local_variable_types@, first, n, has_local_types(fs), local_types_of(fs))
    &&& b.raw_type_refs@ == table_of(a.raw_type_refs@, first, n, has_type_refs(fs), type_refs_of(fs))
    &&& b.raw_decorators@ == table_of(a.raw_decorators@, first, n, has_decorators(fs), decorators_of(fs))
}

/// The per-symbol tables of `b` that the definitions `fs` fill.
pub open spec fn function_tables(a: WorkspaceIndex, b: WorkspaceIndex, fs: Seq<FunctionInfo>, first: SymbolId) -> bool {
    tables_upto(a, b, fs, first, fs.len() as int)
}

/// A container or module scope that holds other definitions.
pub open spec fn holds_members(fs: Seq<FunctionInfo>, c: int) -> bool {
    (kind_at(fs, c) == "container"@ || kind_at(fs, c) == "module"@) && !member_names(fs, c).is_empty()
}

/// The container tables of `b`: those of `a` and, for each container or
/// module scope among `fs` (numbered from `first`) that holds other
/// definitions, their names.
pub open spec fn container_table(a: WorkspaceIndex, b: WorkspaceIndex, fs: Seq<FunctionInfo>, first: SymbolId) -> bool {
    &&& forall|k: SymbolId| #[trigger]
        b.container_methods@.contains_key(k) <==> a.container_methods@.contains_key(k) || (first <= k
            < first + fs.len() && holds_members(fs, k - first))
    &&& forall|k: SymbolId|
        first <= k < first + fs.len() && holds_members(fs, k - first) ==> (
        #[trigger] b.container_methods@[k])@ == member_names(fs, k - first)
    &&& forall|k: SymbolId|
        !(first <= k < first + fs.len() && holds_members(fs, k - first)) && #[trigger] a.container_methods@.contains_key(k)
            ==> b.container_methods@[k] == a.container_methods@[k]
}

/// Records, for each container or module scope among `functions` that holds
/// other definitions, the names of those definitions.
pub(crate) fn store_container_methods(ix: &mut WorkspaceIndex, functions: &Vec<FunctionInfo>, first: SymbolId)
    requires
        first + functions@.len() <= u32::MAX,
    ensures
        container_table(*old(ix), *final(ix), functions@, first),
        same_file_tables(*old(ix), *final(ix)),
        same_relations(*old(ix), *final(ix)),
        final(ix).symbols@ == old(ix).symbols@,
        final(ix).symbol_map@ == old(ix).symbol_map@,
        final(ix).next_symbol_id == old(ix).next_symbol_id,
        final(ix).raw_calls@ == old(ix).raw_calls@,
        final(ix).raw_type_refs@ == old(ix).raw_type_refs@,
        final(ix).raw_decorators@ == old(ix).raw_decorators@,
        final(ix).symbol_config_refs@ == old(ix).symbol_config_refs@,
        final(ix).raw_implementations@ == old(ix).raw_implementations@,
        final(ix).fingerprints@ == old(ix).fingerprints@,
        final(ix).local_variable_types@ == old(ix).local_variable_types@,
        final(ix).config_definitions@ == old(ix).config_definitions@,
{
    let ghost fs = functions@;
    let n = functions.len();
    let mut c: usize = 0;
    while c < n
        invariant
            n == fs.len(),
            fs == functions@,
            first + n <= u32::MAX,
            0 <= c <= n,
            forall|k: SymbolId| #[trigger]
                ix.container_methods@.contains_key(k) <==> old(ix).container_methods@.contains_key(k) || (
                first <= k < first + c && holds_members(fs, k - first)),
            forall|k: SymbolId|
                first <= k < first + c && holds_members(fs, k - first) ==> (
                #[trigger] ix.container_methods@[k])@ == member_names(fs, k - first),
            forall|k: SymbolId|
                !(first <= k < first + c && holds_members(fs, k - first))
                    && #[trigger] old(ix).container_methods@.contains_key(k) ==> ix.container_methods@[k]
                    == old(ix).container_methods@[k],
            same_file_tables(*old(ix), *ix),
            same_relations(*old(ix), *ix),
            ix.symbols@ == old(ix).symbols@,
            ix.symbol_map@ == old(ix).symbol_map@,
            ix.next_symbol_id == old(ix).next_symbol_id,
            ix.raw_calls@ == old(ix).raw_calls@,
            ix.raw_type_refs@ == old(ix).raw_type_refs@,
            ix.raw_decorators@ == old(ix).raw_decorators@,
            ix.symbol_config_refs@ == old(ix).symbol_config_refs@,
            ix.raw_implementations@ == old(ix).raw_implementations@,
            ix.fingerprints@ == old(ix).fingerprints@,
            ix.local_variable_types@ == old(ix).local_variable_types@,
            ix.config_definitions@ == old(ix).config_definitions@,
        decreases n - c,
    {
        let kind = symbol_kind_exec(functions[c].name.as_str(), functions[c].source_code.as_str());
        let sid = first + c as u32;
        if str_eq(kind.as_str(), "container") || str_eq(kind.as_str(), "module") {
            let members = members_exec(functions, c);
            if !members.is_empty() {
                ix.container_methods.insert(sid, members);
            }
        }
        proof {
            assert(kind@ == kind_at(fs, c as int));
            assert(sid - first == c);
            assert forall|k: SymbolId| first <= k < first + c + 1 && #[trigger] holds_members(fs, k - first) && k
                != sid implies first <= k < first + c by {}
        }
        c = c + 1;
    }
}

/// The name lists of `b`: those of `a` with the definitions among `fs`,
/// numbered from `first`, added under their names.
pub open spec fn name_lists(a: WorkspaceIndex, b: WorkspaceIndex, fs: Seq<FunctionInfo>, first: SymbolId) -> bool {
    &&& forall|nm: Seq<char>| #[trigger]
        b.symbol_map@.contains_key(nm) <==> a.symbol_map@.contains_key(nm) || new_ids_named(fs, first, nm).len()
            > 0
    &&& forall|nm: Seq<char>| #[trigger]
        b.symbol_map@.contains_key(nm) ==> b.symbol_map@[nm]@ == (if a.symbol_map@.contains_key(nm) {
            a.symbol_map@[nm]@
        } else {
            Seq::empty()
        }) + new_ids_named(fs, first, nm)
}

/// The configuration definitions after the definitions among `fs`,
/// numbered from `first`, are listed under their names.
pub open spec fn defs_fold(v: Seq<(Seq<char>, Seq<SymbolId>)>, fs: Seq<FunctionInfo>, first: SymbolId) -> Seq<
    (Seq<char>, Seq<SymbolId>),
>
    decreases fs.len(),
{
    if fs.len() == 0 {
        v
    } else {
        defs_push(defs_fold(v, fs.drop_last(), first), fs.last().name@, (first + fs.len() - 1) as SymbolId)
    }
}

/// A file of configuration data (YAML, JSON, TOML, dotenv), whose keys
/// other code reads.
pub open spec fn is_data_language(lang: SupportedLanguage) -> bool {
    lang == SupportedLanguage::Yaml || lang == SupportedLanguage::Json || lang == SupportedLanguage::Toml
        || lang == SupportedLanguage::Dotenv
}

pub(crate) proof fn lemma_new_ids_step(fs: Seq<FunctionInfo>, first: SymbolId, j: int, nm: Seq<char>)
    requires
        0 <= j < fs.len(),
        first + fs.len() <= u32::MAX,
    ensures
        new_ids_named(fs.take(j + 1), first, nm) == if fs[j].name@ == nm && nm != "anonymous"@ {
            new_ids_named(fs.take(j), first, nm).push((first + j) as SymbolId)
        } else {
            new_ids_named(fs.take(j), first, nm)
        },
{
    assert(fs.take(j + 1).drop_last() =~= fs.take(j));
    assert(fs.take(j + 1).last() == fs[j]);
}

/// Adds the symbols `nodes` (made of `functions`, numbered from `first`) to
/// the index, lists each named one under its name, and in a data file lists
/// each under its name as a configuration definition.
pub(crate) fn store_symbols(
    ix: &mut WorkspaceIndex,
    nodes: Vec<SymbolNode>,
    functions: &Vec<FunctionInfo>,
    first: SymbolId,
    is_data: bool,
)
    requires
        first + functions@.len() <= u32::MAX,
        nodes@.len() == functions@.len(),
        forall|j: int| 0 <= j < nodes@.len() ==> (#[trigger] nodes@[j]).name@ == functions@[j].name@,
        distinct_keys(old(ix).config_definitions@),
    ensures
        forall|k: SymbolId| #[trigger]
            final(ix).symbols@.contains_key(k) <==> old(ix).symbols@.contains_key(k) || (first <= k < first
                + nodes@.len()),
        forall|j: int| 0 <= j < nodes@.len() ==> final(ix).symbols@[(first + j) as SymbolId] == #[trigger] nodes@[j],
        forall|k: SymbolId|
            !(first <= k < first + nodes@.len()) && #[trigger] old(ix).symbols@.contains_key(k) ==> final(ix).symbols@[k]
                == old(ix).symbols@[k],
        name_lists(*old(ix), *final(ix), functions@, first),
        assoc_ids_view(final(ix).config_definitions@) == if is_data {
            defs_fold(assoc_ids_view(old(ix).config_definitions@), functions@, first)
        } else {
            assoc_ids_view(old(ix).config_definitions@)
        },
        distinct_keys(final(ix).config_definitions@),
        same_file_tables(*old(ix), *final(ix)),
        same_relations(*old(ix), *final(ix)),
        final(ix).next_symbol_id == old(ix).next_symbol_id,
        final(ix).raw_calls@ == old(ix).raw_calls@,
        final(ix).raw_type_refs@ == old(ix).raw_type_refs@,
        final(ix).raw_decorators@ == old(ix).raw_decorators@,
        final(ix).symbol_config_refs@ == old(ix).symbol_config_refs@,
        final(ix).raw_implementations@ == old(ix).raw_implementations@,
        final(ix).fingerprints@ == old(ix).fingerprints@,
        final(ix).local_variable_types@ == old(ix).local_variable_types@,
        final(ix).container_methods@ == old(ix).container_methods@,
{
    let ghost fs = functions@;
    let ghost ns = nodes@;
    let ghost defs0 = assoc_ids_view(ix.config_definitions@);
    let ghost sm0 = ix.symbol_map@;
    let ghost sy0 = ix.symbols@;
    proof {
        assert(fs.take(0) =~= Seq::<FunctionInfo>::empty());
        assert forall|nm: Seq<char>| new_ids_named(fs.take(0), first, nm) == Seq::<SymbolId>::empty() by {}
    }
    let mut idx: usize = 0;
    for node in it: nodes.into_iter()
        invariant
            it.seq() == ns,
            idx == it.index(),
            fs == functions@,
            ns.len() == fs.len(),
            first + fs.len() <= u32::MAX,
            forall|j: int| 0 <= j < ns.len() ==> (#[trigger] ns[j]).name@ == fs[j].name@,
            forall|k: SymbolId| #[trigger]
                ix.symbols@.contains_key(k) <==> sy0.contains_key(k) || (first <= k < first + it.index()),
            forall|j: int| 0 <= j < it.index() ==> ix.symbols@[(first + j) as SymbolId] == #[trigger] ns[j],
            forall|k: SymbolId|
                !(first <= k < first + it.index()) && #[trigger] sy0.contains_key(k) ==> ix.symbols@[k]
                    == sy0[k],
            forall|nm: Seq<char>| #[trigger]
                ix.symbol_map@.contains_key(nm) <==> sm0.contains_key(nm) || new_ids_named(
                    fs.take(it.index() as int),
                    first,
                    nm,
                ).len() > 0,
            forall|nm: Seq<char>| #[trigger]
                ix.symbol_map@.contains_key(nm) ==> ix.symbol_map@[nm]@ == (if sm0.contains_key(nm) {
                    sm0[nm]@
                } else {
                    Seq::empty()
                }) + new_ids_named(fs.take(it.index() as int), first, nm),
            assoc_ids_view(ix.config_definitions@) == if is_data {
                defs_fold(defs0, fs.take(it.index() as int), first)
            } else {
                defs0
            },
            distinct_keys(ix.config_definitions@),
            sm0 == old(ix).symbol_map@,
            sy0 == old(ix).symbols@,
            defs0 == assoc_ids_view(old(ix).config_definitions@),
            same_file_tables(*old(ix), *ix),
            same_relations(*old(ix), *ix),
            ix.next_symbol_id == old(ix).next_symbol_id,
            ix.raw_calls@ == old(ix).raw_calls@,
            ix.raw_type_refs@ == old(ix).raw_type_refs@,
            ix.raw_decorators@ == old(ix).raw_decorators@,
            ix.symbol_config_refs@ == old(ix).symbol_config_refs@,
            ix.raw_implementations@ == old(ix).raw_implementations@,
            ix.fingerprints@ == old(ix).fingerprints@,
            ix.local_variable_types@ == old(ix).local_variable_types@,
            ix.container_methods@ == old(ix).container_methods@,
    {
        let ghost j = it.index() as int;
        proof {
            assert(node == ns[j]);
            assert(fs.take(j + 1).drop_last() =~= fs.take(j));
            assert(fs.take(j + 1).last() == fs[j]);
            assert forall|nm: Seq<char>| #[trigger] new_ids_named(fs.take(j + 1), first, nm) == if fs[j].name@
                == nm && nm != "anonymous"@ {
                new_ids_named(fs.take(j), first, nm).push((first + j) as SymbolId)
            } else {
                new_ids_named(fs.take(j), first, nm)
            } by {
                lemma_new_ids_step(fs, first, j, nm);
            }
        }
        let sid = first + idx as u32;
        if !str_eq(node.name.as_str(), "anonymous") {
            let mut ids: Vec<SymbolId> = match ix.symbol_map.get(node.name.as_str()) {
                Some(v) => v.clone(),
                None => Vec::new(),
            };
            ids.push(sid);
            ix.symbol_map.insert(node.name.clone(), ids);
        }
        if is_data {
            push_def(&mut ix.config_definitions, node.name.clone(), sid);
            proof {
                assert(fs.take(j + 1).len() == j + 1);
                assert(defs_fold(defs0, fs.take(j + 1), first) == defs_push(
                    defs_fold(defs0, fs.take(j), first),
                    fs[j].name@,
                    sid,
                ));
            }
        }
        ix.symbols.insert(sid, node);
        idx = idx + 1;
    }
    proof {
        assert(fs.take(fs.len() as int) =~= fs);
    }
}

/// Records what each of `functions` (numbered from `first`) calls, mentions,
/// is decorated with and reads, and its receivers and local types.
pub(crate) fn store_function_tables(ix: &mut WorkspaceIndex, functions: Vec<FunctionInfo>, first: SymbolId)
    requires
        first + functions@.len() <= u32::MAX,
    ensures
        function_tables(*old(ix), *final(ix), functions@, first),
        same_file_tables(*old(ix), *final(ix)),
        same_relations(*old(ix), *final(ix)),
        final(ix).symbols@ == old(ix).symbols@,
        final(ix).symbol_map@ == old(ix).symbol_map@,
        final(ix).next_symbol_id == old(ix).next_symbol_id,
        final(ix).raw_implementations@ == old(ix).raw_implementations@,
        final(ix).container_methods@ == old(ix).container_methods@,
        final(ix).config_definitions@ == old(ix).config_definitions@,
{
    let ghost fs = functions@;
    let mut idx: usize = 0;
    proof {
        lemma_table_none(old(ix).symbol_config_refs@, first, has_config_keys(fs), config_keys_of(fs));
        lemma_table_none(old(ix).raw_calls@, first, has_calls(fs), calls_of(fs));
        lemma_table_none(old(ix).fingerprints@, first, has_fingerprints(fs), fingerprints_of(fs));
        lemma_table_none(old(ix).local_variable_types@, first, has_local_types(fs), local_types_of(fs));
        lemma_table_none(old(ix).raw_type_refs@, first, has_type_refs(fs), type_refs_of(fs));
        lemma_table_none(old(ix).raw_decorators@, first, has_decorators(fs), decorators_of(fs));
    }
    for f in it: functions.into_iter()
        invariant
            it.seq() == fs,
            idx == it.index(),
            first + fs.len() <= u32::MAX,
            tables_upto(*old(ix), *ix, fs, first, it.index() as int),
            same_file_tables(*old(ix), *ix),
            same_relations(*old(ix), *ix),
            ix.symbols@ == old(ix).symbols@,
            ix.symbol_map@ == old(ix).symbol_map@,
            ix.next_symbol_id == old(ix).next_symbol_id,
            ix.raw_implementations@ == old(ix).raw_implementations@,
            ix.container_methods@ == old(ix).container_methods@,
            ix.config_definitions@ == old(ix).config_definitions@,
    {
        let ghost j = it.index() as int;
        proof {
            assert(f == fs[j]);
            lemma_table_step(old(ix).symbol_config_refs@, first, j, has_config_keys(fs), config_keys_of(fs));
            lemma_table_step(old(ix).raw_calls@, first, j, has_calls(fs), calls_of(fs));
            lemma_table_step(old(ix).fingerprints@, first, j, has_fingerprints(fs), fingerprints_of(fs));
            lemma_table_step(old(ix).local_variable_types@, first, j, has_local_types(fs), local_types_of(fs));
            lemma_table_step(old(ix).raw_type_refs@, first, j, has_type_refs(fs), type_refs_of(fs));
            lemma_table_step(old(ix).raw_decorators@, first, j, has_decorators(fs), decorators_of(fs));
        }
        let sid = first + idx as u32;
        let FunctionInfo { config_keys, calls, fingerprints, local_types, type_refs, decorators, .. } = f;
        if config_keys.len() > 0 {
            ix.symbol_config_refs.insert(sid, config_keys);
        }
        if calls.len() > 0 {
            ix.raw_calls.insert(sid, calls);
        }
        if fingerprints.len() > 0 {
            ix.fingerprints.insert(sid, fingerprints);
        }
        if !local_types.is_empty() {
            ix.local_variable_types.insert(sid, local_types);
        }
        if type_refs.len() > 0 {
            ix.raw_type_refs.insert(sid, type_refs);
        }
        if decorators.len() > 0 {
            ix.raw_decorators.insert(sid, decorators);
        }
        idx = idx + 1;
    }
}

/// What [`new_ids_named`] lists: identifiers of definitions with the name,
/// in increasing order, the first being that of the first such definition.
pub(crate) proof fn lemma_new_ids(fs: Seq<FunctionInfo>, first: SymbolId, nm: Seq<char>)
    requires
        first + fs.len() <= u32::MAX,
    ensures
        forall|i: int|
            0 <= i < new_ids_named(fs, first, nm).len() ==> exists|j: int|
                0 <= j < fs.len() && fs[j].name@ == nm && #[trigger] new_ids_named(fs, first, nm)[i] == first + j,
        nm != "anonymous"@ && (exists|j: int| 0 <= j < fs.len() && fs[j].name@ == nm) ==> new_ids_named(
            fs,
            first,
            nm,
        ).len() > 0 && exists|j: int|
            0 <= j < fs.len() && fs[j].name@ == nm && (forall|k: int| 0 <= k < j ==> fs[k].name@ != nm)
                && new_ids_named(fs, first, nm)[0] == first + j,
        nm == "anonymous"@ ==> new_ids_named(fs, first, nm).len() == 0,
    decreases fs.len(),
{
    if fs.len() > 0 {
        let d = fs.drop_last();
        lemma_new_ids(d, first, nm);
        let r = new_ids_named(d, first, nm);
        assert forall|i: int| 0 <= i < new_ids_named(fs, first, nm).len() implies exists|j: int|
            0 <= j < fs.len() && fs[j].name@ == nm && #[trigger] new_ids_named(fs, first, nm)[i] == first + j by {
            if i < r.len() {
                let j = choose|j: int| 0 <= j < d.len() && d[j].name@ == nm && r[i] == first + j;
                assert(fs[j] == d[j]);
            } else {
                assert(fs[fs.len() - 1].name@ == nm);
            }
        }
        if nm != "anonymous"@ && (exists|j: int| 0 <= j < fs.len() && fs[j].name@ == nm) {
            if exists|j: int| 0 <= j < d.len() && d[j].name@ == nm {
                let j = choose|j: int|
                    0 <= j < d.len() && d[j].name@ == nm && (forall|k: int| 0 <= k < j ==> d[k].name@ != nm)
                        && r[0] == first + j;
                assert forall|k: int| 0 <= k < j implies fs[k].name@ != nm by {
                    assert(fs[k] == d[k]);
                }
                assert(fs[j] == d[j]);
            } else {
                let j = choose|j: int| 0 <= j < fs.len() && fs[j].name@ == nm;
                if j < d.len() {
                    assert(d[j] == fs[j]);
                }
                assert(j == fs.len() - 1);
                assert(r.len() == 0);
                assert forall|k: int| 0 <= k < j implies fs[k].name@ != nm by {
                    assert(fs[k] == d[k]);
                }
            }
        }
    }
}

/// The implementations table `b`: `a` with, for each definition among `fs`
/// (numbered from `first`) that implements types by the pairs `imps`, those
/// types added.
#[verifier::opaque]
pub open spec fn impl_table(
    a: Map<SymbolId, Vec<String>>,
    b: Map<SymbolId, Vec<String>>,
    fs: Seq<FunctionInfo>,
    imps: Seq<(Seq<char>, Seq<char>)>,
    first: SymbolId,
) -> bool {
    &&& forall|k: SymbolId| #[trigger]
        b.contains_key(k) <==> a.contains_key(k) || (first <= k < first + fs.len() && impl_parents(
            fs,
            imps,
            k - first,
        ).len() > 0)
    &&& forall|k: SymbolId|
        first <= k < first + fs.len() && impl_parents(fs, imps, k - first).len() > 0 ==> strings_view(
            (#[trigger] b[k])@,
        ) == (if a.contains_key(k) {
            strings_view(a[k]@)
        } else {
            Seq::empty()
        }) + impl_parents(fs, imps, k - first)
    &&& forall|k: SymbolId|
        !(first <= k < first + fs.len() && impl_parents(fs, imps, k - first).len() > 0)
            && #[trigger] a.contains_key(k) ==> b[k] == a[k]
}

/// The implementations table of `b`: that of `a` with the types each
/// definition among `fs` implements by the pairs `imps` added.
pub open spec fn implementation_table(
    a: WorkspaceIndex,
    b: WorkspaceIndex,
    fs: Seq<FunctionInfo>,
    imps: Seq<(Seq<char>, Seq<char>)>,
    first: SymbolId,
) -> bool {
    impl_table(a.raw_implementations@, b.raw_implementations@, fs, imps, first)
}

pub(crate) proof fn lemma_impl_table_none(a: Map<SymbolId, Vec<String>>, fs: Seq<FunctionInfo>, imps: Seq<(Seq<char>, Seq<char>)>, first: SymbolId)
    requires
        imps.len() == 0,
    ensures
        impl_table(a, a, fs, imps, first),
{
    reveal(impl_table);
}

/// One more implementation pair in [`impl_parents`].
pub(crate) proof fn lemma_impl_parents_step(fs: Seq<FunctionInfo>, imps: Seq<(Seq<char>, Seq<char>)>, i: int, j: int)
    requires
        0 <= i < imps.len(),
    ensures
        impl_parents(fs, imps.take(i + 1), j) == if impl_target(fs, imps[i].0) == Some(j) {
            impl_parents(fs, imps.take(i), j).push(imps[i].1)
        } else {
            impl_parents(fs, imps.take(i), j)
        },
{
    assert(imps.take(i + 1).drop_last() =~= imps.take(i));
    assert(imps.take(i + 1).last() == imps[i]);
}

/// One more implementation pair in [`impl_table`].
#[verifier::rlimit(30)]
pub(crate) proof fn lemma_impl_table_step(
    a: Map<SymbolId, Vec<String>>,
    pre: Map<SymbolId, Vec<String>>,
    post: Map<SymbolId, Vec<String>>,
    fs: Seq<FunctionInfo>,
    imps: Seq<(Seq<char>, Seq<char>)>,
    i: int,
    first: SymbolId,
    cur: Vec<String>,
)
    requires
        0 <= i < imps.len(),
        first + fs.len() <= u32::MAX,
        impl_table(a, pre, fs, imps.take(i), first),
        match impl_target(fs, imps[i].0) {
            Some(j) => {
                let cid = (first + j) as SymbolId;
                &&& 0 <= j < fs.len()
                &&& strings_view(cur@) == (if pre.contains_key(cid) {
                    strings_view(pre[cid]@)
                } else {
                    Seq::empty()
                }).push(imps[i].1)
                &&& post == pre.insert(cid, cur)
            },
            None => post == pre,
        },
    ensures
        impl_table(a, post, fs, imps.take(i + 1), first),
{
    reveal(impl_table);
    let t0 = imps.take(i);
    let t1 = imps.take(i + 1);
    let n = fs.len();
    assert forall|k: SymbolId| #[trigger]
        post.contains_key(k) <==> a.contains_key(k) || (first <= k < first + n && impl_parents(
            fs,
            t1,
            k - first,
        ).len() > 0) by {
        lemma_impl_parents_step(fs, imps, i, k - first);
        if impl_target(fs, imps[i].0) == Some(k - first) {
            assert(k == (first + (k - first)) as SymbolId);
        }
    }
    assert forall|k: SymbolId|
        first <= k < first + n && impl_parents(fs, t1, k - first).len() > 0 implies strings_view(
        (#[trigger] post[k])@,
    ) == (if a.contains_key(k) {
        strings_view(a[k]@)
    } else {
        Seq::empty()
    }) + impl_parents(fs, t1, k - first) by {
        lemma_impl_parents_step(fs, imps, i, k - first);
        if impl_target(fs, imps[i].0) == Some(k - first) {
            assert(k == (first + (k - first)) as SymbolId);
            if impl_parents(fs, t0, k - first).len() > 0 {
                assert(pre.contains_key(k));
            } else {
                assert(impl_parents(fs, t0, k - first) =~= Seq::<Seq<char>>::empty());
                if a.contains_key(k) {
                    assert(pre[k] == a[k]);
                } else {
                    assert(!pre.contains_key(k));
                }
            }
        } else {
            if let Some(j) = impl_target(fs, imps[i].0) {
                assert(k != (first + j) as SymbolId);
            }
        }
    }
    assert forall|k: SymbolId|
        !(first <= k < first + n && impl_parents(fs, t1, k - first).len() > 0)
            && #[trigger] a.contains_key(k) implies post[k] == a[k] by {
        lemma_impl_parents_step(fs, imps, i, k - first);
        if let Some(j) = impl_target(fs, imps[i].0) {
            if k == (first + j) as SymbolId {
                assert(k - first == j);
                assert(impl_parents(fs, t1, k - first).len() > 0);
            }
        }
    }
}

/// The symbols listed under each name are symbols of that name; those of
/// file `fid` are exactly the definitions `fs` numbered from `first`, each
/// listed after all others of its name.
#[verifier::opaque]
pub open spec fn lists_new_symbols_last(ix: WorkspaceIndex, fs: Seq<FunctionInfo>, fid: FileId, first: SymbolId) -> bool {
    &&& forall|nm: Seq<char>| #[trigger]
        ix.symbol_map@.contains_key(nm) ==> forall|i: int|
            0 <= i < ix.symbol_map@[nm]@.len() ==> ix.symbols@.contains_key(
                #[trigger] ix.symbol_map@[nm]@[i],
            ) && ix.symbols@[ix.symbol_map@[nm]@[i]].name@ == nm
    &&& forall|k: SymbolId| #[trigger]
        ix.symbols@.contains_key(k) && ix.symbols@[k].file_id == fid ==> first <= k < first + fs.len()
    &&& forall|j: int|
        0 <= j < fs.len() ==> ix.symbols@.contains_key(#[trigger] ((first + j) as SymbolId))
            && ix.symbols@[(first + j) as SymbolId].file_id == fid
    &&& forall|nm: Seq<char>| #[trigger]
        ix.symbol_map@.contains_key(nm) ==> exists|pre: Seq<SymbolId>|
            (forall|x: SymbolId| #[trigger] pre.contains(x) ==> !(first <= x < first + fs.len()))
                && ix.symbol_map@[nm]@ == pre + new_ids_named(fs, first, nm)
    &&& forall|nm: Seq<char>| new_ids_named(fs, first, nm).len() > 0 ==> #[trigger] ix.symbol_map@.contains_key(nm)
}

/// [`lists_new_symbols_last`] depends on the symbols and the name lists
/// only.
pub(crate) proof fn lemma_lists_frame(a: WorkspaceIndex, b: WorkspaceIndex, fs: Seq<FunctionInfo>, fid: FileId, first: SymbolId)
    requires
        lists_new_symbols_last(a, fs, fid, first),
        b.symbols@ == a.symbols@,
        b.symbol_map@ == a.symbol_map@,
    ensures
        lists_new_symbols_last(b, fs, fid, first),
{
    reveal(lists_new_symbols_last);
}

/// The definition an implementing type resolves to has that name.
pub(crate) proof fn lemma_impl_target(fs: Seq<FunctionInfo>, child: Seq<char>)
    ensures
        impl_target(fs, child) matches Some(j) ==> 0 <= j < fs.len() && fs[j].name@ == child,
{
    reveal(impl_target);
    if child != "anonymous"@ && exists|j: int| 0 <= j < fs.len() && fs[j].name@ == child {
        lemma_first_with_name(fs, child);
    }
}

/// Where some definition has a name, a first one has it.
pub(crate) proof fn lemma_first_with_name(fs: Seq<FunctionInfo>, child: Seq<char>)
    requires
        exists|j: int| 0 <= j < fs.len() && fs[j].name@ == child,
    ensures
        exists|j: int| 0 <= j < fs.len() && fs[j].name@ == child && forall|k: int| 0 <= k < j ==> fs[k].name@ != child,
    decreases fs.len(),
{
    let d = fs.drop_last();
    if exists|j: int| 0 <= j < d.len() && d[j].name@ == child {
        lemma_first_with_name(d, child);
        let j = choose|j: int| 0 <= j < d.len() && d[j].name@ == child && forall|k: int| 0 <= k < j ==> d[k].name@ != child;
        assert(fs[j] == d[j]);
        assert forall|k: int| 0 <= k < j implies fs[k].name@ != child by {
            assert(fs[k] == d[k]);
        }
    } else {
        let j = choose|j: int| 0 <= j < fs.len() && fs[j].name@ == child;
        if j < d.len() {
            assert(d[j] == fs[j]);
        }
        assert forall|k: int| 0 <= k < fs.len() - 1 implies fs[k].name@ != child by {
            assert(fs[k] == d[k]);
        }
    }
}

/// The symbol of file `fid` that the name `child` resolves to: the first one
/// listed under that name.
pub(crate) fn find_impl_target(ix: &WorkspaceIndex, child: &str, fid: FileId, Ghost(fs): Ghost<Seq<FunctionInfo>>, first: SymbolId) -> (r:
    Option<SymbolId>)
    requires
        first + fs.len() <= u32::MAX,
        lists_new_symbols_last(*ix, fs, fid, first),
    ensures
        match r {
            Some(k) => impl_target(fs, child@) matches Some(j) && k == first + j,
            None => impl_target(fs, child@) is None,
        },
{
    proof {
        lemma_new_ids(fs, first, child@);
        reveal(lists_new_symbols_last);
        reveal(impl_target);
    }
    match ix.symbol_map.get(child) {
        Some(ids) => {
            let ghost pre = choose|pre: Seq<SymbolId>|
                (forall|x: SymbolId| #[trigger] pre.contains(x) ==> !(first <= x < first + fs.len()))
                    && ix.symbol_map@[child@]@ == pre + new_ids_named(fs, first, child@);
            let ghost tail = new_ids_named(fs, first, child@);
            let mut i: usize = 0;
            while i < ids.len()
                invariant
                    0 <= i <= ids@.len(),
                    ids@ == pre + tail,
                    tail == new_ids_named(fs, first, child@),
                    first + fs.len() <= u32::MAX,
                    lists_new_symbols_last(*ix, fs, fid, first),
                    ix.symbol_map@.contains_key(child@),
                    ix.symbol_map@[child@]@ == ids@,
                    i <= pre.len() ==> forall|q: int| 0 <= q < i ==> #[trigger] pre[q] == ids@[q],
                    i > pre.len() ==> false,
                    forall|x: SymbolId| #[trigger] pre.contains(x) ==> !(first <= x < first + fs.len()),
                decreases ids@.len() - i,
            {
                let id = ids[i];
                proof {
                    reveal(lists_new_symbols_last);
                    assert(ix.symbols@.contains_key(ids@[i as int]));
                }
                let in_file = match ix.symbols.get(&id) {
                    Some(sym) => sym.file_id == fid,
                    None => false,
                };
                proof {
                    lemma_new_ids(fs, first, child@);
                    reveal(lists_new_symbols_last);
                    reveal(impl_target);
                }
                if in_file {
                    proof {
                        if i < pre.len() {
                            assert(pre[i as int] == id);
                            assert(pre.contains(id));
                            assert(first <= id < first + fs.len());
                        }
                        assert(i == pre.len());
                        assert(tail.len() > 0);
                        assert(ids@[i as int] == tail[0]);
                        assert(child@ != "anonymous"@);
                        let j0 = choose|j: int|
                            0 <= j < fs.len() && fs[j].name@ == child@ && (forall|k: int| 0 <= k < j ==> fs[k].name@ != child@)
                                && new_ids_named(fs, first, child@)[0] == first + j;
                        let c = choose|j: int|
                            0 <= j < fs.len() && fs[j].name@ == child@ && forall|k: int|
                                0 <= k < j ==> fs[k].name@ != child@;
                        assert(c == j0) by {
                            if c < j0 {
                                assert(fs[c].name@ != child@);
                            }
                            if j0 < c {
                                assert(fs[j0].name@ != child@);
                            }
                        }
                        assert(impl_target(fs, child@) == Some(j0));
                    }
                    return Some(id);
                }
                proof {
                    if i == pre.len() && tail.len() > 0 {
                        let j = choose|j: int| 0 <= j < fs.len() && fs[j].name@ == child@ && #[trigger] tail[0] == first + j;
                        assert(ids@[i as int] == tail[0]);
                        assert(ix.symbols@.contains_key(((first + j) as SymbolId)));
                        assert(false);
                    }
                }
                i = i + 1;
            }
            proof {
                if exists|j: int| 0 <= j < fs.len() && fs[j].name@ == child@ {
                    if child@ != "anonymous"@ {
                        assert(tail.len() > 0);
                        assert(false);
                    }
                }
            }
            None
        },
        None => {
            proof {
                if child@ != "anonymous"@ && exists|j: int| 0 <= j < fs.len() && fs[j].name@ == child@ {
                    assert(new_ids_named(fs, first, child@).len() > 0);
                    assert(ix.symbol_map@.contains_key(child@));
                }
            }
            None
        },
    }
}

/// Records that the child of one implementation pair implements its parent,
/// where the child is a definition of file `fid`.
pub(crate) fn store_implementation(
    ix: &mut WorkspaceIndex,
    pair: &(String, String),
    fid: FileId,
    Ghost(fs): Ghost<Seq<FunctionInfo>>,
    Ghost(imps): Ghost<Seq<(Seq<char>, Seq<char>)>>,
    Ghost(i): Ghost<int>,
    Ghost(base): Ghost<Map<SymbolId, Vec<String>>>,
    first: SymbolId,
)
    requires
        0 <= i < imps.len(),
        imps[i] == (pair.0@, pair.1@),
        first + fs.len() <= u32::MAX,
        lists_new_symbols_last(*old(ix), fs, fid, first),
        impl_table(base, old(ix).raw_implementations@, fs, imps.take(i), first),
    ensures
        impl_table(base, final(ix).raw_implementations@, fs, imps.take(i + 1), first),
        lists_new_symbols_last(*final(ix), fs, fid, first),
        same_file_tables(*old(ix), *final(ix)),
        same_relations(*old(ix), *final(ix)),
        final(ix).symbols@ == old(ix).symbols@,
        final(ix).symbol_map@ == old(ix).symbol_map@,
        final(ix).next_symbol_id == old(ix).next_symbol_id,
        final(ix).raw_calls@ == old(ix).raw_calls@,
        final(ix).raw_type_refs@ == old(ix).raw_type_refs@,
        final(ix).raw_decorators@ == old(ix).raw_decorators@,
        final(ix).symbol_config_refs@ == old(ix).symbol_config_refs@,
        final(ix).fingerprints@ == old(ix).fingerprints@,
        final(ix).local_variable_types@ == old(ix).local_variable_types@,
        final(ix).container_methods@ == old(ix).container_methods@,
        final(ix).config_definitions@ == old(ix).config_definitions@,
{
    let ghost pre = *ix;
    proof {
        lemma_impl_target(fs, pair.0@);
    }
    let target = find_impl_target(ix, pair.0.as_str(), fid, Ghost(fs), first);
    match target {
        Some(cid) => {
            let ghost jj = cid - first;
            proof {
                assert(impl_target(fs, pair.0@) == Some(jj));
                assert((first + jj) as SymbolId == cid);
            }
            let ghost prev: Seq<Seq<char>> = if pre.raw_implementations@.contains_key(cid) {
                strings_view(pre.raw_implementations@[cid]@)
            } else {
                Seq::empty()
            };
            let mut cur: Vec<String> = match ix.raw_implementations.get(&cid) {
                Some(v) => crate::analysis::enrichment::clone_strings(v),
                None => Vec::new(),
            };
            proof {
                assert(strings_view(cur@) =~= prev);
            }
            let ghost cv = strings_view(cur@);
            cur.push(pair.1.clone());
            proof {
                assert(strings_view(cur@) =~= cv.push(pair.1@));
            }
            let ghost cur_v = cur;
            ix.raw_implementations.insert(cid, cur);
            proof {
                lemma_impl_table_step(base, pre.raw_implementations@, ix.raw_implementations@, fs, imps, i, first, cur_v);
                lemma_lists_frame(pre, *ix, fs, fid, first);
            }
        },
        None => {
            proof {
                lemma_impl_table_step(base, pre.raw_implementations@, ix.raw_implementations@, fs, imps, i, first, arbitrary());
            }
        },
    }
}

/// Records, for each implementation pair `(child, parent)` whose child is a
/// definition of file `fid`, that it implements `parent`.
pub(crate) fn store_implementations(
    ix: &mut WorkspaceIndex,
    implementations: &Vec<(String, String)>,
    fid: FileId,
    Ghost(fs): Ghost<Seq<FunctionInfo>>,
    first: SymbolId,
)
    requires
        first + fs.len() <= u32::MAX,
        lists_new_symbols_last(*old(ix), fs, fid, first),
    ensures
        implementation_table(*old(ix), *final(ix), fs, pairs_view(implementations@), first),
        same_file_tables(*old(ix), *final(ix)),
        same_relations(*old(ix), *final(ix)),
        final(ix).symbols@ == old(ix).symbols@,
        final(ix).symbol_map@ == old(ix).symbol_map@,
        final(ix).next_symbol_id == old(ix).next_symbol_id,
        final(ix).raw_calls@ == old(ix).raw_calls@,
        final(ix).raw_type_refs@ == old(ix).raw_type_refs@,
        final(ix).raw_decorators@ == old(ix).raw_decorators@,
        final(ix).symbol_config_refs@ == old(ix).symbol_config_refs@,
        final(ix).fingerprints@ == old(ix).fingerprints@,
        final(ix).local_variable_types@ == old(ix).local_variable_types@,
        final(ix).container_methods@ == old(ix).container_methods@,
        final(ix).config_definitions@ == old(ix).config_definitions@,
{
    let ghost imps = pairs_view(implementations@);
    let ghost base = ix.raw_implementations@;
    proof {
        lemma_impl_table_none(base, fs, imps.take(0), first);
    }
    let mut i: usize = 0;
    while i < implementations.len()
        invariant
            0 <= i <= implementations@.len(),
            imps == pairs_view(implementations@),
            base == old(ix).raw_implementations@,
            first + fs.len() <= u32::MAX,
            lists_new_symbols_last(*ix, fs, fid, first),
            impl_table(base, ix.raw_implementations@, fs, imps.take(i as int), first),
            same_file_tables(*old(ix), *ix),
            same_relations(*old(ix), *ix),
            ix.symbols@ == old(ix).symbols@,
            ix.symbol_map@ == old(ix).symbol_map@,
            ix.next_symbol_id == old(ix).next_symbol_id,
            ix.raw_calls@ == old(ix).raw_calls@,
            ix.raw_type_refs@ == old(ix).raw_type_refs@,
            ix.raw_decorators@ == old(ix).raw_decorators@,
            ix.symbol_config_refs@ == old(ix).symbol_config_refs@,
            ix.fingerprints@ == old(ix).fingerprints@,
            ix.local_variable_types@ == old(ix).local_variable_types@,
            ix.container_methods@ == old(ix).container_methods@,
            ix.config_definitions@ == old(ix).config_definitions@,
        decreases implementations@.len() - i,
    {
        store_implementation(ix, &implementations[i], fid, Ghost(fs), Ghost(imps), Ghost(i as int), Ghost(base), first);
        i = i + 1;
    }
    proof {
        assert(imps.take(implementations@.len() as int) =~= imps);
    }
}

/// `after` holds the symbols `mid` holds and, numbered from `mid`'s next
/// identifier, the symbols made of the definitions `fs` of file `fid`.
pub open spec fn adds_symbols(mid: WorkspaceIndex, after: WorkspaceIndex, fs: Seq<FunctionInfo>, fid: FileId, is_test: bool) -> bool {
    let first = mid.next_symbol_id;
    let n = fs.len();
    &&& after.next_symbol_id == first + n
    &&& forall|k: SymbolId| #[trigger]
        after.symbols@.contains_key(k) <==> mid.symbols@.contains_key(k) || (first <= k < first + n)
    &&& forall|k: SymbolId| #[trigger] mid.symbols@.contains_key(k) ==> after.symbols@[k] == mid.symbols@[k]
    &&& are_file_symbols(Seq::new(n, |j: int| after.symbols@[(first + j) as SymbolId]), fs, fid, first, is_test)
}

/// `after` stores over `mid` the analysis `fa` of file `fid`, of language
/// `lang` (a test file where `is_test`): its imports, exports and literals
/// where it has any, the symbols of its definitions numbered from `mid`'s
/// next identifier, listed under their names (and as configuration
/// definitions in a data file), what each container holds, and what each
/// definition calls, mentions, reads, is decorated with and implements.
pub open spec fn stores_analysis(
    mid: WorkspaceIndex,
    after: WorkspaceIndex,
    fid: FileId,
    lang: SupportedLanguage,
    is_test: bool,
    fa: FileAnalysis,
) -> bool {
    let fs = fa.functions@;
    let first = mid.next_symbol_id;
    &&& after.file_imports@ == if fa.imports@.len() > 0 {
        mid.file_imports@.insert(fid, fa.imports)
    } else {
        mid.file_imports@
    }
    &&& after.file_exports@ == if fa.exports@.len() > 0 {
        mid.file_exports@.insert(fid, fa.exports)
    } else {
        mid.file_exports@
    }
    &&& after.raw_literals@ == if fa.literals@.len() > 0 {
        mid.raw_literals@.insert(fid, fa.literals)
    } else {
        mid.raw_literals@
    }
    &&& adds_symbols(mid, after, fs, fid, is_test)
    &&& name_lists(mid, after, fs, first)
    &&& assoc_ids_view(after.config_definitions@) == if is_data_language(lang) {
        defs_fold(assoc_ids_view(mid.config_definitions@), fs, first)
    } else {
        assoc_ids_view(mid.config_definitions@)
    }
    &&& container_table(mid, after, fs, first)
    &&& function_tables(mid, after, fs, first)
    &&& implementation_table(mid, after, fs, pairs_view(fa.implementations@), first)
}

/// The name lists, the symbols and the per-symbol tables of `a` and `b`
/// are the same.
pub open spec fn same_symbol_tables(a: WorkspaceIndex, b: WorkspaceIndex) -> bool {
    &&& b.next_symbol_id == a.next_symbol_id
    &&& b.symbols@ == a.symbols@
    &&& b.symbol_map@ == a.symbol_map@
    &&& b.raw_calls@ == a.raw_calls@
    &&& b.raw_type_refs@ == a.raw_type_refs@
    &&& b.raw_decorators@ == a.raw_decorators@
    &&& b.symbol_config_refs@ == a.symbol_config_refs@
    &&& b.raw_implementations@ == a.raw_implementations@
    &&& b.fingerprints@ == a.fingerprints@
    &&& b.local_variable_types@ == a.local_variable_types@
    &&& b.container_methods@ == a.container_methods@
    &&& b.config_definitions@ == a.config_definitions@
}

/// Stores the analysis of file `fid` (see [`stores_analysis`]).
pub(crate) fn store_analysis(ix: &mut WorkspaceIndex, fid: FileId, lang: SupportedLanguage, is_test: bool, fa: FileAnalysis)
    requires
        old(ix).next_symbol_id + fa.functions@.len() <= u32::MAX,
        index_ok(*old(ix)),
        symbols_in_file(old(ix).symbols@, fid) == Set::<SymbolId>::empty(),
    ensures
        stores_analysis(*old(ix), *final(ix), fid, lang, is_test, fa),
        same_relations(*old(ix), *final(ix)),
        final(ix).next_file_id == old(ix).next_file_id,
        final(ix).files@ == old(ix).files@,
        final(ix).file_paths@ == old(ix).file_paths@,
        final(ix).implicit_routes@ == old(ix).implicit_routes@,
        distinct_keys(final(ix).config_definitions@),
{
    let ghost fs = fa.functions@;
    let ghost fa0 = fa;
    let ghost mid = *ix;
    let FileAnalysis { functions, imports, exports, literals, implementations, .. } = fa;
    if imports.len() > 0 {
        ix.file_imports.insert(fid, imports);
    }
    if exports.len() > 0 {
        ix.file_exports.insert(fid, exports);
    }
    if literals.len() > 0 {
        ix.raw_literals.insert(fid, literals);
    }
    let first = ix.next_symbol_id;
    let n = functions.len();
    let nodes = symbols_of_file(&functions, fid, first, is_test);
    proof {
        assert forall|j: int| 0 <= j < nodes@.len() implies (#[trigger] nodes@[j]).name@ == functions@[j].name@ by {}
    }
    let ghost s0 = *ix;
    store_container_methods(ix, &functions, first);
    let ghost s1 = *ix;
    let is_data = match lang {
        SupportedLanguage::Yaml | SupportedLanguage::Json | SupportedLanguage::Toml | SupportedLanguage::Dotenv => true,
        _ => false,
    };
    let ghost ns = nodes@;
    store_symbols(ix, nodes, &functions, first, is_data);
    let ghost s2 = *ix;
    ix.next_symbol_id = first + n as u32;
    let ghost s3 = *ix;
    proof {
        reveal(lists_new_symbols_last);
        assert forall|nm: Seq<char>| #[trigger] s3.symbol_map@.contains_key(nm) implies forall|i: int|
            0 <= i < s3.symbol_map@[nm]@.len() ==> s3.symbols@.contains_key(
                #[trigger] s3.symbol_map@[nm]@[i],
            ) && s3.symbols@[s3.symbol_map@[nm]@[i]].name@ == nm by {
            lemma_new_ids(fs, first, nm);
            let pre: Seq<SymbolId> = if mid.symbol_map@.contains_key(nm) {
                mid.symbol_map@[nm]@
            } else {
                Seq::empty()
            };
            let tail = new_ids_named(fs, first, nm);
            assert(s3.symbol_map@[nm]@ == pre + tail);
            assert forall|i: int| 0 <= i < s3.symbol_map@[nm]@.len() implies s3.symbols@.contains_key(
                #[trigger] s3.symbol_map@[nm]@[i],
            ) && s3.symbols@[s3.symbol_map@[nm]@[i]].name@ == nm by {
                let x = s3.symbol_map@[nm]@[i];
                if i < pre.len() {
                    assert(x == pre[i]);
                    assert(mid.symbols@.contains_key(x));
                    assert(x < first);
                } else {
                    assert(x == tail[i - pre.len()]);
                    let j = choose|j: int| 0 <= j < fs.len() && fs[j].name@ == nm && #[trigger] tail[i - pre.len()] == first + j;
                    assert(ns[j].name@ == fs[j].name@);
                    assert(s3.symbols@[(first + j) as SymbolId] == ns[j]);
                }
            }
        }
        assert forall|k: SymbolId| #[trigger] s3.symbols@.contains_key(k) && s3.symbols@[k].file_id == fid
            implies first <= k < first + fs.len() by {
            if mid.symbols@.contains_key(k) && k < first {
                assert(s3.symbols@[k] == mid.symbols@[k]);
                assert(symbols_in_file(mid.symbols@, fid).contains(k));
            }
        }
        assert forall|j: int| 0 <= j < fs.len() implies s3.symbols@.contains_key(
            #[trigger] ((first + j) as SymbolId),
        ) && s3.symbols@[(first + j) as SymbolId].file_id == fid by {
            assert(s3.symbols@[(first + j) as SymbolId] == ns[j]);
        }
        assert forall|nm: Seq<char>| #[trigger] s3.symbol_map@.contains_key(nm) implies exists|pre: Seq<SymbolId>|
            (forall|x: SymbolId| #[trigger] pre.contains(x) ==> !(first <= x < first + fs.len()))
                && s3.symbol_map@[nm]@ == pre + new_ids_named(fs, first, nm) by {
            let pre: Seq<SymbolId> = if mid.symbol_map@.contains_key(nm) {
                mid.symbol_map@[nm]@
            } else {
                Seq::empty()
            };
            assert forall|x: SymbolId| #[trigger] pre.contains(x) implies !(first <= x < first + fs.len()) by {
                let i = choose|i: int| 0 <= i < pre.len() && pre[i] == x;
                assert(mid.symbols@.contains_key(mid.symbol_map@[nm]@[i]));
            }
        }
        assert(lists_new_symbols_last(s3, fs, fid, first));
    }
    store_implementations(ix, &implementations, fid, Ghost(fs), first);
    let ghost s4 = *ix;
    store_function_tables(ix, functions, first);
    proof {
        assert forall|k: SymbolId| #[trigger] mid.symbols@.contains_key(k) implies ix.symbols@[k] == mid.symbols@[k] by {
            assert(k < first);
        }
        assert(Seq::new(fs.len(), |j: int| ix.symbols@[(first + j) as SymbolId]) =~= ns);
        assert(mid.container_methods@ == s0.container_methods@);
        assert(ix.container_methods@ == s1.container_methods@);
        assert(container_table(s0, s1, fs, first));
        assert(container_table(mid, *ix, fs, first));
        assert(function_tables(mid, *ix, fs, first));
        assert(implementation_table(mid, *ix, fs, pairs_view(fa0.implementations@), first));
        assert(name_lists(mid, *ix, fs, first));
    }
}

/// [`stores_analysis`] reads only the symbol tables and the file tables of
/// imports, exports and literals of the index it starts from.
pub(crate) proof fn lemma_stores_frame(
    a: WorkspaceIndex,
    b: WorkspaceIndex,
    after: WorkspaceIndex,
    fid: FileId,
    lang: SupportedLanguage,
    is_test: bool,
    fa: FileAnalysis,
)
    requires
        stores_analysis(b, after, fid, lang, is_test, fa),
        same_symbol_tables(a, b),
        a.file_imports@ == b.file_imports@,
        a.file_exports@ == b.file_exports@,
        a.raw_literals@ == b.raw_literals@,
    ensures
        stores_analysis(a, after, fid, lang, is_test, fa),
{
    let fs = fa.functions@;
    let first = a.next_symbol_id;
    assert(adds_symbols(a, after, fs, fid, is_test));
    assert(name_lists(a, after, fs, first));
    assert(container_table(a, after, fs, first));
    assert(function_tables(a, after, fs, first));
    assert(implementation_table(a, after, fs, pairs_view(fa.implementations@), first));
}

/// The identifier of the file at `path_key`: its own where the index knows
/// the path, else the next free one.
pub open spec fn file_id_for(ix: WorkspaceIndex, path_key: Seq<char>) -> FileId {
    if ix.file_paths@.contains_key(path_key) {
        ix.file_paths@[path_key]
    } else {
        ix.next_file_id
    }
}

/// `after` records over `mid` the file `fid` at `path_key` (found at
/// `path`), with its content hash and whether it is a test file, and the
/// route it serves by its path.
pub open spec fn adds_file(
    mid: WorkspaceIndex,
    after: WorkspaceIndex,
    fid: FileId,
    path_key: Seq<char>,
    path: Seq<char>,
    hash: [u8; 32],
    is_test: bool,
) -> bool {
    &&& after.next_file_id == if mid.file_paths@.contains_key(path_key) {
        mid.next_file_id
    } else {
        (mid.next_file_id + 1) as FileId
    }
    &&& after.files@.dom() == mid.files@.dom().insert(fid)
    &&& after.files@[fid].id == fid
    &&& after.files@[fid].path@ == path_key
    &&& after.files@[fid].hash == hash
    &&& after.files@[fid].is_test == is_test
    &&& forall|k: FileId| k != fid && #[trigger] mid.files@.contains_key(k) ==> after.files@[k] == mid.files@[k]
    &&& after.file_paths@ == mid.file_paths@.insert(path_key, fid)
    &&& routes_view(after.implicit_routes@) == match framework_route(path) {
        Some(r) => route_set(routes_view(mid.implicit_routes@), r, fid),
        None => routes_view(mid.implicit_routes@),
    }
}

/// What recording a file does to the index: the file's previous symbols and
/// what was recorded for them are dropped, the file is recorded under its
/// identifier, and, where its analysis succeeded, the analysis is stored;
/// resolved relations are left as they were.
#[verifier::opaque]
pub open spec fn records_file(
    before: WorkspaceIndex,
    after: WorkspaceIndex,
    path_key: Seq<char>,
    path: Seq<char>,
    hash: [u8; 32],
    is_test: bool,
    lang: SupportedLanguage,
    analysis: Result<FileAnalysis, String>,
) -> bool {
    let fid = file_id_for(before, path_key);
    exists|mid: WorkspaceIndex|
        {
            &&& cleared(before, mid, fid)
            &&& adds_file(mid, after, fid, path_key, path, hash, is_test)
            &&& same_relations(mid, after)
            &&& match analysis {
                Ok(fa) => stores_analysis(mid, after, fid, lang, is_test, fa),
                Err(_) => {
                    &&& same_symbol_tables(mid, after)
                    &&& after.file_imports@ == mid.file_imports@
                    &&& after.file_exports@ == mid.file_exports@
                    &&& after.raw_literals@ == mid.raw_literals@
                },
            }
        }
}

} // verus!
