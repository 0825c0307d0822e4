//! Removing files from the index, and finding the configuration for a file.

use vstd::prelude::*;
use crate::text::str_eq;
use crate::schema::{FileId, WorkspaceIndex};
use crate::analysis::language::LanguageConfig;
use crate::lemmas::lemma_filter_take_step;
use crate::indexer::recording::{routes_view, same_file_tables, same_relations, same_symbol_tables};
use crate::indexer::consistency::{cleared, distinct_keys};

verus! {

/// A route served by a file other than `fid`.
pub open spec fn served_elsewhere(fid: FileId) -> spec_fn((Seq<char>, FileId)) -> bool {
    |e: (Seq<char>, FileId)| e.1 != fid
}

/// What removing the file at `path_key` does to the index: where the index
/// knows the path, the file's symbols and what was recorded for them are
/// dropped (see [`cleared`]), and so are the file, its path, its
/// dependencies and the routes it served; otherwise nothing changes.
#[verifier::opaque]
pub open spec fn removes_file(before: WorkspaceIndex, after: WorkspaceIndex, path_key: Seq<char>) -> bool {
    if before.file_paths@.contains_key(path_key) {
        let fid = before.file_paths@[path_key];
        exists|mid: WorkspaceIndex|
            {
                &&& #[trigger] cleared(before, mid, fid)
                &&& after.files@ == mid.files@.remove(fid)
                &&& after.file_paths@ == mid.file_paths@.remove(path_key)
                &&& after.file_dependencies@ == mid.file_dependencies@.remove(fid)
                &&& routes_view(after.implicit_routes@) == routes_view(mid.implicit_routes@).filter(
                    served_elsewhere(fid),
                )
                &&& after.next_file_id == mid.next_file_id
                &&& after.file_imports@ == mid.file_imports@
                &&& after.file_exports@ == mid.file_exports@
                &&& after.raw_literals@ == mid.raw_literals@
                &&& after.resolved_calls@ == mid.resolved_calls@
                &&& after.resolved_type_refs@ == mid.resolved_type_refs@
                &&& after.inheritance@ == mid.inheritance@
                &&& same_symbol_tables(mid, after)
            }
    } else {
        &&& same_file_tables(before, after)
        &&& same_relations(before, after)
        &&& same_symbol_tables(before, after)
    }
}

/// The routes not served by file `fid`.
pub(crate) fn routes_without(v: &Vec<(String, FileId)>, fid: FileId) -> (r: Vec<(String, FileId)>)
    requires
        distinct_keys(v@),
    ensures
        routes_view(r@) == routes_view(v@).filter(served_elsewhere(fid)),
        distinct_keys(r@),
{
    let ghost vv = routes_view(v@);
    let mut out: Vec<(String, FileId)> = Vec::new();
    let mut i: usize = 0;
    while i < v.len()
        invariant
            0 <= i <= v@.len(),
            vv == routes_view(v@),
            distinct_keys(v@),
            routes_view(out@) == vv.take(i as int).filter(served_elsewhere(fid)),
            distinct_keys(out@),
            forall|p: int| 0 <= p < out@.len() ==> exists|q: int| 0 <= q < i && (#[trigger] out@[p]).0@ == v@[q].0@,
        decreases v@.len() - i,
    {
        proof {
            lemma_filter_take_step(vv, served_elsewhere(fid), i as int);
            assert(vv[i as int] == (v@[i as int].0@, v@[i as int].1));
        }
        if v[i].1 != fid {
            let ghost before = out@;
            out.push((v[i].0.clone(), v[i].1));
            proof {
                assert(routes_view(out@) =~= routes_view(before).push(vv[i as int]));
                assert forall|a: int, b: int| 0 <= a < b < out@.len() implies (#[trigger] out@[a]).0@
                    != (#[trigger] out@[b]).0@ by {
                    if b == out@.len() - 1 {
                        let q = choose|q: int| 0 <= q < i && before[a].0@ == v@[q].0@;
                        assert(v@[q].0@ != v@[i as int].0@);
                    }
                }
                assert forall|p: int| 0 <= p < out@.len() implies exists|q: int|
                    0 <= q < i + 1 && (#[trigger] out@[p]).0@ == v@[q].0@ by {
                    if p < before.len() {
                        let q = choose|q: int| 0 <= q < i && before[p].0@ == v@[q].0@;
                        assert(0 <= q < i + 1 && out@[p].0@ == v@[q].0@);
                    } else {
                        assert(out@[p].0@ == v@[i as int].0@);
                    }
                }
            }
        }
        i = i + 1;
    }
    proof {
        assert(vv.take(v@.len() as int) =~= vv);
    }
    out
}

/// The index of the last configuration among `configs` that lists `name`
/// among its file extensions (or file names).
pub open spec fn config_index(configs: Seq<LanguageConfig>, name: Seq<char>) -> Option<int>
    decreases configs.len(),
{
    if configs.len() == 0 {
        None
    } else if exists|k: int| 0 <= k < configs.last().file_extensions@.len() && configs.last().file_extensions@[k]@ == name {
        Some(configs.len() - 1)
    } else {
        config_index(configs.drop_last(), name)
    }
}

/// The configuration for a file, by its extension, else by its whole name,
/// else, for a hidden file, by its name without the leading dot.
pub open spec fn config_choice(configs: Seq<LanguageConfig>, ext: Seq<char>, filename: Seq<char>) -> Option<int> {
    match config_index(configs, ext) {
        Some(i) => Some(i),
        None => match config_index(configs, filename) {
            Some(i) => Some(i),
            None => if filename.len() > 0 && filename[0] == '.' {
                config_index(configs, filename.drop_first())
            } else {
                None
            },
        },
    }
}

/// Whether `c` lists `name` among its file extensions.
pub(crate) fn lists_extension(c: &LanguageConfig, name: &str) -> (r: bool)
    ensures
        r == exists|k: int| 0 <= k < c.file_extensions@.len() && c.file_extensions@[k]@ == name@,
{
    let exts = c.file_extensions;
    let mut k: usize = 0;
    while k < exts.len()
        invariant
            exts@ == c.file_extensions@,
            0 <= k <= exts@.len(),
            forall|q: int| 0 <= q < k ==> exts@[q]@ != name@,
        decreases exts@.len() - k,
    {
        if str_eq(exts[k], name) {
            return true;
        }
        k = k + 1;
    }
    false
}

/// The index of the last configuration that lists `name`.
pub(crate) fn config_index_exec(configs: &Vec<LanguageConfig>, name: &str) -> (r: Option<usize>)
    ensures
        match r {
            Some(i) => config_index(configs@, name@) == Some(i as int) && i < configs@.len(),
            None => config_index(configs@, name@) is None,
        },
{
    let mut n: usize = configs.len();
    proof {
        assert(configs@.take(n as int) =~= configs@);
    }
    while n > 0
        invariant
            0 <= n <= configs@.len(),
            config_index(configs@.take(n as int), name@) == config_index(configs@, name@),
        decreases n,
    {
        proof {
            assert(configs@.take(n as int).last() == configs@[n - 1]);
            assert(configs@.take(n as int).drop_last() =~= configs@.take(n - 1));
        }
        if lists_extension(&configs[n - 1], name) {
            return Some(n - 1);
        }
        n = n - 1;
    }
    proof {
        assert(configs@.take(0) =~= Seq::<LanguageConfig>::empty());
    }
    None
}

/// Whether two content hashes are equal.
pub(crate) fn same_hash(a: &[u8; 32], b: &[u8; 32]) -> (r: bool)
    ensures
        r == (*a == *b),
{
    broadcast use vstd::array::group_array_axioms;
    let mut i: usize = 0;
    while i < 32
        invariant
            0 <= i <= 32,
            forall|k: int| 0 <= k < i ==> a[k] == b[k],
        decreases 32 - i,
    {
        if a[i] != b[i] {
            return false;
        }
        i = i + 1;
    }
    proof {
        assert(*a =~= *b);
    }
    true
}

} // verus!
