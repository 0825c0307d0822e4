//! The workspace indexer: it keeps the index of a workspace up to date as
//! files are analysed, changed and removed.

pub mod paths;
pub mod symbols;
pub mod consistency;
pub mod recording;
pub mod removal;
pub mod queries;
pub mod resolve;
pub mod links;
pub mod route_links;
pub mod shared_literals;
pub mod externals;
pub mod import_links;
pub mod literal_links;
pub mod resolution;
pub mod calls;
pub mod call_links;
pub mod namespaces;
pub mod database;
pub mod laws;
pub mod fingerprints;
pub mod sniffing;

use vstd::prelude::*;
use vstd::utf8::encode_utf8;
use crate::text::{chars_of, string_of_range, owned};
use crate::analysis::{FileAnalysis, analyze_source, analysis_result};
use crate::schema::{SymbolNode, SymbolId, FileId, FileNode, WorkspaceIndex};
use crate::analysis::language::{LanguageConfig, SupportedLanguage, get_language_configs};
use crate::indexer::paths::detect_framework_route;
use crate::indexer::symbols::{lemma_parent_bound, parent_index};
use crate::indexer::consistency::{cleared, defs_without_exec, distinct_keys, file_symbol_keys, index_ok, keeps_outside, remove_all, symbols_in_file, unlist_file_symbols};
use crate::indexer::recording::{adds_file, file_id_for, lemma_new_ids, lemma_stores_frame, new_ids_named, records_file, same_relations, same_symbol_tables, set_route, store_analysis, stores_analysis};
use crate::indexer::removal::{config_choice, config_index_exec, removes_file, routes_without, same_hash};

verus! {

/// The BLAKE3 digest of a byte sequence (`blake3::hash`).
pub uninterp spec fn blake3_digest(bytes: Seq<u8>) -> Seq<u8>;

/// The content hash of a text: the BLAKE3 digest of its UTF-8 bytes.
pub open spec fn content_digest(content: Seq<char>) -> Seq<u8> {
    blake3_digest(encode_utf8(content))
}

/// The BLAKE3 hash of a text's UTF-8 bytes (`blake3::hash`).
#[verifier::external_body]
pub(crate) fn content_hash(content: &str) -> (r: [u8; 32])
    ensures
        r@ == blake3_digest(encode_utf8(content@)),
{
    blake3::hash(content.as_bytes()).into()
}

/// Whether the index must analyse the file at `path_key` again for
/// `content`: it does not know the file, or knows it with a hash other than
/// that of `content`.
pub open spec fn needs_analysis(index: WorkspaceIndex, path_key: Seq<char>, content: Seq<char>) -> bool {
    !index.file_paths@.contains_key(path_key) || index.files@[index.file_paths@[path_key]].hash@
        != content_digest(content)
}

/// Keeps the index of a workspace up to date as its files change.
pub struct Indexer {
    pub index: WorkspaceIndex,
    /// The configuration of each supported language.
    pub configs: Vec<LanguageConfig>,
}

impl Indexer {
    /// An indexer with an empty index and the configuration of every
    /// supported language.
    pub fn new() -> (r: Self)
        ensures
            index_ok(r.index),
            r.index.files@ == Map::<FileId, FileNode>::empty(),
            r.index.symbols@ == Map::<SymbolId, SymbolNode>::empty(),
            r.index.next_file_id == 0,
            r.index.next_symbol_id == 0,
            r.configs@.len() == 22,
    {
        let index = WorkspaceIndex::new();
        proof {
            assert(distinct_keys(index.config_definitions@));
            assert(distinct_keys(index.implicit_routes@));
        }
        Indexer { index, configs: get_language_configs() }
    }

    /// Analyses a file and records it (see [`Indexer::record_file`]) under
    /// the BLAKE3 hash of its content. Returns whether it did: the index is left as it was where no
    /// identifier is left for a new file or for the file's definitions.
    pub fn update_file(
        &mut self,
        path_key: &str,
        path: &str,
        content: &str,
        config: &LanguageConfig,
        is_path_test: bool,
    ) -> (r: bool)
        requires
            index_ok(old(self).index),
        ensures
            index_ok(final(self).index),
            final(self).configs@ == old(self).configs@,
            r ==> exists|a: Result<FileAnalysis, String>, hash: [u8; 32]|
                hash@ == content_digest(content@) && analysis_result(a, path@, content@, *config)
                    && #[trigger] records_file(
                    old(self).index,
                    final(self).index,
                    path_key@,
                    path@,
                    hash,
                    is_path_test,
                    config.lang,
                    a,
                ),
            !r ==> final(self).index == old(self).index,
            !old(self).index.file_paths@.contains_key(path_key@) && old(self).index.next_file_id == u32::MAX
                ==> !r,
            !r ==> (!old(self).index.file_paths@.contains_key(path_key@) && old(self).index.next_file_id == u32::MAX)
                || exists|a: Result<FileAnalysis, String>|
                analysis_result(a, path@, content@, *config) && (a matches Ok(fa) && old(self).index.next_symbol_id
                    + fa.functions@.len() > u32::MAX),
    {
        if !self.index.file_paths.contains_key(path_key) && self.index.next_file_id == u32::MAX {
            return false;
        }
        let analysis = analyze_source(path, content, config);
        let fits = match &analysis {
            Ok(fa) => fa.functions.len() as u64 <= (u32::MAX - self.index.next_symbol_id) as u64,
            Err(_) => true,
        };
        if !fits {
            proof {
                assert(analysis_result(analysis, path@, content@, *config));
            }
            return false;
        }
        let ghost a = analysis;
        let hash = content_hash(content);
        self.record_file(path_key, path, hash, is_path_test, config.lang, analysis);
        proof {
            assert(analysis_result(a, path@, content@, *config));
        }
        true
    }

    /// Records a file whose content was analysed: `path_key` is the key the
    /// file is indexed under, `path` its path as found (by which it may
    /// serve a route), `hash` the hash of its content, `is_path_test`
    /// whether its path is that of test code, `lang` its language, and
    /// `analysis` the result of analysing it (see [`records_file`]).
    pub fn record_file(
        &mut self,
        path_key: &str,
        path: &str,
        hash: [u8; 32],
        is_path_test: bool,
        lang: SupportedLanguage,
        analysis: Result<FileAnalysis, String>,
    )
        requires
            index_ok(old(self).index),
            !old(self).index.file_paths@.contains_key(path_key@) ==> old(self).index.next_file_id < u32::MAX,
            analysis matches Ok(fa) ==> old(self).index.next_symbol_id + fa.functions@.len() <= u32::MAX,
        ensures
            index_ok(final(self).index),
            records_file(old(self).index, final(self).index, path_key@, path@, hash, is_path_test, lang, analysis),
            final(self).configs@ == old(self).configs@,
    {
        let ghost before = self.index;
        proof {
            reveal(records_file);
        }
        let (file_id, is_new) = match self.index.file_paths.get(path_key) {
            Some(id) => (*id, false),
            None => (self.index.next_file_id, true),
        };
        proof {
            assert(file_id == file_id_for(before, path_key@));
        }
        self.clear_file_symbols(file_id);
        let ghost mid = self.index;
        if is_new {
            self.index.next_file_id = file_id + 1;
        }
        let node = FileNode { id: file_id, path: owned(path_key), hash, is_test: is_path_test };
        self.index.files.insert(file_id, node);
        self.index.file_paths.insert(owned(path_key), file_id);
        match detect_framework_route(path) {
            Some(route) => {
                set_route(&mut self.index.implicit_routes, route, file_id);
            },
            None => {},
        }
        let ghost filed = self.index;
        proof {
            assert(symbols_in_file(filed.symbols@, file_id) =~= Set::<SymbolId>::empty()) by {
                assert forall|k: SymbolId| !symbols_in_file(filed.symbols@, file_id).contains(k) by {
                    if filed.symbols@.contains_key(k) {
                        assert(!symbols_in_file(before.symbols@, file_id).contains(k));
                    }
                }
            }
            assert(index_ok(filed)) by {
                assert forall|k: FileId| #[trigger] filed.files@.contains_key(k) implies filed.files@[k].id == k && k
                    < filed.next_file_id && filed.file_paths@.contains_key(filed.files@[k].path@)
                    && filed.file_paths@[filed.files@[k].path@] == k by {
                    if k != file_id {
                        assert(mid.files@.contains_key(k));
                        if mid.files@[k].path@ == path_key@ {
                            assert(mid.file_paths@[path_key@] == k);
                        }
                    }
                }
                assert forall|p: Seq<char>| #[trigger] filed.file_paths@.contains_key(p) implies filed.files@.contains_key(
                    filed.file_paths@[p],
                ) && filed.files@[filed.file_paths@[p]].path@ == p by {
                    if p != path_key@ {
                        let k = mid.file_paths@[p];
                        assert(mid.files@.contains_key(k));
                        if k == file_id {
                            if is_new {
                                assert(k < mid.next_file_id);
                            } else {
                                assert(mid.files@[k].path@ == path_key@);
                            }
                        }
                    }
                }
            }
        }
        match analysis {
            Ok(fa) => {
                store_analysis(&mut self.index, file_id, lang, is_path_test, fa);
                proof {
                    let ix = self.index;
                    let fs = fa.functions@;
                    let first = filed.next_symbol_id;
                    assert forall|k: SymbolId| #[trigger] ix.symbols@.contains_key(k) implies ix.symbols@[k].id == k
                        && k < ix.next_symbol_id by {
                        if !filed.symbols@.contains_key(k) {
                            let j = k - first;
                            assert(Seq::new(fs.len(), |j: int| ix.symbols@[(first + j) as SymbolId])[j]
                                == ix.symbols@[k]);
                        }
                    }
                    assert forall|nm: Seq<char>| #[trigger] ix.symbol_map@.contains_key(nm) implies forall|i: int|
                        0 <= i < ix.symbol_map@[nm]@.len() ==> ix.symbols@.contains_key(
                            #[trigger] ix.symbol_map@[nm]@[i],
                        ) && ix.symbols@[ix.symbol_map@[nm]@[i]].name@ == nm by {
                        lemma_new_ids(fs, first, nm);
                        let pre: Seq<SymbolId> = if filed.symbol_map@.contains_key(nm) {
                            filed.symbol_map@[nm]@
                        } else {
                            Seq::empty()
                        };
                        let tail = new_ids_named(fs, first, nm);
                        assert forall|i: int| 0 <= i < ix.symbol_map@[nm]@.len() implies ix.symbols@.contains_key(
                            #[trigger] ix.symbol_map@[nm]@[i],
                        ) && ix.symbols@[ix.symbol_map@[nm]@[i]].name@ == nm by {
                            let x = ix.symbol_map@[nm]@[i];
                            if i < pre.len() {
                                assert(x == pre[i]);
                                assert(filed.symbols@.contains_key(x));
                            } else {
                                assert(x == tail[i - pre.len()]);
                                let j = choose|j: int| 0 <= j < fs.len() && fs[j].name@ == nm && #[trigger] tail[i - pre.len()] == first + j;
                                assert(Seq::new(fs.len(), |j: int| ix.symbols@[(first + j) as SymbolId])[j]
                                    == ix.symbols@[x]);
                            }
                        }
                    }
                    assert forall|k: SymbolId| #[trigger] ix.symbols@.contains_key(k) implies (
                    ix.symbols@[k].parent_id matches Some(p) ==> ix.symbols@.contains_key(p)
                        && ix.symbols@[p].file_id == ix.symbols@[k].file_id) by {
                        let new_nodes = Seq::new(fs.len(), |j: int| ix.symbols@[(first + j) as SymbolId]);
                        if filed.symbols@.contains_key(k) {
                            if let Some(p) = filed.symbols@[k].parent_id {
                                assert(filed.symbols@.contains_key(p));
                            }
                        } else {
                            let j = k - first;
                            assert(new_nodes[j] == ix.symbols@[k]);
                            lemma_parent_bound(fs, j);
                            if let Some(c) = parent_index(fs, j) {
                                assert(new_nodes[c] == ix.symbols@[(first + c) as SymbolId]);
                            }
                        }
                    }
                    assert(cleared(before, mid, file_id));
                    assert(adds_file(mid, ix, file_id, path_key@, path@, hash, is_path_test));
                    lemma_stores_frame(mid, filed, ix, file_id, lang, is_path_test, fa);
                    assert(same_relations(mid, ix));
                    assert({
                        &&& cleared(before, mid, file_id)
                        &&& adds_file(mid, ix, file_id, path_key@, path@, hash, is_path_test)
                        &&& same_relations(mid, ix)
                        &&& stores_analysis(mid, ix, file_id, lang, is_path_test, fa)
                    });
                }
            },
            Err(_) => {
                proof {
                    assert({
                        &&& cleared(before, mid, file_id)
                        &&& adds_file(mid, self.index, file_id, path_key@, path@, hash, is_path_test)
                        &&& same_relations(mid, self.index)
                        &&& same_symbol_tables(mid, self.index)
                        &&& self.index.file_imports@ == mid.file_imports@
                        &&& self.index.file_exports@ == mid.file_exports@
                        &&& self.index.raw_literals@ == mid.raw_literals@
                    });
                }
            },
        }
    }

    /// Forgets the file at `path_key` (see [`removes_file`]).
    pub fn remove_file(&mut self, path_key: &str)
        requires
            index_ok(old(self).index),
        ensures
            index_ok(final(self).index),
            removes_file(old(self).index, final(self).index, path_key@),
            final(self).configs@ == old(self).configs@,
    {
        proof {
            reveal(removes_file);
        }
        let fid = match self.index.file_paths.get(path_key) {
            Some(id) => *id,
            None => {
                return;
            },
        };
        let ghost before = self.index;
        self.clear_file_symbols(fid);
        let ghost mid = self.index;
        self.index.files.remove(&fid);
        self.index.file_paths.remove(path_key);
        self.index.file_dependencies.remove(&fid);
        let routes = routes_without(&self.index.implicit_routes, fid);
        self.index.implicit_routes = routes;
        proof {
            let ix = self.index;
            assert(cleared(before, mid, fid));
            assert forall|k: FileId| #[trigger] ix.files@.contains_key(k) implies ix.files@[k].id == k && k
                < ix.next_file_id && ix.file_paths@.contains_key(ix.files@[k].path@)
                && ix.file_paths@[ix.files@[k].path@] == k by {
                assert(mid.files@.contains_key(k));
                if mid.files@[k].path@ == path_key@ {
                    assert(mid.file_paths@[path_key@] == k);
                }
            }
            assert forall|p: Seq<char>| #[trigger] ix.file_paths@.contains_key(p) implies ix.files@.contains_key(
                ix.file_paths@[p],
            ) && ix.files@[ix.file_paths@[p]].path@ == p by {
                let k = mid.file_paths@[p];
                if k == fid {
                    assert(mid.files@[fid].path@ == path_key@);
                }
            }
        }
    }

    /// Whether the file at `path_key` must be analysed again for `content`:
    /// the index does not know it, or knows it with a hash other than that
    /// of `content`.
    pub fn needs_update(&self, path_key: &str, content: &str) -> (r: bool)
        requires
            index_ok(self.index),
        ensures
            r == needs_analysis(self.index, path_key@, content@),
    {
        let hash = content_hash(content);
        match self.index.file_paths.get(path_key) {
            Some(id) => match self.index.files.get(id) {
                Some(node) => {
                    let differs = !same_hash(&node.hash, &hash);
                    proof {
                        broadcast use vstd::array::group_array_axioms;
                        if node.hash@ == hash@ {
                            assert(node.hash@ =~= hash@);
                            assert(node.hash == hash);
                        }
                    }
                    differs
                },
                None => true,
            },
            None => true,
        }
    }

    /// The configuration for a file with extension `ext` and name
    /// `filename` (see [`config_choice`]).
    pub fn config_for(&self, ext: &str, filename: &str) -> (r: Option<&LanguageConfig>)
        ensures
            match config_choice(self.configs@, ext@, filename@) {
                Some(i) => r == Some(&self.configs@[i]),
                None => r is None,
            },
    {
        match config_index_exec(&self.configs, ext) {
            Some(i) => {
                return Some(&self.configs[i]);
            },
            None => {},
        }
        match config_index_exec(&self.configs, filename) {
            Some(i) => {
                return Some(&self.configs[i]);
            },
            None => {},
        }
        let f = chars_of(filename);
        if f.len() > 0 && f[0] == '.' {
            let rest = string_of_range(&f, 1, f.len());
            proof {
                assert(rest@ =~= filename@.drop_first());
            }
            match config_index_exec(&self.configs, rest.as_str()) {
                Some(i) => Some(&self.configs[i]),
                None => None,
            }
        } else {
            None
        }
    }

    /// Removes the symbols of file `file_id`, everything recorded for them,
    /// and what was recorded of the file's imports, exports and literals.
        fn clear_file_symbols(&mut self, file_id: FileId)
        requires
            index_ok(old(self).index),
        ensures
            cleared(old(self).index, final(self).index, file_id),
            index_ok(final(self).index),
            final(self).configs@ == old(self).configs@,
    {
        let gone = file_symbol_keys(&self.index.symbols, file_id);
        let ghost before = self.index;
        unlist_file_symbols(&mut self.index, file_id, &gone);
        remove_all(&mut self.index.symbols, &gone);
        remove_all(&mut self.index.raw_calls, &gone);
        remove_all(&mut self.index.raw_implementations, &gone);
        remove_all(&mut self.index.resolved_calls, &gone);
        remove_all(&mut self.index.fingerprints, &gone);
        remove_all(&mut self.index.container_methods, &gone);
        remove_all(&mut self.index.local_variable_types, &gone);
        remove_all(&mut self.index.inheritance, &gone);
        remove_all(&mut self.index.symbol_config_refs, &gone);
        remove_all(&mut self.index.raw_type_refs, &gone);
        remove_all(&mut self.index.resolved_type_refs, &gone);
        remove_all(&mut self.index.raw_decorators, &gone);
        let defs = defs_without_exec(&self.index.config_definitions, &gone);
        self.index.config_definitions = defs;
        self.index.file_imports.remove(&file_id);
        self.index.file_exports.remove(&file_id);
        self.index.raw_literals.remove(&file_id);
        proof {
            let ix = self.index;
            let syms = before.symbols@;
            assert forall|k: SymbolId| #[trigger] ix.symbols@.contains_key(k) implies ix.symbols@[k].id
                == k && k < ix.next_symbol_id by {
                assert(syms.contains_key(k));
            }
            assert forall|n: Seq<char>| #[trigger] ix.symbol_map@.contains_key(n) implies forall|i: int|
                0 <= i < ix.symbol_map@[n]@.len() ==> ix.symbols@.contains_key(
                    #[trigger] ix.symbol_map@[n]@[i],
                ) && ix.symbols@[ix.symbol_map@[n]@[i]].name@ == n by {
                let l0 = before.symbol_map@[n]@;
                let pred = keeps_outside(syms, file_id, n);
                assert forall|i: int| 0 <= i < ix.symbol_map@[n]@.len() implies ix.symbols@.contains_key(
                    #[trigger] ix.symbol_map@[n]@[i],
                ) && ix.symbols@[ix.symbol_map@[n]@[i]].name@ == n by {
                    let x = ix.symbol_map@[n]@[i];
                    broadcast use vstd::seq_lib::group_filter_ensures;
                    assert(l0.filter(pred).contains(x)) by {
                        assert(l0.filter(pred)[i] == x);
                    }
                    l0.lemma_filter_contains_rev(pred, x);
                    assert(l0.contains(x));
                    let j = choose|j: int| 0 <= j < l0.len() && l0[j] == x;
                    assert(syms.contains_key(x) && syms[x].name@ == n);
                    assert(pred(x));
                    assert(!symbols_in_file(syms, file_id).contains(x));
                }
            }
            assert forall|k: SymbolId| #[trigger] ix.symbols@.contains_key(k) implies (
            ix.symbols@[k].parent_id matches Some(p) ==> ix.symbols@.contains_key(p)
                && ix.symbols@[p].file_id == ix.symbols@[k].file_id) by {
                assert(syms.contains_key(k));
                assert(!symbols_in_file(syms, file_id).contains(k));
                if let Some(p) = ix.symbols@[k].parent_id {
                    assert(syms.contains_key(p));
                    assert(!symbols_in_file(syms, file_id).contains(p));
                }
            }
        }
    }
}

} // verus!
