//! The workspace index: files, symbols, and the raw and resolved relations
//! between them.

use std::collections::HashMap;
use vstd::prelude::*;
use vstd::hash_map::StringHashMap;
use vstd::hash_set::StringHashSet;
use vstd::std_specs::iter::IteratorSpec;
use crate::lemmas::lemma_push_contains;

verus! {

broadcast use vstd::std_specs::hash::group_hash_axioms;

/// Identifier of a file.
pub type FileId = u32;

/// Identifier of a symbol.
pub type SymbolId = u32;

/// An import as written in a file: the imported name (`*` for a namespace
/// import), its source, and the local alias if any.
#[derive(Debug)]
pub struct ImportNode {
    pub name: String,
    pub source: String,
    pub alias: Option<String>,
}

/// A re-export: the exported name (none for `export *`) and its source.
#[derive(Debug)]
pub struct ExportNode {
    pub name: Option<String>,
    pub source: String,
}

/// The model of an [`ImportNode`].
pub struct ImportV {
    pub name: Seq<char>,
    pub source: Seq<char>,
    pub alias: Option<Seq<char>>,
}

impl View for ImportNode {
    type V = ImportV;

    open spec fn view(&self) -> ImportV {
        ImportV {
            name: self.name@,
            source: self.source@,
            alias: match self.alias {
                Some(a) => Some(a@),
                None => None,
            },
        }
    }
}

/// The model of an [`ExportNode`].
pub struct ExportV {
    pub name: Option<Seq<char>>,
    pub source: Seq<char>,
}

impl View for ExportNode {
    type V = ExportV;

    open spec fn view(&self) -> ExportV {
        ExportV {
            name: match self.name {
                Some(n) => Some(n@),
                None => None,
            },
            source: self.source@,
        }
    }
}

/// A file of the workspace.
#[derive(Debug)]
pub struct FileNode {
    pub id: FileId,
    pub path: String,
    pub hash: [u8; 32],
    pub is_test: bool,
}

/// A symbol: a function, container, module scope or external stub.
#[derive(Debug)]
pub struct SymbolNode {
    pub id: SymbolId,
    pub file_id: FileId,
    pub parent_id: Option<SymbolId>,
    pub name: String,
    /// `module`, `container`, `function` or `external`.
    pub kind: String,
    pub range_start: usize,
    pub range_end: usize,
    pub doc_comment: Option<String>,
    pub return_type: Option<String>,
    pub is_test: bool,
    pub is_external: bool,
    pub external_source: Option<String>,
    pub decorators: Vec<String>,
}

/// The index of a workspace.
pub struct WorkspaceIndex {
    pub next_file_id: FileId,
    pub next_symbol_id: SymbolId,
    /// Files by identifier.
    pub files: HashMap<FileId, FileNode>,
    pub symbols: HashMap<SymbolId, SymbolNode>,
    /// Symbol name to the symbols of that name.
    pub symbol_map: StringHashMap<Vec<SymbolId>>,
    /// Caller to the symbols it calls or depends on.
    pub resolved_calls: HashMap<SymbolId, Vec<SymbolId>>,
    /// Symbol to the types it refers to.
    pub resolved_type_refs: HashMap<SymbolId, Vec<SymbolId>>,
    /// Parent type to the symbols that implement or extend it.
    pub inheritance: HashMap<SymbolId, Vec<SymbolId>>,
    /// File to the files it depends on.
    pub file_dependencies: HashMap<FileId, Vec<FileId>>,
    /// Path of each indexed file to its identifier.
    pub file_paths: StringHashMap<FileId>,
    /// What each file imports.
    pub file_imports: HashMap<FileId, Vec<ImportNode>>,
    /// What each file exports.
    pub file_exports: HashMap<FileId, Vec<ExportNode>>,
    /// The string literals of each file.
    pub raw_literals: HashMap<FileId, Vec<String>>,
    /// Routes that files serve by their paths, each with the file.
    pub implicit_routes: Vec<(String, FileId)>,
    /// Symbol to the names it calls, before resolution.
    pub raw_calls: HashMap<SymbolId, Vec<String>>,
    /// Symbol to the type names it mentions, before resolution.
    pub raw_type_refs: HashMap<SymbolId, Vec<String>>,
    /// Symbol to its decorators, before resolution.
    pub raw_decorators: HashMap<SymbolId, Vec<String>>,
    /// Symbol to the configuration keys it reads.
    pub symbol_config_refs: HashMap<SymbolId, Vec<String>>,
    /// Symbol to the names of the types it implements or extends.
    pub raw_implementations: HashMap<SymbolId, Vec<String>>,
    /// Symbol to its receivers and the methods called on each.
    pub fingerprints: HashMap<SymbolId, Vec<(String, Vec<String>)>>,
    /// Symbol to its local variables and their declared types.
    pub local_variable_types: HashMap<SymbolId, StringHashMap<String>>,
    /// Container or module scope to the names of the definitions it holds.
    pub container_methods: HashMap<SymbolId, StringHashSet>,
    /// Configuration key to the symbols of data files that define it.
    pub config_definitions: Vec<(String, Vec<SymbolId>)>,
}

impl WorkspaceIndex {
    /// Each file is keyed by its own id, and every symbol that a relation or
    /// the name map mentions is a symbol of the index.
    pub open spec fn wf(&self) -> bool {
        &&& forall|k: FileId| #[trigger] self.files@.contains_key(k) ==> self.files@[k].id == k
        &&& self.links_closed()
    }

    /// Every symbol that a relation, a parent link or the name map mentions
    /// is a symbol of the index: following links never leaves the symbols.
    pub open spec fn links_closed(&self) -> bool {
        &&& forall|k: SymbolId| #[trigger]
            self.resolved_calls@.contains_key(k) ==> self.symbols@.contains_key(k)
                && forall|i: int|
                0 <= i < self.resolved_calls@[k]@.len() ==> self.symbols@.contains_key(
                    #[trigger] self.resolved_calls@[k]@[i],
                )
        &&& forall|k: SymbolId| #[trigger]
            self.resolved_type_refs@.contains_key(k) ==> self.symbols@.contains_key(k)
                && forall|i: int|
                0 <= i < self.resolved_type_refs@[k]@.len() ==> self.symbols@.contains_key(
                    #[trigger] self.resolved_type_refs@[k]@[i],
                )
        &&& forall|k: SymbolId| #[trigger]
            self.inheritance@.contains_key(k) ==> self.symbols@.contains_key(k) && forall|i: int|
                0 <= i < self.inheritance@[k]@.len() ==> self.symbols@.contains_key(
                    #[trigger] self.inheritance@[k]@[i],
                )
        &&& forall|n: Seq<char>| #[trigger]
            self.symbol_map@.contains_key(n) ==> forall|i: int|
                0 <= i < self.symbol_map@[n]@.len() ==> self.symbols@.contains_key(
                    #[trigger] self.symbol_map@[n]@[i],
                )
        &&& forall|k: SymbolId| #[trigger]
            self.symbols@.contains_key(k) ==> (self.symbols@[k].parent_id matches Some(p)
                ==> self.symbols@.contains_key(p))
    }
}

/// The list of `m` for `x` with `y` added at its end.
pub open spec fn with_entry(m: Map<u32, Vec<u32>>, x: u32, y: u32) -> Seq<u32> {
    (if m.contains_key(x) {
        m[x]@
    } else {
        Seq::empty()
    }).push(y)
}

/// Adds `y` at the end of the list of `m` for `x`.
fn push_entry(m: &mut HashMap<u32, Vec<u32>>, x: u32, y: u32)
    ensures
        final(m)@.dom() == old(m)@.dom().insert(x),
        final(m)@[x]@ == with_entry(old(m)@, x, y),
        forall|k: u32| k != x && #[trigger] old(m)@.contains_key(k) ==> final(m)@[k] == old(m)@[k],
{
    let mut v: Vec<u32> = match m.get(&x) {
        Some(v) => v.clone(),
        None => Vec::new(),
    };
    v.push(y);
    m.insert(x, v);
    proof {
        assert(final(m)@.dom() =~= old(m)@.dom().insert(x));
    }
}

impl WorkspaceIndex {
    /// An empty index.
    pub fn new() -> (r: Self)
        ensures
            r.wf(),
            r.next_file_id == 0,
            r.next_symbol_id == 0,
            r.files@ == Map::<FileId, FileNode>::empty(),
            r.symbols@ == Map::<SymbolId, SymbolNode>::empty(),
            r.symbol_map@ == Map::<Seq<char>, Vec<SymbolId>>::empty(),
            r.resolved_calls@ == Map::<SymbolId, Vec<SymbolId>>::empty(),
            r.resolved_type_refs@ == Map::<SymbolId, Vec<SymbolId>>::empty(),
            r.inheritance@ == Map::<SymbolId, Vec<SymbolId>>::empty(),
            r.file_dependencies@ == Map::<FileId, Vec<FileId>>::empty(),
            r.file_paths@ == Map::<Seq<char>, FileId>::empty(),
            r.file_imports@ == Map::<FileId, Vec<ImportNode>>::empty(),
            r.file_exports@ == Map::<FileId, Vec<ExportNode>>::empty(),
            r.raw_literals@ == Map::<FileId, Vec<String>>::empty(),
            r.implicit_routes@.len() == 0,
            r.raw_calls@ == Map::<SymbolId, Vec<String>>::empty(),
            r.raw_type_refs@ == Map::<SymbolId, Vec<String>>::empty(),
            r.raw_decorators@ == Map::<SymbolId, Vec<String>>::empty(),
            r.symbol_config_refs@ == Map::<SymbolId, Vec<String>>::empty(),
            r.raw_implementations@ == Map::<SymbolId, Vec<String>>::empty(),
            r.fingerprints@ == Map::<SymbolId, Vec<(String, Vec<String>)>>::empty(),
            r.local_variable_types@ == Map::<SymbolId, StringHashMap<String>>::empty(),
            r.container_methods@ == Map::<SymbolId, StringHashSet>::empty(),
            r.config_definitions@.len() == 0,
    {
        WorkspaceIndex {
            next_file_id: 0,
            next_symbol_id: 0,
            files: HashMap::new(),
            symbols: HashMap::new(),
            symbol_map: StringHashMap::new(),
            resolved_calls: HashMap::new(),
            resolved_type_refs: HashMap::new(),
            inheritance: HashMap::new(),
            file_dependencies: HashMap::new(),
            file_paths: StringHashMap::new(),
            file_imports: HashMap::new(),
            file_exports: HashMap::new(),
            raw_literals: HashMap::new(),
            implicit_routes: Vec::new(),
            raw_calls: HashMap::new(),
            raw_type_refs: HashMap::new(),
            raw_decorators: HashMap::new(),
            symbol_config_refs: HashMap::new(),
            raw_implementations: HashMap::new(),
            fingerprints: HashMap::new(),
            local_variable_types: HashMap::new(),
            container_methods: HashMap::new(),
            config_definitions: Vec::new(),
        }
    }

    /// Records a file under its identifier.
    pub fn add_file(&mut self, file: FileNode)
        requires
            old(self).wf(),
        ensures
            final(self).wf(),
            final(self).files@ == old(self).files@.insert(file.id, file),
            final(self).symbols@ == old(self).symbols@,
    {
        let id = file.id;
        self.files.insert(id, file);
    }

    /// Records a symbol under its identifier and lists it under its name.
    pub fn add_symbol(&mut self, sym: SymbolNode)
        requires
            old(self).wf(),
            sym.parent_id matches Some(p) ==> old(self).symbols@.contains_key(p) || p == sym.id,
        ensures
            final(self).wf(),
            final(self).symbols@ == old(self).symbols@.insert(sym.id, sym),
            final(self).symbol_map@.contains_key(sym.name@),
            final(self).symbol_map@[sym.name@]@ == (if old(self).symbol_map@.contains_key(sym.name@) {
                old(self).symbol_map@[sym.name@]@
            } else {
                Seq::empty()
            }).push(sym.id),
            forall|n: Seq<char>| n != sym.name@ ==> #[trigger] final(self).symbol_map@.contains_key(n)
                == old(self).symbol_map@.contains_key(n),
            forall|n: Seq<char>|
                n != sym.name@ && #[trigger] old(self).symbol_map@.contains_key(n) ==> final(self).symbol_map@[n] == old(self).symbol_map@[n],
            final(self).resolved_calls@ == old(self).resolved_calls@,
            final(self).resolved_type_refs@ == old(self).resolved_type_refs@,
            final(self).inheritance@ == old(self).inheritance@,
            final(self).files@ == old(self).files@,
    {
        let id = sym.id;
        let name = sym.name.clone();
        let mut ids: Vec<u32> = match self.symbol_map.get(name.as_str()) {
            Some(v) => v.clone(),
            None => Vec::new(),
        };
        ids.push(id);
        let ghost ids_v = ids@;
        self.symbol_map.insert(name, ids);
        self.symbols.insert(id, sym);
        proof {
            let old_s = old(self).symbols@;
            assert forall|k: SymbolId| #[trigger] old_s.contains_key(k) implies self.symbols@.contains_key(k) by {}
            assert forall|k: SymbolId| #[trigger] self.symbols@.contains_key(k) implies (
            self.symbols@[k].parent_id matches Some(p) ==> self.symbols@.contains_key(p)) by {
                if k != id {
                    assert(old_s.contains_key(k));
                    assert(self.symbols@[k] == old_s[k]);
                }
            }
            assert forall|n: Seq<char>| #[trigger] self.symbol_map@.contains_key(n) implies forall|i: int|
                0 <= i < self.symbol_map@[n]@.len() ==> self.symbols@.contains_key(
                    #[trigger] self.symbol_map@[n]@[i],
                ) by {
                if n == sym.name@ {
                    assert forall|i: int| 0 <= i < self.symbol_map@[n]@.len() implies self.symbols@.contains_key(
                        #[trigger] self.symbol_map@[n]@[i],
                    ) by {
                        if i < ids_v.len() - 1 {
                            assert(old(self).symbol_map@.contains_key(n));
                            assert(old_s.contains_key(old(self).symbol_map@[n]@[i]));
                        }
                    }
                } else {
                    assert(old(self).symbol_map@.contains_key(n));
                }
            }
        }
    }

    /// Records that `caller` calls or depends on `callee`.
    pub fn add_call(&mut self, caller: SymbolId, callee: SymbolId)
        requires
            old(self).wf(),
            old(self).symbols@.contains_key(caller),
            old(self).symbols@.contains_key(callee),
        ensures
            final(self).wf(),
            final(self).resolved_calls@.dom() == old(self).resolved_calls@.dom().insert(caller),
            final(self).resolved_calls@[caller]@ == with_entry(old(self).resolved_calls@, caller, callee),
            forall|k: u32|
                k != caller && #[trigger] old(self).resolved_calls@.contains_key(k) ==> final(self).resolved_calls@[k] == old(self).resolved_calls@[k],
            final(self).symbols@ == old(self).symbols@,
            final(self).symbol_map@ == old(self).symbol_map@,
            final(self).resolved_type_refs@ == old(self).resolved_type_refs@,
            final(self).inheritance@ == old(self).inheritance@,
            final(self).files@ == old(self).files@,
    {
        push_entry(&mut self.resolved_calls, caller, callee);
        proof {
            assert forall|k: SymbolId| #[trigger] self.resolved_calls@.contains_key(k) implies self.symbols@.contains_key(k)
                && forall|i: int| 0 <= i < self.resolved_calls@[k]@.len() ==> self.symbols@.contains_key(
                #[trigger] self.resolved_calls@[k]@[i],
            ) by {
                if k != caller {
                    assert(old(self).resolved_calls@.contains_key(k));
                } else {
                    assert forall|i: int| 0 <= i < self.resolved_calls@[k]@.len() implies self.symbols@.contains_key(
                        #[trigger] self.resolved_calls@[k]@[i],
                    ) by {
                        if i < self.resolved_calls@[k]@.len() - 1 {
                            assert(old(self).resolved_calls@.contains_key(k));
                        }
                    }
                }
            }
        }
    }

    /// Records that `user` refers to the type `ty`.
    pub fn add_type_ref(&mut self, user: SymbolId, ty: SymbolId)
        requires
            old(self).wf(),
            old(self).symbols@.contains_key(user),
            old(self).symbols@.contains_key(ty),
        ensures
            final(self).wf(),
            final(self).resolved_type_refs@.dom() == old(self).resolved_type_refs@.dom().insert(user),
            final(self).resolved_type_refs@[user]@ == with_entry(old(self).resolved_type_refs@, user, ty),
            forall|k: u32|
                k != user && #[trigger] old(self).resolved_type_refs@.contains_key(k) ==> final(self).resolved_type_refs@[k] == old(self).resolved_type_refs@[k],
            final(self).symbols@ == old(self).symbols@,
            final(self).symbol_map@ == old(self).symbol_map@,
            final(self).resolved_calls@ == old(self).resolved_calls@,
            final(self).inheritance@ == old(self).inheritance@,
            final(self).files@ == old(self).files@,
    {
        push_entry(&mut self.resolved_type_refs, user, ty);
        proof {
            assert forall|k: SymbolId| #[trigger] self.resolved_type_refs@.contains_key(k) implies self.symbols@.contains_key(k)
                && forall|i: int| 0 <= i < self.resolved_type_refs@[k]@.len() ==> self.symbols@.contains_key(
                #[trigger] self.resolved_type_refs@[k]@[i],
            ) by {
                if k != user {
                    assert(old(self).resolved_type_refs@.contains_key(k));
                } else {
                    assert forall|i: int| 0 <= i < self.resolved_type_refs@[k]@.len() implies self.symbols@.contains_key(
                        #[trigger] self.resolved_type_refs@[k]@[i],
                    ) by {
                        if i < self.resolved_type_refs@[k]@.len() - 1 {
                            assert(old(self).resolved_type_refs@.contains_key(k));
                        }
                    }
                }
            }
        }
    }

    /// Records that `child` implements or extends `parent`.
    pub fn add_inheritance(&mut self, parent: SymbolId, child: SymbolId)
        requires
            old(self).wf(),
            old(self).symbols@.contains_key(parent),
            old(self).symbols@.contains_key(child),
        ensures
            final(self).wf(),
            final(self).inheritance@.dom() == old(self).inheritance@.dom().insert(parent),
            final(self).inheritance@[parent]@ == with_entry(old(self).inheritance@, parent, child),
            forall|k: u32|
                k != parent && #[trigger] old(self).inheritance@.contains_key(k) ==> final(self).inheritance@[k] == old(self).inheritance@[k],
            final(self).symbols@ == old(self).symbols@,
            final(self).symbol_map@ == old(self).symbol_map@,
            final(self).resolved_calls@ == old(self).resolved_calls@,
            final(self).resolved_type_refs@ == old(self).resolved_type_refs@,
            final(self).files@ == old(self).files@,
    {
        push_entry(&mut self.inheritance, parent, child);
        proof {
            assert forall|k: SymbolId| #[trigger] self.inheritance@.contains_key(k) implies self.symbols@.contains_key(k)
                && forall|i: int| 0 <= i < self.inheritance@[k]@.len() ==> self.symbols@.contains_key(
                #[trigger] self.inheritance@[k]@[i],
            ) by {
                if k != parent {
                    assert(old(self).inheritance@.contains_key(k));
                } else {
                    assert forall|i: int| 0 <= i < self.inheritance@[k]@.len() implies self.symbols@.contains_key(
                        #[trigger] self.inheritance@[k]@[i],
                    ) by {
                        if i < self.inheritance@[k]@.len() - 1 {
                            assert(old(self).inheritance@.contains_key(k));
                        }
                    }
                }
            }
        }
    }
}

/// Whether `v` holds `x`.
pub fn contains_id(v: &Vec<u32>, x: u32) -> (r: bool)
    ensures
        r == v@.contains(x),
{
    let mut i: usize = 0;
    while i < v.len()
        invariant
            0 <= i <= v.len(),
            forall|j: int| 0 <= j < i ==> v@[j] != x,
        decreases v.len() - i,
    {
        if v[i] == x {
            return true;
        }
        i = i + 1;
    }
    false
}

/// The relation `m` lists `y` for `x`.
pub open spec fn lists(m: Map<u32, Vec<u32>>, x: u32, y: u32) -> bool {
    m.contains_key(x) && m[x]@.contains(y)
}

/// The entries of `m` for `x`, or nothing.
pub fn entries_of(m: &HashMap<u32, Vec<u32>>, x: u32) -> (r: Vec<u32>)
    ensures
        forall|y: u32| r@.contains(y) <==> lists(m@, x, y),
{
    match m.get(&x) {
        Some(v) => v.clone(),
        None => Vec::new(),
    }
}

/// The keys of `m` whose entries list `x`.
pub fn keys_listing(m: &HashMap<u32, Vec<u32>>, x: u32) -> (r: Vec<u32>)
    ensures
        forall|y: u32| r@.contains(y) <==> lists(m@, y, x),
{
    let mut out: Vec<u32> = Vec::new();
    broadcast use vstd::std_specs::hash::axiom_spec_hash_map_iter;
    let ghost pairs = vstd::std_specs::hash::spec_hash_map_iter(m).remaining();
    for pair in it: m.iter()
        invariant
            it.seq() == pairs,
            pairs == vstd::std_specs::hash::spec_hash_map_iter(m).remaining(),
            forall|y: u32| out@.contains(y) ==> lists(m@, y, x),
            forall|j: int|
                0 <= j < it.index() ==> (#[trigger] pairs[j].1)@.contains(x) ==> out@.contains(
                    *pairs[j].0,
                ),
    {
        let (k, v) = pair;
        let ghost idx = it.index() as int;
        proof {
            assert(pair == pairs[idx]);
            assert(m@.contains_key(*pairs[idx].0));
            assert(m@[*pairs[idx].0] == *pairs[idx].1);
        }
        let ghost before = out@;
        if contains_id(v, x) {
            out.push(*k);
            proof {
                lemma_push_contains(before, *k);
            }
        }
    }
    proof {
        assert forall|y: u32| lists(m@, y, x) implies out@.contains(y) by {
            assert(m@.contains_key(y));
            assert(pairs.contains((&y, &m@[y])));
            let j = choose|j: int| 0 <= j < pairs.len() && pairs[j] == (&y, &m@[y]);
            assert(pairs[j].1@.contains(x));
        }
    }
    out
}

} // verus!
