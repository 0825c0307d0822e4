//! The index data model: files, their definitions and their outgoing
//! references.

use std::collections::HashMap;
use vstd::prelude::*;

verus! {

/// Identifier of a file in the index.
pub type FileId = u32;

/// Simplified classification for UI icons and skeletal logic.
#[derive(Debug, Clone, Copy, PartialEq, Eq, Structural)]
pub enum SymbolKind {
    File,
    Module,
    Function,
    Class,
    Interface,
    Variable,
    Method,
    Export,
    Unknown,
    /// An infrastructure resource or data source (HCL).
    Resource,
    /// A macro definition.
    Macro,
    /// Code produced by a macro invocation.
    MacroGenerated,
    /// A class, interface, struct, impl block or module: a definition that
    /// holds others.
    Container,
}

/// A definition found within a file, with the byte range of the whole
/// definition and, where it has one, of the body that can be skeletonized.
#[derive(Debug)]
pub struct Definition {
    pub name: String,
    pub kind: SymbolKind,
    pub range: (usize, usize),
    pub body_range: Option<(usize, usize)>,
}

/// The mathematical model of a [`Definition`].
pub struct DefinitionV {
    pub name: Seq<char>,
    pub kind: SymbolKind,
    pub range: (usize, usize),
    pub body_range: Option<(usize, usize)>,
}

impl View for Definition {
    type V = DefinitionV;

    open spec fn view(&self) -> DefinitionV {
        DefinitionV {
            name: self.name@,
            kind: self.kind,
            range: self.range,
            body_range: self.body_range,
        }
    }
}

/// Framework-specific raw data extracted while parsing: a key (such as
/// `Controller`), a value (such as `/api/users`) and where it was found.
#[derive(Debug, Default)]
pub struct FrameworkHint {
    pub key: String,
    pub value: String,
    pub range: (usize, usize),
}

/// The mathematical model of a [`FrameworkHint`].
pub struct FrameworkHintV {
    pub key: Seq<char>,
    pub value: Seq<char>,
    pub range: (usize, usize),
}

impl View for FrameworkHint {
    type V = FrameworkHintV;

    open spec fn view(&self) -> FrameworkHintV {
        FrameworkHintV { key: self.key@, value: self.value@, range: self.range }
    }
}

impl Clone for Definition {
    fn clone(&self) -> (r: Self)
        ensures
            r@ == self@,
    {
        Definition {
            name: self.name.clone(),
            kind: self.kind,
            range: self.range,
            body_range: self.body_range,
        }
    }
}

impl Clone for FrameworkHint {
    fn clone(&self) -> (r: Self)
        ensures
            r@ == self@,
    {
        FrameworkHint { key: self.key.clone(), value: self.value.clone(), range: self.range }
    }
}

/// The models of a list of strings.
pub open spec fn strings_view(v: Seq<String>) -> Seq<Seq<char>> {
    v.map_values(|s: String| s@)
}

/// The models of a list of definitions.
pub open spec fn defs_view(v: Seq<Definition>) -> Seq<DefinitionV> {
    v.map_values(|d: Definition| d@)
}

/// The models of a list of framework hints.
pub open spec fn hints_view(v: Seq<FrameworkHint>) -> Seq<FrameworkHintV> {
    v.map_values(|h: FrameworkHint| h@)
}

/// The atomic unit of the index: one file and its public boundary
/// (definitions and outgoing references).
#[derive(Debug, Clone, Default)]
pub struct FileBoundary {
    pub id: FileId,
    /// Path relative to the workspace root.
    pub path: String,
    /// The root configuration this file belongs to.
    pub root_id: String,
    /// Content hash, for change detection.
    pub hash: [u8; 32],
    pub token_count: u32,
    /// Whether the file belongs to tests (set by the scanner from its path).
    pub is_test: bool,
    /// What the file defines.
    pub defs: Vec<Definition>,
    /// Import sources as written in the file.
    pub imports: Vec<String>,
    /// Identifiers mentioned by the file.
    pub symbol_refs: Vec<String>,
    /// String literals found in the file.
    pub literals: Vec<String>,
    /// Logical definitions inferred from the path or structure.
    pub synthetic_defs: Vec<String>,
    /// Framework-specific raw data.
    pub framework_hints: Vec<FrameworkHint>,
}

/// The main index: the files plus inverted indices for lookups.
#[derive(Debug, Default)]
pub struct BoundaryIndex {
    /// Keeps identifiers stable across incremental scans.
    pub next_file_id: u32,
    pub files: HashMap<FileId, FileBoundary>,
    /// Symbol name to the files that define it.
    pub symbol_map: HashMap<String, Vec<FileId>>,
    /// Path suffix to the files that match it.
    pub path_map: HashMap<String, Vec<FileId>>,
    pub package_map: HashMap<String, String>,
    /// Significant token to the files that mention it.
    pub usage_map: HashMap<String, Vec<FileId>>,
    /// Path prefix aliases (`@components/` to `src/components/`).
    pub alias_map: HashMap<String, String>,
}

impl BoundaryIndex {
    /// An empty index whose first file identifier is 1 (0 is reserved).
    pub fn new() -> (r: Self)
        ensures
            r.next_file_id == 1,
            r.files@ == Map::<FileId, FileBoundary>::empty(),
            r.symbol_map@ == Map::<String, Vec<FileId>>::empty(),
            r.path_map@ == Map::<String, Vec<FileId>>::empty(),
            r.package_map@ == Map::<String, String>::empty(),
            r.usage_map@ == Map::<String, Vec<FileId>>::empty(),
            r.alias_map@ == Map::<String, String>::empty(),
    {
        BoundaryIndex {
            next_file_id: 1,
            files: HashMap::new(),
            symbol_map: HashMap::new(),
            path_map: HashMap::new(),
            package_map: HashMap::new(),
            usage_map: HashMap::new(),
            alias_map: HashMap::new(),
        }
    }
}

} // verus!
