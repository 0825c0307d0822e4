//! How the definitions of an analysed file become symbols of the index.

use vstd::prelude::*;
use crate::text::{lowercase, starts_with, ends_with, has_sub, trim_start_ws, chars_of, to_lower, str_eq, str_ends_with, str_starts_with, str_contains, trim_bounds, ws_set, string_of_range};
use crate::analysis::FunctionInfo;
use crate::analysis::enrichment::clone_strings;
use crate::schema::{SymbolNode, SymbolId, FileId};
use crate::models::strings_view;
use crate::manifest::opt_chars;

verus! {

// ---------------------------------------------------------------------------
// Symbols of an analysed file
// ---------------------------------------------------------------------------

/// How the indexer classifies a definition: the module scope, a container
/// (its code declares a class or an interface) or a function.
pub open spec fn symbol_kind_of(name: Seq<char>, code: Seq<char>) -> Seq<char> {
    if starts_with(name, "(module)"@) {
        "module"@
    } else if has_sub(code, "class "@) || has_sub(code, "interface "@) {
        "container"@
    } else {
        "function"@
    }
}

/// Code that opens a JavaScript test block (`it(`, `describe(`, hooks).
pub open spec fn is_js_test_block(code: Seq<char>) -> bool {
    starts_with(code, "it("@) || starts_with(code, "it."@) || starts_with(code, "test("@)
        || starts_with(code, "test."@) || starts_with(code, "describe("@) || starts_with(
        code,
        "describe."@,
    ) || starts_with(code, "suite("@) || starts_with(code, "context("@) || starts_with(
        code,
        "beforeEach("@,
    ) || starts_with(code, "afterEach("@)
}

/// A (lower-case) name of a test, a mock or a fixture.
pub open spec fn is_test_named(n: Seq<char>) -> bool {
    starts_with(n, "test_"@) || ends_with(n, "_test"@) || n == "test"@ || has_sub(n, "mock"@)
        || has_sub(n, "fixture"@)
}

/// Code marked as a test by an attribute or an annotation.
pub open spec fn has_test_marker(code: Seq<char>) -> bool {
    has_sub(code, "#[test]"@) || has_sub(code, "@Test"@) || has_sub(code, "@fixture"@)
}

/// A definition that is a test by itself, wherever it lies.
pub open spec fn is_inline_test(name: Seq<char>, code: Seq<char>) -> bool {
    !starts_with(name, "(module)"@) && (is_js_test_block(trim_start_ws(code)) || is_test_named(
        lowercase(name),
    ) || has_test_marker(code))
}

/// The indexer's kind of the `j`-th definition.
pub open spec fn kind_at(fs: Seq<FunctionInfo>, j: int) -> Seq<char> {
    symbol_kind_of(fs[j].name@, fs[j].source_code@)
}

/// Definition `j` lies within definition `c`.
pub open spec fn within(fs: Seq<FunctionInfo>, j: int, c: int) -> bool {
    fs[j].range_start >= fs[c].range_start && fs[j].range_end <= fs[c].range_end
}

/// The last container among the first `upto` definitions, other than `j`,
/// that holds definition `j`.
pub open spec fn last_container(fs: Seq<FunctionInfo>, j: int, upto: int) -> Option<int>
    decreases upto,
{
    if upto <= 0 {
        None
    } else if upto - 1 != j && kind_at(fs, upto - 1) == "container"@ && within(fs, j, upto - 1) {
        Some(upto - 1)
    } else {
        last_container(fs, j, upto - 1)
    }
}

/// The first module scope among the first `upto` definitions.
pub open spec fn first_module(fs: Seq<FunctionInfo>, upto: int) -> Option<int>
    decreases upto,
{
    if upto <= 0 {
        None
    } else {
        match first_module(fs, upto - 1) {
            Some(m) => Some(m),
            None => if kind_at(fs, upto - 1) == "module"@ {
                Some(upto - 1)
            } else {
                None
            },
        }
    }
}

/// The definition that holds definition `j`: the last container holding it,
/// else the module scope (unless `j` is that scope).
pub open spec fn parent_index(fs: Seq<FunctionInfo>, j: int) -> Option<int> {
    match last_container(fs, j, fs.len() as int) {
        Some(c) => Some(c),
        None => match first_module(fs, fs.len() as int) {
            Some(m) => if m != j {
                Some(m)
            } else {
                None
            },
            None => None,
        },
    }
}

/// `n` is the symbol the indexer makes of definition `f`, numbered `id`, of
/// file `file_id` (a test file where `path_test`), under `parent`.
pub open spec fn is_symbol_of(
    n: SymbolNode,
    f: FunctionInfo,
    id: SymbolId,
    file_id: FileId,
    path_test: bool,
    parent: Option<SymbolId>,
) -> bool {
    &&& n.id == id
    &&& n.file_id == file_id
    &&& n.parent_id == parent
    &&& n.name@ == f.name@
    &&& n.kind@ == symbol_kind_of(f.name@, f.source_code@)
    &&& n.range_start == f.range_start
    &&& n.range_end == f.range_end
    &&& opt_chars(n.doc_comment) == opt_chars(f.documentation)
    &&& opt_chars(n.return_type) == opt_chars(f.return_type)
    &&& n.is_test == (path_test || is_inline_test(f.name@, f.source_code@))
    &&& !n.is_external
    &&& n.external_source is None
    &&& strings_view(n.decorators@) == strings_view(f.decorators@)
}

/// The symbols the indexer makes of the definitions of a file, numbered from
/// `first`: each linked to the definition that holds it.
pub open spec fn are_file_symbols(
    r: Seq<SymbolNode>,
    fs: Seq<FunctionInfo>,
    file_id: FileId,
    first: SymbolId,
    path_test: bool,
) -> bool {
    &&& r.len() == fs.len()
    &&& forall|j: int|
        0 <= j < fs.len() ==> is_symbol_of(
            #[trigger] r[j],
            fs[j],
            (first + j) as SymbolId,
            file_id,
            path_test,
            match parent_index(fs, j) {
                Some(c) => Some((first + c) as SymbolId),
                None => None,
            },
        )
}

pub(crate) fn copy_opt(o: &Option<String>) -> (r: Option<String>)
    ensures
        opt_chars(r) == opt_chars(*o),
{
    match o {
        Some(s) => Some(s.clone()),
        None => None,
    }
}

pub(crate) fn symbol_kind_exec(name: &str, code: &str) -> (r: String)
    ensures
        r@ == symbol_kind_of(name@, code@),
{
    if str_starts_with(name, "(module)") {
        "module".to_string()
    } else if str_contains(code, "class ") || str_contains(code, "interface ") {
        "container".to_string()
    } else {
        "function".to_string()
    }
}

pub(crate) fn trimmed_start(s: &str) -> (r: String)
    ensures
        r@ == trim_start_ws(s@),
{
    let v = chars_of(s);
    let ws = ws_set();
    let (a, _b) = trim_bounds(&v, &ws);
    string_of_range(&v, a, v.len())
}

pub(crate) fn is_inline_test_exec(name: &str, code: &str) -> (r: bool)
    ensures
        r == is_inline_test(name@, code@),
{
    if str_starts_with(name, "(module)") {
        return false;
    }
    let t = trimmed_start(code);
    let c = t.as_str();
    let js = str_starts_with(c, "it(") || str_starts_with(c, "it.") || str_starts_with(c, "test(")
        || str_starts_with(c, "test.") || str_starts_with(c, "describe(") || str_starts_with(
        c,
        "describe.",
    ) || str_starts_with(c, "suite(") || str_starts_with(c, "context(") || str_starts_with(
        c,
        "beforeEach(",
    ) || str_starts_with(c, "afterEach(");
    let lower = to_lower(name);
    let l = lower.as_str();
    let named = str_starts_with(l, "test_") || str_ends_with(l, "_test") || str_eq(l, "test")
        || str_contains(l, "mock") || str_contains(l, "fixture");
    let marked = str_contains(code, "#[test]") || str_contains(code, "@Test") || str_contains(
        code,
        "@fixture",
    );
    js || named || marked
}

/// The index of the definition that holds definition `j` (see
/// [`parent_index`]), given the kinds of all definitions and the first
/// module scope.
pub(crate) fn parent_index_exec(fs: &Vec<FunctionInfo>, kinds: &Vec<String>, module: Option<usize>, j: usize) -> (r:
    Option<usize>)
    requires
        j < fs@.len(),
        kinds@.len() == fs@.len(),
        forall|i: int| 0 <= i < fs@.len() ==> #[trigger] kinds@[i]@ == kind_at(fs@, i),
        match module {
            Some(m) => first_module(fs@, fs@.len() as int) == Some(m as int),
            None => first_module(fs@, fs@.len() as int) is None,
        },
    ensures
        match r {
            Some(c) => parent_index(fs@, j as int) == Some(c as int),
            None => parent_index(fs@, j as int) is None,
        },
{
    let mut best: Option<usize> = None;
    let mut c: usize = 0;
    while c < fs.len()
        invariant
            0 <= c <= fs@.len(),
            j < fs@.len(),
            kinds@.len() == fs@.len(),
            forall|i: int| 0 <= i < fs@.len() ==> #[trigger] kinds@[i]@ == kind_at(fs@, i),
            match best {
                Some(b) => last_container(fs@, j as int, c as int) == Some(b as int),
                None => last_container(fs@, j as int, c as int) is None,
            },
        decreases fs@.len() - c,
    {
        let is_container = str_eq(kinds[c].as_str(), "container");
        proof {
            assert(kinds@[c as int]@ == kind_at(fs@, c as int));
        }
        if c != j && is_container && fs[j].range_start >= fs[c].range_start && fs[j].range_end
            <= fs[c].range_end {
            best = Some(c);
        }
        c = c + 1;
    }
    match best {
        Some(b) => Some(b),
        None => match module {
            Some(m) => if m != j {
                Some(m)
            } else {
                None
            },
            None => None,
        },
    }
}

/// The first module scope among the definitions, given their kinds.
pub(crate) fn first_module_exec(fs: &Vec<FunctionInfo>, kinds: &Vec<String>) -> (r: Option<usize>)
    requires
        kinds@.len() == fs@.len(),
        forall|i: int| 0 <= i < fs@.len() ==> #[trigger] kinds@[i]@ == kind_at(fs@, i),
    ensures
        match r {
            Some(m) => first_module(fs@, fs@.len() as int) == Some(m as int),
            None => first_module(fs@, fs@.len() as int) is None,
        },
{
    let mut i: usize = 0;
    while i < fs.len()
        invariant
            0 <= i <= fs@.len(),
            kinds@.len() == fs@.len(),
            forall|k: int| 0 <= k < fs@.len() ==> #[trigger] kinds@[k]@ == kind_at(fs@, k),
            first_module(fs@, i as int) is None,
        decreases fs@.len() - i,
    {
        proof {
            assert(kinds@[i as int]@ == kind_at(fs@, i as int));
        }
        if str_eq(kinds[i].as_str(), "module") {
            proof {
                lemma_first_module_found(fs@, i as int, fs@.len() as int);
            }
            return Some(i);
        }
        i = i + 1;
    }
    None
}

pub(crate) proof fn lemma_last_container_bound(fs: Seq<FunctionInfo>, j: int, upto: int)
    ensures
        last_container(fs, j, upto) matches Some(c) ==> 0 <= c < upto,
    decreases upto,
{
    if upto > 0 {
        lemma_last_container_bound(fs, j, upto - 1);
    }
}

pub(crate) proof fn lemma_first_module_bound(fs: Seq<FunctionInfo>, upto: int)
    ensures
        first_module(fs, upto) matches Some(m) ==> 0 <= m < upto,
    decreases upto,
{
    if upto > 0 {
        lemma_first_module_bound(fs, upto - 1);
    }
}

/// The definition that holds another is one of the file's definitions.
pub(crate) proof fn lemma_parent_bound(fs: Seq<FunctionInfo>, j: int)
    ensures
        parent_index(fs, j) matches Some(c) ==> 0 <= c < fs.len(),
{
    lemma_last_container_bound(fs, j, fs.len() as int);
    lemma_first_module_bound(fs, fs.len() as int);
}

/// Once found, the first module scope stays the first.
pub(crate) proof fn lemma_first_module_found(fs: Seq<FunctionInfo>, m: int, upto: int)
    requires
        0 <= m < upto,
        first_module(fs, m) is None,
        kind_at(fs, m) == "module"@,
    ensures
        first_module(fs, upto) == Some(m),
    decreases upto - m,
{
    if upto > m + 1 {
        lemma_first_module_found(fs, m, upto - 1);
    }
}

/// The symbols of an analysed file's definitions, numbered from `first`, in
/// the file of identifier `file_id`: each classified as a module scope, a
/// container or a function, marked as a test where the file is a test file
/// or the definition is a test by itself, and linked to the last container
/// that holds it or else to the file's module scope.
pub fn symbols_of_file(functions: &Vec<FunctionInfo>, file_id: FileId, first: SymbolId, path_test: bool) -> (r:
    Vec<SymbolNode>)
    requires
        first + functions@.len() <= u32::MAX,
    ensures
        are_file_symbols(r@, functions@, file_id, first, path_test),
{
    let n = functions.len();
    let mut kinds: Vec<String> = Vec::new();
    let mut i: usize = 0;
    while i < n
        invariant
            n == functions@.len(),
            0 <= i <= n,
            kinds@.len() == i,
            forall|k: int| 0 <= k < i ==> #[trigger] kinds@[k]@ == kind_at(functions@, k),
        decreases n - i,
    {
        let k = symbol_kind_exec(functions[i].name.as_str(), functions[i].source_code.as_str());
        kinds.push(k);
        i = i + 1;
    }
    let module = first_module_exec(functions, &kinds);
    let mut out: Vec<SymbolNode> = Vec::new();
    let mut j: usize = 0;
    while j < n
        invariant
            n == functions@.len(),
            first + n <= u32::MAX,
            0 <= j <= n,
            kinds@.len() == n,
            forall|k: int| 0 <= k < n ==> #[trigger] kinds@[k]@ == kind_at(functions@, k),
            match module {
                Some(m) => first_module(functions@, n as int) == Some(m as int),
                None => first_module(functions@, n as int) is None,
            },
            out@.len() == j,
            forall|k: int|
                0 <= k < j ==> is_symbol_of(
                    #[trigger] out@[k],
                    functions@[k],
                    (first + k) as SymbolId,
                    file_id,
                    path_test,
                    match parent_index(functions@, k) {
                        Some(c) => Some((first + c) as SymbolId),
                        None => None,
                    },
                ),
        decreases n - j,
    {
        let f = &functions[j];
        let parent = parent_index_exec(functions, &kinds, module, j);
        proof {
            lemma_parent_bound(functions@, j as int);
        }
        let parent_id: Option<SymbolId> = match parent {
            Some(c) => Some(first + c as u32),
            None => None,
        };
        let inline = is_inline_test_exec(f.name.as_str(), f.source_code.as_str());
        let node = SymbolNode {
            id: first + j as u32,
            file_id,
            parent_id,
            name: f.name.clone(),
            kind: kinds[j].clone(),
            range_start: f.range_start,
            range_end: f.range_end,
            doc_comment: copy_opt(&f.documentation),
            return_type: copy_opt(&f.return_type),
            is_test: path_test || inline,
            is_external: false,
            external_source: None,
            decorators: clone_strings(&f.decorators),
        };
        proof {
            assert(kinds@[j as int]@ == kind_at(functions@, j as int));
        }
        out.push(node);
        j = j + 1;
    }
    out
}

} // verus!
