//! Source analysis: languages and their configuration, extraction of a
//! file's boundary, and the analysis pipeline (constants, structure,
//! definitions, enrichment).

pub mod language;
pub mod languages;
pub mod boundary;
pub mod constants;
pub mod structural;
pub mod definitions;
pub mod enrichment;

use vstd::prelude::*;
use vstd::hash_map::StringHashMap;
use crate::syntax::MatchData;
use crate::models::SymbolKind;
use crate::schema::{ImportNode, ExportNode};
use crate::analysis::language::{LanguageConfig, SupportedLanguage, compiled_view};
use crate::analysis::constants::{constants_list, extract_local_constants, pairs_view};
use crate::analysis::structural::{
    extract_structure, imports_of, exports_of, per_capture, literal_outputs, long_values,
    implementations_of, route_outputs, middleware_outputs, imports_view, exports_view,
};
use crate::analysis::definitions::{
    extract_definitions, def_outputs, is_skeleton, is_module_scope, functions_ordered, hints_view,
};
use crate::analysis::enrichment::{enrich_functions, enriched, finalized, fn_model};
use crate::analysis::boundary::{matches_of, opt_query_data, opt_shapes_follow};
use crate::syntax::{
    CaptureData, ranges_ordered, parse_source, root_range, root_range_of, language_error, grammar_refused, plain_of, texts_follow, Grammar,
};
use crate::models::strings_view;
use crate::text::{trim_ws, trim_whitespace, chars_of, string_of, string_of_range, has_sub, last_pos, lemma_last_pos, rfind_exec};

verus! {

/// What the analysis of a file finds of one definition (or of the module
/// scope).
pub struct FunctionInfo {
    pub name: String,
    pub kind: SymbolKind,
    pub is_anonymous: bool,
    pub range_start: usize,
    pub range_end: usize,
    /// Where the body starts, for skeletonizing.
    pub body_start: Option<usize>,
    pub source_code: String,
    pub documentation: Option<String>,
    /// Functions called without a receiver.
    pub calls: Vec<String>,
    pub type_refs: Vec<String>,
    pub decorators: Vec<String>,
    /// Each receiver with the methods called on it (`*` for a dynamic
    /// dispatch), receivers in the order first met.
    pub fingerprints: Vec<(String, Vec<String>)>,
    pub return_type: Option<String>,
    /// Local variable name to its declared type.
    pub local_types: StringHashMap<String>,
    /// Local variable name to the function whose result it holds.
    pub local_assigns: StringHashMap<String>,
    pub config_keys: Vec<String>,
    pub dispatched_actions: Vec<String>,
    pub handled_actions: Vec<String>,
    pub routes: Vec<String>,
}

/// What the analysis of a file finds.
pub struct FileAnalysis {
    /// The definitions, then the module scope last.
    pub functions: Vec<FunctionInfo>,
    pub imports: Vec<ImportNode>,
    pub exports: Vec<ExportNode>,
    pub literals: Vec<String>,
    /// Implementing type and the type it implements.
    pub implementations: Vec<(String, String)>,
    pub global_vars: StringHashMap<String>,
    pub middleware_usage: Vec<String>,
    pub defined_routes: Vec<String>,
}

/// The matches of each query of a language over one file; a query that the
/// language does not have, or that does not compile, has no matches.
pub struct QueryMatches {
    pub vals: Vec<MatchData>,
    pub defs: Vec<MatchData>,
    pub imports: Vec<MatchData>,
    pub exports: Vec<MatchData>,
    pub literals: Vec<MatchData>,
    pub implements: Vec<MatchData>,
    pub route_defs: Vec<MatchData>,
    pub middleware: Vec<MatchData>,
    pub config: Vec<MatchData>,
    pub decorators: Vec<MatchData>,
    pub calls: Vec<MatchData>,
    pub types: Vec<MatchData>,
    pub actions: Vec<MatchData>,
    pub docs: Vec<MatchData>,
}


/// The analysis of an empty file.
pub open spec fn is_empty_analysis(fa: FileAnalysis) -> bool {
    &&& fa.functions@.len() == 0
    &&& fa.imports@.len() == 0
    &&& fa.exports@.len() == 0
    &&& fa.literals@.len() == 0
    &&& fa.implementations@.len() == 0
    &&& fa.global_vars@ == Map::<Seq<char>, String>::empty()
    &&& fa.middleware_usage@.len() == 0
    &&& fa.defined_routes@.len() == 0
}

fn empty_analysis() -> (r: FileAnalysis)
    ensures
        is_empty_analysis(r),
{
    FileAnalysis {
        functions: Vec::new(),
        imports: Vec::new(),
        exports: Vec::new(),
        literals: Vec::new(),
        implementations: Vec::new(),
        global_vars: StringHashMap::new(),
        middleware_usage: Vec::new(),
        defined_routes: Vec::new(),
    }
}

/// `fa` is the analysis of a file whose queries matched as `qm`, of the
/// language `lang`, with the root range `root`, in the module `module_name`:
/// its structure from the structural queries and the file's constants, and
/// its functions the enriched skeleton followed by the module scope.
pub open spec fn analysis_of(
    fa: FileAnalysis,
    qm: QueryMatches,
    lang: SupportedLanguage,
    root: (usize, usize),
    module_name: Seq<char>,
) -> bool {
    let consts = constants_list(qm.vals@);
    let (ds, hs) = def_outputs(qm.defs@);
    &&& imports_view(fa.imports@) == imports_of(qm.imports@, lang, consts)
    &&& exports_view(fa.exports@) == exports_of(qm.exports@, consts)
    &&& strings_view(fa.literals@) == per_capture(
        qm.literals@,
        |c: CaptureData| literal_outputs(c, consts),
    ) + long_values(consts)
    &&& crate::analysis::constants::pairs_view(fa.implementations@) == implementations_of(qm.implements@)
    &&& strings_view(fa.defined_routes@) == per_capture(qm.route_defs@, |c: CaptureData| route_outputs(c))
    &&& strings_view(fa.middleware_usage@) == per_capture(
        qm.middleware@,
        |c: CaptureData| middleware_outputs(c),
    )
    &&& fa.global_vars@ == Map::<Seq<char>, String>::empty()
    &&& fa.functions@.len() == ds.len() + 1
    &&& exists|skel: Seq<FunctionInfo>, module0: FunctionInfo|
        {
            &&& skel.len() == ds.len()
            &&& forall|i: int| 0 <= i < ds.len() ==> is_skeleton(#[trigger] skel[i], ds[i])
            &&& functions_ordered(skel)
            &&& is_module_scope(module0, module_name, root)
            &&& {
                let (pre, pre_m) = enriched(skel, module0, hs, qm, consts);
                &&& forall|i: int|
                    0 <= i < ds.len() ==> finalized(pre[i], fn_model(#[trigger] fa.functions@[i]))
                &&& finalized(pre_m, fn_model(fa.functions@[ds.len() as int]))
            }
        }
}

/// The analysis of a file from the matches of its queries: its constants,
/// its structure, its skeleton enriched by the secondary queries, and the
/// module scope last.
pub fn analysis_from_matches(
    qm: &QueryMatches,
    lang: SupportedLanguage,
    root: (usize, usize),
    module_name: &str,
) -> (r: FileAnalysis)
    requires
        root.0 <= root.1,
        ranges_ordered(qm.defs@),
    ensures
        analysis_of(r, *qm, lang, root, module_name@),
{
    let constants = extract_local_constants(&qm.vals);
    let structure = extract_structure(qm, lang, &constants);
    let defs = extract_definitions(&qm.defs, root, module_name);
    let d = match defs {
        Ok(d) => d,
        Err(_) => {
            return empty_analysis();
        },
    };
    let ghost skel = d.functions@;
    let ghost module0 = d.module_info;
    let mut functions = d.functions;
    let mut module_info = d.module_info;
    let hints = d.variable_hints;
    let ghost hv = hints_view(hints@);
    proof {
        assert(crate::analysis::enrichment::ordered(functions@));
    }
    enrich_functions(&mut functions, &mut module_info, hints, qm, &constants);
    let ghost n = functions@.len();
    let ghost before = functions@;
    functions.push(module_info);
    proof {
        let (ds, hs) = def_outputs(qm.defs@);
        assert(hv == hs);
        assert forall|i: int| 0 <= i < ds.len() implies functions@[i] == before[i] by {}
    }
    FileAnalysis {
        functions,
        imports: structure.imports,
        exports: structure.exports,
        literals: structure.literals,
        implementations: structure.implementations,
        global_vars: StringHashMap::new(),
        middleware_usage: structure.middleware_usage,
        defined_routes: structure.defined_routes,
    }
}

proof fn lemma_analysis_witness(
    fa: FileAnalysis,
    qm: QueryMatches,
    lang: SupportedLanguage,
    root: (usize, usize),
    stem: Seq<char>,
    source: Seq<char>,
    config: LanguageConfig,
)
    requires
        analysis_of(fa, qm, lang, root, stem),
        matches_of_config(qm, source, config),
        config.lang == lang,
    ensures
        exists|m: QueryMatches| #[trigger] analysis_of(fa, m, lang, root, stem) && matches_of_config(m, source, config),
{
}

/// The path without its trailing slashes and trailing `.` components
/// (`a/b/./` is read as `a/b`).
pub open spec fn without_trailing_slashes(p: Seq<char>) -> Seq<char>
    decreases p.len(),
{
    if p.len() > 0 && p.last() == '/' {
        without_trailing_slashes(p.drop_last())
    } else if p.len() > 1 && p.last() == '.' && p[p.len() - 2] == '/' {
        without_trailing_slashes(p.drop_last())
    } else {
        p
    }
}

/// The last component of a `/`-separated path.
pub open spec fn last_component(p: Seq<char>) -> Seq<char> {
    let q = without_trailing_slashes(p);
    if has_sub(q, seq!['/']) {
        q.skip(last_pos(q, seq!['/']) + 1)
    } else {
        q
    }
}

/// The stem of a path's file name: its last `/`-separated component up to
/// the component's last dot, where that dot is not its first character;
/// empty where the component is empty, `.` or `..`.
pub open spec fn file_stem_of(path: Seq<char>) -> Seq<char> {
    let name = last_component(path);
    if name == seq!['.'] || name == seq!['.', '.'] {
        Seq::empty()
    } else if has_sub(name, seq!['.']) && last_pos(name, seq!['.']) > 0 {
        name.take(last_pos(name, seq!['.']))
    } else {
        name
    }
}

/// The stem of a path's file name, as [`file_stem_of`] says.
fn file_stem(path: &str) -> (r: String)
    ensures
        r@ == file_stem_of(path@),
{
    let v = chars_of(path);
    let mut end: usize = v.len();
    proof {
        assert(v@.take(v@.len() as int) =~= v@);
    }
    while end > 0 && (v[end - 1] == '/' || (end > 1 && v[end - 1] == '.' && v[end - 2] == '/'))
        invariant
            end <= v@.len(),
            without_trailing_slashes(v@.take(end as int)) == without_trailing_slashes(v@),
        decreases end,
    {
        proof {
            assert(v@.take(end as int).drop_last() =~= v@.take(end - 1));
        }
        end = end - 1;
    }
    let q = chars_of(string_of_range(&v, 0, end).as_str());
    proof {
        assert(q@ =~= v@.take(end as int));
        assert(without_trailing_slashes(q@) == q@);
    }
    let slash: Vec<char> = vec!['/'];
    proof {
        assert(slash@ =~= seq!['/']);
    }
    let name = match rfind_exec(&q, &slash) {
        Some(i) => {
            proof {
                lemma_last_pos(q@, slash@, i as int);
            }
            let n = chars_of(string_of_range(&q, i + 1, q.len()).as_str());
            proof {
                assert(n@ =~= q@.skip(i + 1));
            }
            n
        },
        None => q,
    };
    proof {
        assert(name@ == last_component(path@));
    }
    if (name.len() == 1 && name[0] == '.') || (name.len() == 2 && name[0] == '.' && name[1] == '.') {
        proof {
            if name.len() == 1 {
                assert(name@ =~= seq!['.']);
            } else {
                assert(name@ =~= seq!['.', '.']);
            }
        }
        return String::new();
    }
    proof {
        assert(name@ != seq!['.']);
        assert(name@ != seq!['.', '.']);
    }
    let dot: Vec<char> = vec!['.'];
    proof {
        assert(dot@ =~= seq!['.']);
    }
    match rfind_exec(&name, &dot) {
        Some(d) => {
            proof {
                lemma_last_pos(name@, dot@, d as int);
            }
            if d > 0 {
                let r = string_of_range(&name, 0, d);
                proof {
                    assert(r@ =~= name@.take(d as int));
                }
                r
            } else {
                string_of(&name)
            }
        },
        None => string_of(&name),
    }
}

/// The matches of the queries of `config` over `source`, by their
/// captures' names, node kinds and byte ranges, children and parents'
/// value fields, with each node's text that of `source` over its range: the definition, import and literal queries as the configuration
/// has them; none for the queries that analysis does not run.
pub open spec fn matches_of_config(qm: QueryMatches, source: Seq<char>, config: LanguageConfig) -> bool {
    let t = (config.lang, source);
    &&& plain_of(qm.defs@) == opt_query_data(compiled_view(config.queries.definitions), t)
    &&& plain_of(qm.imports@) == opt_query_data(compiled_view(config.queries.imports), t)
    &&& plain_of(qm.literals@) == opt_query_data(compiled_view(config.queries.literals), t)
    &&& texts_follow(qm.defs@, source)
    &&& texts_follow(qm.imports@, source)
    &&& texts_follow(qm.literals@, source)
    &&& opt_shapes_follow(qm.defs@, compiled_view(config.queries.definitions), source)
    &&& opt_shapes_follow(qm.imports@, compiled_view(config.queries.imports), source)
    &&& opt_shapes_follow(qm.literals@, compiled_view(config.queries.literals), source)
    &&& qm.vals@.len() == 0
    &&& qm.exports@.len() == 0
    &&& qm.implements@.len() == 0
    &&& qm.route_defs@.len() == 0
    &&& qm.middleware@.len() == 0
    &&& qm.config@.len() == 0
    &&& qm.decorators@.len() == 0
    &&& qm.calls@.len() == 0
    &&& qm.types@.len() == 0
    &&& qm.actions@.len() == 0
    &&& qm.docs@.len() == 0
}

/// What analysing a file at `path` with content `source` under `config`
/// gives: an error where tree-sitter refuses the language's grammar, and
/// for a file that is not blank where the definition query did not compile
/// (with the reason the configuration keeps); else an empty analysis for a
/// blank file, and for any other the analysis of the matches of the
/// language's queries over the file.
#[verifier::opaque]
pub open spec fn analysis_result(
    r: Result<FileAnalysis, String>,
    path: Seq<char>,
    source: Seq<char>,
    config: LanguageConfig,
) -> bool {
    &&& r is Err <==> grammar_refused(config.lang) || (trim_ws(source).len() > 0
        && config.queries.definitions_error is Some)
    &&& r matches Err(e) ==> (!grammar_refused(config.lang) ==> (config.queries.definitions_error matches Some(
        m,
    ) && e@ == m@))
    &&& r matches Ok(fa) ==> (trim_ws(source).len() == 0 ==> is_empty_analysis(fa))
    &&& r matches Ok(fa) ==> (trim_ws(source).len() > 0 ==> exists|m: QueryMatches|
        #[trigger] analysis_of(fa, m, config.lang, root_range_of(config.lang, source), file_stem_of(path))
            && matches_of_config(m, source, config))
}

/// Analyzes a source file: parses it with the language's grammar, runs the
/// language's queries and builds the analysis from their matches (see
/// [`analysis_from_matches`]). An empty (or blank) file has an empty
/// analysis. Fails where the grammar cannot be loaded, and for a file that
/// is not blank where the definition query does not compile.
pub fn analyze_source(path: &str, source_code: &str, config: &LanguageConfig) -> (r: Result<
    FileAnalysis,
    String,
>)
    ensures
        analysis_result(r, path@, source_code@, *config),
{
    let grammar = Grammar::of(config.lang);
    match language_error(&grammar) {
        Some(e) => {
            proof {
                reveal(analysis_result);
            }
            return Err(e);
        },
        None => {},
    }
    let trimmed = trim_whitespace(source_code);
    let tv = chars_of(trimmed.as_str());
    if tv.len() == 0 {
        let e = empty_analysis();
        proof {
            assert(trim_ws(source_code@).len() == 0);
            reveal(analysis_result);
        }
        return Ok(e);
    }
    proof {
        assert(trim_ws(source_code@).len() > 0);
    }
    let tree = match parse_source(&grammar, source_code) {
        Some(t) => t,
        None => {
            proof {
                reveal(analysis_result);
            }
            return Err("Failed to parse code".to_string());
        },
    };
    match &config.queries.definitions_error {
        Some(e) => {
            let err = e.clone();
            proof {
                reveal(analysis_result);
            }
            return Err(err);
        },
        None => {},
    }
    let root = root_range(&tree);
    let qm = QueryMatches {
        vals: Vec::new(),
        defs: matches_of(&config.queries.definitions, &tree),
        imports: matches_of(&config.queries.imports, &tree),
        exports: Vec::new(),
        literals: matches_of(&config.queries.literals, &tree),
        implements: Vec::new(),
        route_defs: Vec::new(),
        middleware: Vec::new(),
        config: Vec::new(),
        decorators: Vec::new(),
        calls: Vec::new(),
        types: Vec::new(),
        actions: Vec::new(),
        docs: Vec::new(),
    };
    let module_name = file_stem(path);
    let fa = analysis_from_matches(&qm, config.lang, root, module_name.as_str());
    proof {
        assert(analysis_of(fa, qm, config.lang, root, file_stem_of(path@)));
        assert(matches_of_config(qm, source_code@, *config));
        lemma_analysis_witness(fa, qm, config.lang, root, file_stem_of(path@), source_code@, *config);
    }
    let ghost fa0 = fa;
    let r: Result<FileAnalysis, String> = Ok(fa);
    proof {
        assert(r matches Ok(x) ==> x == fa0);
        reveal(analysis_result);
    }
    r
}
} // verus!
