//! Extraction of a file's boundary: its definitions, imports, references,
//! literals and framework hints.
//!
//! [`extract_boundary`] parses the file and runs the language's queries;
//! [`assemble_boundary`] turns the query matches into a [`FileBoundary`] and
//! carries the exact specification of that step.

use vstd::prelude::*;
use vstd::hash_set::StringHashSet;
use vstd::string::StrSliceExecFns;
use vstd::utf8::encode_utf8;
use crate::analysis::language::{LanguageConfig, SupportedLanguage, compiled_view};
use crate::models::{
    defs_view, hints_view, strings_view, Definition, DefinitionV, FileBoundary, FrameworkHint,
    FrameworkHintV, SymbolKind,
};
use crate::lemmas::{lemma_filter_take_step, lemma_push_no_dup, lemma_push_to_set};
use crate::syntax::{
    parse_source, run_query, language_error, grammar_refused, plain_of, query_data, texts_follow, shapes_follow, CompiledQuery, Grammar, ParsedTree,
    CaptureData, ChildData, MatchData,
};
use crate::text::{
    alphabetic, has_sub, is_alphabetic, owned, str_contains, str_eq, trim_quote_chars,
    trim_quotes,
};

verus! {

broadcast use vstd::string::group_string_axioms;

// ---------------------------------------------------------------------------
// Definitions
// ---------------------------------------------------------------------------

/// The symbol kind of a definition node, inferred from its grammar kind and,
/// for variable-like nodes, from whether it holds a function.
pub open spec fn node_symbol_kind(k: Seq<char>, children: Seq<ChildData>) -> SymbolKind {
    if k == "class_member_definition"@ || k == "lambda_expression"@ || has_sub(k, "function"@)
        || has_sub(k, "fn"@) || has_sub(k, "method"@) || has_sub(k, "macro"@) {
        SymbolKind::Function
    } else if k == "service_declaration"@ || k == "match_declaration"@ || has_sub(k, "class"@)
        || has_sub(k, "struct"@) || has_sub(k, "record"@) || has_sub(k, "object"@) || has_sub(
        k,
        "model"@,
    ) || has_sub(k, "enum"@) {
        SymbolKind::Class
    } else if has_sub(k, "interface"@) || has_sub(k, "trait"@) || has_sub(k, "impl"@) {
        SymbolKind::Interface
    } else if has_sub(k, "type"@) && !has_sub(k, "type_identifier"@) {
        SymbolKind::Class
    } else if has_sub(k, "module"@) || has_sub(k, "namespace"@) || has_sub(k, "package"@) {
        SymbolKind::Module
    } else if has_sub(k, "const"@) || has_sub(k, "let"@) || has_sub(k, "var"@) || has_sub(
        k,
        "declarator"@,
    ) {
        if holds_function(children) {
            SymbolKind::Function
        } else {
            SymbolKind::Variable
        }
    } else if k == "create_table"@ {
        SymbolKind::Class
    } else if k == "binary_operator"@ {
        SymbolKind::Function
    } else if has_sub(k, "resource"@) {
        SymbolKind::Class
    } else {
        SymbolKind::Unknown
    }
}

/// The grammar kind names a function-like definition (the first markers
/// that [`node_symbol_kind`] looks for).
pub open spec fn names_function_like(k: Seq<char>) -> bool {
    k == "class_member_definition"@ || k == "lambda_expression"@ || has_sub(k, "function"@) || has_sub(k, "fn"@)
        || has_sub(k, "method"@) || has_sub(k, "macro"@)
}

/// The grammar kind names a class-like definition.
pub open spec fn names_class_like(k: Seq<char>) -> bool {
    k == "service_declaration"@ || k == "match_declaration"@ || has_sub(k, "class"@) || has_sub(k, "struct"@)
        || has_sub(k, "record"@) || has_sub(k, "object"@) || has_sub(k, "model"@) || has_sub(k, "enum"@)
}

/// A definition whose grammar kind names an interface, a trait or an impl
/// block, and no function or class, is an interface, whatever its children.
pub proof fn law_interfaces_are_interfaces(k: Seq<char>, children: Seq<ChildData>)
    requires
        has_sub(k, "interface"@) || has_sub(k, "trait"@) || has_sub(k, "impl"@),
        !names_function_like(k),
        !names_class_like(k),
    ensures
        node_symbol_kind(k, children) == SymbolKind::Interface,
{
}

/// A definition whose grammar kind names a function (or method, lambda,
/// macro) is a function, whatever its children.
pub proof fn law_function_kinds_are_functions(k: Seq<char>, children: Seq<ChildData>)
    requires
        names_function_like(k),
    ensures
        node_symbol_kind(k, children) == SymbolKind::Function,
{
}

/// A definition whose grammar kind names a class, struct, record, object,
/// model or enum, and no function, is a class, whatever its children.
pub proof fn law_class_kinds_are_classes(k: Seq<char>, children: Seq<ChildData>)
    requires
        names_class_like(k),
        !names_function_like(k),
    ensures
        node_symbol_kind(k, children) == SymbolKind::Class,
{
}

/// A declarator (`const`, `let`, `var` or `declarator` in its kind, and no
/// earlier marker) is a function exactly when one of its children holds a
/// function, and a variable otherwise; its children decide nothing else.
pub proof fn law_declarators_follow_their_children(k: Seq<char>, a: Seq<ChildData>, b: Seq<ChildData>)
    requires
        has_sub(k, "const"@) || has_sub(k, "let"@) || has_sub(k, "var"@) || has_sub(k, "declarator"@),
        !names_function_like(k),
        !names_class_like(k),
        !(has_sub(k, "interface"@) || has_sub(k, "trait"@) || has_sub(k, "impl"@)),
        !(has_sub(k, "type"@) && !has_sub(k, "type_identifier"@)),
        !(has_sub(k, "module"@) || has_sub(k, "namespace"@) || has_sub(k, "package"@)),
    ensures
        node_symbol_kind(k, a) == (if holds_function(a) {
            SymbolKind::Function
        } else {
            SymbolKind::Variable
        }),
        holds_function(a) == holds_function(b) ==> node_symbol_kind(k, a) == node_symbol_kind(k, b),
{
}


/// A definition whose grammar kind names a module, namespace or package,
/// and no function, class, interface or named type, is a module.
pub proof fn law_module_kinds_are_modules(k: Seq<char>, children: Seq<ChildData>)
    requires
        has_sub(k, "module"@) || has_sub(k, "namespace"@) || has_sub(k, "package"@),
        !names_function_like(k),
        !names_class_like(k),
        !(has_sub(k, "interface"@) || has_sub(k, "trait"@) || has_sub(k, "impl"@)),
        !(has_sub(k, "type"@) && !has_sub(k, "type_identifier"@)),
    ensures
        node_symbol_kind(k, children) == SymbolKind::Module,
{
}

/// A declarator with an arrow function, a function expression or a call
/// among its children, or a child whose `value` is a function, is a
/// function.
pub proof fn law_declarator_with_function_child(k: Seq<char>, children: Seq<ChildData>, i: int)
    requires
        has_sub(k, "const"@) || has_sub(k, "let"@) || has_sub(k, "var"@) || has_sub(k, "declarator"@),
        !names_function_like(k),
        !names_class_like(k),
        !(has_sub(k, "interface"@) || has_sub(k, "trait"@) || has_sub(k, "impl"@)),
        !(has_sub(k, "type"@) && !has_sub(k, "type_identifier"@)),
        !(has_sub(k, "module"@) || has_sub(k, "namespace"@) || has_sub(k, "package"@)),
        0 <= i < children.len(),
        children[i].node.kind@ == "arrow_function"@ || children[i].node.kind@ == "function_expression"@
            || children[i].node.kind@ == "call_expression"@ || (children[i].value_kind matches Some(v) && has_sub(
            v@,
            "function"@,
        )),
    ensures
        node_symbol_kind(k, children) == SymbolKind::Function,
{
    assert(function_child(children[i]));
}

/// A child that makes a variable definition a function: an arrow function,
/// a function expression or a call, or a child whose `value` is a function.
pub open spec fn function_child(c: ChildData) -> bool {
    c.node.kind@ == "arrow_function"@ || c.node.kind@ == "function_expression"@ || c.node.kind@
        == "call_expression"@ || (c.value_kind matches Some(v) && has_sub(v@, "function"@))
}

/// Whether some child makes a variable definition a function.
pub open spec fn holds_function(children: Seq<ChildData>) -> bool {
    exists|i: int| 0 <= i < children.len() && function_child(#[trigger] children[i])
}

/// What has been read of a definition match so far.
pub struct DefState {
    pub name: Seq<char>,
    pub def_range: (usize, usize),
    pub body_range: Option<(usize, usize)>,
    pub kind: SymbolKind,
}

/// Reading one capture of a definition match.
pub open spec fn def_capture_step(st: DefState, c: CaptureData) -> DefState {
    let n = c.name@;
    if n == "name"@ || n == "function.name"@ || n == "variable.name"@ || n == "type.name"@ {
        DefState { name: c.node.text@, ..st }
    } else if n == "def"@ || n == "function.definition"@ {
        DefState {
            def_range: (c.node.start, c.node.end),
            kind: node_symbol_kind(c.node.kind@, c.children@),
            ..st
        }
    } else if n == "body"@ || n == "function.body"@ {
        DefState { body_range: Some((c.node.start, c.node.end)), ..st }
    } else if n == "function.kind"@ {
        let t = c.node.text@;
        if t == "resource"@ || t == "data"@ {
            DefState { kind: SymbolKind::Class, ..st }
        } else if t == "variable"@ || t == "output"@ || t == "provider"@ {
            DefState { kind: SymbolKind::Variable, ..st }
        } else if t == "module"@ {
            DefState { kind: SymbolKind::Module, ..st }
        } else {
            st
        }
    } else {
        st
    }
}

/// The state after reading a sequence of captures in order.
pub open spec fn def_fold(caps: Seq<CaptureData>) -> DefState
    decreases caps.len(),
{
    if caps.len() == 0 {
        DefState { name: seq![], def_range: (0, 0), body_range: None, kind: SymbolKind::Unknown }
    } else {
        def_capture_step(def_fold(caps.drop_last()), caps.last())
    }
}

/// The definition a match yields: unnamed definitions are called
/// `anonymous`, the generic HCL block names `resource` and `data` are
/// skipped, and so are empty ranges.
pub open spec fn def_of_match(m: MatchData) -> Option<DefinitionV> {
    let st = def_fold(m.captures@);
    let name = if st.name.len() == 0 {
        "anonymous"@
    } else {
        st.name
    };
    if name == "resource"@ || name == "data"@ {
        None
    } else if st.def_range.0 != st.def_range.1 {
        Some(DefinitionV { name, kind: st.kind, range: st.def_range, body_range: st.body_range })
    } else {
        None
    }
}

/// The definitions of a sequence of matches, in order.
pub open spec fn defs_from_matches(ms: Seq<MatchData>) -> Seq<DefinitionV>
    decreases ms.len(),
{
    if ms.len() == 0 {
        seq![]
    } else {
        match def_of_match(ms.last()) {
            Some(d) => defs_from_matches(ms.drop_last()).push(d),
            None => defs_from_matches(ms.drop_last()),
        }
    }
}

// ---------------------------------------------------------------------------
// Imports, references, literals
// ---------------------------------------------------------------------------

/// The import a capture yields: the unquoted text of a `source` or
/// `import.source` capture, when not empty.
pub open spec fn import_of_capture(c: CaptureData) -> Option<Seq<char>> {
    if c.name@ == "source"@ || c.name@ == "import.source"@ {
        let clean = trim_quotes(c.node.text@);
        if clean.len() > 0 {
            Some(clean)
        } else {
            None
        }
    } else {
        None
    }
}

/// Whether a text is shorter than two bytes in UTF-8: empty, or a single
/// ASCII character.
pub open spec fn utf8_shorter_than_two(t: Seq<char>) -> bool {
    t.len() == 0 || (t.len() == 1 && (t[0] as u32) < 0x80)
}

/// The reference a capture yields: its text, unless it is shorter than two
/// bytes or starts with a character that is neither alphabetic nor `_`.
pub open spec fn ref_of_capture(c: CaptureData) -> Option<Seq<char>> {
    let t = c.node.text@;
    if utf8_shorter_than_two(t) {
        None
    } else if t.len() > 0 && !alphabetic(t[0]) && t[0] != '_' {
        None
    } else {
        Some(t)
    }
}

/// The literal a capture yields: its unquoted text, when longer than one
/// byte.
pub open spec fn literal_of_capture(c: CaptureData) -> Option<Seq<char>> {
    let clean = trim_quotes(c.node.text@);
    if !utf8_shorter_than_two(clean) {
        Some(clean)
    } else {
        None
    }
}

/// Which of the three per-capture extractions is meant.
pub enum CaptureRole {
    Import,
    Reference,
    Literal,
}

/// The value a capture yields in a given role.
pub open spec fn capture_value(role: CaptureRole, c: CaptureData) -> Option<Seq<char>> {
    match role {
        CaptureRole::Import => import_of_capture(c),
        CaptureRole::Reference => ref_of_capture(c),
        CaptureRole::Literal => literal_of_capture(c),
    }
}

/// The values the captures of a match yield, in order.
pub open spec fn values_of_captures(role: CaptureRole, caps: Seq<CaptureData>) -> Seq<Seq<char>>
    decreases caps.len(),
{
    if caps.len() == 0 {
        seq![]
    } else {
        match capture_value(role, caps.last()) {
            Some(v) => values_of_captures(role, caps.drop_last()).push(v),
            None => values_of_captures(role, caps.drop_last()),
        }
    }
}

/// The values the matches yield, in order.
pub open spec fn values_of_matches(role: CaptureRole, ms: Seq<MatchData>) -> Seq<Seq<char>>
    decreases ms.len(),
{
    if ms.len() == 0 {
        seq![]
    } else {
        values_of_matches(role, ms.drop_last()) + values_of_captures(role, ms.last().captures@)
    }
}

// ---------------------------------------------------------------------------
// Framework hints
// ---------------------------------------------------------------------------

/// A framework hint as read from one match, before deduplication.
pub struct RawHint {
    pub key: Option<Seq<char>>,
    pub value: Option<Seq<char>>,
    pub range: (usize, usize),
}

/// Reading one capture of a framework match.
pub open spec fn hint_capture_step(h: RawHint, c: CaptureData) -> RawHint {
    if c.name@ == "framework.key"@ {
        RawHint { key: Some(c.node.text@), range: (c.node.start, c.node.end), ..h }
    } else if c.name@ == "framework.value"@ {
        RawHint { value: Some(trim_quotes(c.node.text@)), ..h }
    } else {
        h
    }
}

/// The raw hint after reading a sequence of captures.
pub open spec fn hint_fold(caps: Seq<CaptureData>) -> RawHint
    decreases caps.len(),
{
    if caps.len() == 0 {
        RawHint { key: None, value: None, range: (0, 0) }
    } else {
        hint_capture_step(hint_fold(caps.drop_last()), caps.last())
    }
}

/// The raw hints of the matches that captured a key, in order.
pub open spec fn raw_hints(ms: Seq<MatchData>) -> Seq<RawHint>
    decreases ms.len(),
{
    if ms.len() == 0 {
        seq![]
    } else {
        let h = hint_fold(ms.last().captures@);
        if h.key is Some {
            raw_hints(ms.drop_last()).push(h)
        } else {
            raw_hints(ms.drop_last())
        }
    }
}

/// Whether some hint has the key `k`.
pub open spec fn has_key(hs: Seq<FrameworkHintV>, k: Seq<char>) -> bool {
    exists|i: int| 0 <= i < hs.len() && (#[trigger] hs[i]).key == k
}

/// Whether some hint has the key `k` and an empty value.
pub open spec fn has_empty_key(hs: Seq<FrameworkHintV>, k: Seq<char>) -> bool {
    exists|i: int| 0 <= i < hs.len() && (#[trigger] hs[i]).key == k && hs[i].value.len() == 0
}

/// Whether a hint is kept when a valued hint for `k` replaces the empty ones.
pub open spec fn kept_over(k: Seq<char>) -> spec_fn(FrameworkHintV) -> bool {
    |h: FrameworkHintV| !(h.key == k && h.value == Seq::<char>::empty())
}

/// Adding one raw hint: the first hint for a key is kept (with an empty
/// value when none was captured); a later hint with a value replaces the
/// hints for that key whose value is empty; other later hints are dropped.
pub open spec fn add_hint(hs: Seq<FrameworkHintV>, h: RawHint) -> Seq<FrameworkHintV> {
    let k = h.key.unwrap();
    if has_key(hs, k) {
        if h.value is Some && has_empty_key(hs, k) {
            hs.filter(kept_over(k)).push(
                FrameworkHintV { key: k, value: h.value.unwrap(), range: h.range },
            )
        } else {
            hs
        }
    } else {
        hs.push(
            FrameworkHintV {
                key: k,
                value: match h.value {
                    Some(v) => v,
                    None => seq![],
                },
                range: h.range,
            },
        )
    }
}

/// The framework hints after adding a sequence of raw hints in order.
pub open spec fn dedup_hints(raws: Seq<RawHint>) -> Seq<FrameworkHintV>
    decreases raws.len(),
{
    if raws.len() == 0 {
        seq![]
    } else {
        add_hint(dedup_hints(raws.drop_last()), raws.last())
    }
}

// ---------------------------------------------------------------------------
// The whole boundary
// ---------------------------------------------------------------------------

/// The names of a sequence of definitions.
pub open spec fn def_names(ds: Seq<DefinitionV>) -> Set<Seq<char>> {
    ds.map_values(|d: DefinitionV| d.name).to_set()
}

/// `fb` is the boundary of the file at `path` with content `source` and hash
/// `hash`, given the matches of its definition, import, reference, literal
/// and framework queries. References and literals are sets: each occurs
/// once, and references never name one of the file's own definitions.
pub open spec fn is_boundary(
    fb: FileBoundary,
    path: Seq<char>,
    source: Seq<char>,
    hash: [u8; 32],
    def_ms: Seq<MatchData>,
    import_ms: Seq<MatchData>,
    ref_ms: Seq<MatchData>,
    literal_ms: Seq<MatchData>,
    framework_ms: Seq<MatchData>,
) -> bool {
    let defs = defs_from_matches(def_ms);
    &&& fb.id == 0
    &&& fb.path@ == path
    &&& fb.root_id@ == Seq::<char>::empty()
    &&& fb.hash == hash
    &&& fb.token_count == ((encode_utf8(source).len() as usize) / 4) as u32
    &&& !fb.is_test
    &&& defs_view(fb.defs@) == defs
    &&& strings_view(fb.imports@) == values_of_matches(CaptureRole::Import, import_ms)
    &&& strings_view(fb.symbol_refs@).no_duplicates()
    &&& strings_view(fb.symbol_refs@).to_set() == values_of_matches(
        CaptureRole::Reference,
        ref_ms,
    ).to_set().difference(def_names(defs))
    &&& strings_view(fb.literals@).no_duplicates()
    &&& strings_view(fb.literals@).to_set() == values_of_matches(
        CaptureRole::Literal,
        literal_ms,
    ).to_set()
    &&& fb.synthetic_defs@.len() == 0
    &&& hints_view(fb.framework_hints@) == dedup_hints(raw_hints(framework_ms))
}

// ---------------------------------------------------------------------------
// Executable extraction
// ---------------------------------------------------------------------------

fn contains_text(s: &String, t: &str) -> (r: bool)
    ensures
        r == has_sub(s@, t@),
{
    str_contains(s.as_str(), t)
}

fn text_is(s: &String, t: &str) -> (r: bool)
    ensures
        r == (s@ == t@),
{
    str_eq(s.as_str(), t)
}

/// Whether one child makes a variable definition a function.
fn function_child_exec(c: &ChildData) -> (r: bool)
    ensures
        r == function_child(*c),
{
    if text_is(&c.node.kind, "arrow_function") || text_is(&c.node.kind, "function_expression")
        || text_is(&c.node.kind, "call_expression") {
        return true;
    }
    match &c.value_kind {
        Some(v) => contains_text(v, "function"),
        None => false,
    }
}

fn holds_function_exec(children: &Vec<ChildData>) -> (r: bool)
    ensures
        r == holds_function(children@),
{
    let mut i: usize = 0;
    while i < children.len()
        invariant
            0 <= i <= children.len(),
            forall|j: int| 0 <= j < i ==> !function_child(#[trigger] children@[j]),
        decreases children.len() - i,
    {
        if function_child_exec(&children[i]) {
            return true;
        }
        i = i + 1;
    }
    false
}

/// The symbol kind of a definition node.
pub fn node_symbol_kind_exec(k: &String, children: &Vec<ChildData>) -> (r: SymbolKind)
    ensures
        r == node_symbol_kind(k@, children@),
{
    if text_is(k, "class_member_definition") || text_is(k, "lambda_expression") || contains_text(
        k,
        "function",
    ) || contains_text(k, "fn") || contains_text(k, "method") || contains_text(k, "macro") {
        SymbolKind::Function
    } else if text_is(k, "service_declaration") || text_is(k, "match_declaration")
        || contains_text(k, "class") || contains_text(k, "struct") || contains_text(k, "record")
        || contains_text(k, "object") || contains_text(k, "model") || contains_text(k, "enum") {
        SymbolKind::Class
    } else if contains_text(k, "interface") || contains_text(k, "trait") || contains_text(
        k,
        "impl",
    ) {
        SymbolKind::Interface
    } else if contains_text(k, "type") && !contains_text(k, "type_identifier") {
        SymbolKind::Class
    } else if contains_text(k, "module") || contains_text(k, "namespace") || contains_text(
        k,
        "package",
    ) {
        SymbolKind::Module
    } else if contains_text(k, "const") || contains_text(k, "let") || contains_text(k, "var")
        || contains_text(k, "declarator") {
        if holds_function_exec(children) {
            SymbolKind::Function
        } else {
            SymbolKind::Variable
        }
    } else if text_is(k, "create_table") {
        SymbolKind::Class
    } else if text_is(k, "binary_operator") {
        SymbolKind::Function
    } else if contains_text(k, "resource") {
        SymbolKind::Class
    } else {
        SymbolKind::Unknown
    }
}

/// Reads the captures of a definition match.
fn def_state_exec(caps: &Vec<CaptureData>) -> (r: (String, (usize, usize), Option<(usize, usize)>, SymbolKind))
    ensures
        def_fold(caps@) == (DefState { name: r.0@, def_range: r.1, body_range: r.2, kind: r.3 }),
{
    let mut name = String::new();
    let mut def_range: (usize, usize) = (0, 0);
    let mut body_range: Option<(usize, usize)> = None;
    let mut kind = SymbolKind::Unknown;
    let mut i: usize = 0;
    while i < caps.len()
        invariant
            0 <= i <= caps.len(),
            def_fold(caps@.take(i as int)) == (DefState {
                name: name@,
                def_range,
                body_range,
                kind,
            }),
        decreases caps.len() - i,
    {
        let c = &caps[i];
        proof {
            assert(caps@.take(i + 1).drop_last() =~= caps@.take(i as int));
            assert(caps@.take(i + 1).last() == caps@[i as int]);
        }
        let n = &c.name;
        if text_is(n, "name") || text_is(n, "function.name") || text_is(n, "variable.name")
            || text_is(n, "type.name") {
            name = c.node.text.clone();
        } else if text_is(n, "def") || text_is(n, "function.definition") {
            def_range = (c.node.start, c.node.end);
            kind = node_symbol_kind_exec(&c.node.kind, &c.children);
        } else if text_is(n, "body") || text_is(n, "function.body") {
            body_range = Some((c.node.start, c.node.end));
        } else if text_is(n, "function.kind") {
            let t = &c.node.text;
            if text_is(t, "resource") || text_is(t, "data") {
                kind = SymbolKind::Class;
            } else if text_is(t, "variable") || text_is(t, "output") || text_is(t, "provider") {
                kind = SymbolKind::Variable;
            } else if text_is(t, "module") {
                kind = SymbolKind::Module;
            }
        }
        i = i + 1;
    }
    proof {
        assert(caps@.take(caps@.len() as int) =~= caps@);
    }
    (name, def_range, body_range, kind)
}

/// The definition a match yields.
fn def_of_match_exec(m: &MatchData) -> (r: Option<Definition>)
    ensures
        match r {
            Some(d) => def_of_match(*m) == Some(d@),
            None => def_of_match(*m) is None,
        },
{
    let (n, def_range, body_range, kind) = def_state_exec(&m.captures);
    let name = if n.as_str().unicode_len() == 0 {
        owned("anonymous")
    } else {
        n
    };
    if text_is(&name, "resource") || text_is(&name, "data") {
        return None;
    }
    if def_range.0 != def_range.1 {
        Some(Definition { name, kind, range: def_range, body_range })
    } else {
        None
    }
}

/// The definitions of a sequence of matches, in order.
pub fn definitions_from_matches(ms: &Vec<MatchData>) -> (r: Vec<Definition>)
    ensures
        defs_view(r@) == defs_from_matches(ms@),
{
    let mut out: Vec<Definition> = Vec::new();
    let mut i: usize = 0;
    while i < ms.len()
        invariant
            0 <= i <= ms.len(),
            defs_view(out@) == defs_from_matches(ms@.take(i as int)),
        decreases ms.len() - i,
    {
        proof {
            assert(ms@.take(i + 1).drop_last() =~= ms@.take(i as int));
            assert(ms@.take(i + 1).last() == ms@[i as int]);
        }
        match def_of_match_exec(&ms[i]) {
            Some(d) => {
                let ghost before = out@;
                out.push(d);
                assert(defs_view(out@) =~= defs_view(before).push(d@));
            },
            None => {},
        }
        i = i + 1;
    }
    proof {
        assert(ms@.take(ms@.len() as int) =~= ms@);
    }
    out
}

/// Whether a text is shorter than two bytes in UTF-8.
pub fn shorter_than_two_bytes(t: &str) -> (r: bool)
    ensures
        r == utf8_shorter_than_two(t@),
{
    let n = t.unicode_len();
    if n == 0 {
        true
    } else if n == 1 {
        (t.get_char(0) as u32) < 0x80
    } else {
        false
    }
}

/// The value one capture yields in a role.
fn capture_value_exec(role: &CaptureRole, c: &CaptureData) -> (r: Option<String>)
    ensures
        match r {
            Some(v) => capture_value(*role, *c) == Some(v@),
            None => capture_value(*role, *c) is None,
        },
{
    match role {
        CaptureRole::Import => {
            if text_is(&c.name, "source") || text_is(&c.name, "import.source") {
                let clean = trim_quote_chars(c.node.text.as_str());
                if clean.as_str().unicode_len() > 0 {
                    Some(clean)
                } else {
                    None
                }
            } else {
                None
            }
        },
        CaptureRole::Reference => {
            let t = c.node.text.as_str();
            if shorter_than_two_bytes(t) {
                None
            } else {
                let first = t.get_char(0);
                if !is_alphabetic(first) && first != '_' {
                    return None;
                }
                Some(c.node.text.clone())
            }
        },
        CaptureRole::Literal => {
            let clean = trim_quote_chars(c.node.text.as_str());
            if !shorter_than_two_bytes(clean.as_str()) {
                Some(clean)
            } else {
                None
            }
        },
    }
}

/// The values the matches yield in a role, in order.
pub fn values_from_matches(role: CaptureRole, ms: &Vec<MatchData>) -> (r: Vec<String>)
    ensures
        strings_view(r@) == values_of_matches(role, ms@),
{
    let mut out: Vec<String> = Vec::new();
    let mut i: usize = 0;
    while i < ms.len()
        invariant
            0 <= i <= ms.len(),
            strings_view(out@) == values_of_matches(role, ms@.take(i as int)),
        decreases ms.len() - i,
    {
        proof {
            assert(ms@.take(i + 1).drop_last() =~= ms@.take(i as int));
            assert(ms@.take(i + 1).last() == ms@[i as int]);
        }
        let caps = &ms[i].captures;
        let ghost base = strings_view(out@);
        let mut j: usize = 0;
        while j < caps.len()
            invariant
                0 <= j <= caps.len(),
                strings_view(out@) == base + values_of_captures(role, caps@.take(j as int)),
            decreases caps.len() - j,
        {
            proof {
                assert(caps@.take(j + 1).drop_last() =~= caps@.take(j as int));
                assert(caps@.take(j + 1).last() == caps@[j as int]);
            }
            match capture_value_exec(&role, &caps[j]) {
                Some(v) => {
                    let ghost before = out@;
                    out.push(v);
                    assert(strings_view(out@) =~= strings_view(before).push(v@));
                    assert(base + values_of_captures(role, caps@.take(j as int)).push(v@) =~= (base
                        + values_of_captures(role, caps@.take(j as int))).push(v@));
                },
                None => {},
            }
            j = j + 1;
        }
        proof {
            assert(caps@.take(caps@.len() as int) =~= caps@);
        }
        i = i + 1;
    }
    proof {
        assert(ms@.take(ms@.len() as int) =~= ms@);
    }
    out
}

/// The distinct strings of `v` that are not in `exclude`, in the order of
/// their first occurrence.
pub fn distinct_excluding(v: &Vec<String>, exclude: &StringHashSet) -> (r: Vec<String>)
    ensures
        strings_view(r@).no_duplicates(),
        strings_view(r@).to_set() == strings_view(v@).to_set().difference(exclude@),
{
    let mut seen = StringHashSet::new();
    let mut out: Vec<String> = Vec::new();
    let mut i: usize = 0;
    while i < v.len()
        invariant
            0 <= i <= v.len(),
            strings_view(out@).no_duplicates(),
            seen@ == strings_view(out@).to_set(),
            strings_view(out@).to_set() == strings_view(v@.take(i as int)).to_set().difference(
                exclude@,
            ),
        decreases v.len() - i,
    {
        let s = &v[i];
        let ghost before = out@;
        proof {
            assert(strings_view(v@.take(i + 1)) =~= strings_view(v@.take(i as int)).push(s@));
        }
        if !exclude.contains(s.as_str()) && !seen.contains(s.as_str()) {
            seen.insert(s.clone());
            out.push(s.clone());
            proof {
                assert(strings_view(out@) =~= strings_view(before).push(s@));
                lemma_push_to_set(strings_view(before), s@);
                lemma_push_no_dup(strings_view(before), s@);
            }
        }
        proof {
            lemma_push_to_set(strings_view(v@.take(i as int)), s@);
            assert(strings_view(out@).to_set() =~= strings_view(v@.take(i + 1)).to_set().difference(
                exclude@,
            ));
        }
        i = i + 1;
    }
    proof {
        assert(v@.take(v@.len() as int) =~= v@);
    }
    out
}

/// Reads the captures of a framework match.
fn hint_fold_exec(caps: &Vec<CaptureData>) -> (r: (Option<String>, Option<String>, (usize, usize)))
    ensures
        hint_fold(caps@) == (RawHint {
            key: match r.0 {
                Some(k) => Some(k@),
                None => None,
            },
            value: match r.1 {
                Some(v) => Some(v@),
                None => None,
            },
            range: r.2,
        }),
{
    let mut key: Option<String> = None;
    let mut value: Option<String> = None;
    let mut range: (usize, usize) = (0, 0);
    let mut i: usize = 0;
    while i < caps.len()
        invariant
            0 <= i <= caps.len(),
            hint_fold(caps@.take(i as int)) == (RawHint {
                key: match key {
                    Some(k) => Some(k@),
                    None => None,
                },
                value: match value {
                    Some(v) => Some(v@),
                    None => None,
                },
                range,
            }),
        decreases caps.len() - i,
    {
        proof {
            assert(caps@.take(i + 1).drop_last() =~= caps@.take(i as int));
            assert(caps@.take(i + 1).last() == caps@[i as int]);
        }
        let c = &caps[i];
        if text_is(&c.name, "framework.key") {
            key = Some(c.node.text.clone());
            range = (c.node.start, c.node.end);
        } else if text_is(&c.name, "framework.value") {
            value = Some(trim_quote_chars(c.node.text.as_str()));
        }
        i = i + 1;
    }
    proof {
        assert(caps@.take(caps@.len() as int) =~= caps@);
    }
    (key, value, range)
}

fn has_key_exec(hs: &Vec<FrameworkHint>, k: &String) -> (r: bool)
    ensures
        r == has_key(hints_view(hs@), k@),
{
    let mut i: usize = 0;
    while i < hs.len()
        invariant
            0 <= i <= hs.len(),
            forall|j: int| 0 <= j < i ==> hs@[j].key@ != k@,
        decreases hs.len() - i,
    {
        if text_is(&hs[i].key, k.as_str()) {
            assert(hints_view(hs@)[i as int].key == k@);
            return true;
        }
        i = i + 1;
    }
    assert forall|j: int| 0 <= j < hints_view(hs@).len() implies #[trigger] hints_view(hs@)[j].key
        != k@ by {
        assert(hints_view(hs@)[j] == hs@[j]@);
    }
    false
}

fn has_empty_key_exec(hs: &Vec<FrameworkHint>, k: &String) -> (r: bool)
    ensures
        r == has_empty_key(hints_view(hs@), k@),
{
    let mut i: usize = 0;
    while i < hs.len()
        invariant
            0 <= i <= hs.len(),
            forall|j: int| 0 <= j < i ==> !(hs@[j].key@ == k@ && hs@[j].value@.len() == 0),
        decreases hs.len() - i,
    {
        if text_is(&hs[i].key, k.as_str()) && hs[i].value.as_str().unicode_len() == 0 {
            assert(hints_view(hs@)[i as int].key == k@);
            return true;
        }
        i = i + 1;
    }
    assert forall|j: int| 0 <= j < hints_view(hs@).len() implies !((#[trigger] hints_view(
        hs@,
    )[j]).key == k@ && hints_view(hs@)[j].value.len() == 0) by {
        assert(hints_view(hs@)[j] == hs@[j]@);
    }
    false
}

/// Removes the hints for `k` whose value is empty.
fn retain_valued(hs: &Vec<FrameworkHint>, k: &String) -> (r: Vec<FrameworkHint>)
    ensures
        hints_view(r@) == hints_view(hs@).filter(kept_over(k@)),
{
    let mut out: Vec<FrameworkHint> = Vec::new();
    let mut i: usize = 0;
    while i < hs.len()
        invariant
            0 <= i <= hs.len(),
            hints_view(out@) == hints_view(hs@.take(i as int)).filter(kept_over(k@)),
        decreases hs.len() - i,
    {
        let h = &hs[i];
        let ghost before = out@;
        proof {
            assert(hints_view(hs@.take(i + 1)) =~= hints_view(hs@.take(i as int)).push(h@));
            assert(hints_view(hs@.take(i + 1)).drop_last() =~= hints_view(hs@.take(i as int)));
        }
        proof {
            lemma_filter_take_step(hints_view(hs@), kept_over(k@), i as int);
            assert(hints_view(hs@).take(i + 1) =~= hints_view(hs@.take(i + 1)));
            assert(hints_view(hs@).take(i as int) =~= hints_view(hs@.take(i as int)));
        }
        let empty = h.value.as_str().unicode_len() == 0;
        if !(text_is(&h.key, k.as_str()) && empty) {
            out.push(h.clone());
            proof {
                assert(hints_view(out@) =~= hints_view(before).push(h@));
                assert(h@.value != Seq::<char>::empty() || h@.key != k@);
            }
        } else {
            assert(h@.value =~= Seq::<char>::empty());
        }
        i = i + 1;
    }
    proof {
        assert(hs@.take(hs@.len() as int) =~= hs@);
    }
    out
}

/// The framework hints of a sequence of matches, deduplicated by key.
pub fn hints_from_matches(ms: &Vec<MatchData>) -> (r: Vec<FrameworkHint>)
    ensures
        hints_view(r@) == dedup_hints(raw_hints(ms@)),
{
    let mut hs: Vec<FrameworkHint> = Vec::new();
    let mut i: usize = 0;
    while i < ms.len()
        invariant
            0 <= i <= ms.len(),
            hints_view(hs@) == dedup_hints(raw_hints(ms@.take(i as int))),
        decreases ms.len() - i,
    {
        proof {
            assert(ms@.take(i + 1).drop_last() =~= ms@.take(i as int));
            assert(ms@.take(i + 1).last() == ms@[i as int]);
        }
        let (key, value, range) = hint_fold_exec(&ms[i].captures);
        match key {
            Some(k) => {
                let ghost raw = hint_fold(ms@[i as int].captures@);
                proof {
                    assert(raw_hints(ms@.take(i + 1)) == raw_hints(ms@.take(i as int)).push(raw));
                    assert(raw_hints(ms@.take(i + 1)).drop_last() =~= raw_hints(
                        ms@.take(i as int),
                    ));
                }
                if has_key_exec(&hs, &k) {
                    let has_value = match &value {
                        Some(_) => true,
                        None => false,
                    };
                    if has_value && has_empty_key_exec(&hs, &k) {
                        let mut kept = retain_valued(&hs, &k);
                        let v = match value {
                            Some(v) => v,
                            None => String::new(),
                        };
                        let ghost before = kept@;
                        kept.push(FrameworkHint { key: k, value: v, range });
                        proof {
                            assert(hints_view(kept@) =~= hints_view(before).push(
                                kept@.last()@,
                            ));
                        }
                        hs = kept;
                    }
                } else {
                    let v = match value {
                        Some(v) => v,
                        None => String::new(),
                    };
                    let ghost before = hs@;
                    hs.push(FrameworkHint { key: k, value: v, range });
                    proof {
                        assert(hints_view(hs@) =~= hints_view(before).push(hs@.last()@));
                    }
                }
            },
            None => {},
        }
        i = i + 1;
    }
    proof {
        assert(ms@.take(ms@.len() as int) =~= ms@);
    }
    hs
}

/// The boundary of the file at `path`, given the matches of its queries.
pub fn assemble_boundary(
    path: &str,
    source_code: &str,
    file_hash: [u8; 32],
    def_ms: &Vec<MatchData>,
    import_ms: &Vec<MatchData>,
    ref_ms: &Vec<MatchData>,
    literal_ms: &Vec<MatchData>,
    framework_ms: &Vec<MatchData>,
) -> (r: FileBoundary)
    ensures
        is_boundary(
            r,
            path@,
            source_code@,
            file_hash,
            def_ms@,
            import_ms@,
            ref_ms@,
            literal_ms@,
            framework_ms@,
        ),
{
    let token_count = #[verifier::truncate] ((source_code.len() / 4) as u32);
    let defs = definitions_from_matches(def_ms);
    let imports = values_from_matches(CaptureRole::Import, import_ms);
    let raw_refs = values_from_matches(CaptureRole::Reference, ref_ms);
    let mut def_name_set = StringHashSet::new();
    let mut i: usize = 0;
    while i < defs.len()
        invariant
            0 <= i <= defs.len(),
            def_name_set@ == defs_view(defs@).take(i as int).map_values(|d: DefinitionV| d.name).to_set(),
        decreases defs.len() - i,
    {
        proof {
            assert(defs_view(defs@).take(i + 1).map_values(|d: DefinitionV| d.name) =~= defs_view(
                defs@,
            ).take(i as int).map_values(|d: DefinitionV| d.name).push(defs@[i as int].name@));
        }
        def_name_set.insert(defs[i].name.clone());
        proof {
            lemma_push_to_set(
                defs_view(defs@).take(i as int).map_values(|d: DefinitionV| d.name),
                defs@[i as int].name@,
            );
        }
        i = i + 1;
    }
    proof {
        assert(defs_view(defs@).take(defs@.len() as int) =~= defs_view(defs@));
    }
    let symbol_refs = distinct_excluding(&raw_refs, &def_name_set);
    let raw_literals = values_from_matches(CaptureRole::Literal, literal_ms);
    let no_names = StringHashSet::new();
    let literals = distinct_excluding(&raw_literals, &no_names);
    proof {
        assert(strings_view(literals@).to_set() =~= strings_view(raw_literals@).to_set());
    }
    let framework_hints = hints_from_matches(framework_ms);
    FileBoundary {
        id: 0,
        path: owned(path),
        root_id: String::new(),
        hash: file_hash,
        token_count,
        is_test: false,
        defs,
        imports,
        symbol_refs,
        literals,
        synthetic_defs: Vec::new(),
        framework_hints,
    }
}

/// The captures of the matches of an optional query over a tree, as plain
/// values: none where there is no query.
pub open spec fn opt_query_data(
    query: Option<(SupportedLanguage, Seq<char>)>,
    tree: (SupportedLanguage, Seq<char>),
) -> Seq<Seq<(Seq<char>, Seq<char>, usize, usize)>> {
    match query {
        Some(q) => query_data(q, tree),
        None => Seq::empty(),
    }
}

/// The children and parent value fields of the captures of `ms` are those
/// of the matches of an optional query over `source`.
pub open spec fn opt_shapes_follow(
    ms: Seq<MatchData>,
    query: Option<(SupportedLanguage, Seq<char>)>,
    source: Seq<char>,
) -> bool {
    match query {
        Some(q) => shapes_follow(ms, q, source),
        None => true,
    }
}

/// The matches of a query over a tree, or none where the query is absent.
pub fn matches_of(query: &Option<std::sync::Arc<CompiledQuery>>, tree: &ParsedTree) -> (r: Vec<MatchData>)
    ensures
        crate::syntax::ranges_ordered(r@),
        plain_of(r@) == opt_query_data(compiled_view(*query), tree@),
        texts_follow(r@, tree@.1),
        opt_shapes_follow(r@, compiled_view(*query), tree@.1),
{
    match query {
        Some(q) => run_query(&**q, tree),
        None => {
            let v: Vec<MatchData> = Vec::new();
            proof {
                assert(plain_of(v@) =~= Seq::<Seq<(Seq<char>, Seq<char>, usize, usize)>>::empty());
            }
            v
        },
    }
}

/// The matches of the language's queries over `source`: their captures'
/// names, node kinds and byte ranges, their children and their parents'
/// value fields are those of each query of `config` that there is, none
/// for a query it lacks, and each node's text is that of `source` over its
/// range.
pub open spec fn matches_named(
    dm: Seq<MatchData>,
    im: Seq<MatchData>,
    rm: Seq<MatchData>,
    lm: Seq<MatchData>,
    fm: Seq<MatchData>,
    source: Seq<char>,
    config: LanguageConfig,
) -> bool {
    let t = (config.lang, source);
    &&& plain_of(dm) == opt_query_data(compiled_view(config.queries.definitions), t)
    &&& plain_of(im) == opt_query_data(compiled_view(config.queries.imports), t)
    &&& plain_of(rm) == opt_query_data(compiled_view(config.queries.references), t)
    &&& plain_of(lm) == opt_query_data(compiled_view(config.queries.literals), t)
    &&& plain_of(fm) == opt_query_data(compiled_view(config.queries.frameworks), t)
    &&& texts_follow(dm, source)
    &&& texts_follow(im, source)
    &&& texts_follow(rm, source)
    &&& texts_follow(lm, source)
    &&& texts_follow(fm, source)
    &&& opt_shapes_follow(dm, compiled_view(config.queries.definitions), source)
    &&& opt_shapes_follow(im, compiled_view(config.queries.imports), source)
    &&& opt_shapes_follow(rm, compiled_view(config.queries.references), source)
    &&& opt_shapes_follow(lm, compiled_view(config.queries.literals), source)
    &&& opt_shapes_follow(fm, compiled_view(config.queries.frameworks), source)
}

/// `fb` is what [`assemble_boundary`] makes of the matches of the
/// language's queries over the parse of the file.
pub open spec fn is_extracted_boundary(
    fb: FileBoundary,
    path: Seq<char>,
    source: Seq<char>,
    hash: [u8; 32],
    config: LanguageConfig,
) -> bool {
    exists|dm: Seq<MatchData>, im: Seq<MatchData>, rm: Seq<MatchData>, lm: Seq<MatchData>, fm: Seq<MatchData>|
        #![trigger is_boundary(fb, path, source, hash, dm, im, rm, lm, fm)]
        {
            &&& is_boundary(fb, path, source, hash, dm, im, rm, lm, fm)
            &&& matches_named(dm, im, rm, lm, fm, source, config)
        }
}

proof fn lemma_extracted(
    fb: FileBoundary,
    path: Seq<char>,
    source: Seq<char>,
    hash: [u8; 32],
    config: LanguageConfig,
    dm: Seq<MatchData>,
    im: Seq<MatchData>,
    rm: Seq<MatchData>,
    lm: Seq<MatchData>,
    fm: Seq<MatchData>,
)
    requires
        is_boundary(fb, path, source, hash, dm, im, rm, lm, fm),
        matches_named(dm, im, rm, lm, fm, source, config),
    ensures
        is_extracted_boundary(fb, path, source, hash, config),
{
}

/// Parses a file and extracts its boundary. Fails exactly where tree-sitter
/// refuses the language's grammar. On success the boundary is the one
/// [`assemble_boundary`] makes of the matches of the language's queries
/// over the file; a query the language lacks contributes nothing.
pub fn extract_boundary(
    path: &str,
    source_code: &str,
    config: &LanguageConfig,
    file_hash: [u8; 32],
) -> (r: Result<FileBoundary, String>)
    ensures
        r is Err <==> grammar_refused(config.lang),
        r matches Ok(fb) ==> is_extracted_boundary(fb, path@, source_code@, file_hash, *config),
{
    let grammar = Grammar::of(config.lang);
    match language_error(&grammar) {
        Some(e) => return Err(e),
        None => {},
    }
    let tree = match parse_source(&grammar, source_code) {
        Some(t) => t,
        None => return Err(owned("Failed to parse")),
    };
    let dm = matches_of(&config.queries.definitions, &tree);
    let im = matches_of(&config.queries.imports, &tree);
    let rm = matches_of(&config.queries.references, &tree);
    let lm = matches_of(&config.queries.literals, &tree);
    let fm = matches_of(&config.queries.frameworks, &tree);
    let fb = assemble_boundary(path, source_code, file_hash, &dm, &im, &rm, &lm, &fm);
    proof {
        lemma_extracted(fb, path@, source_code@, file_hash, *config, dm@, im@, rm@, lm@, fm@);
    }
    Ok(fb)
}

} // verus!
