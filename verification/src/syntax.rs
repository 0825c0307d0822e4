//! Parsing and querying with tree-sitter.
//!
//! The grammars, the parser and the query engine are tree-sitter's. This
//! module holds the calls into them, each behind a small trusted wrapper,
//! and turns query results into plain values ([`MatchData`]) that the rest of
//! the library processes with verified code.

use vstd::prelude::*;
use vstd::utf8::encode_utf8;
use tree_sitter::StreamingIterator;
use crate::analysis::language::{SupportedLanguage, get_language};

verus! {

#[verifier::external_type_specification]
#[verifier::external_body]
pub struct ExLanguage(tree_sitter::Language);

#[verifier::external_type_specification]
#[verifier::external_body]
pub struct ExTree(tree_sitter::Tree);

#[verifier::external_type_specification]
#[verifier::external_body]
pub struct ExQuery(tree_sitter::Query);

#[verifier::external_type_specification]
#[verifier::external_body]
pub struct ExNode<'tree>(tree_sitter::Node<'tree>);

/// A syntax node as plain values: its grammar kind, its source text and its
/// byte range.
#[derive(Debug, Clone)]
pub struct NodeData {
    pub kind: String,
    pub text: String,
    pub start: usize,
    pub end: usize,
}

/// A direct child of a captured node: the child itself, the kind of its
/// `value` field (where it has one) and its own children.
#[derive(Debug, Clone)]
pub struct ChildData {
    pub node: NodeData,
    pub value_kind: Option<String>,
    pub children: Vec<NodeData>,
}

/// The callee of a call expression: its node, and the text of its
/// `property` field where it has one.
#[derive(Debug, Clone)]
pub struct CalleeData {
    pub node: NodeData,
    pub property: Option<String>,
}

/// The `value` field of a captured node's parent: its kind and, where it has
/// one, its `function` field.
#[derive(Debug, Clone)]
pub struct ValueData {
    pub kind: String,
    pub function: Option<CalleeData>,
}

/// One capture of a query match, as plain values.
#[derive(Debug, Clone)]
pub struct CaptureData {
    /// The capture's name in the query (without `@`).
    pub name: String,
    pub node: NodeData,
    pub children: Vec<ChildData>,
    /// The `value` field of the node's parent, where there is one.
    pub parent_value: Option<ValueData>,
}

/// One match of a query: its captures in the order tree-sitter gives them.
#[derive(Debug, Clone)]
pub struct MatchData {
    pub captures: Vec<CaptureData>,
}

/// A grammar together with the language it is the grammar of.
pub struct Grammar {
    lang: SupportedLanguage,
    language: tree_sitter::Language,
}

impl View for Grammar {
    type V = SupportedLanguage;

    closed spec fn view(&self) -> SupportedLanguage {
        self.lang
    }
}

impl Grammar {
    /// The grammar of `lang` ([`get_language`]).
    pub fn of(lang: SupportedLanguage) -> (g: Grammar)
        ensures
            g@ == lang,
    {
        Grammar { lang, language: get_language(lang) }
    }
}

/// A syntax tree together with the language and the text it was parsed
/// from; only [`parse_source`] makes one.
pub struct ParsedTree {
    tree: tree_sitter::Tree,
    lang: SupportedLanguage,
    text: String,
}

impl View for ParsedTree {
    type V = (SupportedLanguage, Seq<char>);

    closed spec fn view(&self) -> (SupportedLanguage, Seq<char>) {
        (self.lang, self.text@)
    }
}

/// A compiled query together with the language and the query text it was
/// compiled from; only [`compile_query`] makes one.
pub struct CompiledQuery {
    query: tree_sitter::Query,
    lang: SupportedLanguage,
    text: String,
}

impl View for CompiledQuery {
    type V = (SupportedLanguage, Seq<char>);

    closed spec fn view(&self) -> (SupportedLanguage, Seq<char>) {
        (self.lang, self.text@)
    }
}

// ---------------------------------------------------------------------------
// Trusted calls into tree-sitter
// ---------------------------------------------------------------------------

/// Whether tree-sitter refuses the grammar of a language for parsing
/// (`Parser::set_language` fails: an ABI version outside the supported
/// range, or a grammar that cannot parse). It depends on the grammar alone.
pub uninterp spec fn grammar_refused(lang: SupportedLanguage) -> bool;

/// Whether a query text compiles for the grammar of a language
/// (`Query::new` gives `Ok`).
pub uninterp spec fn query_compiles(lang: SupportedLanguage, query: Seq<char>) -> bool;

/// The captures of the matches of a query over a source text, both for the
/// grammar of a language: one sequence per match, in the order
/// `QueryCursor::matches` yields them, of its captures in order, each as its
/// capture name, the kind of the captured node and the node's byte range.
pub uninterp spec fn capture_data_of(lang: SupportedLanguage, query: Seq<char>, source: Seq<char>) -> Seq<
    Seq<(Seq<char>, Seq<char>, usize, usize)>,
>;

/// Whether a parser refuses a grammar (`Parser::set_language`), with the
/// error's text where it does. The text of the error is not claimed.
#[verifier::external_body]
pub(crate) fn language_error(grammar: &Grammar) -> (r: Option<String>)
    ensures
        r is Some <==> grammar_refused(grammar@),
{
    let mut parser = tree_sitter::Parser::new();
    match parser.set_language(&grammar.language) {
        Ok(()) => None,
        Err(e) => Some(e.to_string()),
    }
}

/// Parses `source` with a grammar (`Parser::new`, `Parser::set_language`,
/// `Parser::parse`) and keeps the text with the tree. `Parser::parse` gives
/// `None` only where no language was set, so the parse succeeds exactly
/// where the grammar is accepted. Nothing is claimed of the tree's shape.
#[verifier::external_body]
pub(crate) fn parse_source(grammar: &Grammar, source: &str) -> (r: Option<ParsedTree>)
    ensures
        r is Some <==> !grammar_refused(grammar@),
        r matches Some(t) ==> t@ == (grammar@, source@),
{
    let mut parser = tree_sitter::Parser::new();
    parser.set_language(&grammar.language).ok()?;
    let tree = parser.parse(source, None)?;
    Some(ParsedTree { tree, lang: grammar.lang, text: source.to_string() })
}

/// The text of tree-sitter's error (its `QueryError` as displayed) for a
/// query text that does not compile for the grammar of a language.
pub uninterp spec fn query_error_text(lang: SupportedLanguage, query: Seq<char>) -> Seq<char>;

/// Compiles a query for a grammar (`Query::new`); an error, with the text
/// of tree-sitter's `QueryError`, exactly when the query does not compile.
/// The query text is kept with the compiled query.
#[verifier::external_body]
pub(crate) fn compile_query(grammar: &Grammar, source: &str) -> (r: Result<CompiledQuery, String>)
    ensures
        r is Ok <==> query_compiles(grammar@, source@),
        r matches Ok(q) ==> q@ == (grammar@, source@),
        r matches Err(e) ==> e@ == query_error_text(grammar@, source@),
{
    match tree_sitter::Query::new(&grammar.language, source) {
        Ok(query) => Ok(CompiledQuery { query, lang: grammar.lang, text: source.to_string() }),
        Err(e) => Err(e.to_string()),
    }
}

/// The byte range of the root node of the tree of a source text parsed
/// with the grammar of a language.
pub uninterp spec fn root_range_of(lang: SupportedLanguage, source: Seq<char>) -> (usize, usize);

/// The byte range of a tree's root node (`Tree::root_node`,
/// `Node::byte_range`; tree-sitter computes the end as the start plus the
/// node's size, so the range is ordered).
#[verifier::external_body]
fn root_span(tree: &ParsedTree) -> (r: (usize, usize))
    ensures
        r == root_range_of(tree@.0, tree@.1),
        r.0 <= r.1,
{
    let range = tree.tree.root_node().byte_range();
    (range.start, range.end)
}

/// A captured node, with the query, the tree, the number of its match and
/// its place among the match's captures; only [`query_captures`] makes one.
pub struct CapturedNode<'t> {
    node: tree_sitter::Node<'t>,
    query: &'t CompiledQuery,
    tree: &'t ParsedTree,
    i: usize,
    j: usize,
}

impl<'t> View for CapturedNode<'t> {
    type V = (SupportedLanguage, Seq<char>, Seq<char>, usize, usize);

    closed spec fn view(&self) -> (SupportedLanguage, Seq<char>, Seq<char>, usize, usize) {
        (self.query@.0, self.query@.1, self.tree@.1, self.i, self.j)
    }
}

/// A capture as tree-sitter gives it: its name, the captured node's kind
/// and byte range, and the node.
pub type RawCapture<'t> = (String, String, usize, usize, CapturedNode<'t>);

/// The captures of the matches as plain values, one sequence per match.
pub open spec fn raw_plain<'t>(raw: Seq<Vec<RawCapture<'t>>>) -> Seq<Seq<(Seq<char>, Seq<char>, usize, usize)>> {
    raw.map_values(|m: Vec<RawCapture<'t>>| m@.map_values(|c: RawCapture<'t>| (c.0@, c.1@, c.2, c.3)))
}

/// Runs a query over a tree of the same language (`QueryCursor::matches`,
/// over the text the tree was parsed from) and returns, for each match in
/// the order tree-sitter yields them, its captures: the capture name, the
/// captured node's kind (`Node::kind`) and byte range (`Node::start_byte`,
/// `Node::end_byte`; tree-sitter computes the end as the start plus the
/// node's size, so the range is ordered), and the node with the numbers of
/// its match and capture.
#[verifier::external_body]
fn query_captures<'t>(query: &'t CompiledQuery, tree: &'t ParsedTree) -> (r: Vec<Vec<RawCapture<'t>>>)
    requires
        query@.0 == tree@.0,
    ensures
        raw_plain(r@) == capture_data_of(query@.0, query@.1, tree@.1),
        forall|i: int, j: int|
            0 <= i < r@.len() && 0 <= j < r@[i]@.len() ==> (#[trigger] r@[i]@[j]).2 <= r@[i]@[j].3
                && r@[i]@[j].4@ == (query@.0, query@.1, tree@.1, i as usize, j as usize),
{
    let mut cursor = tree_sitter::QueryCursor::new();
    let mut matches = cursor.matches(&query.query, tree.tree.root_node(), tree.text.as_bytes());
    let names = query.query.capture_names();
    let mut out = Vec::new();
    while let Some(m) = matches.next() {
        let i = out.len();
        out.push(m.captures().iter().enumerate().map(|(j, c)| {
            let n = c.node;
            (names[c.index as usize].to_string(), n.kind().to_string(), n.start_byte(), n.end_byte(), CapturedNode { node: n, query, tree, i, j })
        }).collect());
    }
    out
}

/// A child of a captured node as plain values: its kind, its byte range,
/// the kind of its `value` field where it has one, and the kinds and byte
/// ranges of its own children.
pub type ChildPlain = (Seq<char>, usize, usize, Option<Seq<char>>, Seq<(Seq<char>, usize, usize)>);

/// The callee in the `value` field of a captured node's parent as plain
/// values: its kind, its byte range, and the byte range of its `property`
/// field where it has one.
pub type CalleePlain = (Seq<char>, usize, usize, Option<(usize, usize)>);

/// The `value` field of a captured node's parent as plain values: its kind
/// and, where it has one, its `function` field.
pub type ValuePlain = (Seq<char>, Option<CalleePlain>);

/// The direct children of the captured node `j` of match `i` of a query
/// over a source text, both for the grammar of a language, as plain values
/// (`Node::children`, `Node::child_by_field_name("value")`).
pub uninterp spec fn capture_children_of(
    lang: SupportedLanguage,
    query: Seq<char>,
    source: Seq<char>,
    i: usize,
    j: usize,
) -> Seq<ChildPlain>;

/// The `value` field of the parent of the captured node `j` of match `i` of
/// a query over a source text, both for the grammar of a language, as plain
/// values (`Node::parent`, `Node::child_by_field_name` for `value`,
/// `function` and `property`).
pub uninterp spec fn capture_value_of(
    lang: SupportedLanguage,
    query: Seq<char>,
    source: Seq<char>,
    i: usize,
    j: usize,
) -> Option<ValuePlain>;

/// A child of a captured node as tree-sitter gives it.
pub type ChildRaw = (String, usize, usize, Option<String>, Vec<(String, usize, usize)>);

/// The callee of a value field as tree-sitter gives it.
pub type CalleeRaw = (String, usize, usize, Option<(usize, usize)>);

/// An optional string as an optional sequence of characters.
pub open spec fn opt_text(o: Option<String>) -> Option<Seq<char>> {
    match o {
        Some(s) => Some(s@),
        None => None,
    }
}

/// A child as plain values.
pub open spec fn child_raw_plain(c: ChildRaw) -> ChildPlain {
    (c.0@, c.1, c.2, opt_text(c.3), c.4@.map_values(|g: (String, usize, usize)| (g.0@, g.1, g.2)))
}

/// A value field as plain values.
pub open spec fn value_raw_plain(v: Option<(String, Option<CalleeRaw>)>) -> Option<ValuePlain> {
    match v {
        Some(x) => Some(
            (
                x.0@,
                match x.1 {
                    Some(f) => Some((f.0@, f.1, f.2, f.3)),
                    None => None,
                },
            ),
        ),
        None => None,
    }
}

/// The direct children of a captured node (`Node::children`), each with its
/// kind, byte range, the kind of its `value` field
/// (`Node::child_by_field_name`) and its own children's kinds and byte
/// ranges. Byte ranges are ordered, as for every node.
#[verifier::external_body]
fn captured_children(c: &CapturedNode) -> (r: Vec<ChildRaw>)
    ensures
        r@.map_values(|k: ChildRaw| child_raw_plain(k)) == capture_children_of(c@.0, c@.1, c@.2, c@.3, c@.4),
        forall|k: int| 0 <= k < r@.len() ==> (#[trigger] r@[k]).1 <= r@[k].2 && forall|g: int|
            0 <= g < r@[k].4@.len() ==> (#[trigger] r@[k].4@[g]).1 <= r@[k].4@[g].2,
{
    let mut cursor = c.node.walk();
    c.node.children(&mut cursor).map(|k| {
        let mut inner = k.walk();
        let grand = k.children(&mut inner).map(|g| (g.kind().to_string(), g.start_byte(), g.end_byte())).collect();
        (k.kind().to_string(), k.start_byte(), k.end_byte(), k.child_by_field_name("value").map(|v| v.kind().to_string()), grand)
    }).collect()
}

/// The `value` field of a captured node's parent (`Node::parent`,
/// `Node::child_by_field_name`), with its kind and its `function` field's
/// kind, byte range and `property` field's byte range. Byte ranges are
/// ordered, as for every node.
#[verifier::external_body]
fn captured_value(c: &CapturedNode) -> (r: Option<(String, Option<CalleeRaw>)>)
    ensures
        value_raw_plain(r) == capture_value_of(c@.0, c@.1, c@.2, c@.3, c@.4),
        r matches Some(v) ==> (v.1 matches Some(f) ==> f.1 <= f.2 && (f.3 matches Some(p) ==> p.0 <= p.1)),
{
    let value = c.node.parent()?.child_by_field_name("value")?;
    let function = value.child_by_field_name("function").map(|f| {
        let property = f.child_by_field_name("property").map(|p| (p.start_byte(), p.end_byte()));
        (f.kind().to_string(), f.start_byte(), f.end_byte(), property)
    });
    Some((value.kind().to_string(), function))
}

/// The character positions `a <= b` of `text` at which its UTF-8 encoding
/// has the byte offsets `start` and `end`.
pub open spec fn byte_positions(text: Seq<char>, start: usize, end: usize, a: int, b: int) -> bool {
    &&& 0 <= a <= b <= text.len()
    &&& encode_utf8(text.take(a)).len() == start
    &&& encode_utf8(text.take(b)).len() == end
}

/// The part of a text between two byte offsets of its UTF-8 encoding, as
/// `str::get` with a byte range gives it: `None` unless both offsets fall on
/// character boundaries with `start <= end`, else the characters between.
pub open spec fn text_between(text: Seq<char>, start: usize, end: usize) -> Option<Seq<char>> {
    if exists|a: int, b: int| byte_positions(text, start, end, a, b) {
        let (a, b) = choose|a: int, b: int| byte_positions(text, start, end, a, b);
        Some(text.subrange(a, b))
    } else {
        None
    }
}

/// The part of `text` between two byte offsets (`str::get` with a byte
/// range), as [`text_between`] states it.
#[verifier::external_body]
fn byte_range_text(text: &str, start: usize, end: usize) -> (r: Option<String>)
    ensures
        match r {
            Some(t) => text_between(text@, start, end) == Some(t@),
            None => text_between(text@, start, end) is None,
        },
{
    match text.get(start..end) {
        Some(t) => Some(t.to_string()),
        None => None,
    }
}

/// The text of `source` between two byte offsets, empty where that is no
/// whole stretch of its characters.
pub open spec fn text_or_empty(source: Seq<char>, start: usize, end: usize) -> Seq<char> {
    match text_between(source, start, end) {
        Some(t) => t,
        None => Seq::empty(),
    }
}

/// The text of `source` between two byte offsets ([`text_or_empty`]).
fn span_text(source: &str, start: usize, end: usize) -> (r: String)
    ensures
        r@ == text_or_empty(source@, start, end),
{
    match byte_range_text(source, start, end) {
        Some(t) => t,
        None => String::new(),
    }
}

// ---------------------------------------------------------------------------
// Conversion of query results into plain values
// ---------------------------------------------------------------------------

/// A node over the byte range `start..end` of `source`, with its text.
fn node_at(kind: String, start: usize, end: usize, source: &str) -> (r: NodeData)
    ensures
        r.kind == kind,
        r.start == start,
        r.end == end,
        r.text@ == text_or_empty(source@, start, end),
{
    let text = span_text(source, start, end);
    NodeData { kind, text, start, end }
}

/// A node's kind and byte range.
pub open spec fn node_plain(n: NodeData) -> (Seq<char>, usize, usize) {
    (n.kind@, n.start, n.end)
}

/// A node's text is the text of `source` over its byte range.
pub open spec fn text_follows(n: NodeData, source: Seq<char>) -> bool {
    n.text@ == text_or_empty(source, n.start, n.end)
}

/// A child as plain values.
pub open spec fn child_plain(c: ChildData) -> ChildPlain {
    (c.node.kind@, c.node.start, c.node.end, opt_text(c.value_kind), c.children@.map_values(|g: NodeData| node_plain(g)))
}

/// A child's text and its children's texts follow `source`.
pub open spec fn child_texts_follow(c: ChildData, source: Seq<char>) -> bool {
    &&& text_follows(c.node, source)
    &&& forall|g: int| 0 <= g < c.children@.len() ==> text_follows(#[trigger] c.children@[g], source)
}

/// The callee of a value field matches its plain values, with its texts
/// taken from `source`.
pub open spec fn callee_follows(f: Option<CalleeData>, p: Option<CalleePlain>, source: Seq<char>) -> bool {
    match (f, p) {
        (None, None) => true,
        (Some(c), Some(q)) => {
            &&& node_plain(c.node) == (q.0, q.1, q.2)
            &&& text_follows(c.node, source)
            &&& match (c.property, q.3) {
                (None, None) => true,
                (Some(t), Some(r)) => t@ == text_or_empty(source, r.0, r.1),
                _ => false,
            }
        },
        _ => false,
    }
}

/// A value field matches its plain values, with its texts taken from
/// `source`.
pub open spec fn value_follows(v: Option<ValueData>, p: Option<ValuePlain>, source: Seq<char>) -> bool {
    match (v, p) {
        (None, None) => true,
        (Some(d), Some(q)) => d.kind@ == q.0 && callee_follows(d.function, q.1, source),
        _ => false,
    }
}

/// The children and the parent's value field of a capture are those of the
/// captured node `id` (language, query, source, match, capture), with
/// texts taken from the source.
pub open spec fn shape_follows(c: CaptureData, id: (SupportedLanguage, Seq<char>, Seq<char>, usize, usize)) -> bool {
    &&& c.children@.map_values(|k: ChildData| child_plain(k)) == capture_children_of(id.0, id.1, id.2, id.3, id.4)
    &&& forall|k: int| 0 <= k < c.children@.len() ==> child_texts_follow(#[trigger] c.children@[k], id.2)
    &&& value_follows(c.parent_value, capture_value_of(id.0, id.1, id.2, id.3, id.4), id.2)
}

/// A child of a captured node as plain values with texts.
fn child_data(k: &ChildRaw, source: &str) -> (r: ChildData)
    ensures
        child_plain(r) == child_raw_plain(*k),
        child_texts_follow(r, source@),
{
    let mut children: Vec<NodeData> = Vec::new();
    let mut g: usize = 0;
    while g < k.4.len()
        invariant
            g <= k.4@.len(),
            children@.len() == g,
            children@.map_values(|n: NodeData| node_plain(n)) == k.4@.take(g as int).map_values(
                |x: (String, usize, usize)| (x.0@, x.1, x.2),
            ),
            forall|h: int| 0 <= h < children@.len() ==> text_follows(#[trigger] children@[h], source@),
        decreases k.4@.len() - g,
    {
        let (gk, gs, ge) = &k.4[g];
        let n = node_at(gk.clone(), *gs, *ge, source);
        let ghost before = children@;
        children.push(n);
        proof {
            assert(children@ == before.push(n));
            assert(before.push(n)[g as int] == n);
            assert forall|h: int| 0 <= h < g implies #[trigger] children@[h] == before[h] by {
                assert(before.push(n)[h] == before[h]);
            }
            assert(node_plain(n) == (k.4@[g as int].0@, k.4@[g as int].1, k.4@[g as int].2));
            assert forall|h: int| 0 <= h < g implies #[trigger] node_plain(children@[h]) == (
                k.4@[h].0@,
                k.4@[h].1,
                k.4@[h].2,
            ) by {
                assert(before.map_values(|n: NodeData| node_plain(n))[h] == k.4@.take(g as int).map_values(
                    |x: (String, usize, usize)| (x.0@, x.1, x.2),
                )[h]);
            }
            assert(children@.map_values(|n: NodeData| node_plain(n)) =~= k.4@.take(g + 1).map_values(
                |x: (String, usize, usize)| (x.0@, x.1, x.2),
            ));
        }
        g = g + 1;
    }
    proof {
        assert(k.4@.take(k.4@.len() as int) =~= k.4@);
    }
    let value_kind = match &k.3 {
        Some(v) => Some(v.clone()),
        None => None,
    };
    let node = node_at(k.0.clone(), k.1, k.2, source);
    let r = ChildData { node, value_kind, children };
    proof {
        assert(opt_text(r.value_kind) == opt_text(k.3));
        assert(child_plain(r).4 =~= child_raw_plain(*k).4);
    }
    r
}

/// The value field of a captured node's parent as plain values with texts.
fn value_data(v: &Option<(String, Option<CalleeRaw>)>, source: &str) -> (r: Option<ValueData>)
    ensures
        value_follows(r, value_raw_plain(*v), source@),
{
    match v {
        Some((kind, function)) => {
            let f = match function {
                Some((fk, fs, fe, prop)) => {
                    let property = match prop {
                        Some((ps, pe)) => Some(span_text(source, *ps, *pe)),
                        None => None,
                    };
                    Some(CalleeData { node: node_at(fk.clone(), *fs, *fe, source), property })
                },
                None => None,
            };
            Some(ValueData { kind: kind.clone(), function: f })
        },
        None => None,
    }
}

/// A capture named `name`, of kind `kind` over the byte range `start..end`
/// of `source`, with the children and the parent's value field of the
/// captured node, as plain values.
fn capture_data(
    name: String,
    kind: String,
    start: usize,
    end: usize,
    node: &CapturedNode,
    source: &str,
) -> (r: CaptureData)
    requires
        source@ == node@.2,
    ensures
        r.name == name,
        r.node.kind == kind,
        r.node.start == start,
        r.node.end == end,
        r.node.text@ == text_or_empty(source@, start, end),
        shape_follows(r, node@),
{
    let kids = captured_children(node);
    let mut children: Vec<ChildData> = Vec::new();
    let mut i: usize = 0;
    while i < kids.len()
        invariant
            i <= kids@.len(),
            children@.len() == i,
            source@ == node@.2,
            children@.map_values(|k: ChildData| child_plain(k)) == kids@.take(i as int).map_values(
                |k: ChildRaw| child_raw_plain(k),
            ),
            forall|h: int| 0 <= h < children@.len() ==> child_texts_follow(#[trigger] children@[h], source@),
        decreases kids@.len() - i,
    {
        let c = child_data(&kids[i], source);
        let ghost before = children@;
        children.push(c);
        proof {
            assert(children@ == before.push(c));
            assert(before.push(c)[i as int] == c);
            assert forall|h: int| 0 <= h < i implies #[trigger] children@[h] == before[h] by {
                assert(before.push(c)[h] == before[h]);
            }
            assert(child_plain(c) == child_raw_plain(kids@[i as int]));
            assert forall|h: int| 0 <= h < i implies #[trigger] child_plain(children@[h]) == child_raw_plain(
                kids@[h],
            ) by {
                assert(before.map_values(|k: ChildData| child_plain(k))[h] == kids@.take(i as int).map_values(
                    |k: ChildRaw| child_raw_plain(k),
                )[h]);
            }
            assert(children@.map_values(|k: ChildData| child_plain(k)) =~= kids@.take(i + 1).map_values(
                |k: ChildRaw| child_raw_plain(k),
            ));
        }
        i = i + 1;
    }
    proof {
        assert(kids@.take(kids@.len() as int) =~= kids@);
    }
    let raw_value = captured_value(node);
    let parent_value = value_data(&raw_value, source);
    let text = span_text(source, start, end);
    CaptureData { name, node: NodeData { kind, text, start, end }, children, parent_value }
}

/// Every captured node of `ms` has an ordered byte range.
pub open spec fn ranges_ordered(ms: Seq<MatchData>) -> bool {
    forall|i: int, j: int|
        0 <= i < ms.len() && 0 <= j < ms[i].captures@.len() ==> (#[trigger] ms[i].captures@[j]).node.start
            <= ms[i].captures@[j].node.end
}

/// A capture as plain values: its name, and its node's kind and byte range.
pub open spec fn capture_plain(c: CaptureData) -> (Seq<char>, Seq<char>, usize, usize) {
    (c.name@, c.node.kind@, c.node.start, c.node.end)
}

/// The captures of `ms` as plain values, one sequence per match.
pub open spec fn plain_of(ms: Seq<MatchData>) -> Seq<Seq<(Seq<char>, Seq<char>, usize, usize)>> {
    ms.map_values(|m: MatchData| m.captures@.map_values(|c: CaptureData| capture_plain(c)))
}

/// Each captured node's text is the text of `source` over its byte range.
pub open spec fn texts_follow(ms: Seq<MatchData>, source: Seq<char>) -> bool {
    forall|i: int, j: int|
        0 <= i < ms.len() && 0 <= j < ms[i].captures@.len() ==> (#[trigger] ms[i].captures@[j]).node.text@
            == text_or_empty(source, ms[i].captures@[j].node.start, ms[i].captures@[j].node.end)
}

/// The captures of the matches of a query over a tree, as plain values:
/// those that tree-sitter gives where both are of one language, none
/// otherwise.
pub open spec fn query_data(query: (SupportedLanguage, Seq<char>), tree: (SupportedLanguage, Seq<char>)) -> Seq<
    Seq<(Seq<char>, Seq<char>, usize, usize)>,
> {
    if query.0 == tree.0 {
        capture_data_of(query.0, query.1, tree.1)
    } else {
        Seq::empty()
    }
}

/// Each capture of `ms` has the children and parent value field of capture
/// `j` of match `i` of `query` over `source`.
pub open spec fn shapes_follow(ms: Seq<MatchData>, query: (SupportedLanguage, Seq<char>), source: Seq<char>) -> bool {
    forall|i: int, j: int|
        0 <= i < ms.len() && 0 <= j < ms[i].captures@.len() ==> shape_follows(
            #[trigger] ms[i].captures@[j],
            (query.0, query.1, source, i as usize, j as usize),
        )
}

/// Runs `query` over `tree` and returns every match with its captures as
/// plain values, in tree-sitter's order: each captured node with its text,
/// its children and its parent's value field; no match where the query was
/// compiled for another language than the tree's.
pub fn run_query(query: &CompiledQuery, tree: &ParsedTree) -> (r: Vec<MatchData>)
    ensures
        ranges_ordered(r@),
        plain_of(r@) == query_data(query@, tree@),
        texts_follow(r@, tree@.1),
        shapes_follow(r@, query@, tree@.1),
{
    if query.lang != tree.lang {
        let none: Vec<MatchData> = Vec::new();
        proof {
            assert(plain_of(none@) =~= query_data(query@, tree@));
        }
        return none;
    }
    let source = tree.text.as_str();
    let raw = query_captures(query, tree);
    let ghost data = raw_plain(raw@);
    let mut out: Vec<MatchData> = Vec::new();
    let mut i: usize = 0;
    while i < raw.len()
        invariant
            i <= raw@.len(),
            data == raw_plain(raw@),
            source@ == tree@.1,
            forall|a: int, b: int|
                0 <= a < raw@.len() && 0 <= b < raw@[a]@.len() ==> (#[trigger] raw@[a]@[b]).2 <= raw@[a]@[b].3
                    && raw@[a]@[b].4@ == (query@.0, query@.1, tree@.1, a as usize, b as usize),
            ranges_ordered(out@),
            texts_follow(out@, tree@.1),
            shapes_follow(out@, query@, tree@.1),
            out@.len() == i,
            plain_of(out@) == data.take(i as int),
        decreases raw.len() - i,
    {
        let caps = &raw[i];
        let mut captures: Vec<CaptureData> = Vec::new();
        let mut j: usize = 0;
        while j < caps.len()
            invariant
                j <= caps@.len(),
                i < raw@.len(),
                data == raw_plain(raw@),
                source@ == tree@.1,
                *caps == raw@[i as int],
                forall|b: int|
                    0 <= b < caps@.len() ==> (#[trigger] caps@[b]).2 <= caps@[b].3 && caps@[b].4@ == (
                        query@.0,
                        query@.1,
                        tree@.1,
                        i,
                        b as usize,
                    ),
                captures@.len() == j,
                forall|k: int| 0 <= k < captures@.len() ==> (#[trigger] captures@[k]).node.start <= captures@[k].node.end,
                forall|k: int|
                    0 <= k < captures@.len() ==> (#[trigger] captures@[k]).node.text@ == text_or_empty(
                        tree@.1,
                        captures@[k].node.start,
                        captures@[k].node.end,
                    ),
                forall|k: int|
                    0 <= k < captures@.len() ==> shape_follows(
                        #[trigger] captures@[k],
                        (query@.0, query@.1, tree@.1, i, k as usize),
                    ),
                captures@.map_values(|c: CaptureData| capture_plain(c)) == data[i as int].take(j as int),
            decreases caps.len() - j,
        {
            let (name, kind, start, end, node) = &caps[j];
            proof {
                assert(caps@[j as int].2 <= caps@[j as int].3);
                assert(caps@[j as int].4@ == (query@.0, query@.1, tree@.1, i, j));
            }
            let c = capture_data(name.clone(), kind.clone(), *start, *end, node, source);
            let ghost before = captures@;
            captures.push(c);
            proof {
                assert(captures@ == before.push(c));
                assert(data[i as int] == caps@.map_values(|c: RawCapture| (c.0@, c.1@, c.2, c.3)));
                assert(data[i as int][j as int] == (caps@[j as int].0@, caps@[j as int].1@, caps@[j as int].2, caps@[j as int].3));
                assert(before.push(c)[j as int] == c);
                assert forall|k: int| 0 <= k < j implies #[trigger] captures@[k] == before[k] by {
                    assert(before.push(c)[k] == before[k]);
                }
                assert(captures@.map_values(|c: CaptureData| capture_plain(c)) =~= data[i as int].take(j + 1));
            }
            j = j + 1;
        }
        proof {
            assert(data[i as int] == caps@.map_values(|c: RawCapture| (c.0@, c.1@, c.2, c.3)));
            assert(data[i as int].take(caps@.len() as int) =~= data[i as int]);
        }
        let m = MatchData { captures };
        let ghost before = out@;
        out.push(m);
        proof {
            assert(out@ == before.push(m));
            assert(before.push(m)[i as int] == m);
            assert forall|k: int| 0 <= k < i implies #[trigger] out@[k] == before[k] by {
                assert(before.push(m)[k] == before[k]);
            }
            assert(plain_of(out@) =~= data.take(i + 1));
        }
        i = i + 1;
    }
    proof {
        assert(data.take(raw@.len() as int) =~= data);
    }
    out
}

/// The byte range of the root node of a tree.
pub fn root_range(tree: &ParsedTree) -> (r: (usize, usize))
    ensures
        r == root_range_of(tree@.0, tree@.1),
        r.0 <= r.1,
{
    root_span(tree)
}

} // verus!
