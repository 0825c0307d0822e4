//! File-level structure: imports, exports, string literals, implementations,
//! route definitions and middleware usage.

use vstd::prelude::*;
use crate::analysis::constants::{assoc_get, assoc_keys, assoc_lookup, pairs_view};
use crate::analysis::language::SupportedLanguage;
use crate::analysis::boundary::{utf8_shorter_than_two, shorter_than_two_bytes};
use crate::analysis::QueryMatches;
use crate::schema::{ImportNode, ExportNode, ImportV, ExportV};
use crate::syntax::{CaptureData, ChildData, MatchData, NodeData};
use crate::models::strings_view;
use crate::text::{
    replace_chars,
    trim_quotes,
    starts_with,
    str_eq,
    trim_quote_chars,
    replace_chars_exec,
    chars_of,
    str_starts_with,
    has_char,
};

verus! {

/// What a file declares at its top level.
pub struct StructuralData {
    pub imports: Vec<ImportNode>,
    pub exports: Vec<ExportNode>,
    pub literals: Vec<String>,
    /// Implementing type and the type it implements.
    pub implementations: Vec<(String, String)>,
    pub middleware_usage: Vec<String>,
    pub defined_routes: Vec<String>,
}

/// The source an import or export names: the value of the constant of that
/// name, or the text without its quotes.
pub open spec fn source_text(raw: Seq<char>, consts: Seq<(Seq<char>, Seq<char>)>) -> Seq<char> {
    match assoc_get(consts, raw) {
        Some(v) => v,
        None => replace_chars(raw, seq!['"', '\''], Seq::empty()),
    }
}

/// What the captures of an import match say so far.
pub struct ImportState {
    pub src: Seq<char>,
    pub name: Seq<char>,
    pub alias: Option<Seq<char>>,
}

pub open spec fn import_fold(caps: Seq<CaptureData>, consts: Seq<(Seq<char>, Seq<char>)>) -> ImportState
    decreases caps.len(),
{
    if caps.len() == 0 {
        ImportState { src: Seq::empty(), name: Seq::empty(), alias: None }
    } else {
        let st = import_fold(caps.drop_last(), consts);
        let c = caps.last();
        let text = c.node.text@;
        if c.name@ == "import.source"@ {
            ImportState { src: source_text(text, consts), ..st }
        } else if c.name@ == "import.dynamic"@ {
            match assoc_get(consts, text) {
                Some(v) => ImportState { src: replace_chars(v, seq!['"', '\'', '`'], Seq::empty()), ..st },
                None => st,
            }
        } else if c.name@ == "import.name"@ {
            ImportState { name: text, ..st }
        } else if c.name@ == "import.alias"@ {
            ImportState { name: "*"@, alias: Some(text), ..st }
        } else {
            st
        }
    }
}

/// A Python module path written with dots, as a path with slashes.
pub open spec fn python_source(src: Seq<char>) -> Seq<char> {
    if src.contains('.') && !starts_with(src, "./"@) && !starts_with(src, "../"@) && src != "."@
        && src != ".."@ {
        replace_chars(src, seq!['.'], seq!['/'])
    } else {
        src
    }
}

/// The import a match declares, where it names a source.
pub open spec fn import_of_match(m: MatchData, lang: SupportedLanguage, consts: Seq<(Seq<char>, Seq<char>)>) -> Option<ImportV> {
    let st = import_fold(m.captures@, consts);
    if st.src.len() == 0 {
        None
    } else {
        Some(
            ImportV {
                name: st.name,
                source: if lang == SupportedLanguage::Python {
                    python_source(st.src)
                } else {
                    st.src
                },
                alias: st.alias,
            },
        )
    }
}

pub open spec fn imports_of(ms: Seq<MatchData>, lang: SupportedLanguage, consts: Seq<(Seq<char>, Seq<char>)>) -> Seq<ImportV>
    decreases ms.len(),
{
    if ms.len() == 0 {
        Seq::empty()
    } else {
        let r = imports_of(ms.drop_last(), lang, consts);
        match import_of_match(ms.last(), lang, consts) {
            Some(i) => r.push(i),
            None => r,
        }
    }
}

pub open spec fn export_fold(caps: Seq<CaptureData>, consts: Seq<(Seq<char>, Seq<char>)>) -> (Seq<char>, Option<Seq<char>>)
    decreases caps.len(),
{
    if caps.len() == 0 {
        (Seq::empty(), None)
    } else {
        let (src, name) = export_fold(caps.drop_last(), consts);
        let c = caps.last();
        if c.name@ == "export.source"@ {
            (source_text(c.node.text@, consts), name)
        } else if c.name@ == "export.name"@ {
            (src, Some(c.node.text@))
        } else {
            (src, name)
        }
    }
}

pub open spec fn exports_of(ms: Seq<MatchData>, consts: Seq<(Seq<char>, Seq<char>)>) -> Seq<ExportV>
    decreases ms.len(),
{
    if ms.len() == 0 {
        Seq::empty()
    } else {
        let r = exports_of(ms.drop_last(), consts);
        let (src, name) = export_fold(ms.last().captures@, consts);
        if src.len() > 0 {
            r.push(ExportV { name, source: src })
        } else {
            r
        }
    }
}

/// The first identifier among nodes.
pub open spec fn first_identifier(ns: Seq<NodeData>) -> Option<Seq<char>>
    decreases ns.len(),
{
    if ns.len() == 0 {
        None
    } else if ns[0].kind@ == "identifier"@ {
        Some(ns[0].text@)
    } else {
        first_identifier(ns.drop_first())
    }
}

/// What a substitution of a template string stands for: the unquoted value
/// of the constant its first identifier names, or `*`.
pub open spec fn substitution_text(grand: Seq<NodeData>, consts: Seq<(Seq<char>, Seq<char>)>) -> Seq<char> {
    match first_identifier(grand) {
        Some(n) => match assoc_get(consts, n) {
            Some(v) => trim_quotes(v),
            None => seq!['*'],
        },
        None => seq!['*'],
    }
}

/// The text a template string stands for, and whether it has substitutions.
pub open spec fn template_fold(children: Seq<ChildData>, consts: Seq<(Seq<char>, Seq<char>)>) -> (Seq<char>, bool)
    decreases children.len(),
{
    if children.len() == 0 {
        (Seq::empty(), false)
    } else {
        let (syn, complex) = template_fold(children.drop_last(), consts);
        let ch = children.last();
        let k = ch.node.kind@;
        if k == "string_fragment"@ || k == "string_content"@ {
            (syn + ch.node.text@, complex)
        } else if k == "template_substitution"@ || k == "interpolation"@ {
            (syn + substitution_text(ch.children@, consts), true)
        } else {
            (syn, complex)
        }
    }
}

/// The literals one capture yields: the expanded text of a template string
/// with substitutions, then the unquoted text if it is longer than a byte.
pub open spec fn literal_outputs(c: CaptureData, consts: Seq<(Seq<char>, Seq<char>)>) -> Seq<Seq<char>> {
    let k = c.node.kind@;
    let pre = if k == "template_string"@ || k == "string"@ {
        let (syn, complex) = template_fold(c.children@, consts);
        if complex && syn.len() > 0 {
            seq![syn]
        } else {
            Seq::empty()
        }
    } else {
        Seq::empty()
    };
    let text = trim_quotes(c.node.text@);
    pre + if !utf8_shorter_than_two(text) {
        seq![text]
    } else {
        Seq::empty()
    }
}

/// What `f` yields for every capture of every match, in order.
pub open spec fn per_capture(ms: Seq<MatchData>, f: spec_fn(CaptureData) -> Seq<Seq<char>>) -> Seq<Seq<char>>
    decreases ms.len(),
{
    if ms.len() == 0 {
        Seq::empty()
    } else {
        per_capture(ms.drop_last(), f) + captures_out(ms.last().captures@, f)
    }
}

/// What `f` yields for every capture, in order.
pub open spec fn captures_out(caps: Seq<CaptureData>, f: spec_fn(CaptureData) -> Seq<Seq<char>>) -> Seq<Seq<char>>
    decreases caps.len(),
{
    if caps.len() == 0 {
        Seq::empty()
    } else {
        captures_out(caps.drop_last(), f) + f(caps.last())
    }
}

/// The values of the constants longer than one byte, in list order.
pub open spec fn long_values(consts: Seq<(Seq<char>, Seq<char>)>) -> Seq<Seq<char>>
    decreases consts.len(),
{
    if consts.len() == 0 {
        Seq::empty()
    } else {
        let r = long_values(consts.drop_last());
        if !utf8_shorter_than_two(consts.last().1) {
            r.push(consts.last().1)
        } else {
            r
        }
    }
}

pub open spec fn impl_fold(caps: Seq<CaptureData>) -> (Seq<char>, Seq<char>)
    decreases caps.len(),
{
    if caps.len() == 0 {
        (Seq::empty(), Seq::empty())
    } else {
        let (child, parent) = impl_fold(caps.drop_last());
        let c = caps.last();
        if c.name@ == "impl.child"@ {
            (c.node.text@, parent)
        } else if c.name@ == "impl.parent"@ {
            (child, c.node.text@)
        } else {
            (child, parent)
        }
    }
}

pub open spec fn implementations_of(ms: Seq<MatchData>) -> Seq<(Seq<char>, Seq<char>)>
    decreases ms.len(),
{
    if ms.len() == 0 {
        Seq::empty()
    } else {
        let r = implementations_of(ms.drop_last());
        let (child, parent) = impl_fold(ms.last().captures@);
        if child.len() > 0 && parent.len() > 0 {
            r.push((child, parent))
        } else {
            r
        }
    }
}

/// A route as written, unquoted and starting with `/`.
pub open spec fn route_text(text: Seq<char>) -> Seq<char> {
    let t = trim_quotes(text);
    if t.len() > 0 && t[0] == '/' {
        t
    } else {
        seq!['/'] + t
    }
}

/// The route a capture defines, if it is more than `/`.
pub open spec fn route_outputs(c: CaptureData) -> Seq<Seq<char>> {
    let r = route_text(c.node.text@);
    if r.len() > 1 {
        seq![r]
    } else {
        Seq::empty()
    }
}

/// The middleware a capture names.
pub open spec fn middleware_outputs(c: CaptureData) -> Seq<Seq<char>> {
    if c.name@ == "middleware.use"@ || c.name@ == "middleware.config"@ {
        seq![trim_quotes(c.node.text@)]
    } else {
        Seq::empty()
    }
}

/// The models of a list of imports.
pub open spec fn imports_view(v: Seq<ImportNode>) -> Seq<ImportV> {
    v.map_values(|i: ImportNode| i@)
}

/// The models of a list of exports.
pub open spec fn exports_view(v: Seq<ExportNode>) -> Seq<ExportV> {
    v.map_values(|e: ExportNode| e@)
}

// ---------------------------------------------------------------------------

fn source_text_exec(raw: &str, consts: &Vec<(String, String)>) -> (r: String)
    requires
        assoc_keys(pairs_view(consts@)).no_duplicates(),
    ensures
        r@ == source_text(raw@, pairs_view(consts@)),
{
    match assoc_lookup(consts, raw) {
        Some(v) => v,
        None => {
            let mut qs: Vec<char> = Vec::new();
            qs.push('"');
            qs.push('\'');
            proof {
                assert(qs@ =~= seq!['"', '\'']);
                reveal_strlit("");
                assert(""@ =~= Seq::<char>::empty());
            }
            replace_chars_exec(raw, &qs, "")
        },
    }
}

fn import_of_match_exec(m: &MatchData, lang: SupportedLanguage, consts: &Vec<(String, String)>) -> (r: Option<ImportNode>)
    requires
        assoc_keys(pairs_view(consts@)).no_duplicates(),
    ensures
        match r {
            Some(i) => import_of_match(*m, lang, pairs_view(consts@)) == Some(i@),
            None => import_of_match(*m, lang, pairs_view(consts@)) is None,
        },
{
    let caps = &m.captures;
    let mut src = String::new();
    let mut name = String::new();
    let mut alias: Option<String> = None;
    let mut i: usize = 0;
    while i < caps.len()
        invariant
            assoc_keys(pairs_view(consts@)).no_duplicates(),
            0 <= i <= caps@.len(),
            ({
                let st = import_fold(caps@.take(i as int), pairs_view(consts@));
                &&& src@ == st.src
                &&& name@ == st.name
                &&& match alias {
                    Some(a) => st.alias == Some(a@),
                    None => st.alias is None,
                }
            }),
        decreases caps@.len() - i,
    {
        let c = &caps[i];
        proof {
            assert(caps@.take(i + 1).drop_last() =~= caps@.take(i as int));
            assert(caps@.take(i + 1).last() == c);
        }
        let text = c.node.text.as_str();
        if str_eq(c.name.as_str(), "import.source") {
            src = source_text_exec(text, consts);
        } else if str_eq(c.name.as_str(), "import.dynamic") {
            match assoc_lookup(consts, text) {
                Some(v) => {
                    let mut qs: Vec<char> = Vec::new();
                    qs.push('"');
                    qs.push('\'');
                    qs.push('`');
                    proof {
                        assert(qs@ =~= seq!['"', '\'', '`']);
                        reveal_strlit("");
                        assert(""@ =~= Seq::<char>::empty());
                    }
                    src = replace_chars_exec(v.as_str(), &qs, "");
                },
                None => {},
            }
        } else if str_eq(c.name.as_str(), "import.name") {
            name = c.node.text.clone();
        } else if str_eq(c.name.as_str(), "import.alias") {
            name = "*".to_string();
            alias = Some(c.node.text.clone());
        }
        i = i + 1;
    }
    proof {
        assert(caps@.take(caps@.len() as int) =~= caps@);
    }
    let sv = chars_of(src.as_str());
    if sv.len() == 0 {
        return None;
    }
    if lang == SupportedLanguage::Python {
        let dotted = has_char(&sv, '.');
        if dotted && !str_starts_with(src.as_str(), "./") && !str_starts_with(src.as_str(), "../")
            && !str_eq(src.as_str(), ".") && !str_eq(src.as_str(), "..") {
            let mut dot: Vec<char> = Vec::new();
            dot.push('.');
            proof {
                assert(dot@ =~= seq!['.']);
                reveal_strlit("/");
                assert("/"@ =~= seq!['/']);
            }
            src = replace_chars_exec(src.as_str(), &dot, "/");
        }
    }
    Some(ImportNode { name, source: src, alias })
}

/// The imports declared by the matches of the imports query.
pub fn imports_from_matches(ms: &Vec<MatchData>, lang: SupportedLanguage, consts: &Vec<(String, String)>) -> (r: Vec<ImportNode>)
    requires
        assoc_keys(pairs_view(consts@)).no_duplicates(),
    ensures
        imports_view(r@) == imports_of(ms@, lang, pairs_view(consts@)),
{
    let mut out: Vec<ImportNode> = Vec::new();
    let mut i: usize = 0;
    while i < ms.len()
        invariant
            assoc_keys(pairs_view(consts@)).no_duplicates(),
            0 <= i <= ms@.len(),
            imports_view(out@) == imports_of(ms@.take(i as int), lang, pairs_view(consts@)),
        decreases ms@.len() - i,
    {
        proof {
            assert(ms@.take(i + 1).drop_last() =~= ms@.take(i as int));
            assert(ms@.take(i + 1).last() == ms@[i as int]);
        }
        match import_of_match_exec(&ms[i], lang, consts) {
            Some(imp) => {
                let ghost before = out@;
                let ghost iv = imp@;
                out.push(imp);
                proof {
                    assert(imports_view(out@) =~= imports_view(before).push(iv));
                }
            },
            None => {},
        }
        i = i + 1;
    }
    proof {
        assert(ms@.take(ms@.len() as int) =~= ms@);
    }
    out
}

/// The exports declared by the matches of the exports query.
pub fn exports_from_matches(ms: &Vec<MatchData>, consts: &Vec<(String, String)>) -> (r: Vec<ExportNode>)
    requires
        assoc_keys(pairs_view(consts@)).no_duplicates(),
    ensures
        exports_view(r@) == exports_of(ms@, pairs_view(consts@)),
{
    let mut out: Vec<ExportNode> = Vec::new();
    let mut i: usize = 0;
    while i < ms.len()
        invariant
            assoc_keys(pairs_view(consts@)).no_duplicates(),
            0 <= i <= ms@.len(),
            exports_view(out@) == exports_of(ms@.take(i as int), pairs_view(consts@)),
        decreases ms@.len() - i,
    {
        proof {
            assert(ms@.take(i + 1).drop_last() =~= ms@.take(i as int));
            assert(ms@.take(i + 1).last() == ms@[i as int]);
        }
        let caps = &ms[i].captures;
        let mut src = String::new();
        let mut name: Option<String> = None;
        let mut j: usize = 0;
        while j < caps.len()
            invariant
                assoc_keys(pairs_view(consts@)).no_duplicates(),
                0 <= j <= caps@.len(),
                ({
                    let (s, n) = export_fold(caps@.take(j as int), pairs_view(consts@));
                    &&& src@ == s
                    &&& match name {
                        Some(x) => n == Some(x@),
                        None => n is None,
                    }
                }),
            decreases caps@.len() - j,
        {
            let c = &caps[j];
            proof {
                assert(caps@.take(j + 1).drop_last() =~= caps@.take(j as int));
                assert(caps@.take(j + 1).last() == c);
            }
            if str_eq(c.name.as_str(), "export.source") {
                src = source_text_exec(c.node.text.as_str(), consts);
            } else if str_eq(c.name.as_str(), "export.name") {
                name = Some(c.node.text.clone());
            }
            j = j + 1;
        }
        proof {
            assert(caps@.take(caps@.len() as int) =~= caps@);
        }
        let sv = chars_of(src.as_str());
        if sv.len() > 0 {
            let e = ExportNode { name, source: src };
            let ghost before = out@;
            let ghost ev = e@;
            out.push(e);
            proof {
                assert(exports_view(out@) =~= exports_view(before).push(ev));
            }
        }
        i = i + 1;
    }
    proof {
        assert(ms@.take(ms@.len() as int) =~= ms@);
    }
    out
}

fn substitution_text_exec(grand: &Vec<NodeData>, consts: &Vec<(String, String)>) -> (r: String)
    requires
        assoc_keys(pairs_view(consts@)).no_duplicates(),
    ensures
        r@ == substitution_text(grand@, pairs_view(consts@)),
{
    let mut i: usize = 0;
    proof {
        assert(grand@.skip(0) =~= grand@);
    }
    while i < grand.len()
        invariant
            assoc_keys(pairs_view(consts@)).no_duplicates(),
            0 <= i <= grand@.len(),
            first_identifier(grand@) == first_identifier(grand@.skip(i as int)),
        decreases grand@.len() - i,
    {
        proof {
            assert(grand@.skip(i as int).drop_first() =~= grand@.skip(i + 1));
            assert(grand@.skip(i as int)[0] == grand@[i as int]);
        }
        if str_eq(grand[i].kind.as_str(), "identifier") {
            let star = "*".to_string();
            proof {
                reveal_strlit("*");
            }
            return match assoc_lookup(consts, grand[i].text.as_str()) {
                Some(v) => trim_quote_chars(v.as_str()),
                None => {
                    assert(star@ =~= seq!['*']);
                    star
                },
            };
        }
        i = i + 1;
    }
    proof {
        assert(grand@.skip(i as int) =~= Seq::<NodeData>::empty());
        reveal_strlit("*");
    }
    let star = "*".to_string();
    assert(star@ =~= seq!['*']);
    star
}

fn literal_outputs_exec(c: &CaptureData, consts: &Vec<(String, String)>, out: &mut Vec<String>)
    requires
        assoc_keys(pairs_view(consts@)).no_duplicates(),
    ensures
        strings_view(final(out)@) == strings_view(old(out)@) + literal_outputs(*c, pairs_view(consts@)),
{
    let ghost start = strings_view(out@);
    let k = c.node.kind.as_str();
    let ghost mut pre: Seq<Seq<char>> = Seq::empty();
    if str_eq(k, "template_string") || str_eq(k, "string") {
        let mut syn = String::new();
        let mut complex = false;
        let mut j: usize = 0;
        while j < c.children.len()
            invariant
                assoc_keys(pairs_view(consts@)).no_duplicates(),
                0 <= j <= c.children@.len(),
                (syn@, complex) == template_fold(c.children@.take(j as int), pairs_view(consts@)),
            decreases c.children@.len() - j,
        {
            let ch = &c.children[j];
            proof {
                assert(c.children@.take(j + 1).drop_last() =~= c.children@.take(j as int));
                assert(c.children@.take(j + 1).last() == ch);
            }
            let ck = ch.node.kind.as_str();
            if str_eq(ck, "string_fragment") || str_eq(ck, "string_content") {
                syn.append(ch.node.text.as_str());
            } else if str_eq(ck, "template_substitution") || str_eq(ck, "interpolation") {
                complex = true;
                let sub = substitution_text_exec(&ch.children, consts);
                syn.append(sub.as_str());
            }
            j = j + 1;
        }
        proof {
            assert(c.children@.take(c.children@.len() as int) =~= c.children@);
        }
        let sv = chars_of(syn.as_str());
        if complex && sv.len() > 0 {
            let ghost sc = syn@;
            out.push(syn);
            proof {
                pre = seq![sc];
            }
        }
    }
    proof {
        assert(strings_view(out@) =~= start + pre);
    }
    let text = trim_quote_chars(c.node.text.as_str());
    let ghost mid = strings_view(out@);
    if !shorter_than_two_bytes(text.as_str()) {
        let ghost tv = text@;
        out.push(text);
        proof {
            assert(strings_view(out@) =~= mid.push(tv));
        }
    }
    proof {
        assert(strings_view(out@) =~= start + literal_outputs(*c, pairs_view(consts@)));
    }
}

/// The literals of a file: those its literal captures yield, then the
/// values of its constants longer than one byte.
pub fn literals_from_matches(ms: &Vec<MatchData>, consts: &Vec<(String, String)>) -> (r: Vec<String>)
    requires
        assoc_keys(pairs_view(consts@)).no_duplicates(),
    ensures
        strings_view(r@) == per_capture(ms@, |c: CaptureData| literal_outputs(c, pairs_view(consts@)))
            + long_values(pairs_view(consts@)),
{
    let ghost f = |c: CaptureData| literal_outputs(c, pairs_view(consts@));
    let mut out: Vec<String> = Vec::new();
    let mut i: usize = 0;
    while i < ms.len()
        invariant
            assoc_keys(pairs_view(consts@)).no_duplicates(),
            f == (|c: CaptureData| literal_outputs(c, pairs_view(consts@))),
            0 <= i <= ms@.len(),
            strings_view(out@) == per_capture(ms@.take(i as int), f),
        decreases ms@.len() - i,
    {
        proof {
            assert(ms@.take(i + 1).drop_last() =~= ms@.take(i as int));
            assert(ms@.take(i + 1).last() == ms@[i as int]);
        }
        let caps = &ms[i].captures;
        let ghost base = strings_view(out@);
        let mut j: usize = 0;
        while j < caps.len()
            invariant
                assoc_keys(pairs_view(consts@)).no_duplicates(),
                f == (|c: CaptureData| literal_outputs(c, pairs_view(consts@))),
                0 <= j <= caps@.len(),
                strings_view(out@) == base + captures_out(caps@.take(j as int), f),
            decreases caps@.len() - j,
        {
            proof {
                assert(caps@.take(j + 1).drop_last() =~= caps@.take(j as int));
                assert(caps@.take(j + 1).last() == caps@[j as int]);
            }
            literal_outputs_exec(&caps[j], consts, &mut out);
            proof {
                assert(strings_view(out@) =~= base + captures_out(caps@.take(j + 1), f));
            }
            j = j + 1;
        }
        proof {
            assert(caps@.take(caps@.len() as int) =~= caps@);
        }
        i = i + 1;
    }
    proof {
        assert(ms@.take(ms@.len() as int) =~= ms@);
    }
    let ghost base = strings_view(out@);
    let mut k: usize = 0;
    while k < consts.len()
        invariant
            0 <= k <= pairs_view(consts@).len(),
            strings_view(out@) == base + long_values(pairs_view(consts@).take(k as int)),
        decreases pairs_view(consts@).len() - k,
    {
        proof {
            assert(pairs_view(consts@).take(k + 1).drop_last() =~= pairs_view(consts@).take(k as int));
            assert(pairs_view(consts@).take(k + 1).last() == pairs_view(consts@)[k as int]);
        }
        if !shorter_than_two_bytes(consts[k].1.as_str()) {
            let ghost before = strings_view(out@);
            let v = consts[k].1.clone();
            out.push(v);
            proof {
                assert(strings_view(out@) =~= before.push(pairs_view(consts@)[k as int].1));
            }
        }
        k = k + 1;
    }
    proof {
        assert(pairs_view(consts@).take(pairs_view(consts@).len() as int) =~= pairs_view(consts@));
    }
    out
}

/// The implementations declared by the matches of the implements query.
pub fn implementations_from_matches(ms: &Vec<MatchData>) -> (r: Vec<(String, String)>)
    ensures
        pairs_view(r@) == implementations_of(ms@),
{
    let mut out: Vec<(String, String)> = Vec::new();
    let mut i: usize = 0;
    while i < ms.len()
        invariant
            0 <= i <= ms@.len(),
            pairs_view(out@) == implementations_of(ms@.take(i as int)),
        decreases ms@.len() - i,
    {
        proof {
            assert(ms@.take(i + 1).drop_last() =~= ms@.take(i as int));
            assert(ms@.take(i + 1).last() == ms@[i as int]);
        }
        let caps = &ms[i].captures;
        let mut child = String::new();
        let mut parent = String::new();
        let mut j: usize = 0;
        while j < caps.len()
            invariant
                0 <= j <= caps@.len(),
                (child@, parent@) == impl_fold(caps@.take(j as int)),
            decreases caps@.len() - j,
        {
            let c = &caps[j];
            proof {
                assert(caps@.take(j + 1).drop_last() =~= caps@.take(j as int));
                assert(caps@.take(j + 1).last() == c);
            }
            if str_eq(c.name.as_str(), "impl.child") {
                child = c.node.text.clone();
            } else if str_eq(c.name.as_str(), "impl.parent") {
                parent = c.node.text.clone();
            }
            j = j + 1;
        }
        proof {
            assert(caps@.take(caps@.len() as int) =~= caps@);
        }
        let cv = chars_of(child.as_str());
        let pv = chars_of(parent.as_str());
        if cv.len() > 0 && pv.len() > 0 {
            let ghost before = out@;
            let ghost pair = (child@, parent@);
            out.push((child, parent));
            proof {
                assert(pairs_view(out@) =~= pairs_view(before).push(pair));
            }
        }
        i = i + 1;
    }
    proof {
        assert(ms@.take(ms@.len() as int) =~= ms@);
    }
    out
}

/// A route as written, unquoted and starting with `/`.
pub fn route_text_exec(text: &str) -> (r: String)
    ensures
        r@ == route_text(text@),
{
    let t = trim_quote_chars(text);
    let tv = chars_of(t.as_str());
    if tv.len() > 0 && tv[0] == '/' {
        t
    } else {
        let mut r = String::new();
        r.append("/");
        r.append(t.as_str());
        proof {
            reveal_strlit("/");
            assert(r@ =~= seq!['/'] + t@);
        }
        r
    }
}

/// Appends what `f` yields for every capture of every match.
fn routes_from_matches(ms: &Vec<MatchData>) -> (r: Vec<String>)
    ensures
        strings_view(r@) == per_capture(ms@, |c: CaptureData| route_outputs(c)),
{
    let ghost f = |c: CaptureData| route_outputs(c);
    let mut out: Vec<String> = Vec::new();
    let mut i: usize = 0;
    while i < ms.len()
        invariant
            f == (|c: CaptureData| route_outputs(c)),
            0 <= i <= ms@.len(),
            strings_view(out@) == per_capture(ms@.take(i as int), f),
        decreases ms@.len() - i,
    {
        proof {
            assert(ms@.take(i + 1).drop_last() =~= ms@.take(i as int));
            assert(ms@.take(i + 1).last() == ms@[i as int]);
        }
        let caps = &ms[i].captures;
        let ghost base = strings_view(out@);
        let mut j: usize = 0;
        while j < caps.len()
            invariant
                f == (|c: CaptureData| route_outputs(c)),
                0 <= j <= caps@.len(),
                strings_view(out@) == base + captures_out(caps@.take(j as int), f),
            decreases caps@.len() - j,
        {
            proof {
                assert(caps@.take(j + 1).drop_last() =~= caps@.take(j as int));
                assert(caps@.take(j + 1).last() == caps@[j as int]);
            }
            let route = route_text_exec(caps[j].node.text.as_str());
            let rv = chars_of(route.as_str());
            let ghost before = strings_view(out@);
            if rv.len() > 1 {
                let ghost rr = route@;
                out.push(route);
                proof {
                    assert(strings_view(out@) =~= before.push(rr));
                }
            }
            proof {
                assert(strings_view(out@) =~= base + captures_out(caps@.take(j + 1), f));
            }
            j = j + 1;
        }
        proof {
            assert(caps@.take(caps@.len() as int) =~= caps@);
        }
        i = i + 1;
    }
    proof {
        assert(ms@.take(ms@.len() as int) =~= ms@);
    }
    out
}

fn middleware_from_matches(ms: &Vec<MatchData>) -> (r: Vec<String>)
    ensures
        strings_view(r@) == per_capture(ms@, |c: CaptureData| middleware_outputs(c)),
{
    let ghost f = |c: CaptureData| middleware_outputs(c);
    let mut out: Vec<String> = Vec::new();
    let mut i: usize = 0;
    while i < ms.len()
        invariant
            f == (|c: CaptureData| middleware_outputs(c)),
            0 <= i <= ms@.len(),
            strings_view(out@) == per_capture(ms@.take(i as int), f),
        decreases ms@.len() - i,
    {
        proof {
            assert(ms@.take(i + 1).drop_last() =~= ms@.take(i as int));
            assert(ms@.take(i + 1).last() == ms@[i as int]);
        }
        let caps = &ms[i].captures;
        let ghost base = strings_view(out@);
        let mut j: usize = 0;
        while j < caps.len()
            invariant
                f == (|c: CaptureData| middleware_outputs(c)),
                0 <= j <= caps@.len(),
                strings_view(out@) == base + captures_out(caps@.take(j as int), f),
            decreases caps@.len() - j,
        {
            proof {
                assert(caps@.take(j + 1).drop_last() =~= caps@.take(j as int));
                assert(caps@.take(j + 1).last() == caps@[j as int]);
            }
            let c = &caps[j];
            let ghost before = strings_view(out@);
            if str_eq(c.name.as_str(), "middleware.use") || str_eq(c.name.as_str(), "middleware.config") {
                let t = trim_quote_chars(c.node.text.as_str());
                let ghost tv = t@;
                out.push(t);
                proof {
                    assert(strings_view(out@) =~= before.push(tv));
                }
            }
            proof {
                assert(strings_view(out@) =~= base + captures_out(caps@.take(j + 1), f));
            }
            j = j + 1;
        }
        proof {
            assert(caps@.take(caps@.len() as int) =~= caps@);
        }
        i = i + 1;
    }
    proof {
        assert(ms@.take(ms@.len() as int) =~= ms@);
    }
    out
}

/// The top-level structure of a file, from the matches of its queries and
/// its constants.
pub fn extract_structure(qm: &QueryMatches, lang: SupportedLanguage, constants: &Vec<(String, String)>) -> (r: StructuralData)
    requires
        assoc_keys(pairs_view(constants@)).no_duplicates(),
    ensures
        imports_view(r.imports@) == imports_of(qm.imports@, lang, pairs_view(constants@)),
        exports_view(r.exports@) == exports_of(qm.exports@, pairs_view(constants@)),
        strings_view(r.literals@) == per_capture(qm.literals@, |c: CaptureData| literal_outputs(c, pairs_view(constants@)))
            + long_values(pairs_view(constants@)),
        pairs_view(r.implementations@) == implementations_of(qm.implements@),
        strings_view(r.defined_routes@) == per_capture(qm.route_defs@, |c: CaptureData| route_outputs(c)),
        strings_view(r.middleware_usage@) == per_capture(qm.middleware@, |c: CaptureData| middleware_outputs(c)),
{
    StructuralData {
        imports: imports_from_matches(&qm.imports, lang, constants),
        exports: exports_from_matches(&qm.exports, constants),
        literals: literals_from_matches(&qm.literals, constants),
        implementations: implementations_from_matches(&qm.implements),
        middleware_usage: middleware_from_matches(&qm.middleware),
        defined_routes: routes_from_matches(&qm.route_defs),
    }
}

/// Removing the characters of `set` from `s` leaves none of them, and
/// leaves `s` as it is where it has none.
proof fn lemma_removed_chars(s: Seq<char>, set: Seq<char>)
    ensures
        forall|i: int|
            0 <= i < replace_chars(s, set, Seq::empty()).len() ==> !set.contains(
                #[trigger] replace_chars(s, set, Seq::empty())[i],
            ),
        (forall|i: int| 0 <= i < s.len() ==> !set.contains(#[trigger] s[i])) ==> replace_chars(
            s,
            set,
            Seq::empty(),
        ) == s,
        replace_chars(s, set, Seq::empty()).len() <= s.len(),
    decreases s.len(),
{
    if s.len() > 0 {
        let rest = s.drop_first();
        lemma_removed_chars(rest, set);
        let r = replace_chars(s, set, Seq::empty());
        let rr = replace_chars(rest, set, Seq::empty());
        if set.contains(s[0]) {
            assert(r =~= rr);
        } else {
            assert(r =~= seq![s[0]] + rr);
            assert forall|i: int| 0 <= i < r.len() implies !set.contains(#[trigger] r[i]) by {
                if i > 0 {
                    assert(r[i] == rr[i - 1]);
                }
            }
            if forall|i: int| 0 <= i < s.len() ==> !set.contains(#[trigger] s[i]) {
                assert forall|i: int| 0 <= i < rest.len() implies !set.contains(#[trigger] rest[i]) by {
                    assert(rest[i] == s[i + 1]);
                }
                assert(rr == rest);
                assert(r =~= s);
            }
        }
    }
}

/// The source of an import or export that no constant names has no quote
/// characters (`"` or `'`) left in it, and is the captured text itself where
/// that has none.
pub proof fn law_sources_lose_their_quotes(raw: Seq<char>, consts: Seq<(Seq<char>, Seq<char>)>)
    requires
        assoc_get(consts, raw) is None,
    ensures
        forall|i: int|
            0 <= i < source_text(raw, consts).len() ==> #[trigger] source_text(raw, consts)[i] != '"'
                && source_text(raw, consts)[i] != '\'',
        (forall|i: int| 0 <= i < raw.len() ==> #[trigger] raw[i] != '"' && raw[i] != '\'') ==> source_text(
            raw,
            consts,
        ) == raw,
{
    let set = seq!['"', '\''];
    lemma_removed_chars(raw, set);
    let r = source_text(raw, consts);
    assert forall|i: int| 0 <= i < r.len() implies #[trigger] r[i] != '"' && r[i] != '\'' by {
        assert(!set.contains(r[i]));
        if r[i] == '"' {
            assert(set[0] == r[i]);
        }
        if r[i] == '\'' {
            assert(set[1] == r[i]);
        }
    }
    if forall|i: int| 0 <= i < raw.len() ==> #[trigger] raw[i] != '"' && raw[i] != '\'' {
        assert forall|i: int| 0 <= i < raw.len() implies !set.contains(#[trigger] raw[i]) by {
            if set.contains(raw[i]) {
                let k = choose|k: int| 0 <= k < set.len() && set[k] == raw[i];
            }
        }
    }
}
} // verus!
