//! The skeleton of a file's analysis: its definitions (functions,
//! containers, macros), the module scope, and hints about local variables.

use std::ops::Range;
use vstd::prelude::*;
use vstd::hash_map::StringHashMap;
use crate::analysis::FunctionInfo;
use crate::models::SymbolKind;
use crate::syntax::{CaptureData, MatchData, NodeData, ValueData, ranges_ordered};
use crate::text::{
    trim_ws,
    trim_start_set,
    has_sub,
    str_eq,
    str_contains,
    trim_whitespace,
    trim_bounds,
    chars_of,
    string_of_range,
};

verus! {

/// A variable found by the definitions query that is not itself a
/// definition: its range, name, declared type and the function whose result
/// it holds. The enrichment pass gives it to the definition that owns it.
pub struct VariableHint {
    pub range: Range<usize>,
    pub name: String,
    pub declared_type: Option<String>,
    pub assignment: Option<String>,
}

/// The definitions of a file, its module scope and its variable hints.
pub struct DefinitionsResult {
    pub functions: Vec<FunctionInfo>,
    pub module_info: FunctionInfo,
    pub variable_hints: Vec<VariableHint>,
}

/// What the captures of a definitions match say so far.
pub struct DefFold {
    pub def: Option<NodeData>,
    pub name: Option<Seq<char>>,
    pub body_start: Option<usize>,
    pub kind: Option<Seq<char>>,
    pub return_type: Option<Seq<char>>,
    pub v_name: Option<Seq<char>>,
    pub v_type: Option<Seq<char>>,
    pub v_assign: Option<Seq<char>>,
}

/// The function whose result a variable holds, from the `value` field of the
/// variable's parent: the callee of a call (its property for a member
/// expression), where it is not empty.
pub open spec fn assigned_call(pv: Option<ValueData>) -> Option<Seq<char>> {
    match pv {
        Some(v) => if v.kind@ == "call_expression"@ {
            match v.function {
                Some(f) => {
                    let name = if f.node.kind@ == "member_expression"@ {
                        match f.property {
                            Some(p) => p@,
                            None => Seq::empty(),
                        }
                    } else {
                        f.node.text@
                    };
                    if name.len() > 0 {
                        Some(name)
                    } else {
                        None
                    }
                },
                None => None,
            }
        } else {
            None
        },
        None => None,
    }
}

pub open spec fn def_fold(caps: Seq<CaptureData>) -> DefFold
    decreases caps.len(),
{
    if caps.len() == 0 {
        DefFold {
            def: None,
            name: None,
            body_start: None,
            kind: None,
            return_type: None,
            v_name: None,
            v_type: None,
            v_assign: None,
        }
    } else {
        let st = def_fold(caps.drop_last());
        let c = caps.last();
        let n = c.name@;
        let text = c.node.text@;
        if n == "function.definition"@ {
            DefFold { def: Some(c.node), ..st }
        } else if n == "function.name"@ {
            DefFold { name: Some(text), ..st }
        } else if n == "function.body"@ {
            DefFold { body_start: Some(c.node.start), ..st }
        } else if n == "function.kind"@ {
            DefFold { kind: Some(text), ..st }
        } else if n == "function.return_type"@ {
            DefFold { return_type: Some(trim_ws(trim_start_set(text, seq![':', '=', '>']))), ..st }
        } else if n == "variable.name"@ {
            DefFold {
                v_name: Some(text),
                v_assign: match assigned_call(c.parent_value) {
                    Some(a) => Some(a),
                    None => st.v_assign,
                },
                ..st
            }
        } else if n == "variable.type"@ {
            DefFold { v_type: Some(trim_ws(trim_start_set(text, seq![':']))), ..st }
        } else {
            st
        }
    }
}

/// The kind of a definition: from its `function.kind` capture where it has
/// one, else from the grammar kind of its node.
pub open spec fn definition_kind(kind: Option<Seq<char>>, node_kind: Seq<char>) -> SymbolKind {
    match kind {
        Some(k) => if k == "resource"@ || k == "data"@ {
            SymbolKind::Resource
        } else if k == "variable"@ || k == "output"@ || k == "provider"@ {
            SymbolKind::Variable
        } else {
            SymbolKind::Function
        },
        None => if node_kind == "macro_definition"@ {
            SymbolKind::Macro
        } else if node_kind == "macro_invocation"@ {
            SymbolKind::MacroGenerated
        } else if has_sub(node_kind, "class"@) || has_sub(node_kind, "interface"@) || has_sub(
            node_kind,
            "struct"@,
        ) || has_sub(node_kind, "impl"@) || has_sub(node_kind, "module"@) {
            SymbolKind::Container
        } else {
            SymbolKind::Function
        },
    }
}

/// `f` is the skeleton of the definition that `st` describes: the fields the
/// match gives, nothing found inside it yet.
pub open spec fn is_skeleton(f: FunctionInfo, st: DefFold) -> bool {
    let node = st.def.unwrap();
    &&& f.name@ == (match st.name {
        Some(n) => n,
        None => "anonymous"@,
    })
    &&& f.kind == definition_kind(st.kind, node.kind@)
    &&& f.is_anonymous == st.name is None
    &&& f.range_start == node.start
    &&& f.range_end == node.end
    &&& f.body_start == st.body_start
    &&& f.source_code@ == node.text@
    &&& f.return_type matches Some(r) ==> st.return_type == Some(r@)
    &&& f.return_type is None ==> st.return_type is None
    &&& is_bare(f)
}

/// Nothing has been found inside `f` yet.
pub open spec fn is_bare(f: FunctionInfo) -> bool {
    &&& f.documentation is None
    &&& f.calls@.len() == 0
    &&& f.type_refs@.len() == 0
    &&& f.decorators@.len() == 0
    &&& f.fingerprints@.len() == 0
    &&& f.local_types@ == Map::<Seq<char>, String>::empty()
    &&& f.local_assigns@ == Map::<Seq<char>, String>::empty()
    &&& f.config_keys@.len() == 0
    &&& f.dispatched_actions@.len() == 0
    &&& f.handled_actions@.len() == 0
    &&& f.routes@.len() == 0
}

/// The model of a variable hint.
pub struct HintV {
    pub start: usize,
    pub end: usize,
    pub name: Seq<char>,
    pub declared_type: Option<Seq<char>>,
    pub assignment: Option<Seq<char>>,
}

/// What the matches of the definitions query give, in order: for each match
/// with a definition its fold, and for each other match naming a variable
/// its hint (with the range of the match's first capture).
pub open spec fn def_outputs(ms: Seq<MatchData>) -> (Seq<DefFold>, Seq<HintV>)
    decreases ms.len(),
{
    if ms.len() == 0 {
        (Seq::empty(), Seq::empty())
    } else {
        let (ds, hs) = def_outputs(ms.drop_last());
        let caps = ms.last().captures@;
        let st = def_fold(caps);
        if st.def is Some {
            (ds.push(st), hs)
        } else if st.v_name is Some {
            (
                ds,
                hs.push(
                    HintV {
                        start: caps[0].node.start,
                        end: caps[0].node.end,
                        name: st.v_name.unwrap(),
                        declared_type: st.v_type,
                        assignment: st.v_assign,
                    },
                ),
            )
        } else {
            (ds, hs)
        }
    }
}

/// The model of an optional string.
pub open spec fn opt_chars(o: Option<String>) -> Option<Seq<char>> {
    match o {
        Some(s) => Some(s@),
        None => None,
    }
}

/// The model of a variable hint.
pub open spec fn hint_view(h: VariableHint) -> HintV {
    HintV {
        start: h.range.start,
        end: h.range.end,
        name: h.name@,
        declared_type: opt_chars(h.declared_type),
        assignment: opt_chars(h.assignment),
    }
}

/// The models of a list of variable hints.
pub open spec fn hints_view(v: Seq<VariableHint>) -> Seq<HintV> {
    v.map_values(|h: VariableHint| hint_view(h))
}

/// A function scope with the given name, kind and range, and nothing in it.
pub fn bare_function(name: String, kind: SymbolKind, range_start: usize, range_end: usize) -> (r:
    FunctionInfo)
    ensures
        r.name@ == name@,
        r.kind == kind,
        !r.is_anonymous,
        r.range_start == range_start,
        r.range_end == range_end,
        r.body_start is None,
        r.source_code@.len() == 0,
        r.return_type is None,
        is_bare(r),
{
    FunctionInfo {
        name,
        kind,
        is_anonymous: false,
        range_start,
        range_end,
        body_start: None,
        source_code: String::new(),
        documentation: None,
        calls: Vec::new(),
        type_refs: Vec::new(),
        decorators: Vec::new(),
        fingerprints: Vec::new(),
        return_type: None,
        local_types: StringHashMap::new(),
        local_assigns: StringHashMap::new(),
        config_keys: Vec::new(),
        dispatched_actions: Vec::new(),
        handled_actions: Vec::new(),
        routes: Vec::new(),
    }
}

fn assigned_call_exec(pv: &Option<ValueData>) -> (r: Option<String>)
    ensures
        opt_chars(r) == assigned_call(*pv),
{
    match pv {
        Some(v) => {
            if !str_eq(v.kind.as_str(), "call_expression") {
                return None;
            }
            match &v.function {
                Some(f) => {
                    let name = if str_eq(f.node.kind.as_str(), "member_expression") {
                        match &f.property {
                            Some(p) => p.clone(),
                            None => String::new(),
                        }
                    } else {
                        f.node.text.clone()
                    };
                    let nv = chars_of(name.as_str());
                    if nv.len() > 0 {
                        Some(name)
                    } else {
                        None
                    }
                },
                None => None,
            }
        },
        None => None,
    }
}

/// `text` without its leading characters from `set`, then trimmed.
fn trim_lead_then_ws(text: &str, set: &Vec<char>) -> (r: String)
    ensures
        r@ == trim_ws(trim_start_set(text@, set@)),
{
    let v = chars_of(text);
    let (a, _b) = trim_bounds(&v, set);
    let rest = string_of_range(&v, a, v.len());
    trim_whitespace(rest.as_str())
}

/// Folds the captures of one match of the definitions query.
fn def_fold_exec(caps: &Vec<CaptureData>) -> (r: (
    Option<usize>,
    Option<String>,
    Option<usize>,
    Option<String>,
    Option<String>,
    Option<String>,
    Option<String>,
    Option<String>,
))
    ensures
        ({
            let st = def_fold(caps@);
            &&& match r.0 {
                Some(k) => k < caps@.len() && st.def == Some(caps@[k as int].node),
                None => st.def is None,
            }
            &&& opt_chars(r.1) == st.name
            &&& r.2 == st.body_start
            &&& opt_chars(r.3) == st.kind
            &&& opt_chars(r.4) == st.return_type
            &&& opt_chars(r.5) == st.v_name
            &&& opt_chars(r.6) == st.v_type
            &&& opt_chars(r.7) == st.v_assign
        }),
{
    let mut def: Option<usize> = None;
    let mut name: Option<String> = None;
    let mut body_start: Option<usize> = None;
    let mut kind: Option<String> = None;
    let mut return_type: Option<String> = None;
    let mut v_name: Option<String> = None;
    let mut v_type: Option<String> = None;
    let mut v_assign: Option<String> = None;
    let mut lead: Vec<char> = Vec::new();
    lead.push(':');
    lead.push('=');
    lead.push('>');
    let mut colon: Vec<char> = Vec::new();
    colon.push(':');
    proof {
        assert(lead@ =~= seq![':', '=', '>']);
        assert(colon@ =~= seq![':']);
    }
    let mut i: usize = 0;
    while i < caps.len()
        invariant
            lead@ == seq![':', '=', '>'],
            colon@ == seq![':'],
            0 <= i <= caps@.len(),
            ({
                let st = def_fold(caps@.take(i as int));
                &&& match def {
                    Some(k) => k < i && st.def == Some(caps@[k as int].node),
                    None => st.def is None,
                }
                &&& opt_chars(name) == st.name
                &&& body_start == st.body_start
                &&& opt_chars(kind) == st.kind
                &&& opt_chars(return_type) == st.return_type
                &&& opt_chars(v_name) == st.v_name
                &&& opt_chars(v_type) == st.v_type
                &&& opt_chars(v_assign) == st.v_assign
            }),
        decreases caps@.len() - i,
    {
        let c = &caps[i];
        proof {
            assert(caps@.take(i + 1).drop_last() =~= caps@.take(i as int));
            assert(caps@.take(i + 1).last() == c);
        }
        let n = c.name.as_str();
        let text = c.node.text.as_str();
        if str_eq(n, "function.definition") {
            def = Some(i);
        } else if str_eq(n, "function.name") {
            name = Some(c.node.text.clone());
        } else if str_eq(n, "function.body") {
            body_start = Some(c.node.start);
        } else if str_eq(n, "function.kind") {
            kind = Some(c.node.text.clone());
        } else if str_eq(n, "function.return_type") {
            return_type = Some(trim_lead_then_ws(text, &lead));
        } else if str_eq(n, "variable.name") {
            v_name = Some(c.node.text.clone());
            match assigned_call_exec(&c.parent_value) {
                Some(a) => {
                    v_assign = Some(a);
                },
                None => {},
            }
        } else if str_eq(n, "variable.type") {
            v_type = Some(trim_lead_then_ws(text, &colon));
        }
        i = i + 1;
    }
    proof {
        assert(caps@.take(caps@.len() as int) =~= caps@);
    }
    (def, name, body_start, kind, return_type, v_name, v_type, v_assign)
}


fn definition_kind_exec(kind: &Option<String>, node_kind: &str) -> (r: SymbolKind)
    ensures
        r == definition_kind(opt_chars(*kind), node_kind@),
{
    match kind {
        Some(k) => {
            let k = k.as_str();
            if str_eq(k, "resource") || str_eq(k, "data") {
                SymbolKind::Resource
            } else if str_eq(k, "variable") || str_eq(k, "output") || str_eq(k, "provider") {
                SymbolKind::Variable
            } else {
                SymbolKind::Function
            }
        },
        None => {
            if str_eq(node_kind, "macro_definition") {
                SymbolKind::Macro
            } else if str_eq(node_kind, "macro_invocation") {
                SymbolKind::MacroGenerated
            } else if str_contains(node_kind, "class") || str_contains(node_kind, "interface")
                || str_contains(node_kind, "struct") || str_contains(node_kind, "impl")
                || str_contains(node_kind, "module") {
                SymbolKind::Container
            } else {
                SymbolKind::Function
            }
        },
    }
}

/// The module scope of a file: `(module) <name>` over the root's range.
pub open spec fn is_module_scope(f: FunctionInfo, module_name: Seq<char>, root: (usize, usize)) -> bool {
    &&& f.name@ == "(module) "@ + module_name
    &&& f.kind == SymbolKind::Module
    &&& !f.is_anonymous
    &&& f.range_start == root.0
    &&& f.range_end == root.1
    &&& f.body_start is None
    &&& f.source_code@.len() == 0
    &&& f.return_type is None
    &&& is_bare(f)
}

/// Every function has an ordered range.
pub open spec fn functions_ordered(fs: Seq<FunctionInfo>) -> bool {
    forall|i: int| 0 <= i < fs.len() ==> (#[trigger] fs[i]).range_start <= fs[i].range_end
}

/// The skeleton of a file from the matches of its definitions query: a
/// function for each match with a `function.definition` capture (named by
/// its `function.name` capture, else `anonymous`; its kind from its
/// `function.kind` capture or its node), a variable hint for each other
/// match with a `variable.name` capture, and the module scope named after
/// the file over the root's range.
pub fn extract_definitions(defs: &Vec<MatchData>, root: (usize, usize), module_name: &str) -> (r: Result<
    DefinitionsResult,
    String,
>)
    requires
        ranges_ordered(defs@),
        root.0 <= root.1,
    ensures
        r matches Ok(d) && {
            let (ds, hs) = def_outputs(defs@);
            &&& is_module_scope(d.module_info, module_name@, root)
            &&& d.functions@.len() == ds.len()
            &&& forall|i: int| 0 <= i < ds.len() ==> is_skeleton(#[trigger] d.functions@[i], ds[i])
            &&& functions_ordered(d.functions@)
            &&& hints_view(d.variable_hints@) == hs
        },
{
    let mut mname = String::new();
    mname.append("(module) ");
    mname.append(module_name);
    let module_info = bare_function(mname, SymbolKind::Module, root.0, root.1);
    let mut functions: Vec<FunctionInfo> = Vec::new();
    let mut hints: Vec<VariableHint> = Vec::new();
    let mut i: usize = 0;
    while i < defs.len()
        invariant
            ranges_ordered(defs@),
            0 <= i <= defs@.len(),
            ({
                let (ds, hs) = def_outputs(defs@.take(i as int));
                &&& functions@.len() == ds.len()
                &&& forall|j: int| 0 <= j < ds.len() ==> is_skeleton(#[trigger] functions@[j], ds[j])
                &&& functions_ordered(functions@)
                &&& hints_view(hints@) == hs
            }),
        decreases defs@.len() - i,
    {
        proof {
            assert(defs@.take(i + 1).drop_last() =~= defs@.take(i as int));
            assert(defs@.take(i + 1).last() == defs@[i as int]);
        }
        let caps = &defs[i].captures;
        let (def, name, body_start, kind, return_type, v_name, v_type, v_assign) = def_fold_exec(caps);
        let ghost st = def_fold(caps@);
        match def {
            Some(k) => {
                let node = &caps[k].node;
                proof {
                    assert(caps@[k as int].node.start <= caps@[k as int].node.end);
                }
                let fkind = definition_kind_exec(&kind, node.kind.as_str());
                let is_anonymous = name.is_none();
                let fname = match name {
                    Some(n) => n,
                    None => "anonymous".to_string(),
                };
                let f = FunctionInfo {
                    name: fname,
                    kind: fkind,
                    is_anonymous,
                    range_start: node.start,
                    range_end: node.end,
                    body_start,
                    source_code: node.text.clone(),
                    documentation: None,
                    calls: Vec::new(),
                    type_refs: Vec::new(),
                    decorators: Vec::new(),
                    fingerprints: Vec::new(),
                    return_type,
                    local_types: StringHashMap::new(),
                    local_assigns: StringHashMap::new(),
                    config_keys: Vec::new(),
                    dispatched_actions: Vec::new(),
                    handled_actions: Vec::new(),
                    routes: Vec::new(),
                };
                proof {
                    assert(is_skeleton(f, st));
                }
                functions.push(f);
            },
            None => {
                match v_name {
                    Some(vn) => {
                        let first = &caps[0].node;
                        let h = VariableHint {
                            range: Range { start: first.start, end: first.end },
                            name: vn,
                            declared_type: v_type,
                            assignment: v_assign,
                        };
                        let ghost before = hints@;
                        let ghost hv = hint_view(h);
                        hints.push(h);
                        proof {
                            assert(hints_view(hints@) =~= hints_view(before).push(hv));
                        }
                    },
                    None => {},
                }
            },
        }
        i = i + 1;
    }
    proof {
        assert(defs@.take(defs@.len() as int) =~= defs@);
    }
    Ok(DefinitionsResult { functions, module_info, variable_hints: hints })
}
/// A definition without a `function.kind` capture whose node is a struct,
/// class, interface, impl block or module (its grammar kind names one) and
/// is not a macro is a container.
pub proof fn law_type_definitions_are_containers(node_kind: Seq<char>)
    requires
        has_sub(node_kind, "struct"@) || has_sub(node_kind, "class"@) || has_sub(node_kind, "interface"@)
            || has_sub(node_kind, "impl"@) || has_sub(node_kind, "module"@),
        node_kind != "macro_definition"@,
        node_kind != "macro_invocation"@,
    ensures
        definition_kind(None, node_kind) == SymbolKind::Container,
{
}

/// A definition without a `function.kind` capture whose grammar kind names
/// no type, container or macro is a function.
pub proof fn law_other_definitions_are_functions(node_kind: Seq<char>)
    requires
        !has_sub(node_kind, "struct"@),
        !has_sub(node_kind, "class"@),
        !has_sub(node_kind, "interface"@),
        !has_sub(node_kind, "impl"@),
        !has_sub(node_kind, "module"@),
        node_kind != "macro_definition"@,
        node_kind != "macro_invocation"@,
    ensures
        definition_kind(None, node_kind) == SymbolKind::Function,
{
}

/// A `function.kind` capture decides the kind whatever the node: `resource`
/// and `data` make a resource, `variable`, `output` and `provider` a
/// variable.
pub proof fn law_kind_capture_decides(k: Seq<char>, node_kind: Seq<char>, other: Seq<char>)
    ensures
        (k == "resource"@ || k == "data"@) ==> definition_kind(Some(k), node_kind) == SymbolKind::Resource,
        (k == "variable"@ || k == "output"@ || k == "provider"@) ==> definition_kind(Some(k), node_kind)
            == SymbolKind::Variable,
        definition_kind(Some(k), node_kind) == definition_kind(Some(k), other),
{
    reveal_strlit("resource");
    reveal_strlit("data");
    reveal_strlit("variable");
    reveal_strlit("output");
    reveal_strlit("provider");
    assert("variable"@[0] != "resource"@[0]);
    assert("provider"@[0] != "resource"@[0]);
    assert("variable"@ != "resource"@);
    assert("provider"@ != "resource"@);
    assert("output"@ != "resource"@);
    assert("variable"@ != "data"@);
    assert("provider"@ != "data"@);
    assert("output"@.len() != "data"@.len());
    assert("output"@ != "data"@);
}
} // verus!
