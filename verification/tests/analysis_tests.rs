use blast_radius_engine::analysis::language::SupportedLanguage;
use blast_radius_engine::analysis::{analysis_from_matches, QueryMatches};
use blast_radius_engine::models::SymbolKind;
use blast_radius_engine::syntax::{CaptureData, ChildData, MatchData, NodeData};

fn node(kind: &str, text: &str, start: usize, end: usize) -> NodeData {
    NodeData { kind: kind.to_string(), text: text.to_string(), start, end }
}

fn cap(name: &str, kind: &str, text: &str, start: usize, end: usize) -> CaptureData {
    CaptureData { name: name.to_string(), node: node(kind, text, start, end), children: vec![], parent_value: None }
}

fn one(captures: Vec<CaptureData>) -> MatchData {
    MatchData { captures }
}

fn no_matches() -> QueryMatches {
    QueryMatches {
        vals: vec![],
        defs: vec![],
        imports: vec![],
        exports: vec![],
        literals: vec![],
        implements: vec![],
        route_defs: vec![],
        middleware: vec![],
        config: vec![],
        decorators: vec![],
        calls: vec![],
        types: vec![],
        actions: vec![],
        docs: vec![],
    }
}

fn sample() -> QueryMatches {
    let mut qm = no_matches();
    qm.vals = vec![one(vec![
        cap("val.name", "identifier", "BASE", 0, 4),
        cap("val.value", "string", "'/api'", 7, 13),
    ])];
    qm.defs = vec![
        one(vec![
            cap("function.definition", "class_declaration", "class Api {}", 20, 120),
            cap("function.name", "type_identifier", "Api", 26, 29),
        ]),
        one(vec![
            cap("function.definition", "method_definition", "fetchUser() {}", 40, 80),
            cap("function.name", "property_identifier", "fetchUser", 40, 49),
            cap("function.return_type", "type_annotation", ": User", 50, 56),
        ]),
        one(vec![
            cap("function.definition", "method_definition", "constructor() {}", 85, 110),
            cap("function.name", "property_identifier", "constructor", 85, 96),
        ]),
        one(vec![
            cap("variable.name", "identifier", "client", 60, 66),
            cap("variable.type", "type_annotation", ": HttpClient", 66, 78),
        ]),
        one(vec![
            cap("variable.name", "identifier", "repo", 97, 101),
            cap("variable.type", "type_annotation", ": Repo", 101, 107),
        ]),
    ];
    qm.imports = vec![one(vec![
        cap("import.name", "identifier", "HttpClient", 140, 150),
        cap("import.source", "string", "'./http'", 156, 164),
    ])];
    qm.literals = vec![
        one(vec![cap("string", "string", "'hello'", 170, 177)]),
        one(vec![CaptureData {
            name: "string".to_string(),
            node: node("template_string", "`/users/${id}`", 180, 194),
            children: vec![
                ChildData { node: node("string_fragment", "/users/", 181, 188), value_kind: None, children: vec![] },
                ChildData {
                    node: node("template_substitution", "${id}", 188, 193),
                    value_kind: None,
                    children: vec![node("identifier", "id", 190, 192)],
                },
            ],
            parent_value: None,
        }]),
        one(vec![cap("string", "string", "'x'", 195, 198)]),
    ];
    qm.decorators = vec![one(vec![cap("decorator", "decorator", "@Injectable()", 2, 15)])];
    qm.calls = vec![
        one(vec![
            cap("call.receiver", "identifier", "client", 60, 66),
            cap("call.name", "property_identifier", "get", 67, 70),
        ]),
        one(vec![cap("call.name", "identifier", "log", 112, 115)]),
        one(vec![cap("call.name", "identifier", "boot", 150, 154)]),
        one(vec![
            cap("call.dynamic_dispatch", "identifier", "handlers", 70, 78),
        ]),
    ];
    qm.types = vec![one(vec![cap("type", "type_identifier", "User", 75, 79)])];
    qm.docs = vec![one(vec![
        cap("function.docs", "comment", "/** Fetches a user */", 30, 39),
        cap("function.definition", "method_definition", "fetchUser() {}", 40, 80),
    ])];
    qm.config = vec![one(vec![cap("config.key", "string", "\"API_URL\"", 200, 209)])];
    qm
}

#[test]
fn empty_matches_give_only_the_module_scope() {
    let fa = analysis_from_matches(&no_matches(), SupportedLanguage::TypeScript, (0, 10), "empty");
    assert_eq!(fa.functions.len(), 1);
    assert_eq!(fa.functions[0].name, "(module) empty");
    assert_eq!(fa.functions[0].kind, SymbolKind::Module);
    assert_eq!((fa.functions[0].range_start, fa.functions[0].range_end), (0, 10));
    assert!(fa.imports.is_empty() && fa.exports.is_empty() && fa.literals.is_empty());
}

#[test]
fn definitions_are_classified_and_ordered() {
    let fa = analysis_from_matches(&sample(), SupportedLanguage::TypeScript, (0, 300), "svc");
    let names: Vec<&str> = fa.functions.iter().map(|f| f.name.as_str()).collect();
    assert_eq!(names, vec!["Api", "fetchUser", "constructor", "(module) svc"]);
    assert_eq!(fa.functions[0].kind, SymbolKind::Container);
    assert_eq!(fa.functions[1].kind, SymbolKind::Function);
    assert_eq!(fa.functions[1].return_type.as_deref(), Some("User"));
    assert_eq!(fa.functions[1].source_code, "fetchUser() {}");
    assert!(!fa.functions[1].is_anonymous);
}

#[test]
fn enrichment_attaches_calls_to_smallest_owner() {
    let fa = analysis_from_matches(&sample(), SupportedLanguage::TypeScript, (0, 300), "svc");
    let api = &fa.functions[0];
    let fetch = &fa.functions[1];
    let module = &fa.functions[3];
    assert_eq!(api.calls, vec!["log"]);
    assert!(fetch.calls.is_empty());
    let methods = |r: &str| fetch.fingerprints.iter().rev().find(|(k, _)| k == r).map(|(_, v)| v.clone());
    assert_eq!(methods("client"), Some(vec!["get".to_string()]));
    assert_eq!(methods("handlers"), Some(vec!["*".to_string()]));
    assert_eq!(module.calls, vec!["boot"]);
}

#[test]
fn enrichment_hints_types_docs_decorators() {
    let fa = analysis_from_matches(&sample(), SupportedLanguage::TypeScript, (0, 300), "svc");
    let api = &fa.functions[0];
    let fetch = &fa.functions[1];
    let ctor = &fa.functions[2];
    let module = &fa.functions[3];
    assert_eq!(fetch.local_types.get("client").map(|s| s.as_str()), Some("HttpClient"));
    assert_eq!(ctor.local_types.get("repo").map(|s| s.as_str()), Some("Repo"));
    assert_eq!(api.local_types.get("repo").map(|s| s.as_str()), Some("Repo"));
    assert_eq!(fetch.type_refs, vec!["User"]);
    assert_eq!(fetch.documentation.as_deref(), Some("/** Fetches a user */"));
    assert_eq!(api.documentation, None);
    assert_eq!(api.decorators, vec!["Injectable"]);
    assert_eq!(module.config_keys, vec!["API_URL"]);
}

#[test]
fn structure_resolves_imports_and_literals() {
    let fa = analysis_from_matches(&sample(), SupportedLanguage::TypeScript, (0, 300), "svc");
    assert_eq!(fa.imports.len(), 1);
    assert_eq!(fa.imports[0].name, "HttpClient");
    assert_eq!(fa.imports[0].source, "./http");
    assert_eq!(fa.imports[0].alias, None);
    assert_eq!(fa.literals, vec!["hello", "/users/*", "/users/${id}", "/api"]);
}

#[test]
fn python_dotted_imports_become_paths() {
    let mut qm = no_matches();
    qm.imports = vec![
        one(vec![cap("import.source", "dotted_name", "os.path", 7, 14)]),
        one(vec![cap("import.source", "dotted_name", "..", 20, 22)]),
    ];
    let fa = analysis_from_matches(&qm, SupportedLanguage::Python, (0, 30), "m");
    let sources: Vec<&str> = fa.imports.iter().map(|i| i.source.as_str()).collect();
    assert_eq!(sources, vec!["os/path", ".."]);
    let fa = analysis_from_matches(&qm, SupportedLanguage::TypeScript, (0, 30), "m");
    let sources: Vec<&str> = fa.imports.iter().map(|i| i.source.as_str()).collect();
    assert_eq!(sources, vec!["os.path", ".."]);
}
