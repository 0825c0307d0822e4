use blast_radius_engine::analysis::languages::{javascript, python};
use blast_radius_engine::indexer::import_links::ImportTargets;
use blast_radius_engine::indexer::resolve::{connect_implementations, link_config_keys};
use blast_radius_engine::indexer::Indexer;
use blast_radius_engine::schema::{SymbolNode, WorkspaceIndex};

fn only(indexer: &Indexer, name: &str) -> u32 {
    let ids = indexer.index.symbol_map.get(name).expect("symbol of that name");
    assert_eq!(ids.len(), 1);
    ids[0]
}

fn module_of(indexer: &Indexer, file: u32) -> u32 {
    let mut ids: Vec<u32> = indexer
        .index
        .symbols
        .values()
        .filter(|s| s.file_id == file && s.kind == "module")
        .map(|s| s.id)
        .collect();
    ids.sort();
    ids[0]
}

fn symbol(id: u32, name: &str) -> SymbolNode {
    SymbolNode {
        id,
        file_id: 0,
        parent_id: None,
        name: name.to_string(),
        kind: "function".to_string(),
        range_start: 0,
        range_end: 0,
        doc_comment: None,
        return_type: None,
        is_test: false,
        is_external: false,
        external_source: None,
        decorators: Vec::new(),
    }
}

#[test]
fn a_fetched_route_links_the_caller_to_the_route_file() {
    let mut indexer = Indexer::new();
    let js = javascript::config();
    assert!(indexer.update_file("/w/pages/api/user.js", "web/pages/api/user.js", "function handler(req, res) {}\n", &js, false));
    assert!(indexer.update_file("/w/client.js", "web/client.js", "function load() { return fetch('/api/user'); }\n", &js, false));
    indexer.index.raw_literals.insert(1, vec!["'/api/user'".to_string(), "/api/other".to_string()]);
    assert!(indexer.resolve_references(&ImportTargets::new()));
    assert_eq!(indexer.index.file_dependencies.get(&1), Some(&vec![0]));
    assert!(indexer.index.file_dependencies.get(&0).is_none());
    let from = module_of(&indexer, 1);
    let to = module_of(&indexer, 0);
    assert_eq!(indexer.index.resolved_calls.get(&from), Some(&vec![to]));
}

#[test]
fn files_sharing_a_route_literal_depend_on_each_other() {
    let mut indexer = Indexer::new();
    let js = javascript::config();
    assert!(indexer.update_file("/w/a.js", "a.js", "function a() { return '/shared/route'; }\n", &js, false));
    assert!(indexer.update_file("/w/b.js", "b.js", "function b() { return '/shared/route'; }\n", &js, false));
    assert!(indexer.update_file("/w/c.js", "c.js", "function c() { return 'short'; }\n", &js, false));
    indexer.index.raw_literals.insert(0, vec!["/shared/route".to_string()]);
    indexer.index.raw_literals.insert(1, vec!["/shared/route".to_string(), "/shared/route".to_string()]);
    indexer.index.raw_literals.insert(2, vec!["short".to_string(), "/x".to_string()]);
    assert!(indexer.resolve_references(&ImportTargets::new()));
    assert_eq!(indexer.index.file_dependencies.get(&0), Some(&vec![1]));
    assert_eq!(indexer.index.file_dependencies.get(&1), Some(&vec![0]));
    assert!(indexer.index.file_dependencies.get(&2).is_none());
}

#[test]
fn a_literal_path_leads_to_the_file_it_names() {
    let mut indexer = Indexer::new();
    let js = javascript::config();
    assert!(indexer.update_file("/w/data.js", "data.js", "function d() {}\n", &js, false));
    assert!(indexer.update_file("/w/load.js", "load.js", "function l() { return read('./data.js'); }\n", &js, false));
    indexer.index.raw_literals.insert(1, vec!["./data.js".to_string(), "has space/x.js".to_string()]);
    let mut targets = ImportTargets::new();
    targets.set(1, "./data.js".to_string(), 0);
    targets.set(1, "has space/x.js".to_string(), 0);
    assert_eq!(targets.get(1, "./data.js"), Some(0));
    assert_eq!(targets.get(0, "./data.js"), None);
    assert!(indexer.resolve_references(&targets));
    assert_eq!(indexer.index.file_dependencies.get(&1), Some(&vec![0]));
}

#[test]
fn package_imports_get_one_stub_each() {
    let mut indexer = Indexer::new();
    let py = python::config();
    assert!(indexer.update_file("/w/app.py", "app.py", "from flask import Flask\n\ndef run():\n    return Flask()\n", &py, false));
    let before = indexer.index.next_symbol_id;
    let run = only(&indexer, "run");
    indexer.index.raw_calls.insert(run, vec!["Flask".to_string()]);
    assert!(indexer.resolve_references(&ImportTargets::new()));
    let stub = only(&indexer, "Flask");
    assert_eq!(stub, before);
    let s = indexer.index.symbols.get(&stub).unwrap();
    assert!(s.is_external);
    assert_eq!(s.kind, "external");
    assert_eq!(s.file_id, 0);
    assert_eq!(s.external_source.as_deref(), Some("flask"));
    assert_eq!(s.doc_comment.as_deref(), Some("External import from package `flask`"));
    assert_eq!(indexer.index.resolved_calls.get(&run), Some(&vec![stub]));
    assert!(indexer.resolve_references(&ImportTargets::new()));
    assert_eq!(only(&indexer, "Flask"), stub);
}

#[test]
fn an_imported_function_is_the_call_target() {
    let mut indexer = Indexer::new();
    let py = python::config();
    assert!(indexer.update_file("/w/a.py", "a.py", "def helper():\n    return 1\n", &py, false));
    assert!(indexer.update_file("/w/other.py", "other.py", "def helper():\n    return 2\n", &py, false));
    assert!(indexer.update_file("/w/b.py", "b.py", "from a import helper\n\ndef main():\n    return helper()\n", &py, false));
    let main = only(&indexer, "main");
    indexer.index.raw_calls.insert(main, vec!["helper".to_string()]);
    let mut targets = ImportTargets::new();
    targets.set(2, "a".to_string(), 0);
    assert!(indexer.resolve_references(&targets));
    let helpers = indexer.index.symbol_map.get("helper").unwrap().clone();
    let in_a = *helpers.iter().find(|&&h| indexer.index.symbols[&h].file_id == 0).unwrap();
    assert_eq!(indexer.index.resolved_calls.get(&main), Some(&vec![in_a]));
    assert_eq!(indexer.index.file_dependencies.get(&2), Some(&vec![0]));
    assert_eq!(indexer.get_impacted_files("/w/a.py"), vec!["/w/b.py".to_string()]);
    let from = module_of(&indexer, 2);
    let to = module_of(&indexer, 0);
    assert!(indexer.index.resolved_calls.get(&from).unwrap().contains(&to));
}

#[test]
fn an_untraced_call_links_every_symbol_of_the_name() {
    let mut indexer = Indexer::new();
    let py = python::config();
    assert!(indexer.update_file("/w/a.py", "a.py", "def helper():\n    return 1\n", &py, false));
    assert!(indexer.update_file("/w/other.py", "other.py", "def helper():\n    return 2\n", &py, false));
    assert!(indexer.update_file("/w/b.py", "b.py", "def main():\n    return helper()\n", &py, false));
    let main = only(&indexer, "main");
    indexer.index.raw_calls.insert(main, vec!["helper".to_string(), "helper".to_string(), "nothing".to_string()]);
    assert!(indexer.resolve_references(&ImportTargets::new()));
    let mut helpers = indexer.index.symbol_map.get("helper").unwrap().clone();
    helpers.sort();
    assert_eq!(indexer.index.resolved_calls.get(&main), Some(&helpers));
}

#[test]
fn configuration_readers_call_the_definitions() {
    let mut ix = WorkspaceIndex::new();
    for (id, name) in [(0, "reader"), (1, "defn"), (2, "other")] {
        ix.symbols.insert(id, symbol(id, name));
    }
    ix.symbol_config_refs.insert(0, vec!["db.host".to_string(), "missing".to_string()]);
    ix.config_definitions.push(("db.host".to_string(), vec![2, 1]));
    ix.resolved_calls.insert(0, vec![2]);
    link_config_keys(&mut ix);
    assert_eq!(ix.resolved_calls.get(&0), Some(&vec![1, 2]));
    assert_eq!(ix.resolved_calls.len(), 1);
}

#[test]
fn implementations_rebuild_the_inheritance() {
    let mut ix = WorkspaceIndex::new();
    for (id, name) in [(0, "Base"), (1, "Child"), (2, "Other")] {
        ix.symbols.insert(id, symbol(id, name));
        ix.symbol_map.insert(name.to_string(), vec![id]);
    }
    ix.inheritance.insert(2, vec![0]);
    ix.raw_implementations.insert(1, vec!["Base".to_string(), "Unknown".to_string()]);
    ix.raw_implementations.insert(9, vec!["Base".to_string()]);
    connect_implementations(&mut ix);
    assert_eq!(ix.inheritance.get(&0), Some(&vec![1]));
    assert_eq!(ix.inheritance.len(), 1);
}

#[test]
fn resolution_keeps_the_index_well_formed() {
    let mut indexer = Indexer::new();
    let py = python::config();
    assert!(indexer.update_file("/w/b.py", "b.py", "from a import helper\n\ndef main():\n    return helper()\n", &py, false));
    indexer.index.resolved_calls.insert(77, vec![78]);
    indexer.index.file_dependencies.insert(5, vec![6]);
    assert!(indexer.resolve_references(&ImportTargets::new()));
    assert!(indexer.index.resolved_calls.get(&77).is_none());
    assert!(indexer.index.file_dependencies.get(&5).is_none());
    for (k, v) in indexer.index.resolved_calls.iter() {
        assert!(indexer.index.symbols.contains_key(k));
        assert!(v.iter().all(|x| indexer.index.symbols.contains_key(x)));
    }
}


#[test]
fn decorators_call_what_they_name() {
    let mut indexer = Indexer::new();
    let py = python::config();
    assert!(indexer.update_file("/w/a.py", "a.py", "def route():\n    return 1\n\ndef cached():\n    return 2\n", &py, false));
    assert!(indexer.update_file("/w/b.py", "b.py", "def handler():\n    return 3\n", &py, false));
    let handler = only(&indexer, "handler");
    indexer.index.raw_decorators.insert(handler, vec!["route(\"/x\")".to_string(), "  cached ".to_string(), "missing".to_string()]);
    assert!(indexer.resolve_references(&ImportTargets::new()));
    let mut expected = vec![only(&indexer, "route"), only(&indexer, "cached")];
    expected.sort();
    assert_eq!(indexer.index.resolved_calls.get(&handler), Some(&expected));
}

#[test]
fn type_references_prefer_the_file_own_definition() {
    let mut indexer = Indexer::new();
    let py = python::config();
    assert!(indexer.update_file("/w/a.py", "a.py", "class Store:\n    pass\n", &py, false));
    assert!(indexer.update_file("/w/b.py", "b.py", "class Store:\n    pass\n\ndef main():\n    return 1\n", &py, false));
    let main = only(&indexer, "main");
    indexer.index.raw_type_refs.insert(main, vec!["Store".to_string()]);
    assert!(indexer.resolve_references(&ImportTargets::new()));
    let own = *indexer.index.symbol_map.get("Store").unwrap().iter().find(|&&s| indexer.index.symbols[&s].file_id == 1).unwrap();
    assert_eq!(indexer.index.resolved_type_refs.get(&main), Some(&vec![own]));
}

#[test]
fn namespace_imports_name_the_module() {
    let mut indexer = Indexer::new();
    let js = javascript::config();
    assert!(indexer.update_file("/w/utils.js", "utils.js", "function u() {}\n", &js, false));
    assert!(indexer.update_file("/w/main.js", "main.js", "function m() {}\n", &js, false));
    indexer.index.file_imports.insert(
        1,
        vec![blast_radius_engine::schema::ImportNode {
            name: "*".to_string(),
            source: "./utils".to_string(),
            alias: Some("utils".to_string()),
        }],
    );
    let mut targets = ImportTargets::new();
    targets.set(1, "./utils".to_string(), 0);
    assert!(indexer.resolve_references(&targets));
    let scope = module_of(&indexer, 1);
    let types = indexer.index.local_variable_types.get(&scope).expect("scope types");
    assert_eq!(types.get("utils").map(|s| s.as_str()), Some("(module) utils"));
}

#[test]
fn literals_naming_a_table_call_the_table() {
    let mut ix = WorkspaceIndex::new();
    ix.files.insert(0, blast_radius_engine::schema::FileNode { id: 0, path: "/w/schema.sql".to_string(), hash: [0; 32], is_test: false });
    ix.files.insert(1, blast_radius_engine::schema::FileNode { id: 1, path: "/w/app.js".to_string(), hash: [0; 32], is_test: false });
    let mut app = symbol(1, "(module) app");
    app.kind = "module".to_string();
    app.file_id = 1;
    ix.symbols.insert(0, symbol(0, "orders"));
    ix.symbols.insert(1, app);
    ix.symbols.insert(5, symbol(5, "orders"));
    ix.symbols.insert(6, symbol(6, "users"));
    ix.raw_literals.insert(1, vec!["'SELECT * FROM orders WHERE id = 1'".to_string(), "orders_archive".to_string()]);
    blast_radius_engine::indexer::database::link_tables(&mut ix);
    assert_eq!(ix.resolved_calls.get(&1), Some(&vec![0]));
    assert_eq!(ix.resolved_calls.len(), 1);
}

const SHOP: &str = "class Cart:\n    def add(self):\n        pass\n    def total(self):\n        pass\n\nclass Other:\n    def add(self):\n        pass\n\ndef caller():\n    pass\n";

#[test]
fn receivers_link_to_containers_holding_their_methods() {
    let mut indexer = Indexer::new();
    assert!(indexer.update_file("/w/shop.py", "shop.py", SHOP, &python::config(), false));
    let caller = only(&indexer, "caller");
    let cart = only(&indexer, "Cart");
    let total = only(&indexer, "total");
    let add_in_cart = *indexer.index.symbol_map.get("add").unwrap().iter().find(|&&a| indexer.index.symbols[&a].parent_id == Some(cart)).unwrap();
    indexer.index.fingerprints.insert(caller, vec![("cart".to_string(), vec!["add".to_string(), "total".to_string()])]);
    assert!(indexer.resolve_references(&ImportTargets::new()));
    let links = indexer.index.resolved_calls.get(&caller).expect("links").clone();
    let module = module_of(&indexer, 0);
    let mut expected = vec![cart, add_in_cart, total, module];
    expected.sort();
    assert_eq!(links, expected);
}

#[test]
fn a_typed_receiver_links_to_its_type_and_methods() {
    let mut indexer = Indexer::new();
    let js = javascript::config();
    assert!(indexer.update_file("/w/utils.js", "utils.js", "function helper() {}\n", &js, false));
    assert!(indexer.update_file("/w/main.js", "main.js", "function run() {}\n", &js, false));
    indexer.index.file_imports.insert(
        1,
        vec![blast_radius_engine::schema::ImportNode {
            name: "*".to_string(),
            source: "./utils".to_string(),
            alias: Some("utils".to_string()),
        }],
    );
    let run = only(&indexer, "run");
    let helper = only(&indexer, "helper");
    indexer.index.fingerprints.insert(run, vec![("utils".to_string(), vec!["helper".to_string()])]);
    let mut targets = ImportTargets::new();
    targets.set(1, "./utils".to_string(), 0);
    assert!(indexer.resolve_references(&targets));
    let links = indexer.index.resolved_calls.get(&run).expect("links").clone();
    assert!(links.contains(&module_of(&indexer, 0)));
    assert!(links.contains(&helper));
}

#[test]
fn receivers_named_like_a_table_call_the_table() {
    let mut ix = WorkspaceIndex::new();
    ix.files.insert(0, blast_radius_engine::schema::FileNode { id: 0, path: "/w/db.prisma".to_string(), hash: [0; 32], is_test: false });
    ix.symbols.insert(0, symbol(0, "Order"));
    ix.symbols.insert(1, symbol(1, "checkout"));
    ix.symbols.insert(2, symbol(2, "other"));
    ix.fingerprints.insert(1, vec![("prisma.Order".to_string(), vec!["create".to_string()])]);
    ix.fingerprints.insert(2, vec![("prismaOrder".to_string(), vec![])]);
    blast_radius_engine::indexer::database::link_table_receivers(&mut ix);
    assert_eq!(ix.resolved_calls.get(&1), Some(&vec![0]));
    assert!(ix.resolved_calls.get(&2).is_none());
}

#[test]
fn calls_follow_re_exports_to_the_definition() {
    let mut indexer = Indexer::new();
    let py = python::config();
    assert!(indexer.update_file("/w/a.py", "a.py", "def helper():\n    return 1\n", &py, false));
    assert!(indexer.update_file("/w/index.py", "index.py", "def unrelated():\n    return 0\n", &py, false));
    assert!(indexer.update_file("/w/star.py", "star.py", "def other():\n    return 0\n", &py, false));
    assert!(indexer.update_file("/w/b.py", "b.py", "def main():\n    return helper()\n", &py, false));
    indexer.index.file_exports.insert(1, vec![blast_radius_engine::schema::ExportNode { name: None, source: "./star".to_string() }]);
    indexer.index.file_exports.insert(2, vec![blast_radius_engine::schema::ExportNode { name: Some("helper".to_string()), source: "./a".to_string() }]);
    indexer.index.file_imports.insert(
        3,
        vec![blast_radius_engine::schema::ImportNode { name: "helper".to_string(), source: "./index".to_string(), alias: None }],
    );
    let main = only(&indexer, "main");
    indexer.index.raw_calls.insert(main, vec!["helper".to_string()]);
    let mut targets = ImportTargets::new();
    targets.set(3, "./index".to_string(), 1);
    targets.set(1, "./star".to_string(), 2);
    targets.set(2, "./a".to_string(), 0);
    assert!(indexer.resolve_references(&targets));
    assert_eq!(indexer.index.resolved_calls.get(&main), Some(&vec![only(&indexer, "helper")]));
}
