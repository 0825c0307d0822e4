use blast_radius_engine::analysis::definitions::bare_function;
use blast_radius_engine::analysis::languages::{json, python};
use blast_radius_engine::indexer::paths::{detect_framework_route, index_key, is_test_path};
use blast_radius_engine::indexer::symbols::symbols_of_file;
use blast_radius_engine::indexer::Indexer;
use blast_radius_engine::models::SymbolKind;

const PY: &str = "import os.path\nfrom flask import Flask\n\ndef handler(x):\n    return helper(x)\n\nclass Store:\n    def save(self):\n        pass\n";

#[test]
fn test_directories_mark_tests() {
    assert!(is_test_path("src/__tests__/button.ts"));
    assert!(is_test_path("pkg/tests/helpers.rs"));
    assert!(is_test_path("SPEC\\models\\user.rb"));
    assert!(is_test_path("app/__mocks__/api.js"));
    assert!(!is_test_path("src/testing/util.ts"));
}

#[test]
fn test_file_names_mark_tests() {
    assert!(is_test_path("src/App.Test.TSX"));
    assert!(is_test_path("src/user.spec.js"));
    assert!(is_test_path("src/parser_test.rs"));
    assert!(is_test_path("src/test.rs"));
    assert!(is_test_path("pkg/test_views.py"));
    assert!(is_test_path("pkg/views_test.py"));
    assert!(is_test_path("src/main/java/UserServiceTest.java"));
    assert!(is_test_path("src/data/mock_users.ts"));
    assert!(is_test_path("src/data/fixtureLoader.py"));
    assert!(!is_test_path("src/data/mock_users.json"));
    assert!(!is_test_path("src/main.rs"));
    assert!(!is_test_path("src/latest.ts"));
}

#[test]
fn file_name_ignores_trailing_slash_and_dot() {
    assert!(is_test_path("src/parser_test.rs/"));
    assert!(is_test_path("src/parser_test.rs/."));
    assert!(!is_test_path("src/parser_test.rs/.."));
}

#[test]
fn framework_routes_by_path() {
    assert_eq!(detect_framework_route("web/src/pages/api/users/index.ts").as_deref(), Some("/api/users"));
    assert_eq!(detect_framework_route("web\\pages\\api\\login.js").as_deref(), Some("/api/login"));
    assert_eq!(detect_framework_route("web/src/app/api/auth/route.ts").as_deref(), Some("/api/auth"));
    assert_eq!(detect_framework_route("app/api/auth/route.ts").as_deref(), None);
    assert_eq!(detect_framework_route("web/pages/api/README"), None);
    assert_eq!(detect_framework_route("src/lib/db.ts"), None);
}

#[test]
fn symbols_are_classified_linked_and_numbered() {
    let mut class = bare_function("Store".to_string(), SymbolKind::Container, 10, 100);
    class.source_code = "class Store { save() {} }".to_string();
    let mut method = bare_function("save".to_string(), SymbolKind::Function, 20, 40);
    method.source_code = "save() {}".to_string();
    let mut test = bare_function("it_saves".to_string(), SymbolKind::Function, 110, 130);
    test.source_code = "  it('saves', () => {})".to_string();
    let mut mocked = bare_function("mockStore".to_string(), SymbolKind::Function, 140, 150);
    mocked.source_code = "function mockStore() {}".to_string();
    let module = bare_function("(module) store".to_string(), SymbolKind::Module, 0, 200);
    let fs = vec![class, method, test, mocked, module];
    let nodes = symbols_of_file(&fs, 3, 50, false);
    let kinds: Vec<&str> = nodes.iter().map(|n| n.kind.as_str()).collect();
    assert_eq!(kinds, vec!["container", "function", "function", "function", "module"]);
    let ids: Vec<u32> = nodes.iter().map(|n| n.id).collect();
    assert_eq!(ids, vec![50, 51, 52, 53, 54]);
    let parents: Vec<Option<u32>> = nodes.iter().map(|n| n.parent_id).collect();
    assert_eq!(parents, vec![Some(54), Some(50), Some(54), Some(54), None]);
    let tests: Vec<bool> = nodes.iter().map(|n| n.is_test).collect();
    assert_eq!(tests, vec![false, false, true, true, false]);
    assert!(nodes.iter().all(|n| n.file_id == 3 && !n.is_external));
    let in_test_file = symbols_of_file(&fs, 3, 50, true);
    assert!(in_test_file.iter().all(|n| n.is_test));
}

#[test]
fn indexer_records_a_file() {
    let mut indexer = Indexer::new();
    assert_eq!(indexer.configs.len(), 22);
    assert!(indexer.update_file("/w/pkg/app.py", "pkg/app.py", PY, &python::config(), false));
    let ix = &indexer.index;
    assert_eq!(ix.next_file_id, 1);
    let file = ix.files.get(&0).expect("file recorded");
    assert_eq!(file.path, "/w/pkg/app.py");
    let expected: [u8; 32] = blake3::hash(PY.as_bytes()).into();
    assert_eq!(file.hash, expected);
    assert_eq!(ix.file_paths.get("/w/pkg/app.py"), Some(&0));
    let names: Vec<(u32, String, String, Option<u32>)> = (0..ix.next_symbol_id)
        .map(|id| {
            let s = ix.symbols.get(&id).unwrap();
            (s.id, s.name.clone(), s.kind.clone(), s.parent_id)
        })
        .collect();
    assert_eq!(
        names,
        vec![
            (0, "handler".to_string(), "function".to_string(), Some(3)),
            (1, "Store".to_string(), "container".to_string(), Some(3)),
            (2, "save".to_string(), "function".to_string(), Some(1)),
            (3, "(module) app".to_string(), "module".to_string(), None),
        ]
    );
    assert_eq!(ix.symbol_map.get("handler"), Some(&vec![0]));
    assert_eq!(ix.symbol_map.get("save"), Some(&vec![2]));
    let imports = ix.file_imports.get(&0).expect("imports recorded");
    let sources: Vec<&str> = imports.iter().map(|i| i.source.as_str()).collect();
    assert_eq!(sources, vec!["os/path", "flask"]);
    let members = ix.container_methods.get(&1).expect("class members");
    assert!(members.contains("save"));
    let module_members = ix.container_methods.get(&3).expect("module members");
    assert!(module_members.contains("handler") && module_members.contains("Store") && module_members.contains("save"));
    assert!(ix.config_definitions.is_empty());
}

#[test]
fn indexer_replaces_and_removes_a_file() {
    let mut indexer = Indexer::new();
    let config = python::config();
    assert!(indexer.update_file("/w/a.py", "a.py", PY, &config, false));
    assert!(indexer.needs_update("/w/a.py", "def changed():\n    pass\n"));
    assert!(!indexer.needs_update("/w/a.py", PY));
    assert!(indexer.needs_update("/w/b.py", PY));
    assert!(indexer.update_file("/w/a.py", "a.py", "def only():\n    pass\n", &config, false));
    let ix = &indexer.index;
    assert_eq!(ix.next_file_id, 1);
    assert_eq!(ix.files.len(), 1);
    assert_eq!(ix.symbols.len(), 2);
    assert!(ix.symbol_map.get("handler").is_none());
    assert_eq!(ix.symbol_map.get("only"), Some(&vec![4]));
    assert!(ix.file_imports.get(&0).is_none());
    indexer.remove_file("/w/a.py");
    let ix = &indexer.index;
    assert!(ix.files.is_empty());
    assert!(ix.symbols.is_empty());
    assert!(ix.symbol_map.get("only").is_none());
    assert!(ix.file_paths.get("/w/a.py").is_none());
}

#[test]
fn data_files_define_configuration_keys() {
    let mut indexer = Indexer::new();
    let content = "{\"database\": {\"host\": \"x\"}}";
    assert!(indexer.update_file("/w/config.json", "config.json", content, &json::config(), false));
    let ix = &indexer.index;
    let keys: Vec<&str> = ix.config_definitions.iter().map(|(k, _)| k.as_str()).collect();
    assert!(keys.contains(&"(module) config"));
}

#[test]
fn routes_are_recorded_by_path() {
    let mut indexer = Indexer::new();
    let config = python::config();
    assert!(indexer.update_file("/w/pages/api/user.py", "web/pages/api/user.py", "x = 1\n", &config, false));
    assert_eq!(indexer.index.implicit_routes, vec![("/api/user".to_string(), 0)]);
    indexer.remove_file("/w/pages/api/user.py");
    assert!(indexer.index.implicit_routes.is_empty());
}

#[test]
fn impacted_files_are_the_dependents() {
    let mut indexer = Indexer::new();
    let config = python::config();
    assert!(indexer.update_file("/w/a.py", "a.py", "x = 1\n", &config, false));
    assert!(indexer.update_file("/w/b.py", "b.py", "y = 2\n", &config, false));
    assert!(indexer.update_file("/w/c.py", "c.py", "z = 3\n", &config, false));
    indexer.index.file_dependencies.insert(1, vec![0]);
    indexer.index.file_dependencies.insert(2, vec![1, 0]);
    let mut impacted = indexer.get_impacted_files("/w/a.py");
    impacted.sort();
    assert_eq!(impacted, vec!["/w/b.py", "/w/c.py"]);
    assert_eq!(indexer.get_impacted_files("/w/c.py"), Vec::<String>::new());
    assert_eq!(indexer.get_impacted_files("/w/none.py"), Vec::<String>::new());
}

#[test]
fn config_lookup_by_extension_and_name() {
    let indexer = Indexer::new();
    assert_eq!(indexer.config_for("py", "app.py").map(|c| c.lang), Some(python::config().lang));
    assert!(indexer.config_for("unknownext", "file.unknownext").is_none());
    let env = indexer.config_for("", ".env").map(|c| c.lang);
    assert!(env.is_some());
}

#[test]
fn index_keys_drop_the_verbatim_prefix() {
    assert_eq!(index_key(r"\\?\C:\work\a.rs"), r"C:\work\a.rs");
    assert_eq!(index_key("/home/u/a.rs"), "/home/u/a.rs");
    assert_eq!(index_key(r"\\?"), r"\\?");
}
