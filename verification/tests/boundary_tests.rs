use blast_radius_engine::analysis::analyze_source;
use blast_radius_engine::analysis::boundary::extract_boundary;
use blast_radius_engine::analysis::language::{get_language_configs, LanguageConfigBuilder, SupportedLanguage};
use blast_radius_engine::analysis::languages::{python, typescript};
use blast_radius_engine::inference::configs::register_all;
use blast_radius_engine::inference::frameworks::FrameworkManager;
use blast_radius_engine::inference::InferenceRule;
use blast_radius_engine::models::SymbolKind;

const CONTROLLER: &str = "import { Controller, Get } from '@nestjs/common';

@Controller('users')
export class UsersController {
  @Get('profile')
  getProfile() {
    return fetch('/api/profile');
  }
}
";

const PY: &str = "import os.path\nfrom flask import Flask\n\ndef handler(x):\n    return helper(x)\n\nclass Store:\n    pass\n";

#[test]
fn every_language_has_a_config() {
    let configs = get_language_configs();
    assert_eq!(configs.len(), 22);
    assert_eq!(configs[0].lang, SupportedLanguage::Rust);
    assert!(configs.iter().any(|c| c.lang == SupportedLanguage::Python && c.file_extensions.contains(&"py")));
}

#[test]
fn boundary_of_a_nestjs_controller() {
    let config = typescript::config();
    let b = extract_boundary("src/users.controller.ts", CONTROLLER, &config, [7; 32]).unwrap();
    assert_eq!(b.path, "src/users.controller.ts");
    assert_eq!(b.hash, [7; 32]);
    assert_eq!(b.token_count, (CONTROLLER.len() / 4) as u32);
    assert_eq!(b.id, 0);
    assert!(!b.is_test);
    assert!(b.synthetic_defs.is_empty());
    // Every match of the imports query that captures the source yields it.
    assert_eq!(b.imports, vec!["@nestjs/common", "@nestjs/common"]);

    let class = b.defs.iter().find(|d| d.name == "UsersController").expect("class found");
    assert_eq!(class.kind, SymbolKind::Class);
    assert_eq!(class.range.0, CONTROLLER.find("class UsersController").unwrap());
    assert!(class.body_range.is_some());
    let method = b.defs.iter().find(|d| d.name == "getProfile").expect("method found");
    assert_eq!(method.kind, SymbolKind::Function);

    assert!(b.symbol_refs.contains(&"fetch".to_string()));
    assert!(!b.symbol_refs.contains(&"UsersController".to_string()));
    assert!(!b.symbol_refs.contains(&"getProfile".to_string()));

    let keys: Vec<(&str, &str)> = b.framework_hints.iter().map(|h| (h.key.as_str(), h.value.as_str())).collect();
    assert!(keys.contains(&("Controller", "users")));
    assert!(keys.contains(&("Get", "profile")));

    let mut manager = FrameworkManager::new();
    register_all(&mut manager);
    assert_eq!(manager.infer_definitions(&b), vec!["route:root:users", "route:GET:users/profile"]);
}

#[test]
fn boundary_of_a_python_module() {
    let config = python::config();
    let b = extract_boundary("pkg/app.py", PY, &config, [0; 32]).unwrap();
    let names: Vec<(&str, SymbolKind)> = b.defs.iter().map(|d| (d.name.as_str(), d.kind)).collect();
    assert_eq!(names, vec![("handler", SymbolKind::Function), ("Store", SymbolKind::Class)]);
    assert_eq!(b.defs[0].range, (PY.find("def handler").unwrap(), PY.find("\n\nclass").unwrap()));
    assert_eq!(b.imports, vec!["os.path", "flask"]);
    let mut refs = b.symbol_refs.clone();
    refs.sort();
    assert_eq!(refs, vec!["Flask", "flask", "helper", "os", "path"]);
    assert!(b.literals.is_empty());
}

#[test]
fn analysis_of_a_python_module() {
    let config = python::config();
    let fa = analyze_source("pkg/app.py", PY, &config).unwrap();
    let names: Vec<(&str, SymbolKind)> = fa.functions.iter().map(|f| (f.name.as_str(), f.kind)).collect();
    assert_eq!(
        names,
        vec![("handler", SymbolKind::Function), ("Store", SymbolKind::Container), ("(module) app", SymbolKind::Module)]
    );
    assert_eq!(fa.functions[2].range_start, 0);
    assert_eq!(fa.functions[2].range_end, PY.len());
    assert_eq!(fa.functions[0].source_code, "def handler(x):\n    return helper(x)");
    let imports: Vec<(&str, &str)> = fa.imports.iter().map(|i| (i.name.as_str(), i.source.as_str())).collect();
    assert_eq!(imports, vec![("", "os/path"), ("Flask", "flask")]);
}

#[test]
fn analysis_of_a_blank_file_is_empty() {
    let config = python::config();
    let fa = analyze_source("pkg/empty.py", "  \n\t\n", &config).unwrap();
    assert!(fa.functions.is_empty());
    assert!(fa.imports.is_empty());
    assert!(fa.literals.is_empty());
}

#[test]
fn rust_config_values() {
    let cfg = blast_radius_engine::analysis::languages::rust::config();
    assert!(matches!(cfg.lang, SupportedLanguage::Rust));
    assert_eq!(cfg.file_extensions, &["rs"]);
    assert_eq!(cfg.skeleton_template, "{ /* ... {} ... */ }");
    assert_eq!(cfg.heuristics.constructor_names, &["new", "with_capacity", "default"]);
    assert_eq!(cfg.heuristics.project_config_files, &["Cargo.toml"]);
    assert!(cfg.heuristics.di_decorators.is_empty());
    assert!(cfg.heuristics.magic_methods.is_empty());
    assert!(cfg.queries.literals.is_none());
    assert!(cfg.queries.definitions.is_some());
}

#[test]
fn module_name_is_the_file_stem() {
    let config = python::config();
    let src = "x = 1\n";
    let stem_of = |path: &str| {
        let fa = analyze_source(path, src, &config).unwrap();
        fa.functions.last().unwrap().name.clone()
    };
    assert_eq!(stem_of("pkg/util.test.py"), "(module) util.test");
    assert_eq!(stem_of("pkg/.hidden"), "(module) .hidden");
    assert_eq!(stem_of("main.py"), "(module) main");
    assert_eq!(stem_of("pkg/sub/"), "(module) sub");
    assert_eq!(stem_of("dir/a.rs/."), "(module) a");
    assert_eq!(stem_of("dir/a.rs/./"), "(module) a");
}

#[test]
fn boundary_error_free_for_each_language() {
    for cfg in get_language_configs() {
        assert!(extract_boundary("f", "x", &cfg, [0; 32]).is_ok());
    }
}

#[test]
fn invalid_definition_query_fails_the_analysis() {
    let config = LanguageConfigBuilder::new(SupportedLanguage::Python, &["py"]).defs("(((").build();
    assert!(config.queries.definitions.is_none());
    let err = match analyze_source("pkg/a.py", "x = 1\n", &config) {
        Ok(_) => panic!("an invalid definition query must fail the analysis"),
        Err(e) => e,
    };
    assert!(err.starts_with("Invalid defs query for Python: "), "{}", err);
    assert!(analyze_source("pkg/a.py", "  \n", &config).is_ok());
    assert!(extract_boundary("pkg/a.py", "x = 1\n", &config, [0; 32]).is_ok());
}

#[test]
fn arrow_function_declarator_is_a_function() {
    let config = typescript::config();
    let b = extract_boundary("src/f.ts", "const f = () => {};\nconst n = 1;\n", &config, [0; 32]).unwrap();
    let kinds: Vec<(&str, SymbolKind)> = b.defs.iter().map(|d| (d.name.as_str(), d.kind)).collect();
    assert!(kinds.contains(&("f", SymbolKind::Function)), "{:?}", kinds);
}
