use blast_radius_engine::analysis::language::SupportedLanguage;
use blast_radius_engine::inference::configs::register_all;
use blast_radius_engine::inference::conventions::ConventionEngine;
use blast_radius_engine::inference::frameworks::{
    format_output, ConceptRule, ConceptType, FrameworkManager, FrameworkSpec,
};
use blast_radius_engine::inference::routes::NextJsRouteRule;
use blast_radius_engine::inference::{BoxedRule, InferenceEngine, InferenceRule};
use blast_radius_engine::models::{FileBoundary, FrameworkHint};

fn boundary(path: &str) -> FileBoundary {
    FileBoundary { path: path.to_string(), ..Default::default() }
}

fn hint(key: &str, value: &str) -> FrameworkHint {
    FrameworkHint { key: key.to_string(), value: value.to_string(), range: (0, 0) }
}

#[test]
fn nextjs_pages_api_route() {
    let defs = NextJsRouteRule.infer_definitions(&boundary("src/pages/api/user.ts"));
    assert_eq!(defs, vec!["route:/api/user"]);
}

#[test]
fn nextjs_pages_api_index_route() {
    let defs = NextJsRouteRule.infer_definitions(&boundary("web/pages/api/users/index.ts"));
    assert_eq!(defs, vec!["route:/api/users"]);
}

#[test]
fn nextjs_app_router_route() {
    let defs = NextJsRouteRule.infer_definitions(&boundary("proj/app/api/auth/route.ts"));
    assert_eq!(defs, vec!["route:/api/auth"]);
}

#[test]
fn nextjs_windows_separators() {
    let defs = NextJsRouteRule.infer_definitions(&boundary("src\\pages\\api\\orders.js"));
    assert_eq!(defs, vec!["route:/api/orders"]);
}

#[test]
fn nextjs_plain_file_has_no_route() {
    let defs = NextJsRouteRule.infer_definitions(&boundary("src/components/Button.tsx"));
    assert!(defs.is_empty());
}

#[test]
fn conventions_pages_router_index_at_root() {
    let engine = ConventionEngine::new();
    let defs = engine.infer_definitions(&boundary("src/pages/api/index.ts"));
    assert_eq!(defs, vec!["route:/api"]);
}

#[test]
fn conventions_app_router() {
    let engine = ConventionEngine::new();
    let defs = engine.infer_definitions(&boundary("x/app/api/items/route.js"));
    assert_eq!(defs, vec!["route:/api/items"]);
}

#[test]
fn conventions_rails_controller() {
    let engine = ConventionEngine::new();
    let defs = engine.infer_definitions(&boundary("app/controllers/users_controller.rb"));
    assert_eq!(defs, vec!["controller:users"]);
}

#[test]
fn conventions_rails_nested_controller() {
    let engine = ConventionEngine::new();
    let defs = engine.infer_definitions(&boundary("shop/app/controllers/admin/orders_controller.rb"));
    assert_eq!(defs, vec!["controller:orders"]);
}

#[test]
fn conventions_rails_model_is_not_a_controller() {
    let engine = ConventionEngine::new();
    let defs = engine.infer_definitions(&boundary("app/models/user.rb"));
    assert!(defs.is_empty());
}

#[test]
fn nextjs_app_router_at_path_start() {
    let defs = NextJsRouteRule.infer_definitions(&boundary("app/api/auth/route.ts"));
    assert_eq!(defs, vec!["route:/api/auth"]);
}

#[test]
fn conventions_app_router_at_path_start() {
    let engine = ConventionEngine::new();
    let defs = engine.infer_definitions(&boundary("app/api/auth/route.ts"));
    assert_eq!(defs, vec!["route:/api/auth"]);
}

#[test]
fn format_output_fills_value_and_parent() {
    let parent = "/api".to_string();
    assert_eq!(format_output("route:GET:{parent}/{}", "users", Some(&parent)), "route:GET:/api/users");
}

#[test]
fn format_output_collapses_double_slashes() {
    let parent = "/api".to_string();
    assert_eq!(format_output("route:GET:{parent}/{}", "/users", Some(&parent)), "route:GET:/api/users");
}

#[test]
fn format_output_collapses_in_one_pass() {
    let parent = "/api/".to_string();
    assert_eq!(format_output("route:GET:{parent}/{}", "/users", Some(&parent)), "route:GET:/api//users");
}

#[test]
fn format_output_without_context_keeps_parent_marker() {
    assert_eq!(format_output("route:GET:{parent}/{}", "x", None), "route:GET:{parent}/x");
    assert_eq!(format_output("di:{}", "UserService", None), "di:UserService");
}

#[test]
fn nestjs_controller_and_methods() {
    let mut manager = FrameworkManager::new();
    register_all(&mut manager);
    let mut b = boundary("src/users/users.controller.ts");
    b.framework_hints = vec![hint("Controller", "users"), hint("Get", "profile"), hint("Post", "")];
    let defs = manager.infer_definitions(&b);
    assert_eq!(defs, vec!["route:root:users", "route:GET:users/profile", "route:POST:users/"]);
}

#[test]
fn nestjs_method_without_controller_is_skipped() {
    let mut manager = FrameworkManager::new();
    register_all(&mut manager);
    let mut b = boundary("src/users/users.controller.ts");
    b.framework_hints = vec![hint("Get", "profile")];
    assert!(manager.infer_definitions(&b).is_empty());
}

#[test]
fn angular_component_selector() {
    let mut manager = FrameworkManager::new();
    register_all(&mut manager);
    let mut b = boundary("src/app/app.component.ts");
    b.framework_hints = vec![hint("Component", "{ selector: 'app-root', templateUrl: './x.html' }")];
    assert_eq!(manager.infer_definitions(&b), vec!["html:tag:app-root"]);
}

#[test]
fn angular_component_without_selector_gives_nothing() {
    let mut manager = FrameworkManager::new();
    register_all(&mut manager);
    let mut b = boundary("src/app/app.component.ts");
    b.framework_hints = vec![hint("Component", "{ templateUrl: './x.html' }")];
    assert!(manager.infer_definitions(&b).is_empty());
}

#[test]
fn flask_needs_its_import() {
    let mut manager = FrameworkManager::new();
    register_all(&mut manager);
    let mut b = boundary("app/views.py");
    b.framework_hints = vec![hint("route", "/home")];
    assert!(manager.infer_definitions(&b).is_empty());
    b.imports = vec!["flask".to_string()];
    assert_eq!(manager.infer_definitions(&b), vec!["route:GET:/home"]);
}

#[test]
fn custom_framework_rule_applies_to_each_hint() {
    let mut manager = FrameworkManager::new();
    manager.register(FrameworkSpec {
        name: "Custom".to_string(),
        language: SupportedLanguage::Go,
        detection_import: None,
        detection_suffix: Some(".go".to_string()),
        rules: vec![ConceptRule {
            concept: ConceptType::Route,
            trigger_key: "Handle".to_string(),
            extraction_regex: None,
            output_template: "route:ANY:{}".to_string(),
            parent_context_key: None,
        }],
    });
    let mut b = boundary("main.go");
    b.framework_hints = vec![hint("Handle", "/ping"), hint("Other", "/x"), hint("Handle", "/pong")];
    assert_eq!(manager.infer_definitions(&b), vec!["route:ANY:/ping", "route:ANY:/pong"]);
}

#[test]
fn engine_without_rules_clears_synthetic_defs() {
    let engine = InferenceEngine::new();
    let mut b = boundary("src/pages/api/user.ts");
    b.synthetic_defs = vec!["old".to_string()];
    engine.run(&mut b);
    assert!(b.synthetic_defs.is_empty());
    assert_eq!(b.path, "src/pages/api/user.ts");
}

#[test]
fn engine_runs_rules_in_order() {
    let mut engine = InferenceEngine::new();
    engine.register(BoxedRule(Box::new(NextJsRouteRule)));
    engine.register(BoxedRule(Box::new(ConventionEngine::new())));
    let mut b = boundary("src/pages/api/user.ts");
    b.imports = vec!["react".to_string()];
    engine.run(&mut b);
    assert_eq!(b.synthetic_defs, vec!["route:/api/user", "route:/api/user"]);
    assert_eq!(b.imports, vec!["react"]);
}

#[test]
fn engine_replaces_stale_definitions() {
    let mut engine = InferenceEngine::new();
    engine.register(BoxedRule(Box::new(NextJsRouteRule)));
    let mut b = boundary("src/pages/api/user.ts");
    b.synthetic_defs = vec!["stale".to_string()];
    engine.run(&mut b);
    assert_eq!(b.synthetic_defs, vec!["route:/api/user"]);
    assert_eq!(b.path, "src/pages/api/user.ts");
}
