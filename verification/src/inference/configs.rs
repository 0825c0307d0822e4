//! The frameworks known to the engine and their rules.

use vstd::prelude::*;
use crate::analysis::language::SupportedLanguage;
use crate::inference::frameworks::{
    ConceptRule,
    ConceptRuleV,
    ConceptType,
    FrameworkManager,
    FrameworkSpec,
    FrameworkSpecV,
};
use crate::text::owned;

verus! {

/// The model of a rule made of its parts.
pub open spec fn concept_rule(
    concept: ConceptType,
    trigger_key: Seq<char>,
    extraction_regex: Option<Seq<char>>,
    output_template: Seq<char>,
    parent_context_key: Option<Seq<char>>,
) -> ConceptRuleV {
    ConceptRuleV { concept, trigger_key, extraction_regex, output_template, parent_context_key }
}

/// The model of an optional string slice.
pub open spec fn opt_str(o: Option<&str>) -> Option<Seq<char>> {
    match o {
        Some(s) => Some(s@),
        None => None,
    }
}

fn opt_owned(o: Option<&str>) -> (r: Option<String>)
    ensures
        crate::inference::frameworks::opt_view(r) == opt_str(o),
{
    match o {
        Some(s) => Some(owned(s)),
        None => None,
    }
}

fn rule(
    concept: ConceptType,
    trigger_key: &str,
    extraction_regex: Option<&str>,
    output_template: &str,
    parent_context_key: Option<&str>,
) -> (r: ConceptRule)
    ensures
        r@ == concept_rule(
            concept,
            trigger_key@,
            opt_str(extraction_regex),
            output_template@,
            opt_str(parent_context_key),
        ),
{
    ConceptRule {
        concept,
        trigger_key: owned(trigger_key),
        extraction_regex: opt_owned(extraction_regex),
        output_template: owned(output_template),
        parent_context_key: opt_owned(parent_context_key),
    }
}

fn framework(
    name: &str,
    language: SupportedLanguage,
    detection_import: Option<&str>,
    detection_suffix: Option<&str>,
    rules: Vec<ConceptRule>,
) -> (r: FrameworkSpec)
    ensures
        r@ == (FrameworkSpecV {
            name: name@,
            language,
            detection_import: opt_str(detection_import),
            detection_suffix: opt_str(detection_suffix),
            rules: crate::inference::frameworks::rules_view(rules@),
        }),
{
    FrameworkSpec {
        name: owned(name),
        language,
        detection_import: opt_owned(detection_import),
        detection_suffix: opt_owned(detection_suffix),
        rules,
    }
}

/// The Gin/Echo framework.
pub open spec fn go_gin_framework() -> FrameworkSpecV {
    FrameworkSpecV {
        name: "Gin/Echo"@,
        language: SupportedLanguage::Go,
        detection_import: None,
        detection_suffix: Some(".go"@),
        rules: seq![
            concept_rule(ConceptType::Route, "GET"@, None, "route:GET:{}"@, None),
            concept_rule(ConceptType::Route, "POST"@, None, "route:POST:{}"@, None),
        ],
    }
}

fn register_go_gin(manager: &mut FrameworkManager)
    ensures
        final(manager).frameworks() == old(manager).frameworks().push(go_gin_framework()),
{
    let mut rules: Vec<ConceptRule> = Vec::new();
    rules.push(rule(ConceptType::Route, "GET", None, "route:GET:{}", None));
    rules.push(rule(ConceptType::Route, "POST", None, "route:POST:{}", None));
    proof {
        assert(crate::inference::frameworks::rules_view(rules@) =~= go_gin_framework().rules);
    }
    let spec = framework("Gin/Echo", SupportedLanguage::Go, None, Some(".go"), rules);
    proof {
        assert(spec@ == go_gin_framework());
    }
    manager.register(spec);
}

/// The Angular framework.
pub open spec fn angular_framework() -> FrameworkSpecV {
    FrameworkSpecV {
        name: "Angular"@,
        language: SupportedLanguage::TypeScript,
        detection_import: None,
        detection_suffix: Some(".ts"@),
        rules: seq![
            concept_rule(ConceptType::View, "Component"@, Some(r"selector\s*:\s*['`\x22]([\w-]+)['`\x22]"@), "html:tag:{}"@, None),
            concept_rule(ConceptType::DependencyProvider, "Injectable"@, None, "di:{}"@, None),
        ],
    }
}

fn register_angular(manager: &mut FrameworkManager)
    ensures
        final(manager).frameworks() == old(manager).frameworks().push(angular_framework()),
{
    let mut rules: Vec<ConceptRule> = Vec::new();
    rules.push(rule(ConceptType::View, "Component", Some(r"selector\s*:\s*['`\x22]([\w-]+)['`\x22]"), "html:tag:{}", None));
    rules.push(rule(ConceptType::DependencyProvider, "Injectable", None, "di:{}", None));
    proof {
        assert(crate::inference::frameworks::rules_view(rules@) =~= angular_framework().rules);
    }
    let spec = framework("Angular", SupportedLanguage::TypeScript, None, Some(".ts"), rules);
    proof {
        assert(spec@ == angular_framework());
    }
    manager.register(spec);
}

/// The NestJS framework.
pub open spec fn nestjs_framework() -> FrameworkSpecV {
    FrameworkSpecV {
        name: "NestJS"@,
        language: SupportedLanguage::TypeScript,
        detection_import: None,
        detection_suffix: Some(".ts"@),
        rules: seq![
            concept_rule(ConceptType::Route, "Controller"@, None, "route:root:{}"@, None),
            concept_rule(ConceptType::Route, "Get"@, None, "route:GET:{parent}/{}"@, Some("Controller"@)),
            concept_rule(ConceptType::Route, "Post"@, None, "route:POST:{parent}/{}"@, Some("Controller"@)),
            concept_rule(ConceptType::DependencyProvider, "Injectable"@, None, "di:{}"@, None),
        ],
    }
}

fn register_nestjs(manager: &mut FrameworkManager)
    ensures
        final(manager).frameworks() == old(manager).frameworks().push(nestjs_framework()),
{
    let mut rules: Vec<ConceptRule> = Vec::new();
    rules.push(rule(ConceptType::Route, "Controller", None, "route:root:{}", None));
    rules.push(rule(ConceptType::Route, "Get", None, "route:GET:{parent}/{}", Some("Controller")));
    rules.push(rule(ConceptType::Route, "Post", None, "route:POST:{parent}/{}", Some("Controller")));
    rules.push(rule(ConceptType::DependencyProvider, "Injectable", None, "di:{}", None));
    proof {
        assert(crate::inference::frameworks::rules_view(rules@) =~= nestjs_framework().rules);
    }
    let spec = framework("NestJS", SupportedLanguage::TypeScript, None, Some(".ts"), rules);
    proof {
        assert(spec@ == nestjs_framework());
    }
    manager.register(spec);
}

/// The Flask framework.
pub open spec fn flask_framework() -> FrameworkSpecV {
    FrameworkSpecV {
        name: "Flask"@,
        language: SupportedLanguage::Python,
        detection_import: Some("flask"@),
        detection_suffix: Some(".py"@),
        rules: seq![
            concept_rule(ConceptType::Route, "route"@, None, "route:GET:{}"@, None),
        ],
    }
}

fn register_flask(manager: &mut FrameworkManager)
    ensures
        final(manager).frameworks() == old(manager).frameworks().push(flask_framework()),
{
    let mut rules: Vec<ConceptRule> = Vec::new();
    rules.push(rule(ConceptType::Route, "route", None, "route:GET:{}", None));
    proof {
        assert(crate::inference::frameworks::rules_view(rules@) =~= flask_framework().rules);
    }
    let spec = framework("Flask", SupportedLanguage::Python, Some("flask"), Some(".py"), rules);
    proof {
        assert(spec@ == flask_framework());
    }
    manager.register(spec);
}

/// The FastAPI framework.
pub open spec fn fastapi_framework() -> FrameworkSpecV {
    FrameworkSpecV {
        name: "FastAPI"@,
        language: SupportedLanguage::Python,
        detection_import: Some("fastapi"@),
        detection_suffix: Some(".py"@),
        rules: seq![
            concept_rule(ConceptType::Route, "get"@, None, "route:GET:{}"@, None),
            concept_rule(ConceptType::Route, "post"@, None, "route:POST:{}"@, None),
        ],
    }
}

fn register_fastapi(manager: &mut FrameworkManager)
    ensures
        final(manager).frameworks() == old(manager).frameworks().push(fastapi_framework()),
{
    let mut rules: Vec<ConceptRule> = Vec::new();
    rules.push(rule(ConceptType::Route, "get", None, "route:GET:{}", None));
    rules.push(rule(ConceptType::Route, "post", None, "route:POST:{}", None));
    proof {
        assert(crate::inference::frameworks::rules_view(rules@) =~= fastapi_framework().rules);
    }
    let spec = framework("FastAPI", SupportedLanguage::Python, Some("fastapi"), Some(".py"), rules);
    proof {
        assert(spec@ == fastapi_framework());
    }
    manager.register(spec);
}

/// The Spring Boot framework.
pub open spec fn spring_boot_framework() -> FrameworkSpecV {
    FrameworkSpecV {
        name: "Spring Boot"@,
        language: SupportedLanguage::Java,
        detection_import: None,
        detection_suffix: Some(".java"@),
        rules: seq![
            concept_rule(ConceptType::Route, "RequestMapping"@, None, "route:root:{}"@, None),
            concept_rule(ConceptType::Route, "GetMapping"@, None, "route:GET:{parent}/{}"@, Some("RequestMapping"@)),
            concept_rule(ConceptType::Route, "GetMapping"@, None, "route:GET:{}"@, None),
            concept_rule(ConceptType::DependencyProvider, "Service"@, None, "di:{}"@, None),
            concept_rule(ConceptType::DependencyProvider, "Component"@, None, "di:{}"@, None),
        ],
    }
}

fn register_spring_boot(manager: &mut FrameworkManager)
    ensures
        final(manager).frameworks() == old(manager).frameworks().push(spring_boot_framework()),
{
    let mut rules: Vec<ConceptRule> = Vec::new();
    rules.push(rule(ConceptType::Route, "RequestMapping", None, "route:root:{}", None));
    rules.push(rule(ConceptType::Route, "GetMapping", None, "route:GET:{parent}/{}", Some("RequestMapping")));
    rules.push(rule(ConceptType::Route, "GetMapping", None, "route:GET:{}", None));
    rules.push(rule(ConceptType::DependencyProvider, "Service", None, "di:{}", None));
    rules.push(rule(ConceptType::DependencyProvider, "Component", None, "di:{}", None));
    proof {
        assert(crate::inference::frameworks::rules_view(rules@) =~= spring_boot_framework().rules);
    }
    let spec = framework("Spring Boot", SupportedLanguage::Java, None, Some(".java"), rules);
    proof {
        assert(spec@ == spring_boot_framework());
    }
    manager.register(spec);
}

/// The Actix/Rocket framework.
pub open spec fn actix_framework() -> FrameworkSpecV {
    FrameworkSpecV {
        name: "Actix/Rocket"@,
        language: SupportedLanguage::Rust,
        detection_import: None,
        detection_suffix: Some(".rs"@),
        rules: seq![
            concept_rule(ConceptType::Route, "get"@, None, "route:GET:{}"@, None),
        ],
    }
}

fn register_actix(manager: &mut FrameworkManager)
    ensures
        final(manager).frameworks() == old(manager).frameworks().push(actix_framework()),
{
    let mut rules: Vec<ConceptRule> = Vec::new();
    rules.push(rule(ConceptType::Route, "get", None, "route:GET:{}", None));
    proof {
        assert(crate::inference::frameworks::rules_view(rules@) =~= actix_framework().rules);
    }
    let spec = framework("Actix/Rocket", SupportedLanguage::Rust, None, Some(".rs"), rules);
    proof {
        assert(spec@ == actix_framework());
    }
    manager.register(spec);
}

/// The Axum framework.
pub open spec fn axum_framework() -> FrameworkSpecV {
    FrameworkSpecV {
        name: "Axum"@,
        language: SupportedLanguage::Rust,
        detection_import: None,
        detection_suffix: Some(".rs"@),
        rules: seq![
            concept_rule(ConceptType::Route, "route"@, None, "route:GET:{}"@, None),
        ],
    }
}

fn register_axum(manager: &mut FrameworkManager)
    ensures
        final(manager).frameworks() == old(manager).frameworks().push(axum_framework()),
{
    let mut rules: Vec<ConceptRule> = Vec::new();
    rules.push(rule(ConceptType::Route, "route", None, "route:GET:{}", None));
    proof {
        assert(crate::inference::frameworks::rules_view(rules@) =~= axum_framework().rules);
    }
    let spec = framework("Axum", SupportedLanguage::Rust, None, Some(".rs"), rules);
    proof {
        assert(spec@ == axum_framework());
    }
    manager.register(spec);
}

/// The Redux framework.
pub open spec fn redux_framework() -> FrameworkSpecV {
    FrameworkSpecV {
        name: "Redux"@,
        language: SupportedLanguage::TypeScript,
        detection_import: Some("redux"@),
        detection_suffix: None,
        rules: seq![
            concept_rule(ConceptType::DependencyConsumer, "dispatch"@, None, "redux:action:{}"@, None),
            concept_rule(ConceptType::DependencyProvider, "handle"@, None, "redux:action:{}"@, None),
        ],
    }
}

fn register_redux(manager: &mut FrameworkManager)
    ensures
        final(manager).frameworks() == old(manager).frameworks().push(redux_framework()),
{
    let mut rules: Vec<ConceptRule> = Vec::new();
    rules.push(rule(ConceptType::DependencyConsumer, "dispatch", None, "redux:action:{}", None));
    rules.push(rule(ConceptType::DependencyProvider, "handle", None, "redux:action:{}", None));
    proof {
        assert(crate::inference::frameworks::rules_view(rules@) =~= redux_framework().rules);
    }
    let spec = framework("Redux", SupportedLanguage::TypeScript, Some("redux"), None, rules);
    proof {
        assert(spec@ == redux_framework());
    }
    manager.register(spec);
}

/// The Laravel framework.
pub open spec fn laravel_framework() -> FrameworkSpecV {
    FrameworkSpecV {
        name: "Laravel"@,
        language: SupportedLanguage::Php,
        detection_import: Some("Illuminate"@),
        detection_suffix: Some(".php"@),
        rules: seq![
            concept_rule(ConceptType::Route, "get"@, None, "route:GET:{}"@, None),
        ],
    }
}

fn register_laravel(manager: &mut FrameworkManager)
    ensures
        final(manager).frameworks() == old(manager).frameworks().push(laravel_framework()),
{
    let mut rules: Vec<ConceptRule> = Vec::new();
    rules.push(rule(ConceptType::Route, "get", None, "route:GET:{}", None));
    proof {
        assert(crate::inference::frameworks::rules_view(rules@) =~= laravel_framework().rules);
    }
    let spec = framework("Laravel", SupportedLanguage::Php, Some("Illuminate"), Some(".php"), rules);
    proof {
        assert(spec@ == laravel_framework());
    }
    manager.register(spec);
}

/// The Symfony framework.
pub open spec fn symfony_framework() -> FrameworkSpecV {
    FrameworkSpecV {
        name: "Symfony"@,
        language: SupportedLanguage::Php,
        detection_import: Some("Symfony"@),
        detection_suffix: Some(".php"@),
        rules: seq![
            concept_rule(ConceptType::Route, "Route"@, None, "route:GET:{}"@, None),
        ],
    }
}

fn register_symfony(manager: &mut FrameworkManager)
    ensures
        final(manager).frameworks() == old(manager).frameworks().push(symfony_framework()),
{
    let mut rules: Vec<ConceptRule> = Vec::new();
    rules.push(rule(ConceptType::Route, "Route", None, "route:GET:{}", None));
    proof {
        assert(crate::inference::frameworks::rules_view(rules@) =~= symfony_framework().rules);
    }
    let spec = framework("Symfony", SupportedLanguage::Php, Some("Symfony"), Some(".php"), rules);
    proof {
        assert(spec@ == symfony_framework());
    }
    manager.register(spec);
}

/// The Rails framework.
pub open spec fn rails_framework() -> FrameworkSpecV {
    FrameworkSpecV {
        name: "Rails"@,
        language: SupportedLanguage::Ruby,
        detection_import: Some("rails"@),
        detection_suffix: Some(".rb"@),
        rules: seq![
            concept_rule(ConceptType::Route, "get"@, None, "route:GET:{}"@, None),
            concept_rule(ConceptType::Route, "resources"@, Some(r":(\w+)"@), "route:GET:/{}"@, None),
        ],
    }
}

fn register_rails(manager: &mut FrameworkManager)
    ensures
        final(manager).frameworks() == old(manager).frameworks().push(rails_framework()),
{
    let mut rules: Vec<ConceptRule> = Vec::new();
    rules.push(rule(ConceptType::Route, "get", None, "route:GET:{}", None));
    rules.push(rule(ConceptType::Route, "resources", Some(r":(\w+)"), "route:GET:/{}", None));
    proof {
        assert(crate::inference::frameworks::rules_view(rules@) =~= rails_framework().rules);
    }
    let spec = framework("Rails", SupportedLanguage::Ruby, Some("rails"), Some(".rb"), rules);
    proof {
        assert(spec@ == rails_framework());
    }
    manager.register(spec);
}

/// The ASP.NET Core framework.
pub open spec fn aspnet_core_framework() -> FrameworkSpecV {
    FrameworkSpecV {
        name: "ASP.NET Core"@,
        language: SupportedLanguage::CSharp,
        detection_import: Some("Microsoft.AspNetCore"@),
        detection_suffix: Some(".cs"@),
        rules: seq![
            concept_rule(ConceptType::Route, "Route"@, None, "route:root:{}"@, None),
            concept_rule(ConceptType::Route, "HttpGet"@, None, "route:GET:{parent}/{}"@, Some("Route"@)),
            concept_rule(ConceptType::Route, "HttpGet"@, None, "route:GET:{}"@, None),
        ],
    }
}

fn register_aspnet_core(manager: &mut FrameworkManager)
    ensures
        final(manager).frameworks() == old(manager).frameworks().push(aspnet_core_framework()),
{
    let mut rules: Vec<ConceptRule> = Vec::new();
    rules.push(rule(ConceptType::Route, "Route", None, "route:root:{}", None));
    rules.push(rule(ConceptType::Route, "HttpGet", None, "route:GET:{parent}/{}", Some("Route")));
    rules.push(rule(ConceptType::Route, "HttpGet", None, "route:GET:{}", None));
    proof {
        assert(crate::inference::frameworks::rules_view(rules@) =~= aspnet_core_framework().rules);
    }
    let spec = framework("ASP.NET Core", SupportedLanguage::CSharp, Some("Microsoft.AspNetCore"), Some(".cs"), rules);
    proof {
        assert(spec@ == aspnet_core_framework());
    }
    manager.register(spec);
}

/// The Crow framework.
pub open spec fn crow_framework() -> FrameworkSpecV {
    FrameworkSpecV {
        name: "Crow"@,
        language: SupportedLanguage::Cpp,
        detection_import: Some("crow.h"@),
        detection_suffix: None,
        rules: seq![
            concept_rule(ConceptType::Route, "CROW_ROUTE"@, None, "route:GET:{}"@, None),
        ],
    }
}

fn register_crow(manager: &mut FrameworkManager)
    ensures
        final(manager).frameworks() == old(manager).frameworks().push(crow_framework()),
{
    let mut rules: Vec<ConceptRule> = Vec::new();
    rules.push(rule(ConceptType::Route, "CROW_ROUTE", None, "route:GET:{}", None));
    proof {
        assert(crate::inference::frameworks::rules_view(rules@) =~= crow_framework().rules);
    }
    let spec = framework("Crow", SupportedLanguage::Cpp, Some("crow.h"), None, rules);
    proof {
        assert(spec@ == crow_framework());
    }
    manager.register(spec);
}

/// The frameworks known to the engine, in the order they are registered.
pub open spec fn known_frameworks() -> Seq<FrameworkSpecV> {
    seq![
        angular_framework(),
        nestjs_framework(),
        flask_framework(),
        fastapi_framework(),
        spring_boot_framework(),
        actix_framework(),
        axum_framework(),
        redux_framework(),
        go_gin_framework(),
        laravel_framework(),
        symfony_framework(),
        rails_framework(),
        aspnet_core_framework(),
        crow_framework(),
    ]
}

/// Registers every framework known to the engine.
pub fn register_all(manager: &mut FrameworkManager)
    ensures
        final(manager).frameworks() == old(manager).frameworks() + known_frameworks(),
{
    let ghost start = manager.frameworks();
    register_angular(manager);
    register_nestjs(manager);
    register_flask(manager);
    register_fastapi(manager);
    register_spring_boot(manager);
    register_actix(manager);
    register_axum(manager);
    register_redux(manager);
    register_go_gin(manager);
    register_laravel(manager);
    register_symfony(manager);
    register_rails(manager);
    register_aspnet_core(manager);
    register_crow(manager);
    proof {
        assert(manager.frameworks() =~= start + known_frameworks());
    }
}

} // verus!
