//! Supported languages, their grammars, and the per-language configuration
//! (queries, heuristics, skeleton template) built with a builder.

use std::sync::Arc;
use vstd::prelude::*;
use crate::analysis::languages;
use crate::syntax::{compile_query, query_compiles, query_error_text, CompiledQuery, Grammar};

verus! {

/// The languages the engine can parse.
#[derive(Clone, Copy, Debug, PartialEq, Eq, Structural)]
pub enum SupportedLanguage {
    Rust,
    TypeScript,
    Python,
    Java,
    JavaScript,
    Bash,
    Html,
    Julia,
    R,
    Json,
    Yaml,
    Toml,
    Dotenv,
    Sql,
    Prisma,
    Hcl,
    Go,
    CSharp,
    Php,
    Ruby,
    C,
    Cpp,
}

// One trusted item per grammar crate: each returns that crate's grammar.
/// The Rust grammar (`tree_sitter_rust::LANGUAGE`).
#[verifier::external_body]
fn grammar_rust() -> tree_sitter::Language {
    tree_sitter_rust::LANGUAGE.into()
}

/// The TypeScript grammar (`tree_sitter_typescript::LANGUAGE_TYPESCRIPT`).
#[verifier::external_body]
fn grammar_typescript() -> tree_sitter::Language {
    tree_sitter_typescript::LANGUAGE_TYPESCRIPT.into()
}

/// The Python grammar (`tree_sitter_python::LANGUAGE`).
#[verifier::external_body]
fn grammar_python() -> tree_sitter::Language {
    tree_sitter_python::LANGUAGE.into()
}

/// The Java grammar (`tree_sitter_java::LANGUAGE`).
#[verifier::external_body]
fn grammar_java() -> tree_sitter::Language {
    tree_sitter_java::LANGUAGE.into()
}

/// The JavaScript grammar (`tree_sitter_javascript::LANGUAGE`).
#[verifier::external_body]
fn grammar_javascript() -> tree_sitter::Language {
    tree_sitter_javascript::LANGUAGE.into()
}

/// The Bash grammar (`tree_sitter_bash::LANGUAGE`).
#[verifier::external_body]
fn grammar_bash() -> tree_sitter::Language {
    tree_sitter_bash::LANGUAGE.into()
}

/// The HTML grammar (`tree_sitter_html::LANGUAGE`).
#[verifier::external_body]
fn grammar_html() -> tree_sitter::Language {
    tree_sitter_html::LANGUAGE.into()
}

/// The Julia grammar (`tree_sitter_julia::LANGUAGE`).
#[verifier::external_body]
fn grammar_julia() -> tree_sitter::Language {
    tree_sitter_julia::LANGUAGE.into()
}

/// The R grammar (`tree_sitter_r::LANGUAGE`).
#[verifier::external_body]
fn grammar_r() -> tree_sitter::Language {
    tree_sitter_r::LANGUAGE.into()
}

/// The JSON grammar (`tree_sitter_json::LANGUAGE`).
#[verifier::external_body]
fn grammar_json() -> tree_sitter::Language {
    tree_sitter_json::LANGUAGE.into()
}

/// The YAML grammar (`tree_sitter_yaml::LANGUAGE`).
#[verifier::external_body]
fn grammar_yaml() -> tree_sitter::Language {
    tree_sitter_yaml::LANGUAGE.into()
}

/// The TOML grammar (`tree_sitter_toml_ng::LANGUAGE`).
#[verifier::external_body]
fn grammar_toml() -> tree_sitter::Language {
    tree_sitter_toml_ng::LANGUAGE.into()
}

/// The SQL grammar (`tree_sitter_sequel::LANGUAGE`).
#[verifier::external_body]
fn grammar_sql() -> tree_sitter::Language {
    tree_sitter_sequel::LANGUAGE.into()
}

/// The Prisma grammar (`tree_sitter_prisma_io::LANGUAGE`).
#[verifier::external_body]
fn grammar_prisma() -> tree_sitter::Language {
    tree_sitter_prisma_io::LANGUAGE.into()
}

/// The HCL grammar (`tree_sitter_hcl::LANGUAGE`).
#[verifier::external_body]
fn grammar_hcl() -> tree_sitter::Language {
    tree_sitter_hcl::LANGUAGE.into()
}

/// The Go grammar (`tree_sitter_go::LANGUAGE`).
#[verifier::external_body]
fn grammar_go() -> tree_sitter::Language {
    tree_sitter_go::LANGUAGE.into()
}

/// The C# grammar (`tree_sitter_c_sharp::LANGUAGE`).
#[verifier::external_body]
fn grammar_c_sharp() -> tree_sitter::Language {
    tree_sitter_c_sharp::LANGUAGE.into()
}

/// The PHP grammar (`tree_sitter_php::LANGUAGE_PHP`).
#[verifier::external_body]
fn grammar_php() -> tree_sitter::Language {
    tree_sitter_php::LANGUAGE_PHP.into()
}

/// The Ruby grammar (`tree_sitter_ruby::LANGUAGE`).
#[verifier::external_body]
fn grammar_ruby() -> tree_sitter::Language {
    tree_sitter_ruby::LANGUAGE.into()
}

/// The C grammar (`tree_sitter_c::LANGUAGE`).
#[verifier::external_body]
fn grammar_c() -> tree_sitter::Language {
    tree_sitter_c::LANGUAGE.into()
}

/// The C++ grammar (`tree_sitter_cpp::LANGUAGE`).
#[verifier::external_body]
fn grammar_cpp() -> tree_sitter::Language {
    tree_sitter_cpp::LANGUAGE.into()
}

/// The tree-sitter grammar for a language. Bash and dotenv files share the
/// Bash grammar.
pub fn get_language(lang: SupportedLanguage) -> tree_sitter::Language {
    match lang {
        SupportedLanguage::Rust => grammar_rust(),
        SupportedLanguage::TypeScript => grammar_typescript(),
        SupportedLanguage::Python => grammar_python(),
        SupportedLanguage::Java => grammar_java(),
        SupportedLanguage::JavaScript => grammar_javascript(),
        SupportedLanguage::Bash | SupportedLanguage::Dotenv => grammar_bash(),
        SupportedLanguage::Html => grammar_html(),
        SupportedLanguage::Julia => grammar_julia(),
        SupportedLanguage::R => grammar_r(),
        SupportedLanguage::Json => grammar_json(),
        SupportedLanguage::Yaml => grammar_yaml(),
        SupportedLanguage::Toml => grammar_toml(),
        SupportedLanguage::Sql => grammar_sql(),
        SupportedLanguage::Prisma => grammar_prisma(),
        SupportedLanguage::Hcl => grammar_hcl(),
        SupportedLanguage::Go => grammar_go(),
        SupportedLanguage::CSharp => grammar_c_sharp(),
        SupportedLanguage::Php => grammar_php(),
        SupportedLanguage::Ruby => grammar_ruby(),
        SupportedLanguage::C => grammar_c(),
        SupportedLanguage::Cpp => grammar_cpp(),
    }
}

/// The queries of a language, compiled for its grammar. A query that was not
/// given, or that does not compile, is absent.
#[derive(Clone, Default)]
pub struct CompiledQueries {
    pub definitions: Option<Arc<CompiledQuery>>,
    pub imports: Option<Arc<CompiledQuery>>,
    pub references: Option<Arc<CompiledQuery>>,
    pub literals: Option<Arc<CompiledQuery>>,
    pub frameworks: Option<Arc<CompiledQuery>>,
    /// Why the definition query did not compile, where it was given and did
    /// not.
    pub definitions_error: Option<String>,
}

/// The name of a language, as its variant is written.
pub open spec fn language_name(lang: SupportedLanguage) -> &'static str {
    match lang {
        SupportedLanguage::Rust => "Rust",
        SupportedLanguage::TypeScript => "TypeScript",
        SupportedLanguage::Python => "Python",
        SupportedLanguage::Java => "Java",
        SupportedLanguage::JavaScript => "JavaScript",
        SupportedLanguage::Bash => "Bash",
        SupportedLanguage::Html => "Html",
        SupportedLanguage::Julia => "Julia",
        SupportedLanguage::R => "R",
        SupportedLanguage::Json => "Json",
        SupportedLanguage::Yaml => "Yaml",
        SupportedLanguage::Toml => "Toml",
        SupportedLanguage::Dotenv => "Dotenv",
        SupportedLanguage::Sql => "Sql",
        SupportedLanguage::Prisma => "Prisma",
        SupportedLanguage::Hcl => "Hcl",
        SupportedLanguage::Go => "Go",
        SupportedLanguage::CSharp => "CSharp",
        SupportedLanguage::Php => "Php",
        SupportedLanguage::Ruby => "Ruby",
        SupportedLanguage::C => "C",
        SupportedLanguage::Cpp => "Cpp",
    }
}

/// The name of a language ([`language_name`]).
pub fn language_label(lang: SupportedLanguage) -> (r: &'static str)
    ensures
        r == language_name(lang),
{
    match lang {
        SupportedLanguage::Rust => "Rust",
        SupportedLanguage::TypeScript => "TypeScript",
        SupportedLanguage::Python => "Python",
        SupportedLanguage::Java => "Java",
        SupportedLanguage::JavaScript => "JavaScript",
        SupportedLanguage::Bash => "Bash",
        SupportedLanguage::Html => "Html",
        SupportedLanguage::Julia => "Julia",
        SupportedLanguage::R => "R",
        SupportedLanguage::Json => "Json",
        SupportedLanguage::Yaml => "Yaml",
        SupportedLanguage::Toml => "Toml",
        SupportedLanguage::Dotenv => "Dotenv",
        SupportedLanguage::Sql => "Sql",
        SupportedLanguage::Prisma => "Prisma",
        SupportedLanguage::Hcl => "Hcl",
        SupportedLanguage::Go => "Go",
        SupportedLanguage::CSharp => "CSharp",
        SupportedLanguage::Php => "Php",
        SupportedLanguage::Ruby => "Ruby",
        SupportedLanguage::C => "C",
        SupportedLanguage::Cpp => "Cpp",
    }
}

/// The language and query text of a compiled query, where there is one.
pub open spec fn compiled_view(q: Option<Arc<CompiledQuery>>) -> Option<(SupportedLanguage, Seq<char>)> {
    match q {
        Some(a) => Some((*a)@),
        None => None,
    }
}

/// What compiling an optional query text for a language gives: the text,
/// where there is one and it compiles.
pub open spec fn compiled_from(lang: SupportedLanguage, text: Option<&'static str>) -> Option<
    (SupportedLanguage, Seq<char>),
> {
    match text {
        Some(q) => if query_compiles(lang, q@) {
            Some((lang, q@))
        } else {
            None
        },
        None => None,
    }
}

/// Per-language heuristics kept as metadata.
#[derive(Default, Clone)]
pub struct HeuristicConfig {
    pub di_decorators: &'static [&'static str],
    pub magic_methods: &'static [&'static str],
    pub constructor_names: &'static [&'static str],
    pub project_config_files: &'static [&'static str],
}

/// How to parse one language: its grammar, the file extensions it claims,
/// its compiled queries, its heuristics and the text that replaces skeleton
/// bodies.
#[derive(Clone)]
pub struct LanguageConfig {
    pub lang: SupportedLanguage,
    pub file_extensions: &'static [&'static str],
    pub queries: CompiledQueries,
    pub heuristics: HeuristicConfig,
    pub skeleton_template: &'static str,
}

/// Builds a [`LanguageConfig`]. Only the definition, import and framework
/// queries, the skeleton template and the heuristics are kept; the other query setters
/// leave the builder unchanged, their concerns being covered by the generic
/// reference query that [`LanguageConfigBuilder::build`] adds.
pub struct LanguageConfigBuilder {
    lang: SupportedLanguage,
    file_extensions: &'static [&'static str],
    defs_query: Option<&'static str>,
    imports_query: Option<&'static str>,
    frameworks_query: Option<&'static str>,
    heuristics: HeuristicConfig,
    skeleton_template: &'static str,
}

impl LanguageConfigBuilder {
    /// The language being configured.
    pub closed spec fn spec_lang(&self) -> SupportedLanguage {
        self.lang
    }

    /// The file extensions being configured.
    pub closed spec fn spec_file_extensions(&self) -> &'static [&'static str] {
        self.file_extensions
    }

    /// The definition query, if one was set.
    pub closed spec fn spec_defs_query(&self) -> Option<&'static str> {
        self.defs_query
    }

    /// The import query, if one was set.
    pub closed spec fn spec_imports_query(&self) -> Option<&'static str> {
        self.imports_query
    }

    /// The framework-hint query, if one was set.
    pub closed spec fn spec_frameworks_query(&self) -> Option<&'static str> {
        self.frameworks_query
    }

    /// The heuristics being configured.
    pub closed spec fn spec_heuristics(&self) -> HeuristicConfig {
        self.heuristics
    }

    /// The skeleton template being configured.
    pub closed spec fn spec_skeleton(&self) -> &'static str {
        self.skeleton_template
    }

    /// A builder for `lang` and `extensions`, with no queries, default
    /// heuristics and the template `" ... "`.
    pub fn new(lang: SupportedLanguage, extensions: &'static [&'static str]) -> (r: Self)
        ensures
            r.spec_lang() == lang,
            r.spec_file_extensions() == extensions,
            r.spec_defs_query() is None,
            r.spec_imports_query() is None,
            r.spec_frameworks_query() is None,
            r.spec_heuristics().di_decorators@.len() == 0,
            r.spec_heuristics().magic_methods@.len() == 0,
            r.spec_heuristics().constructor_names@.len() == 0,
            r.spec_heuristics().project_config_files@.len() == 0,
            r.spec_skeleton() == " ... ",
    {
        Self {
            lang,
            file_extensions: extensions,
            defs_query: None,
            imports_query: None,
            frameworks_query: None,
            heuristics: HeuristicConfig {
                di_decorators: &[],
                magic_methods: &[],
                constructor_names: &[],
                project_config_files: &[],
            },
            skeleton_template: " ... ",
        }
    }

    /// Sets the definition query.
    pub fn defs(self, q: &'static str) -> (r: Self)
        ensures
            r.spec_lang() == self.spec_lang(),
            r.spec_file_extensions() == self.spec_file_extensions(),
            r.spec_defs_query() == Some(q),
            r.spec_imports_query() == self.spec_imports_query(),
            r.spec_frameworks_query() == self.spec_frameworks_query(),
            r.spec_heuristics() == self.spec_heuristics(),
            r.spec_skeleton() == self.spec_skeleton(),
    {
        let mut s = self;
        s.defs_query = Some(q);
        s
    }

    /// Sets the import query.
    pub fn imports(self, q: &'static str) -> (r: Self)
        ensures
            r.spec_lang() == self.spec_lang(),
            r.spec_file_extensions() == self.spec_file_extensions(),
            r.spec_defs_query() == self.spec_defs_query(),
            r.spec_imports_query() == Some(q),
            r.spec_frameworks_query() == self.spec_frameworks_query(),
            r.spec_heuristics() == self.spec_heuristics(),
            r.spec_skeleton() == self.spec_skeleton(),
    {
        let mut s = self;
        s.imports_query = Some(q);
        s
    }

    /// Sets the framework-hint query.
    pub fn frameworks(self, q: &'static str) -> (r: Self)
        ensures
            r.spec_lang() == self.spec_lang(),
            r.spec_file_extensions() == self.spec_file_extensions(),
            r.spec_defs_query() == self.spec_defs_query(),
            r.spec_imports_query() == self.spec_imports_query(),
            r.spec_frameworks_query() == Some(q),
            r.spec_heuristics() == self.spec_heuristics(),
            r.spec_skeleton() == self.spec_skeleton(),
    {
        let mut s = self;
        s.frameworks_query = Some(q);
        s
    }

    /// Sets the skeleton template.
    pub fn skeleton(self, s: &'static str) -> (r: Self)
        ensures
            r.spec_lang() == self.spec_lang(),
            r.spec_file_extensions() == self.spec_file_extensions(),
            r.spec_defs_query() == self.spec_defs_query(),
            r.spec_imports_query() == self.spec_imports_query(),
            r.spec_frameworks_query() == self.spec_frameworks_query(),
            r.spec_heuristics() == self.spec_heuristics(),
            r.spec_skeleton() == s,
    {
        let mut b = self;
        b.skeleton_template = s;
        b
    }

    /// Accepted for compatibility; leaves the builder unchanged.
    pub fn calls(self, _q: &'static str) -> (r: Self)
        ensures
            r == self,
    {
        self
    }

    /// Accepted for compatibility; leaves the builder unchanged.
    pub fn docs(self, _q: &'static str) -> (r: Self)
        ensures
            r == self,
    {
        self
    }

    /// Accepted for compatibility; leaves the builder unchanged.
    pub fn exports(self, _q: &'static str) -> (r: Self)
        ensures
            r == self,
    {
        self
    }

    /// Accepted for compatibility; leaves the builder unchanged.
    pub fn literals(self, _q: &'static str) -> (r: Self)
        ensures
            r == self,
    {
        self
    }

    /// Accepted for compatibility; leaves the builder unchanged.
    pub fn implements(self, _q: &'static str) -> (r: Self)
        ensures
            r == self,
    {
        self
    }

    /// Accepted for compatibility; leaves the builder unchanged.
    pub fn config_keys(self, _q: &'static str) -> (r: Self)
        ensures
            r == self,
    {
        self
    }

    /// Accepted for compatibility; leaves the builder unchanged.
    pub fn vals(self, _q: &'static str) -> (r: Self)
        ensures
            r == self,
    {
        self
    }

    /// Accepted for compatibility; leaves the builder unchanged.
    pub fn types(self, _q: &'static str) -> (r: Self)
        ensures
            r == self,
    {
        self
    }

    /// Accepted for compatibility; leaves the builder unchanged.
    pub fn decorators(self, _q: &'static str) -> (r: Self)
        ensures
            r == self,
    {
        self
    }

    /// Accepted for compatibility; leaves the builder unchanged.
    pub fn actions(self, _q: &'static str) -> (r: Self)
        ensures
            r == self,
    {
        self
    }

    /// Accepted for compatibility; leaves the builder unchanged.
    pub fn middleware(self, _q: &'static str) -> (r: Self)
        ensures
            r == self,
    {
        self
    }

    /// Accepted for compatibility; leaves the builder unchanged.
    pub fn routes(self, _q: &'static str) -> (r: Self)
        ensures
            r == self,
    {
        self
    }

    /// Sets the dependency-injection decorator names.
    pub fn di_decorators(self, d: &'static [&'static str]) -> (r: Self)
        ensures
            r.spec_lang() == self.spec_lang(),
            r.spec_file_extensions() == self.spec_file_extensions(),
            r.spec_defs_query() == self.spec_defs_query(),
            r.spec_imports_query() == self.spec_imports_query(),
            r.spec_frameworks_query() == self.spec_frameworks_query(),
            r.spec_heuristics().di_decorators == d,
            r.spec_heuristics().magic_methods == self.spec_heuristics().magic_methods,
            r.spec_heuristics().constructor_names == self.spec_heuristics().constructor_names,
            r.spec_heuristics().project_config_files == self.spec_heuristics().project_config_files,
            r.spec_skeleton() == self.spec_skeleton(),
    {
        let mut s = self;
        s.heuristics.di_decorators = d;
        s
    }

    /// Sets the magic method names.
    pub fn magic_methods(self, m: &'static [&'static str]) -> (r: Self)
        ensures
            r.spec_lang() == self.spec_lang(),
            r.spec_file_extensions() == self.spec_file_extensions(),
            r.spec_defs_query() == self.spec_defs_query(),
            r.spec_imports_query() == self.spec_imports_query(),
            r.spec_frameworks_query() == self.spec_frameworks_query(),
            r.spec_heuristics().magic_methods == m,
            r.spec_heuristics().di_decorators == self.spec_heuristics().di_decorators,
            r.spec_heuristics().constructor_names == self.spec_heuristics().constructor_names,
            r.spec_heuristics().project_config_files == self.spec_heuristics().project_config_files,
            r.spec_skeleton() == self.spec_skeleton(),
    {
        let mut s = self;
        s.heuristics.magic_methods = m;
        s
    }

    /// Sets the constructor names.
    pub fn constructor_names(self, c: &'static [&'static str]) -> (r: Self)
        ensures
            r.spec_lang() == self.spec_lang(),
            r.spec_file_extensions() == self.spec_file_extensions(),
            r.spec_defs_query() == self.spec_defs_query(),
            r.spec_imports_query() == self.spec_imports_query(),
            r.spec_frameworks_query() == self.spec_frameworks_query(),
            r.spec_heuristics().constructor_names == c,
            r.spec_heuristics().di_decorators == self.spec_heuristics().di_decorators,
            r.spec_heuristics().magic_methods == self.spec_heuristics().magic_methods,
            r.spec_heuristics().project_config_files == self.spec_heuristics().project_config_files,
            r.spec_skeleton() == self.spec_skeleton(),
    {
        let mut s = self;
        s.heuristics.constructor_names = c;
        s
    }

    /// Sets the project configuration file names.
    pub fn project_config_files(self, f: &'static [&'static str]) -> (r: Self)
        ensures
            r.spec_lang() == self.spec_lang(),
            r.spec_file_extensions() == self.spec_file_extensions(),
            r.spec_defs_query() == self.spec_defs_query(),
            r.spec_imports_query() == self.spec_imports_query(),
            r.spec_frameworks_query() == self.spec_frameworks_query(),
            r.spec_heuristics().project_config_files == f,
            r.spec_heuristics().di_decorators == self.spec_heuristics().di_decorators,
            r.spec_heuristics().magic_methods == self.spec_heuristics().magic_methods,
            r.spec_heuristics().constructor_names == self.spec_heuristics().constructor_names,
            r.spec_skeleton() == self.spec_skeleton(),
    {
        let mut s = self;
        s.heuristics.project_config_files = f;
        s
    }

    /// The configuration: the language, extensions, heuristics and template
    /// as set, the definition, import and framework queries compiled for the language's
    /// grammar where they were set and compile, and the language's generic
    /// reference query ([`default_refs_query`]) compiled.
    pub fn build(self) -> (r: LanguageConfig)
        ensures
            r.lang == self.spec_lang(),
            r.file_extensions == self.spec_file_extensions(),
            r.heuristics == self.spec_heuristics(),
            r.skeleton_template == self.spec_skeleton(),
            compiled_view(r.queries.definitions) == compiled_from(self.spec_lang(), self.spec_defs_query()),
            compiled_view(r.queries.imports) == compiled_from(self.spec_lang(), self.spec_imports_query()),
            compiled_view(r.queries.frameworks) == compiled_from(self.spec_lang(), self.spec_frameworks_query()),
            compiled_view(r.queries.references) == compiled_from(
                self.spec_lang(),
                Some(default_refs_query(self.spec_lang())),
            ),
            r.queries.literals is None,
            r.queries.definitions_error is Some <==> (self.spec_defs_query() matches Some(q) && !query_compiles(
                self.spec_lang(),
                q@,
            )),
            r.queries.definitions_error matches Some(m) ==> (self.spec_defs_query() matches Some(q) && m@
                == "Invalid defs query for "@ + language_name(self.spec_lang())@ + ": "@ + query_error_text(
                self.spec_lang(),
                q@,
            )),
    {
        let grammar = Grammar::of(self.lang);
        let (definitions, definitions_error) = match self.defs_query {
            Some(source) => match compile_query(&grammar, source) {
                Ok(q) => (Some(Arc::new(q)), None),
                Err(e) => {
                    let mut msg = String::new();
                    msg.append("Invalid defs query for ");
                    msg.append(language_label(self.lang));
                    msg.append(": ");
                    msg.append(e.as_str());
                    (None, Some(msg))
                },
            },
            None => (None, None),
        };
        let imports = match self.imports_query {
            Some(source) => match compile_query(&grammar, source) {
                Ok(q) => Some(Arc::new(q)),
                Err(_) => None,
            },
            None => None,
        };
        let frameworks = match self.frameworks_query {
            Some(source) => match compile_query(&grammar, source) {
                Ok(q) => Some(Arc::new(q)),
                Err(_) => None,
            },
            None => None,
        };
        let refs_source = get_default_refs_query(self.lang);
        let references = match compile_query(&grammar, refs_source) {
            Ok(q) => Some(Arc::new(q)),
            Err(_) => None,
        };
        LanguageConfig {
            lang: self.lang,
            file_extensions: self.file_extensions,
            queries: CompiledQueries {
                definitions,
                imports,
                references,
                literals: None,
                frameworks,
                definitions_error,
            },
            heuristics: self.heuristics,
            skeleton_template: self.skeleton_template,
        }
    }
}

/// The generic identifier query of each language: the node kinds whose text
/// counts as a reference to a symbol.
pub open spec fn default_refs_query(lang: SupportedLanguage) -> &'static str {
    match lang {
        SupportedLanguage::Rust => r#"
            (identifier) @ref
            (type_identifier) @ref
            (field_identifier) @ref
        "#,
        // TypeScript has type_identifier, JavaScript does NOT.
        // Both can have JSX.
        SupportedLanguage::TypeScript => r#"
            (identifier) @ref
            (property_identifier) @ref
            (type_identifier) @ref
            (shorthand_property_identifier_pattern) @ref
        "#,
        SupportedLanguage::JavaScript => r#"
            (identifier) @ref
            (property_identifier) @ref
            (shorthand_property_identifier_pattern) @ref
        "#,
        SupportedLanguage::Python => r#"
            (identifier) @ref
            (attribute attribute: (identifier) @ref)
        "#,
        SupportedLanguage::Go => r#"
            (identifier) @ref
            (field_identifier) @ref
            (type_identifier) @ref
            (package_identifier) @ref
        "#,
        SupportedLanguage::Java => r#"
            (identifier) @ref
            (type_identifier) @ref
        "#,
        SupportedLanguage::CSharp => r#"
            (identifier) @ref
        "#,
        SupportedLanguage::Ruby => r#"
            (identifier) @ref
            (constant) @ref
            (simple_symbol) @ref
            (hash_key_symbol) @ref
        "#,
        SupportedLanguage::Php => r#"
            (name) @ref
            (variable_name) @ref
        "#,
        SupportedLanguage::Bash | SupportedLanguage::Dotenv => r#"
            (variable_name) @ref
            (word) @ref
            (command_name) @ref
        "#,
        SupportedLanguage::Html => r#"
            (tag_name) @ref
            (attribute_name) @ref
        "#,
        SupportedLanguage::Json => r#"
            (string_content) @ref
        "#,
        SupportedLanguage::Yaml => r#"
            (string_scalar) @ref
        "#,
        SupportedLanguage::Toml => r#"
            (bare_key) @ref
        "#,
        SupportedLanguage::Hcl => r#"
            (identifier) @ref
        "#,
        SupportedLanguage::Sql => r#"
            (identifier) @ref
        "#,
        SupportedLanguage::Prisma => r#"
            (identifier) @ref
        "#,
        SupportedLanguage::C => r#"
            (identifier) @ref
            (type_identifier) @ref
            (field_identifier) @ref
        "#,
        SupportedLanguage::Cpp => r#"
            (identifier) @ref
            (type_identifier) @ref
            (field_identifier) @ref
            (namespace_identifier) @ref
        "#,
        _ => "(identifier) @ref"
    }
}

/// A generic identifier matcher for every supported language, standing in
/// for per-language call, type and decorator queries.
pub fn get_default_refs_query(lang: SupportedLanguage) -> (r: &'static str)
    ensures
        r == default_refs_query(lang),
{
    match lang {
        SupportedLanguage::Rust => r#"
            (identifier) @ref
            (type_identifier) @ref
            (field_identifier) @ref
        "#,
        // TypeScript has type_identifier, JavaScript does NOT.
        // Both can have JSX.
        SupportedLanguage::TypeScript => r#"
            (identifier) @ref
            (property_identifier) @ref
            (type_identifier) @ref
            (shorthand_property_identifier_pattern) @ref
        "#,
        SupportedLanguage::JavaScript => r#"
            (identifier) @ref
            (property_identifier) @ref
            (shorthand_property_identifier_pattern) @ref
        "#,
        SupportedLanguage::Python => r#"
            (identifier) @ref
            (attribute attribute: (identifier) @ref)
        "#,
        SupportedLanguage::Go => r#"
            (identifier) @ref
            (field_identifier) @ref
            (type_identifier) @ref
            (package_identifier) @ref
        "#,
        SupportedLanguage::Java => r#"
            (identifier) @ref
            (type_identifier) @ref
        "#,
        SupportedLanguage::CSharp => r#"
            (identifier) @ref
        "#,
        SupportedLanguage::Ruby => r#"
            (identifier) @ref
            (constant) @ref
            (simple_symbol) @ref
            (hash_key_symbol) @ref
        "#,
        SupportedLanguage::Php => r#"
            (name) @ref
            (variable_name) @ref
        "#,
        SupportedLanguage::Bash | SupportedLanguage::Dotenv => r#"
            (variable_name) @ref
            (word) @ref
            (command_name) @ref
        "#,
        SupportedLanguage::Html => r#"
            (tag_name) @ref
            (attribute_name) @ref
        "#,
        SupportedLanguage::Json => r#"
            (string_content) @ref
        "#,
        SupportedLanguage::Yaml => r#"
            (string_scalar) @ref
        "#,
        SupportedLanguage::Toml => r#"
            (bare_key) @ref
        "#,
        SupportedLanguage::Hcl => r#"
            (identifier) @ref
        "#,
        SupportedLanguage::Sql => r#"
            (identifier) @ref
        "#,
        SupportedLanguage::Prisma => r#"
            (identifier) @ref
        "#,
        SupportedLanguage::C => r#"
            (identifier) @ref
            (type_identifier) @ref
            (field_identifier) @ref
        "#,
        SupportedLanguage::Cpp => r#"
            (identifier) @ref
            (type_identifier) @ref
            (field_identifier) @ref
            (namespace_identifier) @ref
        "#,
        _ => "(identifier) @ref"
    }
}

/// The configuration of every supported language, in a fixed order.
pub fn get_language_configs() -> (r: Vec<LanguageConfig>)
    ensures
        r@.len() == 22,
        r@[0].lang == SupportedLanguage::Rust,
        r@[1].lang == SupportedLanguage::TypeScript,
        r@[2].lang == SupportedLanguage::JavaScript,
        r@[3].lang == SupportedLanguage::Python,
        r@[4].lang == SupportedLanguage::Java,
        r@[5].lang == SupportedLanguage::Bash,
        r@[6].lang == SupportedLanguage::Julia,
        r@[7].lang == SupportedLanguage::R,
        r@[8].lang == SupportedLanguage::Html,
        r@[9].lang == SupportedLanguage::Json,
        r@[10].lang == SupportedLanguage::Yaml,
        r@[11].lang == SupportedLanguage::Toml,
        r@[12].lang == SupportedLanguage::Dotenv,
        r@[13].lang == SupportedLanguage::Sql,
        r@[14].lang == SupportedLanguage::Prisma,
        r@[15].lang == SupportedLanguage::Hcl,
        r@[16].lang == SupportedLanguage::Go,
        r@[17].lang == SupportedLanguage::CSharp,
        r@[18].lang == SupportedLanguage::Php,
        r@[19].lang == SupportedLanguage::Ruby,
        r@[20].lang == SupportedLanguage::C,
        r@[21].lang == SupportedLanguage::Cpp,
{
    let mut v: Vec<LanguageConfig> = Vec::new();
    v.push(languages::rust::config());
    v.push(languages::typescript::config());
    v.push(languages::javascript::config());
    v.push(languages::python::config());
    v.push(languages::java::config());
    v.push(languages::bash::config());
    v.push(languages::julia::config());
    v.push(languages::r::config());
    v.push(languages::html::config());
    v.push(languages::json::config());
    v.push(languages::yaml::config());
    v.push(languages::toml::config());
    v.push(languages::dotenv::config());
    v.push(languages::sql::config());
    v.push(languages::prisma::config());
    v.push(languages::hcl::config());
    v.push(languages::go::config());
    v.push(languages::c_sharp::config());
    v.push(languages::php::config());
    v.push(languages::ruby::config());
    v.push(languages::c::config());
    v.push(languages::cpp::config());
    v
}

} // verus!
