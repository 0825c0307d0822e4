use vstd::prelude::*;
use crate::analysis::language::{LanguageConfig, LanguageConfigBuilder, SupportedLanguage};

verus! {

/// The configuration for dotenv files.
pub fn config() -> (r: LanguageConfig)
    ensures
        r.lang == SupportedLanguage::Dotenv,
{
    LanguageConfigBuilder::new(
        SupportedLanguage::Dotenv,
        &["env", "env.example", "env.template", "env.local", "env.development", "env.test", "env.production"]
    )
    .defs(r#"
        (variable_assignment
            name: (variable_name) @function.name
            value: (_) @function.body
        ) @function.definition
    "#)
    .vals(r#"
        (variable_assignment
            name: (variable_name) @val.name
            value: [(word) (string) (raw_string)] @val.value
        )
    "#)
    .docs(r#"
        (
            (comment)+ @function.docs 
            . 
            (variable_assignment) @function.definition
        )
    "#)
    .literals(r#"
        [
            (string)
            (raw_string)
        ] @string
    "#)
    .build()
}

} // verus!
