use vstd::prelude::*;
use crate::analysis::language::{LanguageConfig, LanguageConfigBuilder, SupportedLanguage};

verus! {

/// The configuration for TOML files.
pub fn config() -> (r: LanguageConfig)
    ensures
        r.lang == SupportedLanguage::Toml,
{
    LanguageConfigBuilder::new(
        SupportedLanguage::Toml,
        &["toml"]
    )
    .defs(r#"
        [
            (pair (bare_key) @function.name (string) @function.body)
            (table (bare_key) @function.name)
        ] @function.definition
    "#)
    .literals(r#"(string) @string"#)
    .vals(r#"
        (pair
            (bare_key) @val.name
            (string) @val.value
        )
        (pair
            (bare_key) @val.name
            (integer) @val.value
        )
        (pair
            (bare_key) @val.name
            (boolean) @val.value
        )
    "#)
    .build()
}

} // verus!
