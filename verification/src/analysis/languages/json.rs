use vstd::prelude::*;
use crate::analysis::language::{LanguageConfig, LanguageConfigBuilder, SupportedLanguage};

verus! {

/// The configuration for JSON files.
pub fn config() -> (r: LanguageConfig)
    ensures
        r.lang == SupportedLanguage::Json,
{
    LanguageConfigBuilder::new(
        SupportedLanguage::Json,
        &["json"]
    )
    .skeleton("")
    // Matches keys in "key": value pairs
    .defs(r#"(pair key: (string (string_content) @function.name) value: (_) @function.body) @function.definition"#)
    .literals(r#"(string_content) @string"#)
    .build()
}

} // verus!
