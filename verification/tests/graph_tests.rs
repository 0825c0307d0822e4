use std::collections::HashMap;

use blast_radius_engine::analyzer::{
    find_call_chain_ids, find_related_symbols, generate_context_from_ids, SliceDirection,
};
use blast_radius_engine::schema::{FileNode, SymbolNode, WorkspaceIndex};

const SOURCE: &str = "main() {}\nhelper(){}\nutil() {}\n";
const RULE: &str = "// ==========================================================\n";

fn symbol(id: u32, file_id: u32, name: &str, range: (usize, usize), is_test: bool) -> SymbolNode {
    SymbolNode {
        id,
        file_id,
        parent_id: None,
        name: name.to_string(),
        kind: "function".to_string(),
        range_start: range.0,
        range_end: range.1,
        doc_comment: None,
        return_type: None,
        is_test,
        is_external: false,
        external_source: None,
        decorators: Vec::new(),
    }
}

/// main -> helper -> util in src/a.ts; testMain -> main in a test file.
fn sample_index() -> WorkspaceIndex {
    let mut index = WorkspaceIndex::new();
    index.add_file(FileNode { id: 1, path: "src/a.ts".to_string(), hash: [0; 32], is_test: false });
    index.add_file(FileNode { id: 2, path: "src/a.test.ts".to_string(), hash: [1; 32], is_test: true });
    index.add_symbol(symbol(0, 1, "main", (0, 9), false));
    index.add_symbol(symbol(1, 1, "helper", (10, 20), false));
    index.add_symbol(symbol(2, 1, "util", (21, 30), false));
    index.add_symbol(symbol(3, 2, "testMain", (0, 5), true));
    index.add_call(0, 1);
    index.add_call(1, 2);
    index.add_call(3, 0);
    index
}

fn sources() -> HashMap<u32, Vec<u8>> {
    let mut m = HashMap::new();
    m.insert(1, SOURCE.as_bytes().to_vec());
    m
}

#[test]
fn call_chain_unknown_name_is_none() {
    let index = sample_index();
    assert_eq!(find_call_chain_ids(&index, "nothing", SliceDirection::Both), None);
}

#[test]
fn call_chain_downstream_is_farthest_first() {
    let index = sample_index();
    assert_eq!(find_call_chain_ids(&index, "helper", SliceDirection::Downstream), Some(vec![2, 1]));
}

#[test]
fn call_chain_upstream_is_nearest_first() {
    let index = sample_index();
    assert_eq!(find_call_chain_ids(&index, "helper", SliceDirection::Upstream), Some(vec![1, 0, 3]));
}

#[test]
fn call_chain_both_reaches_every_side() {
    let index = sample_index();
    let mut v = find_call_chain_ids(&index, "helper", SliceDirection::Both).unwrap();
    assert_eq!(v[0], 1);
    assert_eq!(v[3], 3);
    v.sort();
    assert_eq!(v, vec![0, 1, 2, 3]);
}

#[test]
fn call_chain_follows_implementations() {
    let mut index = sample_index();
    index.add_symbol(symbol(4, 1, "Impl", (0, 1), false));
    index.add_inheritance(2, 4);
    assert_eq!(find_call_chain_ids(&index, "util", SliceDirection::Downstream), Some(vec![4, 2]));
}

#[test]
fn related_symbols_sorted_by_location() {
    let index = sample_index();
    assert_eq!(find_related_symbols(&index, "helper"), Some(vec![0, 1, 2, 3]));
}

#[test]
fn related_symbols_do_not_turn_back_downstream() {
    let mut index = sample_index();
    index.add_symbol(symbol(5, 1, "other", (40, 45), false));
    index.add_call(0, 5);
    // From util: upstream to helper, main, testMain; main's other callee is
    // not followed on the way up.
    assert_eq!(find_related_symbols(&index, "util"), Some(vec![0, 1, 2, 3]));
}

#[test]
fn related_symbols_include_type_users_and_parents() {
    let mut index = sample_index();
    let mut ty = symbol(6, 2, "Config", (10, 20), false);
    ty.kind = "container".to_string();
    index.add_symbol(ty);
    let mut field = symbol(7, 2, "timeout", (12, 15), false);
    field.parent_id = Some(6);
    index.add_symbol(field);
    index.add_type_ref(2, 6);
    assert_eq!(find_related_symbols(&index, "util"), Some(vec![0, 1, 2, 3, 6, 7]));
}

#[test]
fn related_symbols_unknown_name_is_none() {
    let index = sample_index();
    assert_eq!(find_related_symbols(&index, "missing"), None);
}

#[test]
fn context_for_empty_chain() {
    let index = sample_index();
    assert_eq!(generate_context_from_ids(&index, &vec![], false, false, &sources()), "// No context found.");
}

#[test]
fn context_with_everything_filtered_out() {
    let index = sample_index();
    assert_eq!(
        generate_context_from_ids(&index, &vec![3], false, true, &sources()),
        "// All relevant context was filtered out (test exclusion active)."
    );
}

#[test]
fn context_cuts_sources_once_per_file() {
    let index = sample_index();
    let text = generate_context_from_ids(&index, &vec![0, 1], false, false, &sources());
    let expected = format!(
        "// Context for search: `main`\n// Resolved Symbols: main, helper\n\n{}// File: src/a.ts\n{}main() {{}}\n\nhelper(){{}}\n\n",
        RULE, RULE
    );
    assert_eq!(text, expected);
}

#[test]
fn context_excluding_tests_notes_it_and_marks_missing_sources() {
    let index = sample_index();
    let text = generate_context_from_ids(&index, &vec![3, 2], false, true, &sources());
    let expected = format!(
        "// Context for search: `util`\n// Resolved Symbols: util\n// Note: Test files and functions have been excluded from this output.\n\n{}// File: src/a.ts\n{}util() {{}}\n\n",
        RULE, RULE
    );
    assert_eq!(text, expected);
    let text = generate_context_from_ids(&index, &vec![3], false, false, &sources());
    let expected = format!(
        "// Context for search: `testMain`\n// Resolved Symbols: testMain\n\n{}// File: src/a.test.ts\n// (Test File)\n{}// Error: Could not read source file from disk\n\n",
        RULE, RULE
    );
    assert_eq!(text, expected);
}

#[test]
fn context_for_external_symbol_and_docs() {
    let mut index = sample_index();
    let mut ext = symbol(8, 0, "useState", (0, 0), false);
    ext.is_external = true;
    ext.external_source = Some("react".to_string());
    ext.doc_comment = Some("External import from package `react`".to_string());
    index.add_symbol(ext);
    let mut documented = symbol(9, 1, "documented", (0, 4), false);
    documented.doc_comment = Some("/// Docs".to_string());
    documented.range_end = 400;
    index.add_symbol(documented);
    let text = generate_context_from_ids(&index, &vec![8, 9], true, false, &sources());
    let expected = format!(
        "// Context for search: `useState`\n// Resolved Symbols: useState, documented\n\n{}// External Library: react\n{}// Symbol: useState\n// External import from package `react`\n// (Source code not available for external libraries)\n\n\n{}// File: src/a.ts\n{}/// Docs\n// Error: Source range out of bounds for this file version\n\n",
        RULE, RULE, RULE, RULE
    );
    assert_eq!(text, expected);
}
