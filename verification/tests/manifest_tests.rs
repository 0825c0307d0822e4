use blast_radius_engine::manifest::{scan_manifest_content, strip_line_comments, DecodedManifest};

fn decoded(name: Option<&str>, deps: &[&str], paths: &[(&str, &[&str])]) -> DecodedManifest {
    DecodedManifest {
        package_name: name.map(|s| s.to_string()),
        dependencies: deps.iter().map(|s| s.to_string()).collect(),
        paths: paths
            .iter()
            .map(|(k, v)| (k.to_string(), v.iter().map(|s| s.to_string()).collect()))
            .collect(),
    }
}

#[test]
fn requirements_txt_names_packages() {
    let content = "# tools\nnumpy>=1.20\nrequests==2.0\n\n  flask  \npandas<2\n";
    let r = scan_manifest_content("requirements.txt", content, None);
    assert_eq!(r.package_name, None);
    assert_eq!(r.externals.len(), 4);
    for p in ["numpy", "requests", "flask", "pandas"] {
        assert!(r.externals.contains(p), "missing {}", p);
    }
    assert_eq!(r.aliases.len(), 0);
}

#[test]
fn requirements_txt_skips_specifier_only_lines() {
    let r = scan_manifest_content("requirements.txt", "==1.0\n#x\n", None);
    assert_eq!(r.externals.len(), 0);
}

#[test]
fn description_file_reads_package_and_dependencies() {
    let content = "Package: mypkg\nVersion: 1.0\nImports: dplyr (>= 1.0), ggplot2\nSuggests:\n    testthat (>= 3.0),\n    knitr\nDepends: R (>= 3.5)\nTitle: x\n    notadep\n";
    let r = scan_manifest_content("DESCRIPTION", content, None);
    assert_eq!(r.package_name.as_deref(), Some("mypkg"));
    assert_eq!(r.externals.len(), 4);
    for p in ["dplyr", "ggplot2", "testthat", "knitr"] {
        assert!(r.externals.contains(p), "missing {}", p);
    }
    assert!(!r.externals.contains("R"));
    assert!(!r.externals.contains("notadep"));
}

#[test]
fn package_json_uses_decoded_fields() {
    let d = decoded(Some("@org/ui"), &["react", "lodash"], &[]);
    let r = scan_manifest_content("package.json", "{}", Some(&d));
    assert_eq!(r.package_name.as_deref(), Some("@org/ui"));
    assert_eq!(r.externals.len(), 2);
    assert!(r.externals.contains("react"));
    assert!(r.externals.contains("lodash"));
}

#[test]
fn package_json_that_did_not_decode_declares_nothing() {
    let r = scan_manifest_content("package.json", "{ not json", None);
    assert_eq!(r.package_name, None);
    assert_eq!(r.externals.len(), 0);
}

#[test]
fn pyproject_takes_dependencies_only() {
    let d = decoded(Some("ignored"), &["python", "httpx"], &[]);
    let r = scan_manifest_content("pyproject.toml", "", Some(&d));
    assert_eq!(r.package_name, None);
    assert_eq!(r.externals.len(), 2);
    assert!(r.externals.contains("httpx"));
}

#[test]
fn tsconfig_paths_become_aliases() {
    let d = decoded(None, &[], &[("@/*", &["src/*"]), ("~", &["src"]), ("*", &["x/*"]), ("@none/*", &[])]);
    let r = scan_manifest_content("tsconfig.json", "", Some(&d));
    assert_eq!(r.aliases.len(), 2);
    assert_eq!(r.aliases.get("@/").map(|s| s.as_str()), Some("src/"));
    assert_eq!(r.aliases.get("~").map(|s| s.as_str()), Some("src"));
    assert_eq!(r.externals.len(), 0);
}

#[test]
fn unknown_manifest_declares_nothing() {
    let r = scan_manifest_content("README.md", "numpy\n", None);
    assert_eq!(r.package_name, None);
    assert_eq!(r.externals.len(), 0);
    assert_eq!(r.aliases.len(), 0);
}

#[test]
fn strip_line_comments_drops_comment_lines() {
    let content = "{\n  // a comment\n    // another\n  \"a\": 1 // kept\n}";
    assert_eq!(strip_line_comments(content), "{\n  \"a\": 1 // kept\n}");
}
