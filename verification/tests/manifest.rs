use gustc::project::manifest::{manifest_dependency_paths, parse_project_manifest, unquote_yaml_scalar};

fn pairs(entries: &[(&str, &str)]) -> Vec<(String, String)> {
    entries.iter().map(|(a, b)| (a.to_string(), b.to_string())).collect()
}

#[test]
fn manifest_reads_no_std_and_dependencies() {
    let source = "noStd: true\ndependencies:\n  util: fs:../util\n  core: 'fs:../core'\n";
    let manifest = parse_project_manifest("gust.yaml", source).unwrap();
    assert!(manifest.no_std);
    assert_eq!(manifest.dependencies, pairs(&[("util", "fs:../util"), ("core", "fs:../core")]));
}

#[test]
fn manifest_skips_comments_and_blank_lines() {
    let source = "# settings\n\n   \nnoStd: \"false\"\n";
    let manifest = parse_project_manifest("gust.yaml", source).unwrap();
    assert!(!manifest.no_std);
    assert!(manifest.dependencies.is_empty());
}

#[test]
fn manifest_of_empty_source_is_default() {
    let manifest = parse_project_manifest("gust.yaml", "").unwrap();
    assert!(!manifest.no_std);
    assert!(manifest.dependencies.is_empty());
}

#[test]
fn manifest_rejects_bad_no_std_value() {
    let error = parse_project_manifest("pkg/gust.yaml", "\nnoStd: maybe\n").unwrap_err();
    assert_eq!(error, "pkg/gust.yaml:2: expected `noStd` to be `true` or `false`");
}

#[test]
fn manifest_rejects_entry_without_colon() {
    let error = parse_project_manifest("gust.yaml", "dependencies:\n  broken\n").unwrap_err();
    assert_eq!(error, "gust.yaml:2: expected `name: fs:path` dependency entry");
}

#[test]
fn manifest_rejects_entry_without_value() {
    let error = parse_project_manifest("gust.yaml", "dependencies:\n  util:   \n").unwrap_err();
    assert_eq!(error, "gust.yaml:2: expected `name: fs:path` dependency entry");
    let error = parse_project_manifest("gust.yaml", "dependencies:\n  : x\n").unwrap_err();
    assert_eq!(error, "gust.yaml:2: expected `name: fs:path` dependency entry");
}

#[test]
fn manifest_rejects_duplicate_dependency() {
    let source = "dependencies:\n  a: x\n  a: y\n";
    let error = parse_project_manifest("gust.yaml", source).unwrap_err();
    assert_eq!(error, "gust.yaml:3: duplicate dependency `a`");
}

#[test]
fn manifest_dependency_block_ends_at_top_level_line() {
    let source = "dependencies:\n  a: x\nname: demo\n  b: y\ndependencies:\n  c: z\n";
    let manifest = parse_project_manifest("gust.yaml", source).unwrap();
    assert_eq!(manifest.dependencies, pairs(&[("a", "x"), ("c", "z")]));
}

#[test]
fn manifest_empty_dependency_map_is_accepted() {
    let source = "dependencies: {}\n  ignored: line\nnoStd: true\n";
    let manifest = parse_project_manifest("gust.yaml", source).unwrap();
    assert!(manifest.no_std);
    assert!(manifest.dependencies.is_empty());
}

#[test]
fn manifest_no_std_inside_dependency_block_closes_it() {
    let source = "dependencies:\n  a: x\nnoStd: true\n  b: y\n";
    let manifest = parse_project_manifest("gust.yaml", source).unwrap();
    assert!(manifest.no_std);
    assert_eq!(manifest.dependencies, pairs(&[("a", "x")]));
}

#[test]
fn manifest_accepts_crlf_line_endings() {
    let source = "noStd: true\r\ndependencies:\r\n  a: 'x'\r\n";
    let manifest = parse_project_manifest("gust.yaml", source).unwrap();
    assert!(manifest.no_std);
    assert_eq!(manifest.dependencies, pairs(&[("a", "x")]));
}

#[test]
fn manifest_keeps_quotes_on_names() {
    let source = "dependencies:\n  \"a\": \"x\"\n";
    let manifest = parse_project_manifest("gust.yaml", source).unwrap();
    assert_eq!(manifest.dependencies, pairs(&[("\"a\"", "x")]));
}

#[test]
fn unquote_strips_matching_quotes_only() {
    assert_eq!(unquote_yaml_scalar("\"x\""), "x");
    assert_eq!(unquote_yaml_scalar("'y'"), "y");
    assert_eq!(unquote_yaml_scalar("\"\""), "");
    assert_eq!(unquote_yaml_scalar("\""), "\"");
    assert_eq!(unquote_yaml_scalar("\"x'"), "\"x'");
    assert_eq!(unquote_yaml_scalar("plain"), "plain");
}

#[test]
fn dependency_paths_strip_the_fs_prefix() {
    let paths = manifest_dependency_paths("a/gust.yaml", &pairs(&[("util", "fs:../util"), ("x", "fs:")])).unwrap();
    assert_eq!(paths, pairs(&[("util", "../util"), ("x", "")]));
    assert!(manifest_dependency_paths("a/gust.yaml", &Vec::new()).unwrap().is_empty());
}

#[test]
fn dependency_named_std_is_rejected() {
    let error = manifest_dependency_paths("a/gust.yaml", &pairs(&[("std", "fs:../std")])).unwrap_err();
    assert_eq!(error, "a/gust.yaml: dependency name `std` is reserved for the standard library");
}

#[test]
fn dependency_with_other_source_is_rejected() {
    let deps = pairs(&[("ok", "fs:x"), ("net", "git:https://example"), ("std", "fs:y")]);
    let error = manifest_dependency_paths("a/gust.yaml", &deps).unwrap_err();
    assert_eq!(error, "a/gust.yaml: dependency `net` uses unsupported source `git:https://example`");
}
