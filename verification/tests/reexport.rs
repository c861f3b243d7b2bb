use gustc::ast::{ImportName, Program};
use gustc::project::reexport::resolve_re_exports;
use gustc::project::rewrite::Export;
use gustc::project::{Module, ResolvedImport};
use gustc::span::Span;

fn module(key: &str, imports: Vec<ResolvedImport>) -> Module {
    Module {
        path: format!("{key}.gust"),
        key: key.to_string(),
        package: 0,
        program: Program { items: Vec::new() },
        imports,
        entry: false,
    }
}

fn re_export(target: usize, names: Vec<(&str, Option<&str>)>) -> ResolvedImport {
    ResolvedImport {
        path: "./a".to_string(),
        names: names
            .into_iter()
            .map(|(name, alias)| ImportName {
                name: name.to_string(),
                alias: alias.map(|a| a.to_string()),
                span: Span::new(5, 6),
            })
            .collect(),
        namespace: None,
        glob: false,
        exported: true,
        weak: false,
        span: Span::new(4, 7),
        target: Some(target),
    }
}

fn export(internal: &str) -> Export {
    Export { internal_name: internal.to_string(), package: 0, extension: false }
}

#[test]
fn named_re_exports_chain_through_modules() {
    let modules = vec![
        module("a", Vec::new()),
        module("b", vec![re_export(0, vec![("f", Some("g"))])]),
        module("c", vec![re_export(1, vec![("g", None)])]),
    ];
    let mut exports = vec![vec![("f".to_string(), export("a::f"))], Vec::new(), Vec::new()];
    let mut diagnostics = Vec::new();
    resolve_re_exports(&modules, &mut exports, &mut diagnostics);
    assert!(diagnostics.is_empty());
    assert_eq!(exports[1].len(), 1);
    assert_eq!(exports[1][0].0, "g");
    assert_eq!(exports[1][0].1.internal_name, "a::f");
    assert_eq!(exports[2].len(), 1);
    assert_eq!(exports[2][0].0, "g");
    assert_eq!(exports[2][0].1.internal_name, "a::f");
}

#[test]
fn re_exporting_a_missing_name_is_an_error() {
    let modules = vec![module("a", Vec::new()), module("b", vec![re_export(0, vec![("h", None)])])];
    let mut exports = vec![vec![("f".to_string(), export("a::f"))], Vec::new()];
    let mut diagnostics = Vec::new();
    resolve_re_exports(&modules, &mut exports, &mut diagnostics);
    assert!(exports[1].is_empty());
    assert_eq!(diagnostics.len(), 1);
    assert_eq!(diagnostics[0].span, Span::new(5, 6));
    assert_eq!(diagnostics[0].message, "module `a.gust` does not export `h`");
}
