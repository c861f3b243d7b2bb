use gustc::ast::{ImportDecl, ImportName, Item, Program};
use gustc::diagnostic::{Diagnostic, Severity};
use gustc::project::loader::{module_key, source_display_path, ModuleLoader};
use gustc::span::Span;

fn import_at(path: &str, start: usize) -> Item {
    Item::Import(ImportDecl {
        path: path.to_string(),
        names: vec![ImportName { name: "f".to_string(), alias: Some("g".to_string()), span: Span::new(start + 1, start + 2) }],
        namespace: None,
        span: Span::new(start, start + 3),
    })
}

#[test]
fn module_keys_are_relative_to_the_source_directory() {
    assert_eq!(module_key("/p", "/p/src", "/p/src/a/b.gust"), "/p:a/b.gust");
    assert_eq!(module_key("/p", "/p/src", "/elsewhere/c.gust"), "/p:/elsewhere/c.gust");
}

#[test]
fn only_standard_library_sources_get_a_display_path() {
    assert_eq!(source_display_path(true, "/std/src", "/std/src/io.gust"), Some("std/io.gust".to_string()));
    assert_eq!(source_display_path(false, "/std/src", "/std/src/io.gust"), None);
}

#[test]
fn modules_are_placed_one_after_another_and_loaded_once() {
    let mut loader = ModuleLoader::new();
    let first = loader.add_module(
        "/p/src/main.gust".to_string(),
        "/p:main.gust".to_string(),
        0,
        true,
        10,
        Program { items: vec![import_at("./util", 2)] },
        vec![Diagnostic::error(Span::new(4, 5), "bad".to_string())],
        Some(1),
        false,
    );
    assert_eq!(first, 0);
    assert_eq!(loader.next_offset, 11);
    let second = loader.add_module(
        "/p/src/util.gust".to_string(),
        "/p:util.gust".to_string(),
        0,
        false,
        5,
        Program { items: vec![import_at("./main", 1)] },
        vec![Diagnostic::error(Span::new(0, 1), "worse".to_string())],
        Some(1),
        false,
    );
    assert_eq!(second, 1);
    assert_eq!(loader.next_offset, 17);
    assert_eq!(loader.loaded(0, "/p/src/util.gust"), Some(1));
    assert_eq!(loader.loaded(1, "/p/src/util.gust"), None);

    let module = &loader.modules[1];
    assert_eq!(module.imports.len(), 2);
    assert_eq!(module.imports[0].path, "./main");
    assert_eq!(module.imports[0].span, Span::new(12, 15));
    assert_eq!(module.imports[0].names[0].alias, Some("g".to_string()));
    assert!(module.imports[0].target.is_none());
    assert_eq!(module.imports[1].path, "std/prelude");
    assert!(module.imports[1].glob && module.imports[1].weak);
    assert_eq!(module.imports[1].span, Span::new(11, 11));

    assert_eq!(loader.diagnostics.len(), 2);
    assert_eq!(loader.diagnostics[1].span, Span::new(11, 12));
    assert_eq!(loader.diagnostics[1].severity, Severity::Error);

    loader.set_import_target(1, 0, Some(0));
    assert_eq!(loader.modules[1].imports[0].target, Some(0));
}

#[test]
fn the_standard_library_gets_no_prelude() {
    let mut loader = ModuleLoader::new();
    loader.add_module("/std/src/lib.gust".to_string(), "/std:lib.gust".to_string(), 1, false, 0, Program { items: Vec::new() }, Vec::new(), Some(1), false);
    loader.add_module("/q/src/main.gust".to_string(), "/q:main.gust".to_string(), 2, true, 0, Program { items: Vec::new() }, Vec::new(), Some(1), true);
    assert!(loader.modules[0].imports.is_empty());
    assert!(loader.modules[1].imports.is_empty());
}
