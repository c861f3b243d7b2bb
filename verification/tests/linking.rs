use gustc::ast::{Block, FunctionBody, FunctionDecl, Item, Program};
use gustc::diagnostic::{Diagnostic, Severity};
use gustc::project::link::qualified_name;
use gustc::project::linker::link_modules;
use gustc::project::Module;
use gustc::span::Span;

fn at(start: usize) -> Span {
    Span::new(start, start + 1)
}

fn function(name: &str, start: usize) -> Item {
    Item::Function(FunctionDecl {
        name: Some(name.to_string()),
        exported: false,
        type_params: Vec::new(),
        type_param_bounds: Vec::new(),
        params: Vec::new(),
        return_type: None,
        body: FunctionBody::Block(Block { statements: Vec::new(), span: at(start) }),
        span: at(start),
    })
}

fn module(key: &str, entry: bool, items: Vec<Item>) -> Module {
    Module {
        path: format!("{key}.gust"),
        key: key.to_string(),
        package: 0,
        program: Program { items },
        imports: Vec::new(),
        entry,
    }
}

fn name_of(item: &Item) -> String {
    match item {
        Item::Function(function) => function.name.clone().unwrap(),
        other => panic!("unexpected {:?}", other),
    }
}

#[test]
fn entry_names_stay_and_other_modules_are_qualified() {
    let modules = vec![
        module("main", true, vec![function("main", 1)]),
        module("util", false, vec![function("helper", 2), function("other", 3)]),
    ];
    let mut diagnostics: Vec<Diagnostic> = Vec::new();
    let program = link_modules(modules, &Vec::new(), &mut diagnostics);
    assert!(diagnostics.is_empty());
    let names: Vec<String> = program.items.iter().map(name_of).collect();
    assert_eq!(names, vec!["main".to_string(), qualified_name("util", "helper"), qualified_name("util", "other")]);
}

#[test]
fn a_name_declared_twice_empties_the_program() {
    let modules = vec![module("main", true, vec![function("f", 1), function("f", 2)])];
    let mut diagnostics: Vec<Diagnostic> = Vec::new();
    let program = link_modules(modules, &Vec::new(), &mut diagnostics);
    assert!(program.items.is_empty());
    assert_eq!(diagnostics.len(), 1);
    assert_eq!(diagnostics[0].severity, Severity::Error);
    assert_eq!(diagnostics[0].span, at(2));
    assert_eq!(diagnostics[0].message, "duplicate top-level name `f` in this module");
}
