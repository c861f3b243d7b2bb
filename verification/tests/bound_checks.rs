use gustc::ast::{ImplDecl, Item, TypeRef};
use gustc::monomorphize::bound_checks::{validate_bound_checks, BoundCheck};
use gustc::span::Span;

fn named(name: &str) -> TypeRef {
    TypeRef { name: name.to_string(), args: Vec::new(), bindings: Vec::new(), function: None, span: Span::new(0, 0) }
}

fn generic(name: &str, args: Vec<TypeRef>) -> TypeRef {
    let mut type_ref = named(name);
    type_ref.args = args;
    type_ref
}

fn show_for(type_ref: TypeRef) -> Item {
    Item::Impl(ImplDecl {
        type_params: Vec::new(),
        type_param_bounds: Vec::new(),
        trait_ref: named("Show"),
        type_ref,
        associated_types: Vec::new(),
        methods: Vec::new(),
        span: Span::new(0, 1),
    })
}

fn check(owner: &str, type_ref: TypeRef, at: usize) -> BoundCheck {
    BoundCheck { owner: owner.to_string(), type_ref, trait_ref: named("Show"), span: Span::new(at, at + 1) }
}

#[test]
fn unsatisfied_bounds_are_reported_once_per_key() {
    let items = vec![show_for(named("Int"))];
    let checks = vec![
        check("function `print`", named("Int"), 3),
        check("function `print`", generic("List", vec![named("Int")]), 3),
        check("function `print`", generic("List", vec![named("Int")]), 3),
        check("function `print`", generic("List", vec![named("Int")]), 8),
        check("struct `Box`", named("Bool"), 3),
    ];
    let mut diagnostics = Vec::new();
    validate_bound_checks(&checks, &items, &mut diagnostics);
    let found: Vec<(Span, String)> = diagnostics.iter().map(|d| (d.span, d.message.clone())).collect();
    assert_eq!(
        found,
        vec![
            (
                Span::new(3, 4),
                "type `List<Int>` does not satisfy bound `List<Int>: Show` required by function `print`".to_string()
            ),
            (
                Span::new(8, 9),
                "type `List<Int>` does not satisfy bound `List<Int>: Show` required by function `print`".to_string()
            ),
            (Span::new(3, 4), "type `Bool` does not satisfy bound `Bool: Show` required by struct `Box`".to_string()),
        ]
    );
}

#[test]
fn satisfied_bounds_report_nothing() {
    let items = vec![show_for(named("Int")), show_for(generic("List", vec![named("Int")]))];
    let checks = vec![check("f", named("Int"), 0), check("f", generic("List", vec![named("Int")]), 0)];
    let mut diagnostics = Vec::new();
    validate_bound_checks(&checks, &items, &mut diagnostics);
    assert!(diagnostics.is_empty());
}
