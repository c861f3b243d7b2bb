use gustc::ast::{AssociatedTypeBinding, AssociatedTypeDecl, Item, TraitDecl, TraitMethodDecl, TypeRef};
use gustc::ast::{Block, Expr, ExprKind, FunctionBody, FunctionDecl, Param, Program, Stmt, StmtKind};
use gustc::monomorphize::signature_checks::validate_associated_types;
use gustc::monomorphize::trait_objects::{validate_associated_bindings, validate_trait_object_type};
use gustc::span::Span;

fn named_at(name: &str, at: usize) -> TypeRef {
    TypeRef { name: name.to_string(), args: Vec::new(), bindings: Vec::new(), function: None, span: Span::new(at, at + 1) }
}

fn named(name: &str) -> TypeRef {
    named_at(name, 0)
}

fn bind(type_ref: &mut TypeRef, name: &str, bound: TypeRef, at: usize) {
    type_ref.bindings.push(AssociatedTypeBinding { name: name.to_string(), type_ref: bound, span: Span::new(at, at + 1) });
}

fn iterable() -> Item {
    Item::Trait(TraitDecl {
        name: "Iterable".to_string(),
        exported: false,
        type_params: Vec::new(),
        type_param_bounds: Vec::new(),
        associated_types: vec![AssociatedTypeDecl {
            name: "Item".to_string(),
            type_params: Vec::new(),
            type_param_bounds: Vec::new(),
            bounds: Vec::new(),
            default: None,
            span: Span::new(2, 3),
        }],
        methods: vec![TraitMethodDecl {
            name: "next".to_string(),
            static_: false,
            type_params: Vec::new(),
            type_param_bounds: Vec::new(),
            params: Vec::new(),
            return_type: Some(named("Self.Item")),
            body: None,
            span: Span::new(4, 5),
        }],
        span: Span::new(1, 10),
    })
}

fn messages(items: &Vec<Item>, type_ref: &TypeRef) -> Vec<(Span, String)> {
    let mut diagnostics = Vec::new();
    validate_trait_object_type(items, type_ref, &mut diagnostics);
    diagnostics.iter().map(|d| (d.span, d.message.clone())).collect()
}

#[test]
fn trait_value_must_bind_what_its_methods_use() {
    let items = vec![iterable()];
    assert_eq!(
        messages(&items, &named_at("Iterable", 20)),
        vec![(
            Span::new(20, 21),
            "trait-typed value `Iterable` must bind associated type `Iterable.Item` to determine its method signatures"
                .to_string()
        )]
    );
    let mut bound = named("Iterable");
    bind(&mut bound, "Item", named("Int"), 22);
    assert!(messages(&items, &bound).is_empty());
}

#[test]
fn nested_trait_values_are_checked_too() {
    let items = vec![iterable()];
    let mut list = named_at("List", 30);
    list.args.push(named_at("Iterable", 31));
    assert_eq!(
        messages(&items, &list),
        vec![(
            Span::new(31, 32),
            "trait-typed value `Iterable` must bind associated type `Iterable.Item` to determine its method signatures"
                .to_string()
        )]
    );
}

#[test]
fn bindings_need_a_trait_that_declares_them_once() {
    let items = vec![iterable()];
    let mut plain = named_at("Int", 40);
    bind(&mut plain, "X", named("Bool"), 41);
    let mut diagnostics = Vec::new();
    validate_associated_bindings(&items, &plain, &mut diagnostics);
    assert_eq!(diagnostics.len(), 1);
    assert_eq!(diagnostics[0].span, Span::new(40, 41));
    assert_eq!(diagnostics[0].message, "associated-type bindings are only allowed on traits, not `Int`");

    let mut twice = named("Iterable");
    bind(&mut twice, "Item", named("Int"), 50);
    bind(&mut twice, "Item", named("Bool"), 52);
    bind(&mut twice, "Size", named("Int"), 54);
    let found = messages(&items, &twice);
    assert_eq!(
        found,
        vec![
            (Span::new(52, 53), "duplicate binding for associated type `Iterable.Item`".to_string()),
            (Span::new(54, 55), "trait `Iterable` does not declare associated type `Size`".to_string()),
        ]
    );
}

fn declaring(name: &str, associated: &str) -> Item {
    Item::Trait(TraitDecl {
        name: name.to_string(),
        exported: false,
        type_params: Vec::new(),
        type_param_bounds: Vec::new(),
        associated_types: vec![AssociatedTypeDecl {
            name: associated.to_string(),
            type_params: Vec::new(),
            type_param_bounds: Vec::new(),
            bounds: Vec::new(),
            default: None,
            span: Span::new(0, 1),
        }],
        methods: Vec::new(),
        span: Span::new(0, 1),
    })
}

fn bound_on(param: &str, trait_name: &str) -> gustc::ast::TypeParamBound {
    gustc::ast::TypeParamBound { param: param.to_string(), trait_ref: named(trait_name), span: Span::new(0, 1) }
}

fn projections(items: &Vec<Item>, type_ref: &TypeRef, bounds: &Vec<gustc::ast::TypeParamBound>) -> Vec<String> {
    let mut diagnostics = Vec::new();
    gustc::monomorphize::trait_objects::validate_bounded_projection(
        items,
        type_ref,
        &vec!["T".to_string()],
        bounds,
        &mut diagnostics,
    );
    diagnostics.iter().map(|d| d.message.clone()).collect()
}

#[test]
fn projections_on_type_parameters_need_exactly_one_declaring_bound() {
    let items = vec![declaring("A", "Item"), declaring("B", "Item")];
    let one = vec![bound_on("T", "A")];
    assert!(projections(&items, &named("T.Item"), &one).is_empty());
    assert_eq!(
        projections(&items, &named("T.Key"), &one),
        vec!["cannot resolve associated type projection `T.Key`: type parameter `T` has no bound declaring `Key`"]
    );
    let two = vec![bound_on("T", "A"), bound_on("U", "A"), bound_on("T", "B")];
    let mut list = named("List");
    list.args.push(named("T.Item"));
    assert_eq!(
        projections(&items, &list, &two),
        vec!["ambiguous associated type projection `T.Item`: bounds `A` and `B` all declare `Item`"]
    );
    assert!(projections(&items, &named("U.Item"), &two).is_empty());
}

#[test]
fn associated_types_of_a_whole_program() {
    let body = Block {
        statements: vec![Stmt {
            kind: StmtKind::Let {
                name: "y".to_string(),
                mutable: false,
                type_annotation: Some(named_at("Iterable", 70)),
                value: Some(Expr { kind: ExprKind::Identifier("x".to_string()), span: Span::new(71, 72) }),
            },
            span: Span::new(69, 73),
        }],
        span: Span::new(68, 74),
    };
    let function = FunctionDecl {
        name: Some("f".to_string()),
        exported: false,
        type_params: Vec::new(),
        type_param_bounds: Vec::new(),
        params: vec![Param { name: "x".to_string(), mutable: false, type_ref: Some(named_at("Iterable", 60)), span: Span::new(59, 61) }],
        return_type: None,
        body: FunctionBody::Block(body),
        span: Span::new(58, 75),
    };
    let program = Program { items: vec![iterable(), Item::Function(function)] };
    let mut diagnostics = Vec::new();
    validate_associated_types(&program, &mut diagnostics);
    let spans: Vec<Span> = diagnostics.iter().map(|d| d.span).collect();
    assert_eq!(spans, vec![Span::new(60, 61), Span::new(70, 71)]);
    assert!(diagnostics
        .iter()
        .all(|d| d.message == "trait-typed value `Iterable` must bind associated type `Iterable.Item` to determine its method signatures"));
}
