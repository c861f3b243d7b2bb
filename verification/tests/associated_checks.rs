use gustc::ast::{
    AssociatedTypeDecl, AssociatedTypeDef, Block, FunctionBody, ImplDecl, Item, Program, TraitDecl, TraitMethodDecl,
    TypeRef,
};
use gustc::diagnostic::Severity;
use gustc::monomorphize::associated_checks::{
    validate_associated_type_declarations, validate_impl_associated_types, validate_trait_associated_types,
};
use gustc::span::Span;

fn named(name: &str) -> TypeRef {
    TypeRef { name: name.to_string(), args: Vec::new(), bindings: Vec::new(), function: None, span: Span::new(0, 0) }
}

fn decl(name: &str, params: &[&str], default: Option<TypeRef>, at: usize) -> AssociatedTypeDecl {
    AssociatedTypeDecl {
        name: name.to_string(),
        type_params: params.iter().map(|p| p.to_string()).collect(),
        type_param_bounds: Vec::new(),
        bounds: Vec::new(),
        default,
        span: Span::new(at, at + 1),
    }
}

fn def(name: &str, params: &[&str], at: usize) -> AssociatedTypeDef {
    AssociatedTypeDef {
        name: name.to_string(),
        type_params: params.iter().map(|p| p.to_string()).collect(),
        type_param_bounds: Vec::new(),
        type_ref: named("Int"),
        span: Span::new(at, at + 1),
    }
}

fn method(name: &str, static_: bool, provided: bool, at: usize) -> TraitMethodDecl {
    TraitMethodDecl {
        name: name.to_string(),
        static_,
        type_params: Vec::new(),
        type_param_bounds: Vec::new(),
        params: Vec::new(),
        return_type: None,
        body: if provided {
            Some(FunctionBody::Block(Block { statements: Vec::new(), span: Span::new(at, at) }))
        } else {
            None
        },
        span: Span::new(at, at + 1),
    }
}

fn container() -> TraitDecl {
    TraitDecl {
        name: "Container".to_string(),
        exported: false,
        type_params: Vec::new(),
        type_param_bounds: Vec::new(),
        associated_types: vec![decl("Item", &[], None, 10), decl("Key", &["K"], Some(named("Int")), 12)],
        methods: vec![method("len", false, false, 14)],
        span: Span::new(9, 30),
    }
}

fn impl_of(trait_name: &str, defs: Vec<AssociatedTypeDef>) -> ImplDecl {
    ImplDecl {
        type_params: Vec::new(),
        type_param_bounds: Vec::new(),
        trait_ref: named(trait_name),
        type_ref: named("Bag"),
        associated_types: defs,
        methods: Vec::new(),
        span: Span::new(40, 60),
    }
}

#[test]
fn trait_with_repeated_associated_type_and_static_provided_method() {
    let mut t = container();
    t.associated_types.push(decl("Item", &["A", "A"], None, 16));
    t.methods.push(method("make", true, true, 18));
    t.methods.push(method("build", true, false, 20));
    let mut diagnostics = Vec::new();
    validate_trait_associated_types(&t, &mut diagnostics);
    let found: Vec<(Span, String)> = diagnostics.iter().map(|d| (d.span, d.message.clone())).collect();
    assert_eq!(
        found,
        vec![
            (Span::new(16, 17), "duplicate associated type `Item` in trait `Container`".to_string()),
            (Span::new(16, 17), "duplicate type parameter `A` in associated type `Container.Item`".to_string()),
            (Span::new(18, 19), "provided trait methods must be instance methods".to_string()),
        ]
    );
    assert!(diagnostics.iter().all(|d| d.severity == Severity::Error));
}

#[test]
fn impl_definitions_against_their_trait() {
    let t = container();
    let d = impl_of("Container", vec![def("Key", &[], 41), def("Key", &["K"], 43), def("Extra", &[], 45)]);
    let mut diagnostics = Vec::new();
    validate_impl_associated_types(&t, &d, &mut diagnostics);
    let found: Vec<(Span, String)> = diagnostics.iter().map(|d| (d.span, d.message.clone())).collect();
    assert_eq!(
        found,
        vec![
            (Span::new(41, 42), "associated type `Container.Key` expects 1 type arguments, got 0".to_string()),
            (Span::new(43, 44), "duplicate definition of associated type `Container.Key` for `Bag`".to_string()),
            (
                Span::new(45, 46),
                "trait `Container` does not declare associated type `Extra` for impl on `Bag`".to_string()
            ),
            (Span::new(40, 60), "missing definition of associated type `Container.Item` for impl on `Bag`".to_string()),
        ]
    );
}

#[test]
fn complete_impl_has_no_errors_and_unknown_traits_are_skipped() {
    let program = Program {
        items: vec![
            Item::Trait(container()),
            Item::Impl(impl_of("Container", vec![def("Item", &[], 41)])),
            Item::Impl(impl_of("Elsewhere", vec![def("Whatever", &[], 47)])),
        ],
    };
    let mut diagnostics = Vec::new();
    validate_associated_type_declarations(&program, &mut diagnostics);
    assert!(diagnostics.is_empty());
}

#[test]
fn impl_is_checked_against_the_last_trait_of_its_name() {
    let mut later = container();
    later.associated_types = vec![decl("Output", &[], None, 50)];
    let program = Program {
        items: vec![Item::Trait(container()), Item::Trait(later), Item::Impl(impl_of("Container", vec![def("Item", &[], 41)]))],
    };
    let mut diagnostics = Vec::new();
    validate_associated_type_declarations(&program, &mut diagnostics);
    let found: Vec<String> = diagnostics.iter().map(|d| d.message.clone()).collect();
    assert_eq!(
        found,
        vec![
            "trait `Container` does not declare associated type `Item` for impl on `Bag`".to_string(),
            "missing definition of associated type `Container.Output` for impl on `Bag`".to_string(),
        ]
    );
}
