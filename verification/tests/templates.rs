use gustc::ast::{
    Block, FunctionBody, FunctionDecl, ImplDecl, Item, Param, Program, StructDecl, StructMember, TypeRef,
};
use gustc::diagnostic::{Diagnostic, Severity};
use gustc::monomorphize::templates::{validate_method_type_params, validate_templates};
use gustc::span::Span;

fn named(name: &str) -> TypeRef {
    TypeRef { name: name.to_string(), args: Vec::new(), bindings: Vec::new(), function: None, span: Span::new(0, 0) }
}

fn generic(name: &str, args: Vec<TypeRef>) -> TypeRef {
    let mut type_ref = named(name);
    type_ref.args = args;
    type_ref
}

fn param(name: &str, type_ref: Option<TypeRef>) -> Param {
    Param { name: name.to_string(), mutable: false, type_ref, span: Span::new(0, 0) }
}

fn function(name: &str, type_params: &[&str], params: Vec<Param>, return_type: Option<TypeRef>, at: usize) -> FunctionDecl {
    FunctionDecl {
        name: Some(name.to_string()),
        exported: false,
        type_params: type_params.iter().map(|p| p.to_string()).collect(),
        type_param_bounds: Vec::new(),
        params,
        return_type,
        body: FunctionBody::Block(Block { statements: Vec::new(), span: Span::new(at, at) }),
        span: Span::new(at, at + 1),
    }
}

fn messages(diagnostics: &[Diagnostic]) -> Vec<String> {
    assert!(diagnostics.iter().all(|d| d.severity == Severity::Error));
    diagnostics.iter().map(|d| d.message.clone()).collect()
}

#[test]
fn method_type_parameters_repeat_clash_and_go_unused() {
    let method = function("map", &["U", "U", "T", "V"], vec![param("f", Some(named("U")))], None, 7);
    let members = vec![StructMember::Method(method)];
    let mut diagnostics = Vec::new();
    validate_method_type_params("Box", "struct", &vec!["T".to_string()], &members, &Vec::new(), &mut diagnostics);
    assert_eq!(
        messages(&diagnostics),
        vec![
            "duplicate type parameter `U` in method `map`",
            "type parameter `T` in method `map` conflicts with struct `Box`",
            "unused type parameter `T` in method `map`",
            "unused type parameter `V` in method `map`",
        ]
    );
    assert!(diagnostics.iter().all(|d| d.span == Span::new(7, 8)));
}

#[test]
fn inferred_method_return_counts_as_use() {
    let method = function("make", &["U"], Vec::new(), None, 3);
    let members = vec![StructMember::StaticMethod(method)];
    let inferred = vec![("Box".to_string(), "make".to_string(), true, generic("List", vec![named("U")]))];
    let mut diagnostics = Vec::new();
    validate_method_type_params("Box", "struct", &Vec::new(), &members, &inferred, &mut diagnostics);
    assert!(diagnostics.is_empty());
    let not_static = vec![("Box".to_string(), "make".to_string(), false, named("U"))];
    validate_method_type_params("Box", "struct", &Vec::new(), &members, &not_static, &mut diagnostics);
    assert_eq!(messages(&diagnostics), vec!["unused type parameter `U` in method `make`"]);
}

#[test]
fn template_checks_run_group_by_group() {
    let pair = StructDecl {
        name: "Pair".to_string(),
        exported: false,
        type_params: vec!["A".to_string(), "A".to_string()],
        type_param_bounds: Vec::new(),
        members: Vec::new(),
        span: Span::new(1, 2),
    };
    let id = function("id", &["T", "X"], vec![param("value", Some(named("T")))], None, 10);
    let show = ImplDecl {
        type_params: vec!["T".to_string(), "W".to_string()],
        type_param_bounds: Vec::new(),
        trait_ref: named("Show"),
        type_ref: generic("List", vec![named("T")]),
        associated_types: Vec::new(),
        methods: Vec::new(),
        span: Span::new(20, 21),
    };
    let program = Program { items: vec![Item::Impl(show), Item::Function(id), Item::Struct(pair)] };
    let returns = vec![("id".to_string(), named("T"))];
    let mut diagnostics = Vec::new();
    validate_templates(&program, &returns, &Vec::new(), &mut diagnostics);
    assert_eq!(
        messages(&diagnostics),
        vec![
            "duplicate type parameter `A` in struct `Pair`",
            "unused type parameter `X` in function `id`",
            "unused type parameter `W` in impl `Show for List<T>`",
        ]
    );
    assert_eq!(diagnostics[0].span, Span::new(1, 2));
    assert_eq!(diagnostics[2].span, Span::new(20, 21));
}

#[test]
fn later_declaration_of_a_name_replaces_the_earlier() {
    let first = function("pick", &["T"], Vec::new(), None, 1);
    let second = function("pick", &["T"], vec![param("x", Some(named("T")))], None, 5);
    let program = Program { items: vec![Item::Function(first), Item::Function(second)] };
    let mut diagnostics = Vec::new();
    validate_templates(&program, &Vec::new(), &Vec::new(), &mut diagnostics);
    assert!(diagnostics.is_empty());
}
