use gustc::ast::{
    BinaryOp, Block, Expr, ExprKind, FunctionBody, FunctionDecl, MatchBranch, MatchBranchBody, Param, Pattern, Stmt,
    StmtKind,
};
use gustc::project::comptime_reads::{name_visible, runtime_local_uses_in_comptime, runtime_static_uses_in_comptime};
use gustc::span::Span;

fn at(start: usize) -> Span {
    Span::new(start, start + 1)
}

fn ident(name: &str, start: usize) -> Expr {
    Expr { kind: ExprKind::Identifier(name.to_string()), span: at(start) }
}

fn number(text: &str) -> Expr {
    Expr { kind: ExprKind::Number(text.to_string()), span: at(0) }
}

fn add(left: Expr, right: Expr) -> Expr {
    Expr { kind: ExprKind::Binary { left: Box::new(left), op: BinaryOp::Add, right: Box::new(right) }, span: at(0) }
}

fn block(statements: Vec<Stmt>) -> Expr {
    Expr { kind: ExprKind::Block(Block { statements, span: at(0) }), span: at(0) }
}

fn comptime(inner: Expr) -> Expr {
    Expr { kind: ExprKind::Comptime(Box::new(inner)), span: at(0) }
}

fn let_statement(name: &str, value: Expr) -> Stmt {
    Stmt {
        kind: StmtKind::Let { name: name.to_string(), mutable: false, type_annotation: None, value: Some(value) },
        span: at(0),
    }
}

fn expr_statement(value: Expr) -> Stmt {
    Stmt { kind: StmtKind::Expr(value), span: at(0) }
}

fn scopes(names: &[&[&str]]) -> Vec<Vec<String>> {
    names.iter().map(|scope| scope.iter().map(|name| name.to_string()).collect()).collect()
}

fn names(uses: &[gustc::project::comptime_reads::RuntimeLocalUse]) -> Vec<(String, usize)> {
    uses.iter().map(|u| (u.name.clone(), u.span.start)).collect()
}

#[test]
fn comptime_reading_a_runtime_local_is_reported() {
    let expr = comptime(add(ident("x", 5), number("1")));
    let uses = runtime_local_uses_in_comptime(&expr, &scopes(&[&["x"]]));
    assert_eq!(names(&uses), vec![("x".to_string(), 5)]);
}

#[test]
fn names_bound_inside_comptime_are_not_reported() {
    let expr = comptime(block(vec![let_statement("x", number("1")), expr_statement(ident("x", 9))]));
    let uses = runtime_local_uses_in_comptime(&expr, &scopes(&[&["x"]]));
    assert!(uses.is_empty());
}

#[test]
fn a_let_value_does_not_see_its_own_name() {
    let expr = comptime(block(vec![let_statement("x", ident("x", 3))]));
    let uses = runtime_local_uses_in_comptime(&expr, &scopes(&[&[], &["x"]]));
    assert_eq!(names(&uses), vec![("x".to_string(), 3)]);
}

#[test]
fn statics_are_reported_only_when_no_local_shadows_them() {
    let expr = comptime(add(ident("COUNT", 2), ident("x", 4)));
    let statics = vec!["COUNT".to_string()];
    let uses = runtime_static_uses_in_comptime(&expr, &scopes(&[&["x"]]), &statics);
    assert_eq!(names(&uses), vec![("COUNT".to_string(), 2)]);
    let shadowed = runtime_static_uses_in_comptime(&expr, &scopes(&[&["x", "COUNT"]]), &statics);
    assert!(shadowed.is_empty());
    let locals = runtime_local_uses_in_comptime(&expr, &scopes(&[&["x", "COUNT"]]));
    assert_eq!(names(&locals), vec![("COUNT".to_string(), 2), ("x".to_string(), 4)]);
}

#[test]
fn lambda_parameters_are_bound() {
    let lambda = FunctionDecl {
        name: None,
        exported: false,
        type_params: Vec::new(),
        type_param_bounds: Vec::new(),
        params: vec![Param { name: "a".to_string(), mutable: false, type_ref: None, span: at(0) }],
        return_type: None,
        body: FunctionBody::Expr(Box::new(add(ident("a", 1), ident("b", 7)))),
        span: at(0),
    };
    let expr = comptime(Expr { kind: ExprKind::Lambda(lambda), span: at(0) });
    let uses = runtime_local_uses_in_comptime(&expr, &scopes(&[&["a", "b"]]));
    assert_eq!(names(&uses), vec![("b".to_string(), 7)]);
}

#[test]
fn match_bindings_are_bound_in_their_branch() {
    let branch = MatchBranch {
        pattern: Pattern::Variant {
            enum_name: "Option".to_string(),
            variant: "Some".to_string(),
            binding: Some("v".to_string()),
            binding_mutable: false,
            span: at(0),
        },
        guard: None,
        body: MatchBranchBody::Expr(Box::new(add(ident("v", 3), ident("w", 6)))),
        span: at(0),
    };
    let expr = comptime(Expr {
        kind: ExprKind::Match { value: Box::new(ident("o", 1)), branches: vec![branch] },
        span: at(0),
    });
    let uses = runtime_local_uses_in_comptime(&expr, &scopes(&[&["o", "v", "w"]]));
    assert_eq!(names(&uses), vec![("o".to_string(), 1), ("w".to_string(), 6)]);
}

#[test]
fn visibility_looks_through_every_scope() {
    let stack = scopes(&[&["a"], &[], &["b", "c"]]);
    assert!(name_visible(&stack, "a"));
    assert!(name_visible(&stack, "c"));
    assert!(!name_visible(&stack, "d"));
}
