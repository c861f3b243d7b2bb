use gustc::ast::{
    Block, Expr, ExprKind, FunctionBody, FunctionDecl, Item, MatchBranch, MatchBranchBody, Param,
    Pattern, Program, Stmt, StmtKind, TypeRef,
};
use gustc::diagnostic::{Diagnostic, Severity};
use gustc::project::spans::{shift_diagnostic, shift_expr, shift_program, shift_type};
use gustc::span::Span;
use gustc::text::{contains_str, decimal_string, join_strings};

fn named(name: &str, start: usize, end: usize) -> TypeRef {
    TypeRef {
        name: name.to_string(),
        args: Vec::new(),
        bindings: Vec::new(),
        function: None,
        span: Span::new(start, end),
    }
}

fn ident(name: &str, start: usize) -> Expr {
    Expr { kind: ExprKind::Identifier(name.to_string()), span: Span::new(start, start + name.len()) }
}

#[test]
fn span_join_covers_both_spans() {
    let a = Span::new(3, 5);
    let b = Span::new(1, 4);
    assert_eq!(a.join(b), Span::new(1, 5));
    assert_eq!(b.join(a), Span::new(1, 5));
    assert_eq!(a.join(a), a);
}

#[test]
fn decimal_string_writes_digits() {
    assert_eq!(decimal_string(0), "0");
    assert_eq!(decimal_string(7), "7");
    assert_eq!(decimal_string(1234), "1234");
    assert_eq!(decimal_string(u64::MAX), "18446744073709551615");
}

#[test]
fn join_strings_separates_neighbours() {
    let parts = vec!["a".to_string(), "b".to_string(), "c".to_string()];
    assert_eq!(join_strings(&parts, ", "), "a, b, c");
    assert_eq!(join_strings(&Vec::new(), ", "), "");
    assert_eq!(join_strings(&vec!["x".to_string()], ", "), "x");
}

#[test]
fn contains_str_finds_exact_names() {
    let names = vec!["HOME".to_string(), "PATH".to_string()];
    assert!(contains_str(&names, "PATH"));
    assert!(!contains_str(&names, "PAT"));
}

#[test]
fn shift_diagnostic_moves_only_the_span() {
    let diagnostic = Diagnostic::error(Span::new(2, 6), "bad".to_string());
    let shifted = shift_diagnostic(diagnostic, 100);
    assert_eq!(shifted.span, Span::new(102, 106));
    assert_eq!(shifted.severity, Severity::Error);
    assert_eq!(shifted.message, "bad");
}

#[test]
fn shift_type_moves_arguments_but_not_bindings() {
    let mut type_ref = named("List", 0, 9);
    type_ref.args.push(named("Int", 5, 8));
    shift_type(&mut type_ref, 10);
    assert_eq!(type_ref.span, Span::new(10, 19));
    assert_eq!(type_ref.args[0].span, Span::new(15, 18));
    assert_eq!(type_ref.name, "List");
}

#[test]
fn shift_expr_moves_nested_expressions_and_keeps_guards() {
    let call = Expr {
        kind: ExprKind::Call { callee: Box::new(ident("f", 0)), args: vec![ident("x", 2)] },
        span: Span::new(0, 4),
    };
    let guard = ident("g", 20);
    let branch = MatchBranch {
        pattern: Pattern::Wildcard { span: Span::new(10, 11) },
        guard: Some(guard),
        body: MatchBranchBody::Expr(Box::new(call)),
        span: Span::new(10, 30),
    };
    let mut expr = Expr {
        kind: ExprKind::Match { value: Box::new(ident("v", 6)), branches: vec![branch] },
        span: Span::new(0, 31),
    };
    shift_expr(&mut expr, 1000);
    assert_eq!(expr.span, Span::new(1000, 1031));
    match &expr.kind {
        ExprKind::Match { value, branches } => {
            assert_eq!(value.span, Span::new(1006, 1007));
            assert_eq!(branches[0].span, Span::new(1010, 1030));
            assert_eq!(branches[0].pattern.span(), Span::new(1010, 1011));
            assert_eq!(branches[0].guard.as_ref().unwrap().span, Span::new(20, 21));
            match &branches[0].body {
                MatchBranchBody::Expr(body) => {
                    assert_eq!(body.span, Span::new(1000, 1004));
                    match &body.kind {
                        ExprKind::Call { callee, args } => {
                            assert_eq!(callee.span, Span::new(1000, 1001));
                            assert_eq!(args[0].span, Span::new(1002, 1003));
                        }
                        other => panic!("unexpected {:?}", other),
                    }
                }
                other => panic!("unexpected {:?}", other),
            }
        }
        other => panic!("unexpected {:?}", other),
    }
}

#[test]
fn shift_program_moves_functions_params_and_statements() {
    let body = Block {
        statements: vec![Stmt {
            kind: StmtKind::Return { value: Some(ident("x", 20)) },
            span: Span::new(13, 22),
        }],
        span: Span::new(12, 24),
    };
    let function = FunctionDecl {
        name: Some("id".to_string()),
        exported: false,
        type_params: Vec::new(),
        type_param_bounds: Vec::new(),
        params: vec![Param {
            name: "x".to_string(),
            mutable: false,
            type_ref: Some(named("Int", 8, 11)),
            span: Span::new(6, 11),
        }],
        return_type: None,
        body: FunctionBody::Block(body),
        span: Span::new(0, 24),
    };
    let mut program = Program { items: vec![Item::Function(function)] };
    shift_program(&mut program, 50);
    match &program.items[0] {
        Item::Function(function) => {
            assert_eq!(function.span, Span::new(50, 74));
            assert_eq!(function.params[0].span, Span::new(56, 61));
            assert_eq!(function.params[0].type_ref.as_ref().unwrap().span, Span::new(58, 61));
            match &function.body {
                FunctionBody::Block(block) => {
                    assert_eq!(block.span, Span::new(62, 74));
                    assert_eq!(block.statements[0].span, Span::new(63, 72));
                    match &block.statements[0].kind {
                        StmtKind::Return { value } => {
                            assert_eq!(value.as_ref().unwrap().span, Span::new(70, 71))
                        }
                        other => panic!("unexpected {:?}", other),
                    }
                }
                other => panic!("unexpected {:?}", other),
            }
        }
        other => panic!("unexpected {:?}", other),
    }
}

#[test]
fn paths_on_the_other_side_of_the_root_kind_keep_their_own_form() {
    assert_eq!(gustc::project::paths::relative_source_path("/a/b", "b/c.gust"), "c.gust");
    assert_eq!(gustc::project::paths::relative_source_path("/a/b", "b/.."), "b/..");
    assert_eq!(gustc::project::paths::relative_source_path("a/b", "/x/y.gust"), "/x/y.gust");
    assert_eq!(gustc::project::paths::relative_source_path("a/b", "a/c.gust"), "../c.gust");
    assert_eq!(gustc::project::paths::relative_source_path("/a/b", "/a/b/c.gust"), "c.gust");
}
