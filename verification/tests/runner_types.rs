use gustc::ast::{BinaryOp, Block, Expr, ExprKind, Stmt, StmtKind, TypeRef};
use gustc::project::runner_types::infer_runner_expr_type;
use gustc::span::Span;

fn at(start: usize) -> Span {
    Span::new(start, start + 1)
}

fn expr(kind: ExprKind, start: usize) -> Expr {
    Expr { kind, span: at(start) }
}

fn named_type(name: &str, args: Vec<TypeRef>, start: usize) -> TypeRef {
    TypeRef { name: name.to_string(), args, bindings: Vec::new(), function: None, span: at(start) }
}

fn binary(left: Expr, op: BinaryOp, right: Expr) -> Expr {
    expr(ExprKind::Binary { left: Box::new(left), op, right: Box::new(right) }, 50)
}

fn number(text: &str, start: usize) -> Expr {
    expr(ExprKind::Number(text.to_string()), start)
}

#[test]
fn literals_have_their_own_types() {
    let statics: Vec<(String, TypeRef)> = Vec::new();
    let integer = infer_runner_expr_type(&number("42", 3), &statics).unwrap();
    assert_eq!(integer.name, "i32");
    assert_eq!(integer.span, at(3));
    assert!(integer.args.is_empty());
    assert_eq!(infer_runner_expr_type(&number("1.5", 4), &statics).unwrap().name, "f64");
    assert_eq!(infer_runner_expr_type(&expr(ExprKind::String("x".to_string()), 0), &statics).unwrap().name, "string");
    assert_eq!(infer_runner_expr_type(&expr(ExprKind::Char(97), 0), &statics).unwrap().name, "char");
    assert_eq!(infer_runner_expr_type(&expr(ExprKind::Bool(true), 0), &statics).unwrap().name, "bool");
    assert!(infer_runner_expr_type(&expr(ExprKind::Missing, 0), &statics).is_none());
}

#[test]
fn statics_give_their_declared_types() {
    let statics = vec![
        ("limit".to_string(), named_type("u64", Vec::new(), 7)),
        ("names".to_string(), named_type("List", vec![named_type("string", Vec::new(), 9)], 8)),
    ];
    let limit = infer_runner_expr_type(&expr(ExprKind::Identifier("limit".to_string()), 0), &statics).unwrap();
    assert_eq!(limit.name, "u64");
    assert_eq!(limit.span, at(7));
    let names = infer_runner_expr_type(&expr(ExprKind::Identifier("names".to_string()), 0), &statics).unwrap();
    assert_eq!(names.name, "List");
    assert_eq!(names.args.len(), 1);
    assert_eq!(names.args[0].name, "string");
    assert!(infer_runner_expr_type(&expr(ExprKind::Identifier("other".to_string()), 0), &statics).is_none());
}

#[test]
fn operators_combine_their_sides() {
    let statics = vec![("names".to_string(), named_type("List", vec![named_type("string", Vec::new(), 9)], 8))];
    let comparison = infer_runner_expr_type(&binary(number("1", 0), BinaryOp::Less, number("2.0", 1)), &statics);
    assert_eq!(comparison.unwrap().name, "bool");
    let sum = infer_runner_expr_type(&binary(number("1", 0), BinaryOp::Add, number("2", 1)), &statics).unwrap();
    assert_eq!(sum.name, "i32");
    assert_eq!(sum.span, at(0));
    assert!(infer_runner_expr_type(&binary(number("1", 0), BinaryOp::Add, number("2.5", 1)), &statics).is_none());
    let lists = binary(
        expr(ExprKind::Identifier("names".to_string()), 0),
        BinaryOp::Add,
        expr(ExprKind::Identifier("names".to_string()), 1),
    );
    assert!(infer_runner_expr_type(&lists, &statics).is_none());
}

#[test]
fn a_block_takes_the_type_of_its_first_typed_return() {
    let statics: Vec<(String, TypeRef)> = Vec::new();
    let statement = |kind: StmtKind| Stmt { kind, span: at(0) };
    let block = expr(
        ExprKind::Block(Block {
            statements: vec![
                statement(StmtKind::Expr(number("1", 0))),
                statement(StmtKind::Return { value: None }),
                statement(StmtKind::Return { value: Some(expr(ExprKind::Missing, 0)) }),
                statement(StmtKind::Return { value: Some(expr(ExprKind::Bool(false), 11)) }),
                statement(StmtKind::Return { value: Some(number("3", 12)) }),
            ],
            span: at(0),
        }),
        0,
    );
    let found = infer_runner_expr_type(&block, &statics).unwrap();
    assert_eq!(found.name, "bool");
    assert_eq!(found.span, at(11));
    let empty = expr(ExprKind::Block(Block { statements: Vec::new(), span: at(0) }), 0);
    assert!(infer_runner_expr_type(&empty, &statics).is_none());
}
