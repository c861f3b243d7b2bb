use gustc::ast::{Block, Expr, ExprKind, FunctionBody, FunctionDecl, Item, Param, Program, Stmt, StmtKind};
use gustc::project::comptime::ComptimeValue;
use gustc::project::lambda_sources::collect_lambda_sources;
use gustc::span::Span;

fn at(start: usize) -> Span {
    Span::new(start, start + 1)
}

fn lambda(param: &str, start: usize) -> FunctionDecl {
    FunctionDecl {
        name: None,
        exported: false,
        type_params: Vec::new(),
        type_param_bounds: Vec::new(),
        params: vec![Param { name: param.to_string(), mutable: false, type_ref: None, span: at(start) }],
        return_type: None,
        body: FunctionBody::Expr(Box::new(Expr { kind: ExprKind::Identifier(param.to_string()), span: at(start + 1) })),
        span: at(start),
    }
}

fn statement(kind: StmtKind) -> Stmt {
    Stmt { kind, span: at(0) }
}

fn let_lambda(name: &str, function: FunctionDecl) -> Stmt {
    statement(StmtKind::Let {
        name: name.to_string(),
        mutable: false,
        type_annotation: None,
        value: Some(Expr { kind: ExprKind::Lambda(function), span: at(0) }),
    })
}

fn program() -> Program {
    let block = Expr {
        kind: ExprKind::Block(Block {
            statements: vec![statement(StmtKind::Expr(Expr { kind: ExprKind::Number("1".to_string()), span: at(0) }))],
            span: at(0),
        }),
        span: at(0),
    };
    let main = FunctionDecl {
        name: Some("main".to_string()),
        exported: false,
        type_params: Vec::new(),
        type_param_bounds: Vec::new(),
        params: Vec::new(),
        return_type: None,
        body: FunctionBody::Block(Block {
            statements: vec![let_lambda("f", lambda("a", 10)), statement(StmtKind::Expr(block)), let_lambda("g", lambda("b", 20))],
            span: at(0),
        }),
        span: at(0),
    };
    Program { items: vec![Item::Function(main)] }
}

#[test]
fn lambdas_are_numbered_in_source_order() {
    let lambdas = collect_lambda_sources(&program());
    assert_eq!(lambdas.len(), 2);
    assert_eq!(lambdas[0].0, "lambda0");
    assert_eq!(lambdas[0].1.params[0].name, "a");
    assert_eq!(lambdas[1].0, "lambda2");
    assert_eq!(lambdas[1].1.params[0].name, "b");
}

#[test]
fn scalars_become_literals() {
    let lambdas = Vec::new();
    let number = ComptimeValue::Number("42".to_string()).to_expr(at(3), &lambdas).unwrap();
    assert!(matches!(number.kind, ExprKind::Number(ref n) if n == "42"));
    assert_eq!(number.span, at(3));
    let void = ComptimeValue::Void.to_expr(at(3), &lambdas).unwrap();
    assert!(matches!(void.kind, ExprKind::Missing));
}

#[test]
fn structs_and_variants_become_source() {
    let lambdas = Vec::new();
    let value = ComptimeValue::Struct {
        name: "Point".to_string(),
        fields: vec![
            ("x".to_string(), ComptimeValue::Number("1".to_string())),
            ("y".to_string(), ComptimeValue::Bool(true)),
        ],
    };
    let expr = value.to_expr(at(0), &lambdas).unwrap();
    match expr.kind {
        ExprKind::StructInit { name, args, fields } => {
            assert_eq!(name, "Point");
            assert!(args.is_empty());
            assert_eq!(fields.len(), 2);
            assert_eq!(fields[1].name, "y");
            assert!(matches!(fields[1].value.kind, ExprKind::Bool(true)));
        }
        _ => panic!("expected a struct literal"),
    }
    let variant = ComptimeValue::Enum {
        name: "Option".to_string(),
        variant: "Some".to_string(),
        payload: Some(Box::new(ComptimeValue::Char(65))),
    };
    let expr = variant.to_expr(at(0), &lambdas).unwrap();
    match expr.kind {
        ExprKind::Call { callee, args } => {
            assert!(matches!(callee.kind, ExprKind::Member { ref name, .. } if name == "Some"));
            assert!(matches!(args[0].kind, ExprKind::Char(65)));
        }
        _ => panic!("expected a call"),
    }
}

#[test]
fn closures_become_their_lambda() {
    let lambdas = collect_lambda_sources(&program());
    let plain = ComptimeValue::Closure { name: "lambda2".to_string(), captures: Vec::new() };
    let expr = plain.to_expr(at(0), &lambdas).unwrap();
    assert!(matches!(expr.kind, ExprKind::Lambda(ref f) if f.params[0].name == "b"));
    let captured = ComptimeValue::Closure {
        name: "lambda0".to_string(),
        captures: vec![("n".to_string(), ComptimeValue::Number("3".to_string()))],
    };
    let expr = captured.to_expr(at(0), &lambdas).unwrap();
    match expr.kind {
        ExprKind::Block(block) => {
            assert_eq!(block.statements.len(), 2);
            assert!(matches!(block.statements[0].kind, StmtKind::Let { ref name, mutable: true, .. } if name == "n"));
            assert!(matches!(block.statements[1].kind, StmtKind::Return { value: Some(_) }));
        }
        _ => panic!("expected a block"),
    }
}

#[test]
fn values_that_cannot_be_written_report_why() {
    let lambdas = collect_lambda_sources(&program());
    let unknown = ComptimeValue::Closure { name: "lambda9".to_string(), captures: Vec::new() };
    assert_eq!(
        unknown.to_expr(at(0), &lambdas).unwrap_err(),
        "comptime result cannot be materialized as Gust source"
    );
    let nested = ComptimeValue::Struct {
        name: "Box".to_string(),
        fields: vec![
            ("a".to_string(), ComptimeValue::Bool(false)),
            ("b".to_string(), ComptimeValue::Unsupported("pointer".to_string())),
            ("c".to_string(), ComptimeValue::Unsupported("file".to_string())),
        ],
    };
    assert_eq!(nested.to_expr(at(0), &lambdas).unwrap_err(), "pointer");
}
