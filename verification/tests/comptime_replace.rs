use gustc::ast::{
    BinaryOp, Block, ElseBranch, Expr, ExprKind, FunctionBody, FunctionDecl, Item, Program, Stmt, StmtKind,
};
use gustc::project::comptime_replace::replace_comptime_at_span;
use gustc::span::Span;

fn at(start: usize) -> Span {
    Span::new(start, start + 1)
}

fn expr(kind: ExprKind, start: usize) -> Expr {
    Expr { kind, span: at(start) }
}

fn number(text: &str, start: usize) -> Expr {
    expr(ExprKind::Number(text.to_string()), start)
}

fn comptime(inner: Expr, start: usize) -> Expr {
    expr(ExprKind::Comptime(Box::new(inner)), start)
}

fn statement(kind: StmtKind, start: usize) -> Stmt {
    Stmt { kind, span: at(start) }
}

fn function(name: &str, statements: Vec<Stmt>) -> Item {
    Item::Function(FunctionDecl {
        name: Some(name.to_string()),
        exported: false,
        type_params: Vec::new(),
        type_param_bounds: Vec::new(),
        params: Vec::new(),
        return_type: None,
        body: FunctionBody::Block(Block { statements, span: at(0) }),
        span: at(0),
    })
}

fn program() -> Program {
    let first = function(
        "first",
        vec![
            statement(
                StmtKind::Let {
                    name: "x".to_string(),
                    mutable: false,
                    type_annotation: None,
                    value: Some(comptime(number("1", 11), 10)),
                },
                1,
            ),
            statement(
                StmtKind::Return {
                    value: Some(expr(
                        ExprKind::Binary {
                            left: Box::new(comptime(number("2", 21), 20)),
                            op: BinaryOp::Add,
                            right: Box::new(comptime(number("3", 31), 30)),
                        },
                        19,
                    )),
                },
                2,
            ),
        ],
    );
    let second = function(
        "second",
        vec![statement(
            StmtKind::If {
                condition: expr(ExprKind::Bool(true), 40),
                then_branch: Block { statements: Vec::new(), span: at(41) },
                else_branch: Some(ElseBranch::If(Box::new(statement(
                    StmtKind::If {
                        condition: comptime(number("4", 51), 30),
                        then_branch: Block { statements: Vec::new(), span: at(52) },
                        else_branch: None,
                    },
                    50,
                )))),
            },
            3,
        )],
    );
    Program { items: vec![first, second] }
}

fn body_of(item: &Item) -> &Vec<Stmt> {
    match item {
        Item::Function(FunctionDecl { body: FunctionBody::Block(block), .. }) => &block.statements,
        other => panic!("unexpected {:?}", other),
    }
}

#[test]
fn replaces_the_site_at_the_span() {
    let mut program = program();
    assert!(replace_comptime_at_span(&mut program, at(10), expr(ExprKind::Bool(false), 10)));
    match &body_of(&program.items[0])[0].kind {
        StmtKind::Let { value: Some(value), .. } => {
            assert!(matches!(value.kind, ExprKind::Bool(false)));
            assert_eq!(value.span, at(10));
        }
        other => panic!("unexpected {:?}", other),
    }
    assert_eq!(format!("{:?}", program.items[1]), format!("{:?}", self::program().items[1]));
}

#[test]
fn only_the_first_of_two_sites_at_one_span_is_replaced() {
    let mut program = program();
    assert!(replace_comptime_at_span(&mut program, at(30), number("99", 30)));
    match &body_of(&program.items[0])[1].kind {
        StmtKind::Return { value: Some(Expr { kind: ExprKind::Binary { left, right, .. }, .. }) } => {
            assert!(matches!(left.kind, ExprKind::Comptime(_)));
            assert!(matches!(&right.kind, ExprKind::Number(n) if n == "99"));
        }
        other => panic!("unexpected {:?}", other),
    }
    assert_eq!(format!("{:?}", program.items[1]), format!("{:?}", self::program().items[1]));
    assert!(replace_comptime_at_span(&mut program, at(30), number("98", 30)));
    match &body_of(&program.items[1])[0].kind {
        StmtKind::If { else_branch: Some(ElseBranch::If(inner)), .. } => match &inner.kind {
            StmtKind::If { condition, .. } => assert!(matches!(&condition.kind, ExprKind::Number(n) if n == "98")),
            other => panic!("unexpected {:?}", other),
        },
        other => panic!("unexpected {:?}", other),
    }
}

#[test]
fn a_missing_span_leaves_the_program_unchanged() {
    let mut program = program();
    assert!(!replace_comptime_at_span(&mut program, at(21), number("0", 21)));
    assert!(!replace_comptime_at_span(&mut program, at(99), number("0", 99)));
    assert_eq!(format!("{:?}", program), format!("{:?}", self::program()));
}
