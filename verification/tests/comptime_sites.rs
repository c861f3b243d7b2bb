use gustc::ast::{
    BinaryOp, Block, Expr, ExprKind, FunctionBody, FunctionDecl, Item, Param, Program, Stmt, StmtKind,
};
use gustc::project::comptime_sites::{collect_comptime_sites, collect_comptime_sites_in_expr};
use gustc::span::Span;

fn at(start: usize) -> Span {
    Span::new(start, start + 1)
}

fn ident(name: &str, start: usize) -> Expr {
    Expr { kind: ExprKind::Identifier(name.to_string()), span: at(start) }
}

fn number(text: &str, start: usize) -> Expr {
    Expr { kind: ExprKind::Number(text.to_string()), span: at(start) }
}

fn add(left: Expr, right: Expr) -> Expr {
    Expr { kind: ExprKind::Binary { left: Box::new(left), op: BinaryOp::Add, right: Box::new(right) }, span: at(0) }
}

fn comptime(inner: Expr, start: usize) -> Expr {
    Expr { kind: ExprKind::Comptime(Box::new(inner)), span: at(start) }
}

fn let_statement(name: &str, value: Expr) -> Stmt {
    Stmt {
        kind: StmtKind::Let { name: name.to_string(), mutable: false, type_annotation: None, value: Some(value) },
        span: at(0),
    }
}

fn function(name: &str, params: Vec<&str>, statements: Vec<Stmt>) -> FunctionDecl {
    FunctionDecl {
        name: Some(name.to_string()),
        exported: false,
        type_params: Vec::new(),
        type_param_bounds: Vec::new(),
        params: params
            .iter()
            .map(|p| Param { name: p.to_string(), mutable: false, type_ref: None, span: at(0) })
            .collect(),
        return_type: None,
        body: FunctionBody::Block(Block { statements, span: at(0) }),
        span: at(0),
    }
}

#[test]
fn sites_are_numbered_in_source_order_with_their_packages() {
    let first = function(
        "first",
        vec!["p"],
        vec![
            let_statement("a", number("1", 1)),
            let_statement("b", comptime(add(ident("a", 11), ident("p", 12)), 10)),
        ],
    );
    let second = function("second", Vec::new(), vec![let_statement("c", comptime(number("2", 21), 20))]);
    let program = Program { items: vec![Item::Function(first), Item::Function(second)] };
    let sites = collect_comptime_sites(&program, &vec![3], 7);
    assert_eq!(sites.len(), 2);
    assert_eq!((sites[0].id, sites[0].package, sites[0].span.start), (0, 3, 10));
    assert_eq!((sites[1].id, sites[1].package, sites[1].span.start), (1, 7, 20));
    let reads: Vec<(String, usize)> = sites[0].runtime_local_uses.iter().map(|u| (u.name.clone(), u.span.start)).collect();
    assert_eq!(reads, vec![("a".to_string(), 11), ("p".to_string(), 12)]);
    assert!(sites[1].runtime_local_uses.is_empty());
    assert!(sites[0].runtime_static_uses.is_empty());
    assert!(sites[0].direct_static_name.is_none());
}

#[test]
fn a_comptime_site_is_not_searched_inside() {
    let nested = comptime(add(comptime(number("1", 2), 1), number("2", 3)), 0);
    let mut runtime: Vec<Vec<String>> = Vec::new();
    let mut sites = Vec::new();
    collect_comptime_sites_in_expr(&nested, 0, &Vec::new(), &mut runtime, None, &mut sites);
    assert_eq!(sites.len(), 1);
    assert_eq!(sites[0].span.start, 0);
}

#[test]
fn later_lets_are_not_visible_to_earlier_sites() {
    let body = function(
        "f",
        Vec::new(),
        vec![
            let_statement("x", comptime(ident("y", 5), 4)),
            let_statement("y", number("1", 8)),
            let_statement("z", comptime(ident("y", 13), 12)),
        ],
    );
    let program = Program { items: vec![Item::Function(body)] };
    let sites = collect_comptime_sites(&program, &Vec::new(), 0);
    assert_eq!(sites.len(), 2);
    assert!(sites[0].runtime_local_uses.is_empty());
    assert_eq!(sites[1].runtime_local_uses.len(), 1);
    assert_eq!(sites[1].runtime_local_uses[0].name, "y");
}

#[test]
fn a_static_initialiser_names_its_static() {
    let value = comptime(ident("LIMIT", 3), 2);
    let mut runtime: Vec<Vec<String>> = Vec::new();
    let mut sites = Vec::new();
    let statics = vec!["LIMIT".to_string()];
    let name = "TABLE".to_string();
    collect_comptime_sites_in_expr(&value, 1, &statics, &mut runtime, Some(&name), &mut sites);
    assert_eq!(sites.len(), 1);
    assert_eq!(sites[0].direct_static_name.as_deref(), Some("TABLE"));
    assert_eq!(sites[0].runtime_static_uses.len(), 1);
    assert_eq!(sites[0].runtime_static_uses[0].name, "LIMIT");
}
