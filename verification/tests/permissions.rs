use gustc::ast::{BinaryOp, Block, Expr, ExprKind, FunctionBody, FunctionDecl, Item, Stmt, StmtKind};
use gustc::project::comptime::{permission_allows_name, PermissionValue};
use gustc::project::permissions::{
    can_read_env, can_read_fs, comptime_permission_value, permission_allows_path, ComptimePermissions, Package,
};
use gustc::project::runner_prepare::{prepare_runner_expr, prepare_runner_item};
use gustc::span::Span;

fn at(start: usize) -> Span {
    Span::new(start, start + 1)
}

fn expr(kind: ExprKind, start: usize) -> Expr {
    Expr { kind, span: at(start) }
}

fn patterns(items: &[&str]) -> PermissionValue {
    PermissionValue::Patterns(items.iter().map(|item| item.to_string()).collect())
}

fn package(fs: PermissionValue, env: PermissionValue) -> Package {
    Package { root: "/proj".to_string(), comptime_permissions: ComptimePermissions { fs, env } }
}

fn path_expr(path: &str, start: usize) -> Expr {
    let mut parts = path.split('.');
    let mut current = expr(ExprKind::Identifier(parts.next().unwrap().to_string()), start);
    for part in parts {
        current = expr(ExprKind::Member { object: Box::new(current), name: part.to_string() }, start);
    }
    current
}

fn query(path: &str, argument: &str, start: usize) -> Expr {
    expr(
        ExprKind::Call {
            callee: Box::new(path_expr(path, start)),
            args: vec![expr(ExprKind::String(argument.to_string()), start + 1)],
        },
        start,
    )
}

#[test]
fn names_must_be_listed_exactly() {
    assert!(permission_allows_name(&PermissionValue::All, "HOME"));
    assert!(!permission_allows_name(&PermissionValue::Nothing, "HOME"));
    assert!(permission_allows_name(&patterns(&["PATH", "HOME"]), "HOME"));
    assert!(!permission_allows_name(&patterns(&["HOME*"]), "HOME2"));
}

#[test]
fn paths_match_as_written_or_from_the_root() {
    let sources = patterns(&["src/**"]);
    assert!(permission_allows_path(&sources, "/proj", "src/a.gs"));
    assert!(permission_allows_path(&sources, "/proj", "./src/a.gs"));
    assert!(permission_allows_path(&sources, "/proj", "/proj/src/a.gs"));
    assert!(!permission_allows_path(&sources, "/proj", "/other/src/a.gs"));
    assert!(!permission_allows_path(&sources, "/proj", "docs/a.md"));
    assert!(permission_allows_path(&PermissionValue::All, "/proj", "docs/a.md"));
    assert!(!permission_allows_path(&PermissionValue::Nothing, "/proj", "src/a.gs"));
}

#[test]
fn unknown_packages_may_read_nothing() {
    let packages = vec![package(PermissionValue::All, PermissionValue::All)];
    assert!(can_read_fs(&packages, 0, "anything"));
    assert!(can_read_env(&packages, 0, "HOME"));
    assert!(!can_read_fs(&packages, 1, "anything"));
    assert!(!can_read_env(&packages, 1, "HOME"));
}

#[test]
fn permission_queries_are_answered() {
    let packages = vec![package(patterns(&["assets/*.txt"]), patterns(&["HOME"]))];
    let fs = query("comptime.permissions.fs.canRead", "assets/a.txt", 0);
    assert_eq!(comptime_permission_value(&fs, 0, &packages), Some(true));
    let fs_denied = query("comptime.permissions.fs.canRead", "assets/deep/a.txt", 0);
    assert_eq!(comptime_permission_value(&fs_denied, 0, &packages), Some(false));
    let env = query("comptime.permissions.env.canRead", "PATH", 0);
    assert_eq!(comptime_permission_value(&env, 0, &packages), Some(false));
    let other = query("comptime.permissions.net.canRead", "x", 0);
    assert_eq!(comptime_permission_value(&other, 0, &packages), None);
    let two_args = expr(
        ExprKind::Call {
            callee: Box::new(path_expr("comptime.permissions.env.canRead", 0)),
            args: vec![expr(ExprKind::String("A".to_string()), 1), expr(ExprKind::String("B".to_string()), 2)],
        },
        0,
    );
    assert_eq!(comptime_permission_value(&two_args, 0, &packages), None);
    let not_literal = expr(
        ExprKind::Call {
            callee: Box::new(path_expr("comptime.permissions.env.canRead", 0)),
            args: vec![expr(ExprKind::Identifier("name".to_string()), 1)],
        },
        0,
    );
    assert_eq!(comptime_permission_value(&not_literal, 0, &packages), None);
}

#[test]
fn runner_code_loses_comptime_markers_and_queries() {
    let packages = vec![package(PermissionValue::All, PermissionValue::Nothing)];
    let inner = expr(
        ExprKind::Binary {
            left: Box::new(query("comptime.permissions.fs.canRead", "a", 5)),
            op: BinaryOp::LogicalAnd,
            right: Box::new(query("comptime.permissions.env.canRead", "HOME", 9)),
        },
        4,
    );
    let mut marked = expr(ExprKind::Comptime(Box::new(inner)), 1);
    prepare_runner_expr(&mut marked, 0, &packages);
    assert_eq!(marked.span, at(4));
    match &marked.kind {
        ExprKind::Binary { left, op, right } => {
            assert_eq!(*op, BinaryOp::LogicalAnd);
            assert!(matches!(left.kind, ExprKind::Bool(true)));
            assert_eq!(left.span, at(5));
            assert!(matches!(right.kind, ExprKind::Bool(false)));
            assert_eq!(right.span, at(9));
        }
        other => panic!("unexpected {:?}", other),
    }
}

#[test]
fn runner_functions_are_prepared_throughout() {
    let packages = vec![package(PermissionValue::All, PermissionValue::All)];
    let body = Block {
        statements: vec![Stmt {
            kind: StmtKind::Return {
                value: Some(expr(ExprKind::Comptime(Box::new(expr(ExprKind::Number("7".to_string()), 3))), 2)),
            },
            span: at(1),
        }],
        span: at(0),
    };
    let mut item = Item::Function(FunctionDecl {
        name: Some("main".to_string()),
        exported: false,
        type_params: Vec::new(),
        type_param_bounds: Vec::new(),
        params: Vec::new(),
        return_type: None,
        body: FunctionBody::Block(body),
        span: at(0),
    });
    prepare_runner_item(&mut item, 0, &packages);
    let Item::Function(function) = &item else { panic!("not a function") };
    assert_eq!(function.name.as_deref(), Some("main"));
    let FunctionBody::Block(block) = &function.body else { panic!("not a block") };
    match &block.statements[0].kind {
        StmtKind::Return { value: Some(value) } => {
            assert!(matches!(&value.kind, ExprKind::Number(n) if n == "7"));
            assert_eq!(value.span, at(3));
        }
        other => panic!("unexpected {:?}", other),
    }
}
