use gustc::ast::{Block, Expr, ExprKind, FunctionBody, FunctionDecl, Item, Program, Stmt, StmtKind};
use gustc::diagnostic::{Diagnostic, Severity};
use gustc::project::comptime::ComptimeValue;
use gustc::project::comptime_expand::{apply_site_result, site_blocker};
use gustc::project::comptime_reads::RuntimeLocalUse;
use gustc::project::comptime_sites::ComptimeSite;
use gustc::span::Span;

fn at(start: usize) -> Span {
    Span::new(start, start + 1)
}

fn read(name: &str, start: usize) -> RuntimeLocalUse {
    RuntimeLocalUse { name: name.to_string(), span: at(start) }
}

fn site<'a>(expr: &'a Expr, locals: Vec<RuntimeLocalUse>, statics: Vec<RuntimeLocalUse>) -> ComptimeSite<'a> {
    ComptimeSite {
        id: 0,
        package: 0,
        span: expr.span,
        expr,
        direct_static_name: None,
        runtime_local_uses: locals,
        runtime_static_uses: statics,
    }
}

fn program() -> Program {
    let value = Expr {
        kind: ExprKind::Comptime(Box::new(Expr { kind: ExprKind::Number("1".to_string()), span: at(6) })),
        span: at(5),
    };
    let statement = Stmt {
        kind: StmtKind::Let { name: "x".to_string(), mutable: false, type_annotation: None, value: Some(value) },
        span: at(1),
    };
    Program {
        items: vec![Item::Function(FunctionDecl {
            name: Some("main".to_string()),
            exported: false,
            type_params: Vec::new(),
            type_param_bounds: Vec::new(),
            params: Vec::new(),
            return_type: None,
            body: FunctionBody::Block(Block { statements: vec![statement], span: at(0) }),
            span: at(0),
        })],
    }
}

fn let_value(program: &Program) -> &Expr {
    match &program.items[0] {
        Item::Function(FunctionDecl { body: FunctionBody::Block(block), .. }) => match &block.statements[0].kind {
            StmtKind::Let { value: Some(value), .. } => value,
            other => panic!("unexpected {:?}", other),
        },
        other => panic!("unexpected {:?}", other),
    }
}

#[test]
fn a_runtime_local_read_blocks_a_site() {
    let expr = Expr { kind: ExprKind::Missing, span: at(3) };
    let blocked = site_blocker(&site(&expr, vec![read("count", 4), read("other", 5)], Vec::new()), &Vec::new()).unwrap();
    assert_eq!(blocked.severity, Severity::Error);
    assert_eq!(blocked.span, at(4));
    assert_eq!(
        blocked.message,
        "`comptime` expressions cannot read runtime local `count`; comptime code is compiled and run during compilation, before locals from the surrounding runtime scope exist. Move `count` into the comptime block, make it a top-level `let` initialized by `comptime`, or compute this value at runtime outside `comptime`."
    );
}

#[test]
fn only_unexpanded_statics_block_a_site() {
    let expr = Expr { kind: ExprKind::Missing, span: at(3) };
    let statics = vec![read("READY", 7), read("LATER", 8)];
    let expanded = vec!["READY".to_string()];
    let blocked = site_blocker(&site(&expr, Vec::new(), statics), &expanded).unwrap();
    assert_eq!(blocked.span, at(8));
    assert_eq!(
        blocked.message,
        "`comptime` expressions cannot read runtime static `LATER`; top-level `let` initializers run at runtime, so their values are not available while compiling. Initialize `LATER` with `comptime` first, or move the computation out of `comptime`."
    );
    let all = vec!["READY".to_string(), "LATER".to_string()];
    assert!(site_blocker(&site(&expr, Vec::new(), vec![read("READY", 7), read("LATER", 8)]), &all).is_none());
    assert!(site_blocker(&site(&expr, Vec::new(), Vec::new()), &Vec::new()).is_none());
}

#[test]
fn a_value_takes_the_place_of_its_site() {
    let mut program = program();
    let mut expanded: Vec<String> = Vec::new();
    let mut diagnostics: Vec<Diagnostic> = Vec::new();
    let name = Some("ANSWER".to_string());
    let proceed = apply_site_result(
        &mut program,
        at(5),
        &name,
        Ok(ComptimeValue::Number("42".to_string())),
        &Vec::new(),
        &mut expanded,
        &mut diagnostics,
    );
    let value = let_value(&program);
    assert!(matches!(&value.kind, ExprKind::Number(n) if n == "42"));
    assert_eq!(value.span, at(5));
    assert!(diagnostics.is_empty());
    assert_eq!(expanded, vec!["ANSWER".to_string()]);
    assert!(proceed);
}

#[test]
fn failures_become_errors_at_the_site() {
    let mut program = program();
    let mut expanded: Vec<String> = Vec::new();
    let mut diagnostics: Vec<Diagnostic> = Vec::new();
    let proceed = apply_site_result(
        &mut program,
        at(5),
        &None,
        Err("runner failed".to_string()),
        &Vec::new(),
        &mut expanded,
        &mut diagnostics,
    );
    apply_site_result(
        &mut program,
        at(5),
        &None,
        Ok(ComptimeValue::Unsupported("cannot embed a pointer".to_string())),
        &Vec::new(),
        &mut expanded,
        &mut diagnostics,
    );
    assert!(!proceed);
    assert_eq!(diagnostics.len(), 2);
    assert_eq!(diagnostics[0].message, "runner failed");
    assert_eq!(diagnostics[0].span, at(5));
    assert_eq!(diagnostics[1].message, "cannot embed a pointer");
    assert_eq!(diagnostics[1].severity, Severity::Error);
    assert!(matches!(let_value(&program).kind, ExprKind::Comptime(_)));
    assert!(expanded.is_empty());
}
