use gustc::ast::{Block, Expr, ExprKind, FunctionBody, FunctionDecl, Item, Stmt, StmtKind, StructInitField, TypeRef};
use gustc::diagnostic::Severity;
use gustc::project::rewrite::{resolve_qualified_name, Export, ModuleRewriter};
use gustc::span::Span;

fn pairs(entries: &[(&str, &str)]) -> Vec<(String, String)> {
    entries.iter().map(|(a, b)| (a.to_string(), b.to_string())).collect()
}

fn ident(name: &str, start: usize) -> Expr {
    Expr { kind: ExprKind::Identifier(name.to_string()), span: Span::new(start, start + name.len()) }
}

fn member(object: Expr, name: &str, span: Span) -> Expr {
    Expr { kind: ExprKind::Member { object: Box::new(object), name: name.to_string() }, span }
}

struct Names {
    local_names: Vec<(String, String)>,
    visible_names: Vec<(String, String)>,
    local_extensions: Vec<(String, String)>,
    visible_extensions: Vec<(String, String)>,
    namespaces: Vec<(String, usize)>,
    exports: Vec<Vec<(String, Export)>>,
}

fn names() -> Names {
    Names {
        local_names: pairs(&[("main", "module_m::main"), ("run", "module_m::run")]),
        visible_names: pairs(&[("Point", "module_x::Point"), ("helper", "module_x::helper")]),
        local_extensions: pairs(&[("size", "module_m_ext::size")]),
        visible_extensions: pairs(&[("len", "module_ext::len")]),
        namespaces: vec![("geo".to_string(), 0)],
        exports: vec![vec![
            ("Circle".to_string(), Export { internal_name: "module_geo::Circle".to_string(), package: 0, extension: false }),
            ("area".to_string(), Export { internal_name: "module_geo::area".to_string(), package: 0, extension: true }),
        ]],
    }
}

fn rewriter(names: &Names, entry: bool) -> ModuleRewriter<'_> {
    ModuleRewriter::new(
        &names.local_names,
        &names.visible_names,
        &names.local_extensions,
        &names.visible_extensions,
        &names.namespaces,
        &names.exports,
        Vec::new(),
        entry,
    )
}

#[test]
fn identifiers_take_visible_names_unless_local() {
    let names = names();
    let mut r = rewriter(&names, false);
    let mut expr = ident("helper", 0);
    r.rewrite_expr(&mut expr);
    assert!(matches!(&expr.kind, ExprKind::Identifier(n) if n == "module_x::helper"));
    r.scopes.push(vec!["helper".to_string()]);
    let mut expr = ident("helper", 0);
    r.rewrite_expr(&mut expr);
    assert!(matches!(&expr.kind, ExprKind::Identifier(n) if n == "helper"));
    assert!(r.diagnostics.is_empty());
}

#[test]
fn namespace_member_becomes_internal_name() {
    let names = names();
    let mut r = rewriter(&names, false);
    let mut expr = member(ident("geo", 0), "Circle", Span::new(0, 10));
    r.rewrite_expr(&mut expr);
    assert!(matches!(&expr.kind, ExprKind::Identifier(n) if n == "module_geo::Circle"));
    assert_eq!(expr.span, Span::new(0, 10));
    assert!(r.diagnostics.is_empty());
}

#[test]
fn missing_namespace_member_is_reported() {
    let names = names();
    let mut r = rewriter(&names, false);
    let mut expr = member(ident("geo", 0), "Square", Span::new(0, 10));
    r.rewrite_expr(&mut expr);
    assert_eq!(r.diagnostics.len(), 1);
    assert_eq!(r.diagnostics[0].severity, Severity::Error);
    assert_eq!(r.diagnostics[0].span, Span::new(0, 10));
    assert_eq!(r.diagnostics[0].message, "module namespace `geo` does not export `Square`");
    assert!(matches!(&expr.kind, ExprKind::Member { name, .. } if name == "Square"));
}

#[test]
fn extension_through_namespace_is_reported() {
    let names = names();
    let mut r = rewriter(&names, false);
    let mut expr = member(ident("geo", 0), "area", Span::new(0, 8));
    r.rewrite_expr(&mut expr);
    assert_eq!(r.diagnostics.len(), 1);
    assert_eq!(
        r.diagnostics[0].message,
        "extension function `area` must be imported by name to participate in method lookup"
    );
}

#[test]
fn called_method_takes_extension_name() {
    let names = names();
    let mut r = rewriter(&names, false);
    let callee = member(ident("items", 0), "len", Span::new(0, 9));
    let mut expr = Expr { kind: ExprKind::Call { callee: Box::new(callee), args: vec![ident("helper", 10)] }, span: Span::new(0, 17) };
    r.rewrite_expr(&mut expr);
    match &expr.kind {
        ExprKind::Call { callee, args } => {
            assert!(matches!(&callee.kind, ExprKind::Member { name, .. } if name == "module_ext::len"));
            assert!(matches!(&args[0].kind, ExprKind::Identifier(n) if n == "module_x::helper"));
        }
        other => panic!("unexpected {:?}", other),
    }
}

#[test]
fn struct_literals_take_global_names() {
    let names = names();
    let mut r = rewriter(&names, false);
    let mut expr = Expr {
        kind: ExprKind::StructInit {
            name: "geo.Circle".to_string(),
            args: Vec::new(),
            fields: vec![StructInitField { name: "r".to_string(), value: ident("helper", 12), span: Span::new(10, 20) }],
        },
        span: Span::new(0, 21),
    };
    r.rewrite_expr(&mut expr);
    match &expr.kind {
        ExprKind::StructInit { name, fields, .. } => {
            assert_eq!(name, "module_geo::Circle");
            assert!(matches!(&fields[0].value.kind, ExprKind::Identifier(n) if n == "module_x::helper"));
        }
        other => panic!("unexpected {:?}", other),
    }
}

#[test]
fn type_parameters_stay_local() {
    let names = names();
    let mut r = rewriter(&names, false);
    r.scopes.push(vec!["T".to_string()]);
    let mut type_ref = TypeRef {
        name: "Point".to_string(),
        args: vec![TypeRef { name: "T".to_string(), args: Vec::new(), bindings: Vec::new(), function: None, span: Span::new(6, 7) }],
        bindings: Vec::new(),
        function: None,
        span: Span::new(0, 8),
    };
    r.rewrite_type(&mut type_ref);
    assert_eq!(type_ref.name, "module_x::Point");
    assert_eq!(type_ref.args[0].name, "T");
}

fn function(name: &str, statements: Vec<Stmt>) -> FunctionDecl {
    FunctionDecl {
        name: Some(name.to_string()),
        exported: false,
        type_params: Vec::new(),
        type_param_bounds: Vec::new(),
        params: Vec::new(),
        return_type: None,
        body: FunctionBody::Block(Block { statements, span: Span::new(0, 40) }),
        span: Span::new(0, 40),
    }
}

#[test]
fn let_binding_shadows_later_uses() {
    let names = names();
    let mut r = rewriter(&names, false);
    let statements = vec![
        Stmt {
            kind: StmtKind::Let { name: "helper".to_string(), mutable: false, type_annotation: None, value: Some(ident("helper", 13)) },
            span: Span::new(0, 20),
        },
        Stmt { kind: StmtKind::Expr(ident("helper", 21)), span: Span::new(21, 27) },
    ];
    let mut item = Item::Function(function("run", statements));
    r.rewrite_item(&mut item);
    assert!(r.scopes.is_empty());
    match &item {
        Item::Function(f) => {
            assert_eq!(f.name.as_deref(), Some("module_m::run"));
            match &f.body {
                FunctionBody::Block(block) => {
                    match &block.statements[0].kind {
                        StmtKind::Let { value: Some(v), .. } => {
                            assert!(matches!(&v.kind, ExprKind::Identifier(n) if n == "module_x::helper"))
                        }
                        other => panic!("unexpected {:?}", other),
                    }
                    match &block.statements[1].kind {
                        StmtKind::Expr(e) => assert!(matches!(&e.kind, ExprKind::Identifier(n) if n == "helper")),
                        other => panic!("unexpected {:?}", other),
                    }
                }
                other => panic!("unexpected {:?}", other),
            }
        }
        other => panic!("unexpected {:?}", other),
    }
}

#[test]
fn entry_main_keeps_its_name() {
    let names = names();
    let mut r = rewriter(&names, true);
    let mut item = Item::Function(function("main", Vec::new()));
    r.rewrite_item(&mut item);
    assert!(matches!(&item, Item::Function(f) if f.name.as_deref() == Some("main")));
    let mut r = rewriter(&names, false);
    let mut item = Item::Function(function("main", Vec::new()));
    r.rewrite_item(&mut item);
    assert!(matches!(&item, Item::Function(f) if f.name.as_deref() == Some("module_m::main")));
}

#[test]
fn qualified_names_resolve_without_reporting() {
    let names = names();
    assert_eq!(resolve_qualified_name(&names.namespaces, &names.exports, "geo.Circle"), Some("module_geo::Circle".to_string()));
    assert_eq!(resolve_qualified_name(&names.namespaces, &names.exports, "geo.area"), None);
    assert_eq!(resolve_qualified_name(&names.namespaces, &names.exports, "geo.Nothing"), None);
    assert_eq!(resolve_qualified_name(&names.namespaces, &names.exports, "other.Circle"), None);
    assert_eq!(resolve_qualified_name(&names.namespaces, &names.exports, "Circle"), None);
}
