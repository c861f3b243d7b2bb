use gustc::ast::{
    number_literal_is_float, Block, EnumDecl, Expr, ExprKind, FieldDecl, FunctionBody, FunctionDecl, Item, Param,
    Stmt, StmtKind, StructDecl, StructMember, TypeRef,
};
use gustc::monomorphize::reachability::{
    prune_generic_method_templates, prune_unused_generic_methods, MethodReachability,
};
use gustc::span::Span;

fn span() -> Span {
    Span::new(0, 0)
}

fn named(name: &str) -> TypeRef {
    TypeRef { name: name.to_string(), args: Vec::new(), bindings: Vec::new(), function: None, span: span() }
}

fn expr(kind: ExprKind) -> Expr {
    Expr { kind, span: span() }
}

fn ident(name: &str) -> Expr {
    expr(ExprKind::Identifier(name.to_string()))
}

fn method_call(object: Expr, name: &str) -> Expr {
    expr(ExprKind::Call {
        callee: Box::new(expr(ExprKind::Member { object: Box::new(object), name: name.to_string() })),
        args: Vec::new(),
    })
}

fn statement(kind: StmtKind) -> Stmt {
    Stmt { kind, span: span() }
}

fn function(name: &str, params: Vec<Param>, return_type: Option<TypeRef>, statements: Vec<Stmt>) -> FunctionDecl {
    FunctionDecl {
        name: Some(name.to_string()),
        exported: false,
        type_params: Vec::new(),
        type_param_bounds: Vec::new(),
        params,
        return_type,
        body: FunctionBody::Block(Block { statements, span: span() }),
        span: span(),
    }
}

fn param(name: &str, type_text: &str) -> Param {
    Param { name: name.to_string(), mutable: false, type_ref: Some(named(type_text)), span: span() }
}

fn field(name: &str, type_text: &str) -> StructMember {
    StructMember::Field(FieldDecl { name: name.to_string(), internal: false, type_ref: named(type_text), span: span() })
}

fn structure(name: &str, type_params: Vec<&str>, members: Vec<StructMember>) -> Item {
    Item::Struct(StructDecl {
        name: name.to_string(),
        exported: false,
        type_params: type_params.iter().map(|p| p.to_string()).collect(),
        type_param_bounds: Vec::new(),
        members,
        span: span(),
    })
}

fn member_names(item: &Item) -> Vec<String> {
    let members = match item {
        Item::Struct(decl) => &decl.members,
        Item::Enum(decl) => &decl.members,
        _ => return Vec::new(),
    };
    members
        .iter()
        .map(|member| match member {
            StructMember::Field(field) => format!("field {}", field.name),
            StructMember::Method(function) => format!("method {}", function.name.clone().unwrap_or_default()),
            StructMember::StaticMethod(function) => {
                format!("static {}", function.name.clone().unwrap_or_default())
            }
        })
        .collect()
}

fn has_key(keys: &[(String, String, bool)], owner: &str, name: &str, static_: bool) -> bool {
    keys.iter().any(|key| key.0 == owner && key.1 == name && key.2 == static_)
}

/// `Box` is generic with methods `get` (which calls `helper`), `helper`,
/// `unused` and static `make`; `main` builds a `Box` by `Box.make()` and calls
/// `get` on a local declared as `Box`.
fn program() -> Vec<Item> {
    let get = function(
        "get",
        Vec::new(),
        Some(named("Int")),
        vec![statement(StmtKind::Return { value: Some(method_call(ident("self"), "helper")) })],
    );
    let helper = function("helper", Vec::new(), Some(named("Int")), Vec::new());
    let unused = function("unused", Vec::new(), None, Vec::new());
    let make = function("make", Vec::new(), Some(named("Self")), Vec::new());
    let boxed = structure(
        "Box",
        vec!["T"],
        vec![
            field("value", "T"),
            StructMember::Method(get),
            StructMember::Method(helper),
            StructMember::Method(unused),
            StructMember::StaticMethod(make),
        ],
    );
    let main = function(
        "main",
        Vec::new(),
        None,
        vec![
            statement(StmtKind::Let {
                name: "b".to_string(),
                mutable: false,
                type_annotation: Some(named("Box")),
                value: Some(method_call(ident("Box"), "make")),
            }),
            statement(StmtKind::Expr(method_call(ident("b"), "get"))),
        ],
    );
    vec![boxed, Item::Function(main)]
}

#[test]
fn reachability_follows_calls_into_generic_methods() {
    let items = program();
    let generic = vec!["Box".to_string()];
    let found = MethodReachability::new(&items, &generic).find(&items);
    assert!(has_key(&found, "Box", "make", true));
    assert!(has_key(&found, "Box", "get", false));
    assert!(has_key(&found, "Box", "helper", false));
    assert!(!has_key(&found, "Box", "unused", false));
    assert_eq!(found.len(), 3);
}

#[test]
fn reachability_tables_record_shapes() {
    let items = program();
    let generic = vec!["Box".to_string()];
    let reachability = MethodReachability::new(&items, &generic);
    assert_eq!(reachability.structs.len(), 1);
    assert_eq!(reachability.structs[0].0, "Box");
    assert_eq!(reachability.structs[0].1.fields, vec![("value".to_string(), "T".to_string())]);
    assert_eq!(reachability.structs[0].1.static_methods, vec![("make".to_string(), Some("Box".to_string()))]);
    assert_eq!(reachability.functions, vec![("main".to_string(), None)]);
    assert_eq!(reachability.generic_methods.len(), 4);
}

#[test]
fn pruning_drops_methods_never_called() {
    let mut items = program();
    let generic = vec!["Box".to_string()];
    prune_unused_generic_methods(&mut items, &generic);
    assert_eq!(member_names(&items[0]), vec!["field value", "method get", "method helper", "static make"]);
}

#[test]
fn pruning_leaves_structs_that_are_not_generic() {
    let mut items = program();
    prune_unused_generic_methods(&mut items, &Vec::new());
    assert_eq!(
        member_names(&items[0]),
        vec!["field value", "method get", "method helper", "method unused", "static make"]
    );
}

#[test]
fn call_on_unknown_receiver_keeps_every_method_of_that_name() {
    let show = function("show", Vec::new(), None, Vec::new());
    let other_show = function("show", Vec::new(), None, Vec::new());
    let first = structure("First", vec!["T"], vec![StructMember::Method(show)]);
    let second = structure("Second", vec!["T"], vec![StructMember::Method(other_show)]);
    let main = function(
        "main",
        vec![Param { name: "x".to_string(), mutable: false, type_ref: None, span: span() }],
        None,
        vec![statement(StmtKind::Expr(method_call(ident("x"), "show")))],
    );
    let items = vec![first, second, Item::Function(main)];
    let generic = vec!["First".to_string(), "Second".to_string()];
    let found = MethodReachability::new(&items, &generic).find(&items);
    assert!(has_key(&found, "First", "show", false));
    assert!(has_key(&found, "Second", "show", false));
    assert_eq!(found.len(), 2);
}

#[test]
fn typed_parameter_selects_the_owner() {
    let show = function("show", Vec::new(), None, Vec::new());
    let other_show = function("show", Vec::new(), None, Vec::new());
    let first = structure("First", vec!["T"], vec![StructMember::Method(show)]);
    let second = structure("Second", vec!["T"], vec![StructMember::Method(other_show)]);
    let main = function(
        "main",
        vec![param("x", "Second")],
        None,
        vec![statement(StmtKind::Expr(method_call(ident("x"), "show")))],
    );
    let items = vec![first, second, Item::Function(main)];
    let generic = vec!["First".to_string(), "Second".to_string()];
    let found = MethodReachability::new(&items, &generic).find(&items);
    assert_eq!(found, vec![("Second".to_string(), "show".to_string(), false)]);
}

#[test]
fn field_types_lead_to_methods() {
    let get = function("get", Vec::new(), None, Vec::new());
    let inner = structure("Inner", vec!["T"], vec![StructMember::Method(get)]);
    let outer = structure("Outer", Vec::new(), vec![field("inner", "Inner")]);
    let object = expr(ExprKind::Member { object: Box::new(ident("o")), name: "inner".to_string() });
    let main = function(
        "main",
        vec![param("o", "Outer")],
        None,
        vec![statement(StmtKind::Expr(method_call(object, "get")))],
    );
    let items = vec![inner, outer, Item::Function(main)];
    let generic = vec!["Inner".to_string()];
    let found = MethodReachability::new(&items, &generic).find(&items);
    assert_eq!(found, vec![("Inner".to_string(), "get".to_string(), false)]);
}

#[test]
fn clone_keeps_the_receiver_type() {
    let get = function("get", Vec::new(), None, Vec::new());
    let boxed = structure("Box", vec!["T"], vec![StructMember::Method(get)]);
    let cloned = method_call(ident("b"), "clone");
    let main = function(
        "main",
        vec![param("b", "Box")],
        None,
        vec![statement(StmtKind::Expr(method_call(cloned, "get")))],
    );
    let items = vec![boxed, Item::Function(main)];
    let generic = vec!["Box".to_string()];
    let found = MethodReachability::new(&items, &generic).find(&items);
    assert_eq!(found, vec![("Box".to_string(), "get".to_string(), false)]);
}

#[test]
fn enum_methods_are_tracked_too() {
    let size = function("size", Vec::new(), None, Vec::new());
    let unused = function("unused", Vec::new(), None, Vec::new());
    let option = Item::Enum(EnumDecl {
        name: "Option".to_string(),
        exported: false,
        type_params: vec!["T".to_string()],
        type_param_bounds: Vec::new(),
        variants: Vec::new(),
        members: vec![StructMember::Method(size), StructMember::Method(unused)],
        span: span(),
    });
    let main = function(
        "main",
        vec![param("o", "Option")],
        None,
        vec![statement(StmtKind::Expr(method_call(ident("o"), "size")))],
    );
    let mut items = vec![option, Item::Function(main)];
    prune_unused_generic_methods(&mut items, &vec!["Option".to_string()]);
    assert_eq!(member_names(&items[0]), vec!["method size"]);
}

#[test]
fn method_templates_with_type_parameters_go() {
    let mut templated = function("map", Vec::new(), None, Vec::new());
    templated.type_params.push("U".to_string());
    let plain = function("len", Vec::new(), None, Vec::new());
    let mut items = vec![
        structure("List", Vec::new(), vec![field("size", "Int"), StructMember::Method(templated), StructMember::Method(plain)]),
        Item::Function(function("main", Vec::new(), None, Vec::new())),
    ];
    prune_generic_method_templates(&mut items);
    assert_eq!(member_names(&items[0]), vec!["field size", "method len"]);
    prune_generic_method_templates(&mut items);
    assert_eq!(member_names(&items[0]), vec!["field size", "method len"]);
}

#[test]
fn number_literals_with_point_or_exponent_are_floats() {
    assert!(number_literal_is_float("1.5"));
    assert!(number_literal_is_float("2e10"));
    assert!(!number_literal_is_float("42"));
    assert!(!number_literal_is_float("0xFE"));
}
