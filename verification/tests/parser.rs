use gustc::ast::{FunctionBody, Item, StructMember};
use gustc::diagnostic::Severity;
use gustc::parser::Parser;
use gustc::span::Span;
use gustc::token::{Keyword, Token, TokenKind};

/// Lays tokens out one after another, separated by one space.
fn tokens(parts: Vec<(TokenKind, &str)>) -> Vec<Token> {
    let mut position = 0;
    let mut tokens = Vec::new();
    for (kind, lexeme) in parts {
        tokens.push(Token { kind, span: Span::new(position, position + lexeme.len()), lexeme: lexeme.to_string() });
        position += lexeme.len() + 1;
    }
    tokens.push(Token { kind: TokenKind::Eof, span: Span::new(position, position), lexeme: String::new() });
    tokens
}

fn ident(name: &str) -> (TokenKind, &str) {
    (TokenKind::Identifier(name.to_string()), name)
}

#[test]
fn empty_stream_gives_empty_program() {
    let (program, diagnostics) = Parser::new(tokens(Vec::new())).parse();
    assert!(program.items.is_empty());
    assert!(diagnostics.is_empty());
}

#[test]
fn parses_empty_function() {
    let stream = tokens(vec![
        (TokenKind::Keyword(Keyword::Fn), "fn"),
        ident("main"),
        (TokenKind::LeftParen, "("),
        (TokenKind::RightParen, ")"),
        (TokenKind::LeftBrace, "{"),
        (TokenKind::RightBrace, "}"),
    ]);
    let (program, diagnostics) = Parser::new(stream).parse();
    assert!(diagnostics.is_empty(), "{:?}", diagnostics);
    assert_eq!(program.items.len(), 1);
    match &program.items[0] {
        Item::Function(function) => {
            assert_eq!(function.name.as_deref(), Some("main"));
            assert!(function.params.is_empty());
            assert!(function.return_type.is_none());
            match &function.body {
                FunctionBody::Block(block) => assert!(block.statements.is_empty()),
                other => panic!("unexpected {:?}", other),
            }
        }
        other => panic!("unexpected {:?}", other),
    }
}

#[test]
fn parses_struct_fields() {
    let stream = tokens(vec![
        (TokenKind::Keyword(Keyword::Struct), "struct"),
        ident("Point"),
        (TokenKind::LeftBrace, "{"),
        ident("x"),
        (TokenKind::Colon, ":"),
        ident("Int"),
        (TokenKind::Comma, ","),
        (TokenKind::Keyword(Keyword::Internal), "internal"),
        ident("y"),
        (TokenKind::Colon, ":"),
        ident("Int"),
        (TokenKind::RightBrace, "}"),
    ]);
    let (program, diagnostics) = Parser::new(stream).parse();
    assert!(diagnostics.is_empty(), "{:?}", diagnostics);
    match &program.items[0] {
        Item::Struct(decl) => {
            assert_eq!(decl.name, "Point");
            assert!(!decl.exported);
            assert_eq!(decl.members.len(), 2);
            match &decl.members[0] {
                StructMember::Field(field) => {
                    assert_eq!(field.name, "x");
                    assert!(!field.internal);
                    assert_eq!(field.type_ref.name, "Int");
                    assert_eq!(field.span, Span::new(15, 22));
                }
                other => panic!("unexpected {:?}", other),
            }
            match &decl.members[1] {
                StructMember::Field(field) => {
                    assert_eq!(field.name, "y");
                    assert!(field.internal);
                }
                other => panic!("unexpected {:?}", other),
            }
        }
        other => panic!("unexpected {:?}", other),
    }
}

#[test]
fn stray_token_reports_an_error() {
    let stream = tokens(vec![ident("oops"), (TokenKind::Keyword(Keyword::Fn), "fn"), ident("f"),
        (TokenKind::LeftParen, "("), (TokenKind::RightParen, ")"), (TokenKind::LeftBrace, "{"),
        (TokenKind::RightBrace, "}")]);
    let (program, diagnostics) = Parser::new(stream).parse();
    assert_eq!(diagnostics.len(), 1);
    assert_eq!(diagnostics[0].severity, Severity::Error);
    assert_eq!(diagnostics[0].message, "expected a top-level declaration");
    assert_eq!(diagnostics[0].span, Span::new(0, 4));
    assert_eq!(program.items.len(), 1);
    assert!(matches!(&program.items[0], Item::Function(f) if f.name.as_deref() == Some("f")));
}

#[test]
fn associated_type_outside_impl_is_an_error() {
    let stream = tokens(vec![(TokenKind::Keyword(Keyword::Type), "type"), ident("Item")]);
    let (program, diagnostics) = Parser::new(stream).parse();
    assert!(program.items.is_empty());
    assert_eq!(diagnostics.len(), 1);
    assert_eq!(
        diagnostics[0].message,
        "associated-type definitions are only allowed inside trait impls"
    );
}

#[test]
fn number_before_expression_function() {
    let stream = tokens(vec![
        (TokenKind::Number("42".to_string()), "42"),
        (TokenKind::Keyword(Keyword::Fn), "fn"),
        ident("f"),
        (TokenKind::LeftParen, "("),
        (TokenKind::RightParen, ")"),
        (TokenKind::FatArrow, "=>"),
        (TokenKind::Number("1".to_string()), "1"),
    ]);
    let (program, diagnostics) = Parser::new(stream).parse();
    assert_eq!(diagnostics.len(), 1);
    assert_eq!(diagnostics[0].severity, Severity::Error);
    assert_eq!(diagnostics[0].message, "expected a top-level declaration");
    assert_eq!(program.items.len(), 1);
    match &program.items[0] {
        Item::Function(f) => {
            assert_eq!(f.name.as_deref(), Some("f"));
            assert!(f.params.is_empty());
            match &f.body {
                FunctionBody::Expr(e) => assert!(matches!(&e.kind, gustc::ast::ExprKind::Number(n) if n == "1")),
                other => panic!("unexpected body {other:?}"),
            }
        }
        other => panic!("unexpected item {other:?}"),
    }
}

/// The body of the single expression function `fn f(<params>) => <body>`.
fn expression_body(params: Vec<(TokenKind, &str)>, body: Vec<(TokenKind, &str)>) -> (gustc::ast::Program, Vec<gustc::diagnostic::Diagnostic>) {
    let mut parts = vec![(TokenKind::Keyword(Keyword::Fn), "fn"), ident("f"), (TokenKind::LeftParen, "(")];
    parts.extend(params);
    parts.push((TokenKind::RightParen, ")"));
    parts.push((TokenKind::FatArrow, "=>"));
    parts.extend(body);
    Parser::new(tokens(parts)).parse()
}

fn body_expr(program: &gustc::ast::Program) -> &gustc::ast::Expr {
    match &program.items[0] {
        Item::Function(f) => match &f.body {
            FunctionBody::Expr(e) => e,
            other => panic!("unexpected body {other:?}"),
        },
        other => panic!("unexpected item {other:?}"),
    }
}

fn number(text: &str) -> (TokenKind, &str) {
    (TokenKind::Number(text.to_string()), text)
}

fn is_number(e: &gustc::ast::Expr, text: &str) -> bool {
    matches!(&e.kind, gustc::ast::ExprKind::Number(n) if n == text)
}

#[test]
fn subtraction_groups_to_the_left() {
    let (program, diagnostics) = expression_body(
        Vec::new(),
        vec![number("1"), (TokenKind::Minus, "-"), number("2"), (TokenKind::Minus, "-"), number("3")],
    );
    assert!(diagnostics.is_empty(), "{diagnostics:?}");
    match &body_expr(&program).kind {
        gustc::ast::ExprKind::Binary { left, op, right } => {
            assert_eq!(*op, gustc::ast::BinaryOp::Subtract);
            assert!(is_number(right, "3"));
            match &left.kind {
                gustc::ast::ExprKind::Binary { left, op, right } => {
                    assert_eq!(*op, gustc::ast::BinaryOp::Subtract);
                    assert!(is_number(left, "1"));
                    assert!(is_number(right, "2"));
                }
                other => panic!("unexpected {other:?}"),
            }
        }
        other => panic!("unexpected {other:?}"),
    }
}

#[test]
fn multiplication_binds_tighter_than_addition() {
    let (program, diagnostics) = expression_body(
        Vec::new(),
        vec![number("1"), (TokenKind::Plus, "+"), number("2"), (TokenKind::Star, "*"), number("3")],
    );
    assert!(diagnostics.is_empty(), "{diagnostics:?}");
    match &body_expr(&program).kind {
        gustc::ast::ExprKind::Binary { left, op, right } => {
            assert_eq!(*op, gustc::ast::BinaryOp::Add);
            assert!(is_number(left, "1"));
            match &right.kind {
                gustc::ast::ExprKind::Binary { left, op, right } => {
                    assert_eq!(*op, gustc::ast::BinaryOp::Multiply);
                    assert!(is_number(left, "2"));
                    assert!(is_number(right, "3"));
                }
                other => panic!("unexpected {other:?}"),
            }
        }
        other => panic!("unexpected {other:?}"),
    }
}

#[test]
fn less_than_after_a_name_is_a_comparison() {
    let (program, diagnostics) =
        expression_body(Vec::new(), vec![ident("a"), (TokenKind::Less, "<"), ident("b")]);
    assert!(diagnostics.is_empty(), "{diagnostics:?}");
    match &body_expr(&program).kind {
        gustc::ast::ExprKind::Binary { left, op, right } => {
            assert_eq!(*op, gustc::ast::BinaryOp::Less);
            assert!(matches!(&left.kind, gustc::ast::ExprKind::Identifier(n) if n == "a"));
            assert!(matches!(&right.kind, gustc::ast::ExprKind::Identifier(n) if n == "b"));
        }
        other => panic!("unexpected {other:?}"),
    }
}

#[test]
fn nested_type_arguments_split_the_closing_shift() {
    let (program, diagnostics) = expression_body(
        vec![
            ident("x"),
            (TokenKind::Colon, ":"),
            ident("List"),
            (TokenKind::Less, "<"),
            ident("List"),
            (TokenKind::Less, "<"),
            ident("i32"),
            (TokenKind::ShiftRight, ">>"),
        ],
        vec![ident("x")],
    );
    assert!(diagnostics.is_empty(), "{diagnostics:?}");
    match &program.items[0] {
        Item::Function(f) => {
            assert_eq!(f.params.len(), 1);
            let outer = f.params[0].type_ref.as_ref().expect("a parameter type");
            assert_eq!(outer.name, "List");
            assert!(outer.function.is_none());
            assert_eq!(outer.args.len(), 1);
            let inner = &outer.args[0];
            assert_eq!(inner.name, "List");
            assert_eq!(inner.args.len(), 1);
            assert_eq!(inner.args[0].name, "i32");
            assert!(inner.args[0].args.is_empty());
            // `List<List<i32>>` is laid out from 11, with `>>` at 29..31: the
            // inner list closes at its first `>`, the outer one at its second.
            assert_eq!(inner.span, Span::new(18, 30));
            assert_eq!(outer.span, Span::new(11, 31));
        }
        other => panic!("unexpected item {other:?}"),
    }
}

#[test]
fn function_type_with_parameters() {
    let (program, diagnostics) = expression_body(
        vec![
            ident("g"),
            (TokenKind::Colon, ":"),
            (TokenKind::Keyword(Keyword::Fn), "fn"),
            (TokenKind::LeftParen, "("),
            (TokenKind::Keyword(Keyword::Mut), "mut"),
            ident("A"),
            (TokenKind::Comma, ","),
            ident("B"),
            (TokenKind::RightParen, ")"),
            (TokenKind::Colon, ":"),
            ident("C"),
        ],
        vec![ident("g")],
    );
    assert!(diagnostics.is_empty(), "{diagnostics:?}");
    match &program.items[0] {
        Item::Function(f) => {
            let t = f.params[0].type_ref.as_ref().expect("a parameter type");
            assert_eq!(t.name, "fn");
            let function = t.function.as_ref().expect("a function type");
            assert_eq!(function.params.len(), 2);
            assert!(function.params[0].mutable);
            assert_eq!(function.params[0].type_ref.name, "A");
            assert!(!function.params[1].mutable);
            assert_eq!(function.params[1].type_ref.name, "B");
            assert_eq!(function.return_type.name, "C");
        }
        other => panic!("unexpected item {other:?}"),
    }
}

#[test]
fn two_functions_give_two_items() {
    let stream = tokens(vec![
        (TokenKind::Keyword(Keyword::Fn), "fn"),
        ident("f"),
        (TokenKind::LeftParen, "("),
        (TokenKind::RightParen, ")"),
        (TokenKind::FatArrow, "=>"),
        number("1"),
        (TokenKind::Keyword(Keyword::Fn), "fn"),
        ident("g"),
        (TokenKind::LeftParen, "("),
        (TokenKind::RightParen, ")"),
        (TokenKind::FatArrow, "=>"),
        number("2"),
    ]);
    let (program, diagnostics) = Parser::new(stream).parse();
    assert!(diagnostics.is_empty(), "{diagnostics:?}");
    assert_eq!(program.items.len(), 2);
    let names: Vec<Option<String>> = program
        .items
        .iter()
        .map(|item| match item {
            Item::Function(f) => f.name.clone(),
            other => panic!("unexpected item {other:?}"),
        })
        .collect();
    assert_eq!(names, vec![Some("f".to_string()), Some("g".to_string())]);
}

#[test]
fn import_with_alias_and_second_name() {
    let stream = tokens(vec![
        (TokenKind::Keyword(Keyword::From), "from"),
        ident("std"),
        (TokenKind::Keyword(Keyword::Import), "import"),
        (TokenKind::LeftBrace, "{"),
        ident("a"),
        (TokenKind::Keyword(Keyword::As), "as"),
        ident("b"),
        (TokenKind::Comma, ","),
        ident("c"),
        (TokenKind::RightBrace, "}"),
    ]);
    let (program, diagnostics) = Parser::new(stream).parse();
    assert!(diagnostics.is_empty(), "{diagnostics:?}");
    match &program.items[0] {
        Item::Import(import) => {
            assert_eq!(import.path, "std");
            assert!(import.namespace.is_none());
            assert_eq!(import.names.len(), 2);
            assert_eq!(import.names[0].name, "a");
            assert_eq!(import.names[0].alias.as_deref(), Some("b"));
            assert_eq!(import.names[1].name, "c");
            assert!(import.names[1].alias.is_none());
        }
        other => panic!("unexpected item {other:?}"),
    }
}

#[test]
fn enum_variants_with_and_without_payload() {
    let stream = tokens(vec![
        (TokenKind::Keyword(Keyword::Enum), "enum"),
        ident("E"),
        (TokenKind::LeftBrace, "{"),
        ident("A"),
        (TokenKind::LeftParen, "("),
        ident("i32"),
        (TokenKind::RightParen, ")"),
        (TokenKind::Comma, ","),
        ident("B"),
        (TokenKind::RightBrace, "}"),
    ]);
    let (program, diagnostics) = Parser::new(stream).parse();
    assert!(diagnostics.is_empty(), "{diagnostics:?}");
    match &program.items[0] {
        Item::Enum(decl) => {
            assert_eq!(decl.name, "E");
            assert_eq!(decl.variants.len(), 2);
            assert_eq!(decl.variants[0].name, "A");
            assert_eq!(decl.variants[0].payload.as_ref().map(|t| t.name.as_str()), Some("i32"));
            assert_eq!(decl.variants[1].name, "B");
            assert!(decl.variants[1].payload.is_none());
            assert!(decl.members.is_empty());
        }
        other => panic!("unexpected item {other:?}"),
    }
}
