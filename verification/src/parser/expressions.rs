use vstd::prelude::*;

use super::{expression_path, Parser};
use super::cursor::spec_previous_span;
use super::types::{expected_kind, reported_with, type_args_parsed};
use super::spec_expression_path;
use super::declarations::{function_tail_parsed, lambda_parsed};
use super::patterns::pattern_parsed;
use super::statements::block_parsed;
use crate::ast::{
    BinaryOp, Block, Expr, ExprKind, MatchBranch, MatchBranchBody, Stmt, StmtKind, StructInitField, TypeRef,
    UnaryOp,
};
use crate::diagnostic::{Diagnostic, Severity};
use crate::span::{spec_join, Span};
use crate::token::{Keyword, TokenKind};

verus! {

/// The binary operator that a token spells, with its precedence.
pub open spec fn binary_op_of(kind: TokenKind) -> Option<(BinaryOp, u8)> {
    match kind {
        TokenKind::Plus => Some((BinaryOp::Add, 10)),
        TokenKind::Minus => Some((BinaryOp::Subtract, 10)),
        TokenKind::Star => Some((BinaryOp::Multiply, 11)),
        TokenKind::Slash => Some((BinaryOp::Divide, 11)),
        TokenKind::Percent => Some((BinaryOp::Remainder, 11)),
        TokenKind::Ampersand => Some((BinaryOp::BitwiseAnd, 8)),
        TokenKind::Pipe => Some((BinaryOp::BitwiseOr, 6)),
        TokenKind::Caret => Some((BinaryOp::BitwiseXor, 7)),
        TokenKind::ShiftLeft => Some((BinaryOp::ShiftLeft, 9)),
        TokenKind::ShiftRight => Some((BinaryOp::ShiftRight, 9)),
        TokenKind::AndAnd => Some((BinaryOp::LogicalAnd, 3)),
        TokenKind::OrOr => Some((BinaryOp::LogicalOr, 2)),
        TokenKind::EqualEqual => Some((BinaryOp::Equal, 4)),
        TokenKind::BangEqual => Some((BinaryOp::NotEqual, 4)),
        TokenKind::Less => Some((BinaryOp::Less, 5)),
        TokenKind::LessEqual => Some((BinaryOp::LessEqual, 5)),
        TokenKind::Greater => Some((BinaryOp::Greater, 5)),
        TokenKind::GreaterEqual => Some((BinaryOp::GreaterEqual, 5)),
        _ => None,
    }
}

/// Parsing consumed at least one token, unless the input was already at `Eof`.
pub(crate) open spec fn consumed_unless_eof(new: Parser, old: Parser) -> bool {
    !(old.cur().kind is Eof) ==> new.measure() < old.measure()
}

/// The precedence just above that of the binary operator at `p`.
pub(crate) open spec fn next_precedence(p: Parser) -> u8 {
    match binary_op_of(p.cur().kind) {
        Some((_, precedence)) => (precedence + 1) as u8,
        None => 0,
    }
}

/// No binary operator at or above `min` stands at `p`.
pub(crate) open spec fn stops_binary(p: Parser, min: u8) -> bool {
    match binary_op_of(p.cur().kind) {
        Some((_, precedence)) => precedence < min,
        None => true,
    }
}

/// One step of precedence climbing, apart from parsing the right operand: at
/// `mid` an operator at or above `min`, consumed to `a1`; the operand `right`
/// parsed from `a1` ends at `cur`; `left` joins `l0`, the operator and `right`.
pub(crate) open spec fn binary_step(
    m: nat,
    min: u8,
    mid: Parser,
    l0: Expr,
    a1: Parser,
    right: Expr,
    cur: Parser,
    left: Expr,
) -> bool {
    &&& mid.measure() <= m
    &&& a1.measure() < m
    &&& cur.measure() < mid.measure()
    &&& a1.stepped(mid)
    &&& match binary_op_of(mid.cur().kind) {
        Some((op, precedence)) => precedence >= min && left == (Expr {
            kind: ExprKind::Binary { left: Box::new(l0), op, right: Box::new(right) },
            span: spec_join(l0.span, right.span),
        }),
        None => false,
    }
}

/// From `p`, a unary operand and then operators at or above `min`, each with
/// a right operand parsed at the next precedence, give `left` and reach `cur`:
/// operators of equal precedence group to the left.
pub(crate) open spec fn binary_upto(p: Parser, min: u8, left: Expr, cur: Parser) -> bool
    decreases p.measure(), 5nat, p.measure() - cur.measure(),
{
    ||| unary_parsed(p, left, cur)
    ||| exists|mid: Parser, l0: Expr, a1: Parser, right: Expr|
        #[trigger] binary_step(p.measure(), min, mid, l0, a1, right, cur, left) && binary_upto(
            p,
            min,
            l0,
            mid,
        ) && binary_parsed(a1, next_precedence(mid), right, cur)
}

/// Precedence climbing from `p` over the operators at or above `min` gives `e`
/// and stops at `q`, where no such operator stands.
pub(crate) open spec fn binary_parsed(p: Parser, min: u8, e: Expr, q: Parser) -> bool
    decreases p.measure(), 6nat, 0int,
{
    binary_upto(p, min, e, q) && stops_binary(q, min)
}

/// A prefix `!` or `-` at `p`, consumed to `s`, applied to `operand`.
pub(crate) open spec fn unary_shape(p: Parser, s: Parser, operand: Expr, e: Expr) -> bool {
    &&& s.stepped(p)
    &&& s.measure() < p.measure()
    &&& e == (Expr {
        kind: ExprKind::Unary {
            op: if p.at_kind(TokenKind::Bang) {
                UnaryOp::Not
            } else {
                UnaryOp::Negate
            },
            operand: Box::new(operand),
        },
        span: spec_join(spec_previous_span(s.tokens@, s.position), operand.span),
    })
}

/// A unary expression from `p`: `!` or `-` before a unary expression, or a
/// postfix expression.
pub(crate) open spec fn unary_parsed(p: Parser, e: Expr, q: Parser) -> bool
    decreases p.measure(), 4nat, 0int,
{
    if p.at_kind(TokenKind::Bang) || p.at_kind(TokenKind::Minus) {
        exists|s: Parser, operand: Expr|
            #[trigger] unary_shape(p, s, operand, e) && unary_parsed(s, operand, q)
    } else {
        postfix_parsed(p, e, q)
    }
}

/// `..=` or `..` at `p`.
pub(crate) open spec fn at_range(p: Parser) -> bool {
    p.at_kind(TokenKind::DotDotEqual) || p.at_kind(TokenKind::DotDot)
}

/// A range from `p`: `start` ends at `s`; where `..=` or `..` follows, it is
/// consumed to `s1` and `end` ends at `q`, and `e` is the range; otherwise `e`
/// is `start` and `q` is `s`.
pub(crate) open spec fn range_shape(
    p: Parser,
    s: Parser,
    start: Expr,
    s1: Parser,
    end: Expr,
    e: Expr,
    q: Parser,
) -> bool {
    if at_range(s) {
        &&& s1.stepped(s)
        &&& s1.measure() < p.measure()
        &&& e == (Expr {
            kind: ExprKind::Range {
                start: Box::new(start),
                end: Box::new(end),
                inclusive: s.at_kind(TokenKind::DotDotEqual),
            },
            span: spec_join(start.span, end.span),
        })
    } else {
        e == start && q == s
    }
}

/// An expression from `p`, ranges included.
pub(crate) open spec fn range_parsed(p: Parser, e: Expr, q: Parser) -> bool
    decreases p.measure(), 7nat, 0int,
{
    exists|s: Parser, start: Expr, s1: Parser, end: Expr|
        #[trigger] range_shape(p, s, start, s1, end, e, q) && binary_parsed(p, 0, start, s) && (
        !at_range(s) || binary_parsed(s1, 0, end, q))
}

/// An expression from `p`.
pub(crate) open spec fn expression_parsed(p: Parser, e: Expr, q: Parser) -> bool
    decreases p.measure(), 8nat, 0int,
{
    range_parsed(p, e, q)
}

/// `p` with struct literals allowed or not.
pub(crate) open spec fn with_struct_init(p: Parser, allowed: bool) -> Parser {
    Parser { allow_struct_init: allowed, ..p }
}

/// An expression from `p` in which `Name { ... }` is no struct literal; the
/// parser then allows struct literals as it did before.
pub(crate) open spec fn condition_parsed(p: Parser, e: Expr, q: Parser) -> bool
    decreases p.measure(), 9nat, 0int,
{
    exists|q1: Parser|
        #[trigger] with_struct_init(q1, p.allow_struct_init) == q && expression_parsed(
            with_struct_init(p, false),
            e,
            q1,
        )
}

/// The parser stands where a comma-separated list closed by `close` stops: at
/// `Eof` or at `close`.
pub(crate) open spec fn ends_list(p: Parser, close: TokenKind) -> bool {
    p.cur().kind is Eof || p.at_kind(close)
}

/// One step of an expression list, apart from parsing the expression: `mid`
/// starts below measure `m` and not at the list's end, the expression `x`
/// parsed there ends `acc`, and the `,` at `b` is consumed, leaving `cur`
/// further on than `mid`.
pub(crate) open spec fn list_step(
    m: nat,
    close: TokenKind,
    mid: Parser,
    x: Expr,
    b: Parser,
    cur: Parser,
    acc: Seq<Expr>,
) -> bool {
    &&& mid.measure() < m
    &&& cur.measure() < mid.measure()
    &&& !ends_list(mid, close)
    &&& acc.len() > 0
    &&& acc.last() == x
    &&& b.at_kind(TokenKind::Comma)
    &&& cur.stepped(b)
}

/// From the opening token at `open`, after expressions each followed by `,`,
/// the parser stands at `cur` with the expressions `acc`. Each starts below
/// measure `m`.
pub(crate) open spec fn list_upto(
    m: nat,
    open: Parser,
    close: TokenKind,
    acc: Seq<Expr>,
    cur: Parser,
) -> bool
    decreases m, 0nat, m - cur.measure(),
{
    ||| acc.len() == 0 && cur.stepped(open)
    ||| exists|mid: Parser, x: Expr, b: Parser|
        #[trigger] list_step(m, close, mid, x, b, cur, acc) && expression_parsed(mid, x, b)
            && list_upto(m, open, close, acc.drop_last(), mid)
}

/// How an expression list that reached `cur` with `acc` stops at `s` with the
/// expressions `items`: at its end, or after a last expression `last`, parsed
/// from `cur` (below measure `m`), with no `,` after it.
pub(crate) open spec fn list_stop(
    m: nat,
    close: TokenKind,
    cur: Parser,
    acc: Seq<Expr>,
    last: Expr,
    s: Parser,
    items: Seq<Expr>,
) -> bool {
    if ends_list(cur, close) {
        s == cur && items == acc
    } else {
        cur.measure() < m && !s.at_kind(TokenKind::Comma) && items == acc.push(last)
    }
}

/// The name read at `p`, leaving `q`: an identifier, `from` where `callable`,
/// or otherwise `<missing>` with `message` reported.
pub(crate) open spec fn name_read(
    p: Parser,
    name: Seq<char>,
    q: Parser,
    callable: bool,
    message: Seq<char>,
) -> bool {
    if callable && p.at_keyword(Keyword::From) {
        name == "from"@ && q.stepped(p)
    } else {
        match p.cur().kind {
            TokenKind::Identifier(n) => name == n@ && q.stepped(p),
            _ => name == "<missing>"@ && reported_with(q, p, message),
        }
    }
}

/// The parenthesized expression at `p`: `(` consumed to `s1`, the expression
/// ending at `s`, then `)` (reported if missing), leaving `q`.
pub(crate) open spec fn paren_shape(p: Parser, s1: Parser, s: Parser, q: Parser) -> bool {
    &&& s1.stepped(p)
    &&& s1.measure() < p.measure()
    &&& expected_kind(q, s, TokenKind::RightParen, "`)`"@)
}

/// A primary expression from `p`: a literal or identifier, a parenthesized
/// expression, an array, a lambda (`fn` and the rest of a function) or a `match`; anything else is reported as
/// ``expected expression``, consumed, and gives a missing expression.
pub(crate) open spec fn primary_parsed(p: Parser, e: Expr, q: Parser) -> bool
    decreases p.measure(), 1nat, 0int,
{
    let token = p.cur();
    match token.kind {
        TokenKind::Identifier(name) => q.stepped(p) && e == (Expr {
            kind: ExprKind::Identifier(name),
            span: token.span,
        }),
        TokenKind::Number(value) => q.stepped(p) && e == (Expr {
            kind: ExprKind::Number(value),
            span: token.span,
        }),
        TokenKind::StringLiteral(value) => q.stepped(p) && e == (Expr {
            kind: ExprKind::String(value),
            span: token.span,
        }),
        TokenKind::CharLiteral(value) => q.stepped(p) && e == (Expr {
            kind: ExprKind::Char(value),
            span: token.span,
        }),
        TokenKind::Keyword(Keyword::True) => q.stepped(p) && e == (Expr {
            kind: ExprKind::Bool(true),
            span: token.span,
        }),
        TokenKind::Keyword(Keyword::False) => q.stepped(p) && e == (Expr {
            kind: ExprKind::Bool(false),
            span: token.span,
        }),
        TokenKind::LeftParen => exists|s1: Parser, s: Parser|
            #[trigger] paren_shape(p, s1, s, q) && expression_parsed(s1, e, s),
        TokenKind::LeftBracket => exists|cur: Parser, acc: Seq<Expr>, last: Expr, s: Parser|
            #[trigger] array_shape(p, cur, acc, last, s, e, q) && list_upto(
                p.measure(),
                p,
                TokenKind::RightBracket,
                acc,
                cur,
            ) && (ends_list(cur, TokenKind::RightBracket) || expression_parsed(cur, last, s)),
        TokenKind::Keyword(Keyword::Fn) => exists|s1: Parser|
            #[trigger] s1.stepped(p) && s1.measure() < p.measure() && (e.kind matches ExprKind::Lambda(f)
                && e.span == f.span && f.type_params@.len() == 0 && f.type_param_bounds@.len() == 0
                && function_tail_parsed(s1, p.cur().span, None, f.type_params, f.type_param_bounds, f, q)),
        TokenKind::Keyword(Keyword::Match) => exists|s1: Parser, s2: Parser, s3: Parser, cur: Parser|
            #[trigger] match_shape(p, s1, s2, s3, cur, e, q) && (e.kind matches ExprKind::Match {
                value,
                branches,
            } && condition_parsed(s1, *value, s2) && branches_upto(p.measure(), s3, branches@, cur)),
        _ => {
            &&& e == (Expr { kind: ExprKind::Missing, span: token.span })
            &&& q.tokens@ == p.tokens@
            &&& q.allow_struct_init == p.allow_struct_init
            &&& q.position == (if token.kind is Eof {
                p.position
            } else {
                (p.position + 1) as usize
            })
            &&& q.diagnostics@.len() == p.diagnostics@.len() + 1
            &&& q.diagnostics@.drop_last() == p.diagnostics@
            &&& q.diagnostics@.last().severity == Severity::Error
            &&& q.diagnostics@.last().span == token.span
            &&& q.diagnostics@.last().message@ == "expected expression"@
        },
    }
}

/// One branch of a `match`, apart from what it parses recursively: `mid`
/// starts below measure `m` and not at `}` or the end; the pattern leads to
/// `b1`; an optional `if` guard (from `b2`) to `b3`; `=>` (reported if missing)
/// to `b4`; then a block, a lone `break`, or an expression, ending at `b5`; a
/// `,` after it is consumed, leaving `cur` further on than `mid`.
pub(crate) open spec fn branch_step(
    m: nat,
    mid: Parser,
    b1: Parser,
    b2: Parser,
    b3: Parser,
    b4: Parser,
    b5: Parser,
    cur: Parser,
    branch: MatchBranch,
) -> bool {
    &&& mid.measure() < m
    &&& cur.measure() < mid.measure()
    &&& !ends_list(mid, TokenKind::RightBrace)
    &&& pattern_parsed(mid, branch.pattern, b1)
    &&& if b1.at_keyword(Keyword::If) {
        b2.stepped(b1) && b2.measure() < m && branch.guard is Some
    } else {
        branch.guard is None && b3 == b1
    }
    &&& expected_kind(b4, b3, TokenKind::FatArrow, "`=>`"@)
    &&& b4.measure() < m
    &&& if b4.at_kind(TokenKind::LeftBrace) {
        branch.body is Block
    } else if b4.at_keyword(Keyword::Break) {
        &&& b5.stepped(b4)
        &&& branch.body matches MatchBranchBody::Block(block) && block.span == b4.cur().span
            && block.statements@ == seq![Stmt { kind: StmtKind::Break, span: b4.cur().span }]
    } else {
        branch.body is Expr
    }
    &&& branch.span == spec_join(branch.pattern.spec_span(), branch.body.spec_span())
    &&& if b5.at_kind(TokenKind::Comma) {
        cur.stepped(b5)
    } else {
        cur == b5
    }
}

/// From `opened`, just inside `{`, after branches, the parser stands at `cur`
/// with the branches `acc`. Each starts below measure `m`.
pub(crate) open spec fn branches_upto(m: nat, opened: Parser, acc: Seq<MatchBranch>, cur: Parser) -> bool
    decreases m, 0nat, m - cur.measure(),
{
    ||| acc.len() == 0 && cur == opened
    ||| exists|mid: Parser, b1: Parser, b2: Parser, b3: Parser, b4: Parser, b5: Parser|
        #[trigger] branch_step(m, mid, b1, b2, b3, b4, b5, cur, acc.last()) && acc.len() > 0
            && (acc.last().guard matches Some(g) ==> expression_parsed(b2, g, b3)) && match acc.last().body {
            MatchBranchBody::Block(block) => b4.at_kind(TokenKind::LeftBrace) ==> block_parsed(b4, block, b5),
            MatchBranchBody::Expr(x) => expression_parsed(b4, *x, b5),
        } && branches_upto(m, opened, acc.drop_last(), mid)
}

/// A `match` at `p`: `match` to `s1`, the scrutinee (no struct literals) to
/// `s2`, `{` (reported if missing) to `s3`, the branches to `cur`, at `}` or the
/// end, and `}` (reported if missing) to `q`.
pub(crate) open spec fn match_shape(p: Parser, s1: Parser, s2: Parser, s3: Parser, cur: Parser, e: Expr, q: Parser) -> bool {
    &&& s1.stepped(p)
    &&& s1.measure() < p.measure()
    &&& expected_kind(s3, s2, TokenKind::LeftBrace, "`{`"@)
    &&& ends_list(cur, TokenKind::RightBrace)
    &&& expected_kind(q, cur, TokenKind::RightBrace, "`}`"@)
    &&& e.kind is Match
    &&& e.span == spec_join(p.cur().span, spec_previous_span(q.tokens@, q.position))
}

/// An array literal at `p`: its items, as `list_stop` gives them from `cur`,
/// `acc`, `last` and `s`, then `]` (reported if missing), leaving `q`; its span
/// runs from `[` to the token before `q`.
pub(crate) open spec fn array_shape(
    p: Parser,
    cur: Parser,
    acc: Seq<Expr>,
    last: Expr,
    s: Parser,
    e: Expr,
    q: Parser,
) -> bool {
    &&& expected_kind(q, s, TokenKind::RightBracket, "`]`"@)
    &&& e.kind matches ExprKind::Array(items) && list_stop(
        p.measure(),
        TokenKind::RightBracket,
        cur,
        acc,
        last,
        s,
        items@,
    ) && e.span == spec_join(p.cur().span, spec_previous_span(q.tokens@, q.position))
}

/// A call at `a` on `x0`: its arguments, as `list_stop` gives them from `cur`,
/// `acc`, `last` and `s`, then `)` (reported if missing), leaving `d`.
pub(crate) open spec fn call_shape(
    m: nat,
    a: Parser,
    x0: Expr,
    cur: Parser,
    acc: Seq<Expr>,
    last: Expr,
    s: Parser,
    x: Expr,
    d: Parser,
) -> bool {
    &&& expected_kind(d, s, TokenKind::RightParen, "`)`"@)
    &&& x.kind matches ExprKind::Call { callee, args } && *callee == x0 && list_stop(
        m,
        TokenKind::RightParen,
        cur,
        acc,
        last,
        s,
        args@,
    ) && x.span == spec_join(x0.span, spec_previous_span(d.tokens@, d.position))
}

/// A member access at `a` on `x0`: `.` consumed to `s`, then the member's name
/// (`from` allowed, `<missing>` reported), leaving `d`.
pub(crate) open spec fn member_shape(a: Parser, s: Parser, x0: Expr, x: Expr, d: Parser) -> bool {
    &&& s.stepped(a)
    &&& x.kind matches ExprKind::Member { object, name } && *object == x0 && name_read(
        s,
        name@,
        d,
        true,
        "expected member name"@,
    ) && x.span == spec_join(x0.span, s.cur().span)
}

/// The explicit type arguments at `a`, or, where no `<` stands there, an empty
/// list with the parser left at `a`.
pub(crate) open spec fn type_args_or_empty(a: Parser, r: Option<Vec<TypeRef>>, s: Parser) -> bool {
    if a.at_kind(TokenKind::Less) {
        type_args_parsed(a, r, s)
    } else {
        r matches Some(v) && v@.len() == 0 && s == a
    }
}

/// After `x0` at `a`, a `<` or (where struct literals are allowed) a `{` may
/// begin type arguments or a struct literal, tried on the path that `x0`
/// spells.
pub(crate) open spec fn tries_path(a: Parser, x0: Expr) -> bool {
    &&& !(a.at_kind(TokenKind::Less) && x0.kind is Member)
    &&& (a.allow_struct_init && a.at_kind(TokenKind::LeftBrace)) || a.at_kind(TokenKind::Less)
}

/// A trial after `x0` at `a` that is kept: for a member before `<`, type
/// arguments and then `(`; for a path, `{` (a struct literal) or, after type
/// arguments, `.` or `(`.
pub(crate) open spec fn trial_kept(a: Parser, x0: Expr, r: Option<Vec<TypeRef>>, s: Parser) -> bool {
    r matches Some(args) && if a.at_kind(TokenKind::Less) && x0.kind is Member {
        s.at_kind(TokenKind::LeftParen) && args@.len() > 0
    } else {
        (s.allow_struct_init && s.at_kind(TokenKind::LeftBrace)) || ((s.at_kind(TokenKind::Dot)
            || s.at_kind(TokenKind::LeftParen)) && args@.len() > 0)
    }
}

/// The parser back where it stood at `a`, keeping the tokens as `s` left them.
pub(crate) open spec fn backtracked(q: Parser, a: Parser, s: Parser) -> bool {
    &&& q.tokens@ == s.tokens@
    &&& q.position == a.position
    &&& q.diagnostics@ == a.diagnostics@
    &&& q.allow_struct_init == a.allow_struct_init
}

/// One field of a struct literal, apart from parsing its value: `mid` starts
/// below measure `m` and not at `}` or the end; the field's name leads to `k1`,
/// `:` (reported if missing) to `k2`, where the value is parsed, ending at
/// `b`; `field` holds the name and value, spanning from `mid` to the value.
pub(crate) open spec fn field_parsed(m: nat, mid: Parser, k1: Parser, k2: Parser, b: Parser, field: StructInitField) -> bool {
    &&& mid.measure() < m
    &&& !ends_list(mid, TokenKind::RightBrace)
    &&& name_read(mid, field.name@, k1, false, "expected struct field name"@)
    &&& expected_kind(k2, k1, TokenKind::Colon, "`:`"@)
    &&& k2.measure() < m
    &&& field.span == spec_join(mid.cur().span, field.value.span)
}

/// One field step: the field parsed from `mid` ends `acc`, and the `,` at `b`
/// is consumed, leaving `cur` further on than `mid`.
pub(crate) open spec fn field_step(
    m: nat,
    mid: Parser,
    k1: Parser,
    k2: Parser,
    b: Parser,
    cur: Parser,
    acc: Seq<StructInitField>,
) -> bool {
    &&& acc.len() > 0
    &&& field_parsed(m, mid, k1, k2, b, acc.last())
    &&& b.at_kind(TokenKind::Comma)
    &&& cur.stepped(b)
    &&& cur.measure() < mid.measure()
}

/// From `opened`, just inside `{`, after fields each followed by `,`, the
/// parser stands at `cur` with the fields `acc`. Each starts below measure `m`.
pub(crate) open spec fn fields_upto(m: nat, opened: Parser, acc: Seq<StructInitField>, cur: Parser) -> bool
    decreases m, 0nat, m - cur.measure(),
{
    ||| acc.len() == 0 && cur == opened
    ||| exists|mid: Parser, k1: Parser, k2: Parser, b: Parser|
        #[trigger] field_step(m, mid, k1, k2, b, cur, acc) && expression_parsed(k2, acc.last().value, b)
            && fields_upto(m, opened, acc.drop_last(), mid)
}

/// A struct literal at `s` (at `{`), of type `path<args>` and starting at
/// `start`: its fields, those before `cur` and then (unless the list ends
/// there) one parsed from `cur` through `k1` and `k2` to `e2` with no `,` after
/// it; then `}` (reported if missing), leaving `q`.
pub(crate) open spec fn struct_init_shape(
    s: Parser,
    path: Seq<char>,
    args: Vec<TypeRef>,
    start: Span,
    opened: Parser,
    cur: Parser,
    acc: Seq<StructInitField>,
    k1: Parser,
    k2: Parser,
    e2: Parser,
    e: Expr,
    q: Parser,
) -> bool {
    &&& opened.stepped(s)
    &&& cur.measure() <= s.measure()
    &&& expected_kind(q, e2, TokenKind::RightBrace, "`}`"@)
    &&& e.kind matches ExprKind::StructInit { name, args: a2, fields } && name@ == path && a2 == args
        && e.span == spec_join(start, spec_previous_span(q.tokens@, q.position)) && if ends_list(
        cur,
        TokenKind::RightBrace,
    ) {
        e2 == cur && fields@ == acc
    } else {
        &&& fields@.len() == acc.len() + 1
        &&& fields@.drop_last() == acc
        &&& field_parsed(s.measure(), cur, k1, k2, e2, fields@.last())
        &&& !e2.at_kind(TokenKind::Comma)
    }
}

/// A struct literal of type `path<args>` parsed at `s`, starting at `start`:
/// `name: value` fields separated by `,` within braces.
pub(crate) open spec fn struct_init_parsed(
    s: Parser,
    path: Seq<char>,
    args: Vec<TypeRef>,
    start: Span,
    e: Expr,
    q: Parser,
) -> bool
    decreases s.measure(), 0nat, s.measure() + 1,
{
    exists|opened: Parser, cur: Parser, acc: Seq<StructInitField>, k1: Parser, k2: Parser, e2: Parser|
        #[trigger] struct_init_shape(s, path, args, start, opened, cur, acc, k1, k2, e2, e, q)
            && fields_upto(s.measure(), opened, acc, cur) && (ends_list(cur, TokenKind::RightBrace) || (
        e.kind matches ExprKind::StructInit { fields, .. } && expression_parsed(
            k2,
            fields@.last().value,
            e2,
        )))
}

/// A postfix step from `a`, where `x0` has been built, to `cur`, where `x`
/// has: `a` lies at or below measure `m` and `cur` further on.
pub(crate) open spec fn postfix_link(m: nat, a: Parser, x0: Expr, cur: Parser, x: Expr) -> bool {
    &&& a.measure() <= m
    &&& cur.measure() < a.measure()
}

/// One postfix operation at `a` on `x0`, giving `x` and leaving `d`: a call, a
/// member access, a generic member before `(`, `++`, a struct literal, or a
/// generic type before `.` or `(`.
pub(crate) open spec fn postfix_step(m: nat, a: Parser, x0: Expr, x: Expr, d: Parser) -> bool
    decreases m, 1nat, 0int,
{
    if a.at_kind(TokenKind::LeftParen) {
        exists|cur: Parser, acc: Seq<Expr>, last: Expr, s: Parser|
            #[trigger] call_shape(m, a, x0, cur, acc, last, s, x, d) && list_upto(
                m,
                a,
                TokenKind::RightParen,
                acc,
                cur,
            ) && (ends_list(cur, TokenKind::RightParen) || expression_parsed(cur, last, s))
    } else if a.at_kind(TokenKind::Dot) {
        exists|s: Parser| #[trigger] member_shape(a, s, x0, x, d)
    } else if a.at_kind(TokenKind::Less) && x0.kind is Member {
        exists|r: Option<Vec<TypeRef>>|
            #[trigger] type_args_parsed(a, r, d) && trial_kept(a, x0, r, d) && (
            x0.kind matches ExprKind::Member { object, name } && x == (Expr {
                kind: ExprKind::GenericMember { object, name, args: r.unwrap() },
                span: spec_join(x0.span, spec_previous_span(d.tokens@, d.position)),
            }))
    } else if a.at_kind(TokenKind::PlusPlus) {
        &&& d.stepped(a)
        &&& x == (Expr {
            kind: ExprKind::PostfixIncrement(Box::new(x0)),
            span: spec_join(x0.span, spec_previous_span(d.tokens@, d.position)),
        })
    } else if tries_path(a, x0) {
        &&& spec_expression_path(x0) is Some
        &&& exists|r: Option<Vec<TypeRef>>, s: Parser|
            #[trigger] type_args_or_empty(a, r, s) && trial_kept(a, x0, r, s) && s.measure() <= m
                && if s.allow_struct_init && s.at_kind(TokenKind::LeftBrace) {
                struct_init_parsed(s, spec_expression_path(x0).unwrap(), r.unwrap(), x0.span, x, d)
            } else {
                &&& d == s
                &&& x.kind matches ExprKind::GenericType { name, args } && name@
                    == spec_expression_path(x0).unwrap() && args == r.unwrap() && x.span
                    == spec_join(x0.span, spec_previous_span(s.tokens@, s.position))
            }
    } else {
        false
    }
}

/// The postfix loop from `p`: the primary expression, then postfix steps,
/// give `x` at `cur`.
pub(crate) open spec fn postfix_upto(p: Parser, x: Expr, cur: Parser) -> bool
    decreases p.measure(), 2nat, p.measure() - cur.measure(),
{
    ||| primary_parsed(p, x, cur)
    ||| exists|a: Parser, x0: Expr|
        #[trigger] postfix_link(p.measure(), a, x0, cur, x) && postfix_upto(p, x0, a) && postfix_step(
            p.measure(),
            a,
            x0,
            x,
            cur,
        )
}

/// How the postfix loop ends at `a` with `x0`: where no postfix operation
/// stands, or a path that `x0` does not spell, `x0` and `a`; where a trial of
/// type arguments or a struct literal is not kept, `x0` with the parser back
/// at `a`.
pub(crate) open spec fn postfix_end(a: Parser, x0: Expr, e: Expr, q: Parser) -> bool {
    &&& e == x0
    &&& !a.at_kind(TokenKind::LeftParen)
    &&& !a.at_kind(TokenKind::Dot)
    &&& !a.at_kind(TokenKind::PlusPlus)
    &&& if a.at_kind(TokenKind::Less) && x0.kind is Member {
        exists|r: Option<Vec<TypeRef>>, s: Parser|
            #[trigger] type_args_parsed(a, r, s) && !trial_kept(a, x0, r, s) && backtracked(q, a, s)
    } else if tries_path(a, x0) && spec_expression_path(x0) is Some {
        exists|r: Option<Vec<TypeRef>>, s: Parser|
            #[trigger] type_args_or_empty(a, r, s) && !trial_kept(a, x0, r, s) && backtracked(q, a, s)
    } else {
        q == a
    }
}

/// A postfix expression from `p`: postfix steps while they apply.
pub(crate) open spec fn postfix_parsed(p: Parser, e: Expr, q: Parser) -> bool
    decreases p.measure(), 3nat, 0int,
{
    exists|a: Parser, x0: Expr| #[trigger] postfix_end(a, x0, e, q) && postfix_upto(p, x0, a)
}

impl Parser {
    /// Parses an expression, ranges included.
    pub(crate) fn parse_expression(&mut self) -> (expr: Expr)
        requires
            old(self).wf(),
        ensures
            final(self).follows(*old(self)),
            consumed_unless_eof(*final(self), *old(self)),
            expression_parsed(*old(self), expr, *final(self)),
        decreases old(self).measure(), 6nat,
    {
        self.parse_range_expression()
    }

    /// Parses an expression in which `Name { ... }` is not a struct literal
    /// (the condition of `if`, `while`, `for` and `match`).
    pub(crate) fn parse_expression_without_struct_init(&mut self) -> (expr: Expr)
        requires
            old(self).wf(),
        ensures
            final(self).follows(*old(self)),
            consumed_unless_eof(*final(self), *old(self)),
            condition_parsed(*old(self), expr, *final(self)),
        decreases old(self).measure(), 7nat,
    {
        let previous = self.allow_struct_init;
        self.allow_struct_init = false;
        let expr = self.parse_expression();
        let ghost q1 = *self;
        self.allow_struct_init = previous;
        proof {
            assert(with_struct_init(q1, old(self).allow_struct_init) == *self);
        }
        expr
    }

    /// Parses `a`, `a..b` or `a..=b`.
    pub(crate) fn parse_range_expression(&mut self) -> (expr: Expr)
        requires
            old(self).wf(),
        ensures
            final(self).follows(*old(self)),
            consumed_unless_eof(*final(self), *old(self)),
            range_parsed(*old(self), expr, *final(self)),
        decreases old(self).measure(), 5nat,
    {
        let start = self.parse_binary_expression(0);
        let ghost s = *self;
        let inclusive = if self.match_kind(&TokenKind::DotDotEqual) {
            true
        } else if self.match_kind(&TokenKind::DotDot) {
            false
        } else {
            proof {
                assert(range_shape(*old(self), s, start, s, start, start, *self));
            }
            return start;
        };
        let ghost s1 = *self;
        let end = self.parse_binary_expression(0);
        let span = start.span.join(end.span);
        let expr = Expr {
            kind: ExprKind::Range { start: Box::new(start), end: Box::new(end), inclusive },
            span,
        };
        proof {
            assert(range_shape(*old(self), s, start, s1, end, expr, *self));
        }
        expr
    }

    /// Precedence climbing over the binary operators at or above `min_precedence`.
    pub(crate) fn parse_binary_expression(&mut self, min_precedence: u8) -> (expr: Expr)
        requires
            old(self).wf(),
        ensures
            final(self).follows(*old(self)),
            consumed_unless_eof(*final(self), *old(self)),
            binary_parsed(*old(self), min_precedence, expr, *final(self)),
        decreases old(self).measure(), 4nat,
    {
        let mut left = self.parse_unary_expression();
        loop
            invariant
                self.follows(*old(self)),
                consumed_unless_eof(*self, *old(self)),
                binary_upto(*old(self), min_precedence, left, *self),
            ensures
                self.follows(*old(self)),
                consumed_unless_eof(*self, *old(self)),
                binary_upto(*old(self), min_precedence, left, *self),
                stops_binary(*self, min_precedence),
            decreases self.measure(),
        {
            let ghost mid = *self;
            let ghost l0 = left;
            let (op, precedence) = match self.current_binary_op() {
                Some(found) => found,
                None => break,
            };
            if precedence < min_precedence {
                break;
            }
            self.advance();
            let ghost a1 = *self;
            let right = self.parse_binary_expression(precedence + 1);
            let span = left.span.join(right.span);
            left = Expr {
                kind: ExprKind::Binary { left: Box::new(left), op, right: Box::new(right) },
                span,
            };
            proof {
                assert(binary_step(old(self).measure(), min_precedence, mid, l0, a1, right, *self, left));
                assert(binary_upto(*old(self), min_precedence, left, *self));
            }
        }
        left
    }

    /// Parses `!e`, `-e` or a postfix expression.
    pub(crate) fn parse_unary_expression(&mut self) -> (expr: Expr)
        requires
            old(self).wf(),
        ensures
            final(self).follows(*old(self)),
            consumed_unless_eof(*final(self), *old(self)),
            unary_parsed(*old(self), expr, *final(self)),
        decreases old(self).measure(), 3nat,
    {
        let op = if self.match_kind(&TokenKind::Bang) {
            Some(UnaryOp::Not)
        } else if self.match_kind(&TokenKind::Minus) {
            Some(UnaryOp::Negate)
        } else {
            None
        };
        if let Some(op) = op {
            let ghost s = *self;
            let start = self.previous_span();
            let operand = self.parse_unary_expression();
            let span = start.join(operand.span);
            let expr = Expr { kind: ExprKind::Unary { op, operand: Box::new(operand) }, span };
            proof {
                assert(unary_shape(*old(self), s, operand, expr));
            }
            return expr;
        }
        self.parse_postfix_expression()
    }

    /// Parses calls, member accesses, generic members and types, `++`, and
    /// struct literals that follow a primary expression.
    pub(crate) fn parse_postfix_expression(&mut self) -> (expr: Expr)
        requires
            old(self).wf(),
        ensures
            final(self).follows(*old(self)),
            consumed_unless_eof(*final(self), *old(self)),
            postfix_parsed(*old(self), expr, *final(self)),
        decreases old(self).measure(), 2nat,
    {
        let mut expr = self.parse_primary_expression();
        let ghost m = old(self).measure();
        loop
            invariant_except_break
                postfix_upto(*old(self), expr, *self),
            invariant
                self.follows(*old(self)),
                consumed_unless_eof(*self, *old(self)),
                m == old(self).measure(),
            ensures
                self.follows(*old(self)),
                consumed_unless_eof(*self, *old(self)),
                postfix_parsed(*old(self), expr, *self),
            decreases self.measure(),
        {
            let ghost a = *self;
            let ghost x0 = expr;
            if self.match_kind(&TokenKind::LeftParen) {
                let mut args: Vec<Expr> = Vec::new();
                let ghost mut last: Parser = *self;
                let ghost mut acc: Seq<Expr> = Seq::empty();
                let ghost mut last_item: Expr = expr;
                proof {
                    assert(list_upto(m, a, TokenKind::RightParen, args@, *self));
                }
                loop
                    invariant_except_break
                        list_upto(m, a, TokenKind::RightParen, args@, *self),
                    invariant
                        self.follows(*old(self)),
                        self.measure() < a.measure(),
                        a.measure() <= m,
                        a.follows(*old(self)),
                        m == old(self).measure(),
                    ensures
                        self.follows(*old(self)),
                        self.measure() < a.measure(),
                        list_upto(m, a, TokenKind::RightParen, acc, last),
                        ends_list(last, TokenKind::RightParen) ==> *self == last && args@ == acc,
                        !ends_list(last, TokenKind::RightParen) ==> last.measure() < m
                            && expression_parsed(last, last_item, *self)
                            && !self.at_kind(TokenKind::Comma) && args@ == acc.push(last_item),
                    decreases self.measure(),
                {
                    proof {
                        last = *self;
                        acc = args@;
                    }
                    if self.at_eof() || self.check_kind(&TokenKind::RightParen) {
                        break;
                    }
                    let item = self.parse_expression();
                    proof {
                        last_item = item;
                    }
                    let ghost b = *self;
                    args.push(item);
                    if !self.match_kind(&TokenKind::Comma) {
                        break;
                    }
                    proof {
                        assert(args@.drop_last() == acc);
                        assert(list_step(m, TokenKind::RightParen, last, last_item, b, *self, args@));
                    }
                }
                let ghost s = *self;
                self.expect_kind(&TokenKind::RightParen, "`)`");
                let span = expr.span.join(self.previous_span());
                expr = Expr { kind: ExprKind::Call { callee: Box::new(expr), args }, span };
                proof {
                    assert(call_shape(m, a, x0, last, acc, last_item, s, expr, *self));
                    assert(postfix_step(m, a, x0, expr, *self));
                    assert(postfix_link(m, a, x0, *self, expr));
                }
            } else if self.match_kind(&TokenKind::Dot) {
                let ghost s = *self;
                let name_span = self.current().span;
                let name = self.expect_callable_name("expected member name");
                let span = expr.span.join(name_span);
                expr = Expr { span, kind: ExprKind::Member { object: Box::new(expr), name } };
                proof {
                    assert(member_shape(a, s, x0, expr, *self));
                    assert(postfix_step(m, a, x0, expr, *self));
                    assert(postfix_link(m, a, x0, *self, expr));
                }
            } else if self.check_kind(&TokenKind::Less) && matches!(expr.kind, ExprKind::Member { .. }) {
                let position = self.position;
                let diagnostic_count = self.diagnostics.len();
                let ghost saved = *self;
                let args = self.parse_type_args();
                let ghost s = *self;
                let ghost r = args;
                let mut keep = false;
                if let Some(args) = args {
                    if self.check_kind(&TokenKind::LeftParen) && args.len() > 0 {
                        let span = expr.span.join(self.previous_span());
                        let Expr { kind, span: old_span } = expr;
                        expr = match kind {
                            ExprKind::Member { object, name } => Expr {
                                span,
                                kind: ExprKind::GenericMember { object, name, args },
                            },
                            kind => Expr { kind, span: old_span },
                        };
                        keep = true;
                    }
                }
                if !keep {
                    self.backtrack(position, diagnostic_count, Ghost(saved));
                    proof {
                        assert(!trial_kept(a, x0, r, s));
                        assert(postfix_end(a, x0, expr, *self));
                    }
                    break;
                }
                proof {
                    assert(trial_kept(a, x0, r, s));
                    assert(postfix_step(m, a, x0, expr, *self));
                    assert(postfix_link(m, a, x0, *self, expr));
                }
            } else if self.match_kind(&TokenKind::PlusPlus) {
                let span = expr.span.join(self.previous_span());
                expr = Expr { span, kind: ExprKind::PostfixIncrement(Box::new(expr)) };
                proof {
                    assert(postfix_step(m, a, x0, expr, *self));
                    assert(postfix_link(m, a, x0, *self, expr));
                }
            } else if (self.allow_struct_init && self.check_kind(&TokenKind::LeftBrace))
                || self.check_kind(&TokenKind::Less) {
                let name = match expression_path(&expr) {
                    Some(name) => name,
                    None => {
                        proof {
                            assert(postfix_end(a, x0, expr, *self));
                        }
                        break;
                    },
                };
                let position = self.position;
                let diagnostic_count = self.diagnostics.len();
                let ghost saved = *self;
                let at_less = self.check_kind(&TokenKind::Less);
                let args = if at_less {
                    self.parse_type_args()
                } else {
                    Some(Vec::new())
                };
                let ghost s = *self;
                let ghost r = args;
                proof {
                    assert(type_args_or_empty(a, r, s));
                }
                let mut keep = false;
                if let Some(args) = args {
                    if self.allow_struct_init && self.check_kind(&TokenKind::LeftBrace) {
                        expr = self.parse_struct_init(name, args, expr.span);
                        keep = true;
                    } else if (self.check_kind(&TokenKind::Dot) || self.check_kind(
                        &TokenKind::LeftParen,
                    )) && args.len() > 0 {
                        let span = expr.span.join(self.previous_span());
                        expr = Expr { span, kind: ExprKind::GenericType { name, args } };
                        keep = true;
                    }
                }
                if !keep {
                    self.backtrack(position, diagnostic_count, Ghost(saved));
                    proof {
                        assert(!trial_kept(a, x0, r, s));
                        assert(postfix_end(a, x0, expr, *self));
                    }
                    break;
                }
                proof {
                    assert(trial_kept(a, x0, r, s));
                    assert(postfix_step(m, a, x0, expr, *self));
                    assert(postfix_link(m, a, x0, *self, expr));
                }
            } else {
                proof {
                    assert(postfix_end(a, x0, expr, *self));
                }
                break;
            }
        }
        expr
    }

    /// Parses a literal, an identifier, an array, a parenthesized expression,
    /// a lambda or a `match`; anything else is reported and consumed.
    pub(crate) fn parse_primary_expression(&mut self) -> (expr: Expr)
        requires
            old(self).wf(),
        ensures
            final(self).follows(*old(self)),
            consumed_unless_eof(*final(self), *old(self)),
            old(self).cur().kind matches TokenKind::Identifier(name) ==> expr == (Expr {
                kind: ExprKind::Identifier(name),
                span: old(self).cur().span,
            }),
            old(self).cur().kind matches TokenKind::Number(value) ==> expr == (Expr {
                kind: ExprKind::Number(value),
                span: old(self).cur().span,
            }),
            old(self).cur().kind matches TokenKind::StringLiteral(value) ==> expr == (Expr {
                kind: ExprKind::String(value),
                span: old(self).cur().span,
            }),
            old(self).cur().kind matches TokenKind::CharLiteral(value) ==> expr == (Expr {
                kind: ExprKind::Char(value),
                span: old(self).cur().span,
            }),
            old(self).at_keyword(Keyword::True) ==> expr == (Expr {
                kind: ExprKind::Bool(true),
                span: old(self).cur().span,
            }),
            old(self).at_keyword(Keyword::False) ==> expr == (Expr {
                kind: ExprKind::Bool(false),
                span: old(self).cur().span,
            }),
            primary_parsed(*old(self), expr, *final(self)),
        decreases old(self).measure(), 1nat,
    {
        let ghost p0 = *self;
        let token = self.advance();
        let ghost s1 = *self;
        match token.kind {
            TokenKind::Identifier(name) => Expr { kind: ExprKind::Identifier(name), span: token.span },
            TokenKind::Number(value) => Expr { kind: ExprKind::Number(value), span: token.span },
            TokenKind::StringLiteral(value) => Expr { kind: ExprKind::String(value), span: token.span },
            TokenKind::CharLiteral(value) => Expr { kind: ExprKind::Char(value), span: token.span },
            TokenKind::Keyword(Keyword::False) => Expr { kind: ExprKind::Bool(false), span: token.span },
            TokenKind::Keyword(Keyword::True) => Expr { kind: ExprKind::Bool(true), span: token.span },
            TokenKind::LeftBracket => self.finish_array(token.span, Ghost(p0)),
            TokenKind::LeftParen => {
                let expr = self.parse_expression();
                let ghost s = *self;
                self.expect_kind(&TokenKind::RightParen, "`)`");
                proof {
                    assert(paren_shape(p0, s1, s, *self));
                }
                expr
            },
            TokenKind::Keyword(Keyword::Fn) => {
                self.position = self.position - 1;
                let ghost back = *self;
                proof {
                    assert(back.tokens@ == p0.tokens@ && back.position == p0.position);
                }
                let function = self.parse_function(false);
                proof {
                    assert(lambda_parsed(back, function, *self));
                    let s1w = choose|s1: Parser|
                        #[trigger] s1.stepped(back) && s1.measure() < back.measure()
                            && function.type_params@.len() == 0
                            && function.type_param_bounds@.len() == 0 && function_tail_parsed(
                            s1,
                            back.cur().span,
                            None,
                            function.type_params,
                            function.type_param_bounds,
                            function,
                            *self,
                        );
                    assert(s1w.stepped(p0));
                }
                Expr { span: function.span, kind: ExprKind::Lambda(function) }
            },
            TokenKind::Keyword(Keyword::Match) => self.finish_match(token.span, Ghost(p0)),
            _ => {
                self.diagnostics.push(
                    Diagnostic::error(token.span, String::from_str("expected expression")),
                );
                proof {
                    assert(self.diagnostics@.drop_last() == p0.diagnostics@);
                }
                self.missing_expr(token.span)
            },
        }
    }

    /// Parses the items of an array literal after its `[`, which `open` was at.
    pub(crate) fn finish_array(&mut self, start: Span, open: Ghost<Parser>) -> (expr: Expr)
        requires
            old(self).wf(),
            open@.wf(),
            old(self).stepped(open@),
            old(self).follows(open@),
            old(self).measure() < open@.measure(),
            open@.cur().kind is LeftBracket,
            start == open@.cur().span,
        ensures
            final(self).follows(*old(self)),
            expr.kind is Array,
            primary_parsed(open@, expr, *final(self)),
        decreases old(self).measure(), 7nat,
    {
        let ghost m = open@.measure();
        let mut items: Vec<Expr> = Vec::new();
        let ghost mut last: Parser = *self;
        let ghost mut acc: Seq<Expr> = Seq::empty();
        let ghost mut last_item: Expr = Expr { kind: ExprKind::Missing, span: start };
        proof {
            assert(list_upto(m, open@, TokenKind::RightBracket, items@, *self));
        }
        loop
            invariant_except_break
                list_upto(m, open@, TokenKind::RightBracket, items@, *self),
            invariant
                self.follows(*old(self)),
                old(self).follows(open@),
                self.measure() < m,
                m == open@.measure(),
            ensures
                self.follows(*old(self)),
                list_upto(m, open@, TokenKind::RightBracket, acc, last),
                ends_list(last, TokenKind::RightBracket) ==> *self == last && items@ == acc,
                !ends_list(last, TokenKind::RightBracket) ==> last.measure() < m
                    && expression_parsed(last, last_item, *self)
                    && !self.at_kind(TokenKind::Comma) && items@ == acc.push(last_item),
            decreases self.measure(),
        {
            proof {
                last = *self;
                acc = items@;
            }
            if self.at_eof() || self.check_kind(&TokenKind::RightBracket) {
                break;
            }
            let item = self.parse_expression();
            proof {
                last_item = item;
            }
            let ghost b = *self;
            items.push(item);
            if !self.match_kind(&TokenKind::Comma) {
                break;
            }
            proof {
                assert(items@.drop_last() == acc);
                assert(list_step(m, TokenKind::RightBracket, last, last_item, b, *self, items@));
            }
        }
        let ghost s = *self;
        self.expect_kind(&TokenKind::RightBracket, "`]`");
        let span = start.join(self.previous_span());
        let expr = Expr { kind: ExprKind::Array(items), span };
        proof {
            assert(array_shape(open@, last, acc, last_item, s, expr, *self));
        }
        expr
    }

    /// Parses the scrutinee and the branches of a `match` after its keyword,
    /// which `open` was at.
    #[verifier::spinoff_prover]
    #[verifier::rlimit(80)]
    pub(crate) fn finish_match(&mut self, start: Span, open: Ghost<Parser>) -> (expr: Expr)
        requires
            old(self).wf(),
            open@.wf(),
            old(self).stepped(open@),
            old(self).follows(open@),
            old(self).measure() < open@.measure(),
            open@.at_keyword(Keyword::Match),
            start == open@.cur().span,
        ensures
            final(self).follows(*old(self)),
            expr.kind is Match,
            primary_parsed(open@, expr, *final(self)),
        decreases old(self).measure(), 10nat,
    {
        let ghost m = open@.measure();
        let ghost s1 = *self;
        let value = self.parse_expression_without_struct_init();
        let ghost s2 = *self;
        self.expect_kind(&TokenKind::LeftBrace, "`{`");
        let ghost s3 = *self;
        let mut branches: Vec<MatchBranch> = Vec::new();
        loop
            invariant
                self.follows(*old(self)),
                old(self).follows(open@),
                self.measure() < m,
                m == open@.measure(),
                branches_upto(m, s3, branches@, *self),
            ensures
                self.follows(*old(self)),
                branches_upto(m, s3, branches@, *self),
                ends_list(*self, TokenKind::RightBrace),
            decreases self.measure(),
        {
            if self.at_eof() || self.check_kind(&TokenKind::RightBrace) {
                break;
            }
            let ghost iteration = *self;
            let ghost acc = branches@;
            let pattern = self.parse_pattern();
            let ghost b1 = *self;
            let ghost mut b2 = *self;
            let guard = if self.match_keyword(Keyword::If) {
                proof {
                    b2 = *self;
                }
                Some(self.parse_expression())
            } else {
                None
            };
            let ghost b3 = *self;
            self.expect_kind(&TokenKind::FatArrow, "`=>`");
            let ghost b4 = *self;
            let body = if self.check_kind(&TokenKind::LeftBrace) {
                MatchBranchBody::Block(self.parse_block())
            } else if self.current_keyword() == Some(Keyword::Break) {
                let statement = self.parse_break_statement();
                let mut statements = Vec::new();
                let span = statement.span;
                statements.push(statement);
                proof {
                    assert(statements@ =~= seq![Stmt { kind: StmtKind::Break, span: b4.cur().span }]);
                }
                MatchBranchBody::Block(Block { span, statements })
            } else {
                assert(self.position == iteration.position ==> !(self.cur().kind is Eof));
                MatchBranchBody::Expr(Box::new(self.parse_expression()))
            };
            let ghost b5 = *self;
            let span = pattern.span().join(body.span());
            let branch = MatchBranch { pattern, guard, body, span };
            let ghost br = branch;
            branches.push(branch);
            self.match_kind(&TokenKind::Comma);
            proof {
                assert(branches@.drop_last() == acc);
                assert(branch_step(m, iteration, b1, b2, b3, b4, b5, *self, br));
            }
        }
        let ghost cur = *self;
        self.expect_kind(&TokenKind::RightBrace, "`}`");
        let span = start.join(self.previous_span());
        let expr = Expr { kind: ExprKind::Match { value: Box::new(value), branches }, span };
        proof {
            assert(match_shape(open@, s1, s2, s3, cur, expr, *self));
        }
        expr
    }

    /// The binary operator at the current token, with its precedence.
    pub(crate) fn current_binary_op(&self) -> (op: Option<(BinaryOp, u8)>)
        requires
            self.wf(),
        ensures
            op == binary_op_of(self.cur().kind),
    {
        match self.current().kind {
            TokenKind::Plus => Some((BinaryOp::Add, 10)),
            TokenKind::Minus => Some((BinaryOp::Subtract, 10)),
            TokenKind::Star => Some((BinaryOp::Multiply, 11)),
            TokenKind::Slash => Some((BinaryOp::Divide, 11)),
            TokenKind::Percent => Some((BinaryOp::Remainder, 11)),
            TokenKind::Ampersand => Some((BinaryOp::BitwiseAnd, 8)),
            TokenKind::Pipe => Some((BinaryOp::BitwiseOr, 6)),
            TokenKind::Caret => Some((BinaryOp::BitwiseXor, 7)),
            TokenKind::ShiftLeft => Some((BinaryOp::ShiftLeft, 9)),
            TokenKind::ShiftRight => Some((BinaryOp::ShiftRight, 9)),
            TokenKind::AndAnd => Some((BinaryOp::LogicalAnd, 3)),
            TokenKind::OrOr => Some((BinaryOp::LogicalOr, 2)),
            TokenKind::EqualEqual => Some((BinaryOp::Equal, 4)),
            TokenKind::BangEqual => Some((BinaryOp::NotEqual, 4)),
            TokenKind::Less => Some((BinaryOp::Less, 5)),
            TokenKind::LessEqual => Some((BinaryOp::LessEqual, 5)),
            TokenKind::Greater => Some((BinaryOp::Greater, 5)),
            TokenKind::GreaterEqual => Some((BinaryOp::GreaterEqual, 5)),
            _ => None,
        }
    }

    /// A placeholder for an expression that could not be parsed.
    pub(crate) fn missing_expr(&self, span: Span) -> (expr: Expr)
        ensures
            expr == (Expr { kind: ExprKind::Missing, span }),
    {
        Expr { kind: ExprKind::Missing, span }
    }
}

} // verus!
