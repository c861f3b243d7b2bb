use vstd::prelude::*;

use super::cursor::{assignment_op, spec_previous_span};
use super::expressions::{condition_parsed, consumed_unless_eof, ends_list, expression_parsed, name_read};
use super::types::{expected_kind, reported_with, type_parsed};
use super::{keyword_of, Parser};
use crate::ast::{Block, ElseBranch, Expr, Stmt, StmtKind, TypeRef};
use crate::span::spec_join;
use crate::token::{Keyword, TokenKind};

verus! {

/// `q` is `p` after expecting `keyword`: past it, or with `expected <what>`
/// reported.
pub(crate) open spec fn expected_keyword(q: Parser, p: Parser, keyword: Keyword, what: Seq<char>) -> bool {
    if p.at_keyword(keyword) {
        q.stepped(p)
    } else {
        reported_with(q, p, "expected "@ + what)
    }
}

/// One statement of a block, apart from parsing it: `mid` starts at or below
/// measure `m` and not at `}` or the end, the statement `st` parsed there to `b` ends
/// `acc`, and a statement that consumed nothing is followed by skipping one
/// token, leaving `cur` further on than `mid`.
pub(crate) open spec fn statement_step(
    m: nat,
    mid: Parser,
    st: Stmt,
    b: Parser,
    cur: Parser,
    acc: Seq<Stmt>,
) -> bool {
    &&& mid.measure() <= m
    &&& cur.measure() < mid.measure()
    &&& !ends_list(mid, TokenKind::RightBrace)
    &&& acc.len() > 0
    &&& acc.last() == st
    &&& if b.position == mid.position {
        cur.stepped(b)
    } else {
        cur == b
    }
}

/// From `opened`, just inside `{`, after statements, the parser stands at
/// `cur` with the statements `acc`. Each starts at or below measure `m`.
pub(crate) open spec fn block_upto(m: nat, opened: Parser, acc: Seq<Stmt>, cur: Parser) -> bool
    decreases m, 11nat, m - cur.measure(),
{
    ||| acc.len() == 0 && cur == opened
    ||| exists|mid: Parser, st: Stmt, b: Parser|
        #[trigger] statement_step(m, mid, st, b, cur, acc) && statement_parsed(mid, st, b)
            && block_upto(m, opened, acc.drop_last(), mid)
}

/// A block at `p`: `{` (reported if missing) leads to `opened`, the
/// statements reach `cur`, at `}` or the end, and `}` (reported if missing)
/// leaves `q`; the span runs from the first token to the token before `q`.
pub(crate) open spec fn block_shape(p: Parser, opened: Parser, cur: Parser, block: Block, q: Parser) -> bool {
    &&& expected_kind(opened, p, TokenKind::LeftBrace, "`{`"@)
    &&& ends_list(cur, TokenKind::RightBrace)
    &&& expected_kind(q, cur, TokenKind::RightBrace, "`}`"@)
    &&& block.span == spec_join(p.cur().span, spec_previous_span(q.tokens@, q.position))
}

/// What parsing a block from `p` gives: the block and the parser `q`.
pub(crate) open spec fn block_parsed(p: Parser, block: Block, q: Parser) -> bool
    decreases p.measure(), 12nat, 0int,
{
    exists|opened: Parser, cur: Parser|
        #[trigger] block_shape(p, opened, cur, block, q) && block_upto(
            p.measure(),
            opened,
            block.statements@,
            cur,
        )
}

/// A `let` statement at `p`: `let` to `s1`, an optional `mut` to `s2`, the
/// name to `s3`, an optional `: Type` (from `s4`) to `s5`, and an optional
/// `= value` (from `s6`) to `q`; with neither a type nor a value, an error.
pub(crate) open spec fn let_shape(
    p: Parser,
    s1: Parser,
    s2: Parser,
    s3: Parser,
    s4: Parser,
    s5: Parser,
    s6: Parser,
    annotation: Option<TypeRef>,
    value: Option<Expr>,
    st: Stmt,
    q: Parser,
) -> bool {
    &&& s1.stepped(p)
    &&& if s1.at_keyword(Keyword::Mut) {
        s2.stepped(s1)
    } else {
        s2 == s1
    }
    &&& if s3.at_kind(TokenKind::Colon) {
        s4.stepped(s3) && type_parsed(s4, annotation, s5)
    } else {
        annotation is None && s5 == s3
    }
    &&& if s5.at_kind(TokenKind::Equal) {
        s6.stepped(s5) && s6.measure() < p.measure() && value is Some
    } else {
        &&& value is None
        &&& if annotation is None {
            reported_with(q, s5, "expected `=` or type annotation in let statement"@)
        } else {
            q == s5
        }
    }
    &&& st.kind matches StmtKind::Let { name, mutable, type_annotation, value: v } && name_read(
        s2,
        name@,
        s3,
        false,
        "expected binding name"@,
    ) && mutable == s1.at_keyword(Keyword::Mut) && type_annotation == annotation && v == value
        && st.span == spec_join(
        p.cur().span,
        match value {
            Some(x) => x.span,
            None => spec_previous_span(q.tokens@, q.position),
        },
    )
}

/// An `if` statement at `p`: `if` to `s1`, the condition to `s2`, the block to
/// `s3`, then an optional `else` (to `s4`) with another `if` or a block.
pub(crate) open spec fn if_shape(
    p: Parser,
    s1: Parser,
    s2: Parser,
    s3: Parser,
    s4: Parser,
    st: Stmt,
    q: Parser,
) -> bool {
    &&& s1.stepped(p)
    &&& s1.measure() < p.measure()
    &&& s3.at_keyword(Keyword::Else) ==> s4.stepped(s3) && s4.measure() < p.measure()
    &&& st.kind matches StmtKind::If { then_branch, else_branch, .. } && st.span == spec_join(
        p.cur().span,
        match else_branch {
            Some(ElseBranch::Block(b)) => b.span,
            Some(ElseBranch::If(inner)) => inner.span,
            None => then_branch.span,
        },
    ) && if s3.at_keyword(Keyword::Else) {
        if s4.at_keyword(Keyword::If) {
            else_branch matches Some(ElseBranch::If(_))
        } else {
            else_branch matches Some(ElseBranch::Block(_))
        }
    } else {
        else_branch is None && q == s3
    }
}

/// The parts of an `if` statement that come from parsing: the condition from
/// `s1` to `s2`, the block from `s2` to `s3`, and the `else` branch from `s4`.
pub(crate) open spec fn if_parts(s1: Parser, s2: Parser, s3: Parser, s4: Parser, st: Stmt, q: Parser) -> bool
    decreases s1.measure(), 13nat, 0int,
{
    match st.kind {
        StmtKind::If { condition, then_branch, else_branch } => {
            &&& condition_parsed(s1, condition, s2)
            &&& s2.measure() < s1.measure() + 1
            &&& block_parsed(s2, then_branch, s3)
            &&& match else_branch {
                Some(ElseBranch::If(inner)) => s4.measure() < s1.measure() && statement_parsed(s4, *inner, q),
                Some(ElseBranch::Block(b)) => s4.measure() < s1.measure() && block_parsed(s4, b, q),
                None => true,
            }
        },
        _ => false,
    }
}

/// A `while` statement at `p`: `while` to `s1`, the condition to `s2`, then
/// the body; its span runs to the body's end.
pub(crate) open spec fn while_shape(p: Parser, s1: Parser, s2: Parser, st: Stmt) -> bool {
    &&& s1.stepped(p)
    &&& s1.measure() < p.measure()
    &&& s2.measure() < p.measure()
    &&& st.kind matches StmtKind::While { body, .. } && st.span == spec_join(p.cur().span, body.span)
}

/// A `for` statement at `p`: `for` to `s1`, the binding's name to `s2`, `in`
/// (reported if missing) to `s3`, the iterable to `s4`, then the body.
pub(crate) open spec fn for_shape(p: Parser, s1: Parser, s2: Parser, s3: Parser, s4: Parser, st: Stmt) -> bool {
    &&& s1.stepped(p)
    &&& s3.measure() < p.measure()
    &&& s4.measure() < p.measure()
    &&& expected_keyword(s3, s2, Keyword::In, "`in`"@)
    &&& st.kind matches StmtKind::For { name, body, .. } && name_read(
        s1,
        name@,
        s2,
        false,
        "expected loop binding name"@,
    ) && st.span == spec_join(p.cur().span, body.span)
}

/// An expression statement at `p`: the expression `target` ends at `s`; an
/// assignment operator there is consumed to `s1` and the assigned value
/// follows; otherwise the statement is the expression, ending at `q`.
pub(crate) open spec fn expression_statement_shape(
    p: Parser,
    s: Parser,
    target: Expr,
    s1: Parser,
    st: Stmt,
    q: Parser,
) -> bool {
    match assignment_op(s.cur().kind) {
        Some(op) => s1.stepped(s) && s1.measure() < p.measure() && (st.kind matches StmtKind::Assign {
            target: t,
            op: o,
            value,
        } && t == target && o == op && st.span == spec_join(target.span, value.span)),
        None => q == s && st == (Stmt { span: target.span, kind: StmtKind::Expr(target) }),
    }
}

/// What parsing a statement from `p` gives: the statement and the parser `q`.
///
/// `let`, `return [value]`, `if`, `while condition { ... }`, `break`,
/// `continue`, `for name in iterable { ... }`, or an expression, which an
/// assignment operator and a second expression make an assignment.
pub(crate) open spec fn statement_parsed(p: Parser, st: Stmt, q: Parser) -> bool
    decreases p.measure(), 10nat, 0int,
{
    match keyword_of(p.cur().kind) {
        Some(Keyword::Let) => exists|
            s1: Parser,
            s2: Parser,
            s3: Parser,
            s4: Parser,
            s5: Parser,
            s6: Parser,
            annotation: Option<TypeRef>,
            value: Option<Expr>,
        |
            #[trigger] let_shape(p, s1, s2, s3, s4, s5, s6, annotation, value, st, q) && (
            value is None || expression_parsed(s6, value.unwrap(), q)),
        Some(Keyword::Return) => exists|s1: Parser|
            #[trigger] s1.stepped(p) && s1.measure() < p.measure() && (st.kind matches StmtKind::Return {
                value,
            } && if s1.at_kind(TokenKind::RightBrace) || s1.cur().kind is Eof {
                value is None && q == s1 && st.span == spec_join(p.cur().span, p.cur().span)
            } else {
                value matches Some(v) && expression_parsed(s1, v, q) && st.span == spec_join(
                    p.cur().span,
                    v.span,
                )
            }),
        Some(Keyword::If) => exists|s1: Parser, s2: Parser, s3: Parser, s4: Parser|
            #[trigger] if_shape(p, s1, s2, s3, s4, st, q) && if_parts(s1, s2, s3, s4, st, q),
        Some(Keyword::While) => exists|s1: Parser, s2: Parser|
            #[trigger] while_shape(p, s1, s2, st) && (st.kind matches StmtKind::While { condition, body }
                && condition_parsed(s1, condition, s2) && block_parsed(s2, body, q)),
        Some(Keyword::For) => exists|s1: Parser, s2: Parser, s3: Parser, s4: Parser|
            #[trigger] for_shape(p, s1, s2, s3, s4, st) && (st.kind matches StmtKind::For {
                iterable,
                body,
                ..
            } && condition_parsed(s3, iterable, s4) && block_parsed(s4, body, q)),
        Some(Keyword::Break) => q.stepped(p) && st == (Stmt { kind: StmtKind::Break, span: p.cur().span }),
        Some(Keyword::Continue) => q.stepped(p) && st == (Stmt {
            kind: StmtKind::Continue,
            span: p.cur().span,
        }),
        _ => exists|s: Parser, target: Expr, s1: Parser|
            #[trigger] expression_statement_shape(p, s, target, s1, st, q) && expression_parsed(
                p,
                target,
                s,
            ) && (st.kind matches StmtKind::Assign { value, .. } ==> expression_parsed(s1, value, q)),
    }
}

impl Parser {
    /// Parses `{ statements }`.
    #[verifier::spinoff_prover]
    #[verifier::rlimit(40)]
    pub(crate) fn parse_block(&mut self) -> (block: Block)
        requires
            old(self).wf(),
        ensures
            final(self).follows(*old(self)),
            old(self).at_kind(TokenKind::LeftBrace) ==> final(self).measure() < old(self).measure(),
            block_parsed(*old(self), block, *final(self)),
        decreases old(self).measure(), 9nat,
    {
        let start = self.expect_kind(&TokenKind::LeftBrace, "`{`").span;
        let ghost opened = *self;
        let ghost m = old(self).measure();
        let mut statements: Vec<Stmt> = Vec::new();
        loop
            invariant
                self.follows(opened),
                opened.follows(*old(self)),
                old(self).at_kind(TokenKind::LeftBrace) ==> opened.measure() < old(self).measure(),
                m == old(self).measure(),
                block_upto(m, opened, statements@, *self),
            ensures
                self.follows(opened),
                block_upto(m, opened, statements@, *self),
                ends_list(*self, TokenKind::RightBrace),
            decreases self.measure(),
        {
            if self.at_eof() || self.check_kind(&TokenKind::RightBrace) {
                break;
            }
            let ghost mid = *self;
            let ghost acc = statements@;
            let position = self.position;
            let statement = self.parse_statement();
            let ghost st = statement;
            let ghost b = *self;
            statements.push(statement);
            if self.position == position {
                proof {
                    assert(self.tokens@[self.position as int].kind is Eof == (mid.tokens@[mid.position as int].kind is Eof));
                }
                self.advance();
            }
            proof {
                assert(statements@.drop_last() == acc);
                assert(statement_step(m, mid, st, b, *self, statements@));
            }
        }
        let ghost cur = *self;
        self.expect_kind(&TokenKind::RightBrace, "`}`");
        let end = self.previous_span();
        let block = Block { statements, span: start.join(end) };
        proof {
            assert(block_shape(*old(self), opened, cur, block, *self));
        }
        block
    }

    /// Parses one statement: `let`, `return`, `if`, `while`, `break`,
    /// `continue`, `for`, an assignment or an expression.
    pub(crate) fn parse_statement(&mut self) -> (statement: Stmt)
        requires
            old(self).wf(),
        ensures
            final(self).follows(*old(self)),
            consumed_unless_eof(*final(self), *old(self)),
            statement_parsed(*old(self), statement, *final(self)),
        decreases old(self).measure(), 8nat,
    {
        match self.current_keyword() {
            Some(Keyword::Let) => self.parse_let_statement(),
            Some(Keyword::Return) => self.parse_return_statement(),
            Some(Keyword::If) => self.parse_if_statement(),
            Some(Keyword::While) => self.parse_while_statement(),
            Some(Keyword::Break) => self.parse_break_statement(),
            Some(Keyword::Continue) => self.parse_continue_statement(),
            Some(Keyword::For) => self.parse_for_statement(),
            _ => {
                let target = self.parse_expression();
                let ghost s = *self;
                if let Some(op) = self.match_assignment_operator() {
                    let ghost s1 = *self;
                    let value = self.parse_expression();
                    let statement = Stmt { span: target.span.join(value.span), kind: StmtKind::Assign { target, op, value } };
                    proof {
                        assert(expression_statement_shape(*old(self), s, target, s1, statement, *self));
                    }
                    statement
                } else {
                    let statement = Stmt { span: target.span, kind: StmtKind::Expr(target) };
                    proof {
                        assert(expression_statement_shape(*old(self), s, target, s, statement, *self));
                    }
                    statement
                }
            },
        }
    }

    /// Parses `let [mut] name [: Type] [= value]`.
    pub(crate) fn parse_let_statement(&mut self) -> (statement: Stmt)
        requires
            old(self).wf(),
            old(self).at_keyword(Keyword::Let),
        ensures
            final(self).follows(*old(self)),
            final(self).measure() < old(self).measure(),
            statement.kind is Let,
            statement_parsed(*old(self), statement, *final(self)),
        decreases old(self).measure(), 0nat,
    {
        let start = self.expect_keyword(Keyword::Let, "`let`").span;
        let ghost s1 = *self;
        let mutable = self.match_keyword(Keyword::Mut);
        let ghost s2 = *self;
        let name = self.expect_identifier("expected binding name");
        let ghost s3 = *self;
        let ghost mut s4 = *self;
        let type_annotation = if self.match_kind(&TokenKind::Colon) {
            proof {
                s4 = *self;
            }
            self.parse_type()
        } else {
            None
        };
        let ghost s5 = *self;
        let ghost mut s6 = *self;
        let value = if self.match_kind(&TokenKind::Equal) {
            proof {
                s6 = *self;
            }
            Some(self.parse_expression())
        } else {
            if type_annotation.is_none() {
                self.error_here(String::from_str("expected `=` or type annotation in let statement"));
            }
            None
        };
        let end = match &value {
            Some(value) => value.span,
            None => self.previous_span(),
        };
        let statement = Stmt { kind: StmtKind::Let { name, mutable, type_annotation, value }, span: start.join(end) };
        proof {
            assert(let_shape(*old(self), s1, s2, s3, s4, s5, s6, type_annotation, value, statement, *self));
        }
        statement
    }

    /// Parses `return [value]`.
    pub(crate) fn parse_return_statement(&mut self) -> (statement: Stmt)
        requires
            old(self).wf(),
            old(self).at_keyword(Keyword::Return),
        ensures
            final(self).follows(*old(self)),
            final(self).measure() < old(self).measure(),
            statement.kind is Return,
            statement_parsed(*old(self), statement, *final(self)),
        decreases old(self).measure(), 0nat,
    {
        let start = self.expect_keyword(Keyword::Return, "`return`").span;
        let ghost s1 = *self;
        let value = if self.check_kind(&TokenKind::RightBrace) || self.at_eof() {
            None
        } else {
            Some(self.parse_expression())
        };
        let end = match &value {
            Some(expr) => expr.span,
            None => start,
        };
        let statement = Stmt { kind: StmtKind::Return { value }, span: start.join(end) };
        proof {
            assert(s1.stepped(*old(self)));
        }
        statement
    }

    /// Parses `for name in iterable { body }`.
    pub(crate) fn parse_for_statement(&mut self) -> (statement: Stmt)
        requires
            old(self).wf(),
            old(self).at_keyword(Keyword::For),
        ensures
            final(self).follows(*old(self)),
            final(self).measure() < old(self).measure(),
            statement.kind is For,
            statement_parsed(*old(self), statement, *final(self)),
        decreases old(self).measure(), 0nat,
    {
        let start = self.expect_keyword(Keyword::For, "`for`").span;
        let ghost s1 = *self;
        let name = self.expect_identifier("expected loop binding name");
        let ghost s2 = *self;
        self.expect_keyword(Keyword::In, "`in`");
        let ghost s3 = *self;
        let iterable = self.parse_expression_without_struct_init();
        let ghost s4 = *self;
        let body = self.parse_block();
        let span = start.join(body.span);
        let statement = Stmt { kind: StmtKind::For { name, iterable, body }, span };
        proof {
            assert(for_shape(*old(self), s1, s2, s3, s4, statement));
        }
        statement
    }

    /// Parses `while condition { body }`.
    pub(crate) fn parse_while_statement(&mut self) -> (statement: Stmt)
        requires
            old(self).wf(),
            old(self).at_keyword(Keyword::While),
        ensures
            final(self).follows(*old(self)),
            final(self).measure() < old(self).measure(),
            statement.kind is While,
            statement_parsed(*old(self), statement, *final(self)),
        decreases old(self).measure(), 0nat,
    {
        let start = self.expect_keyword(Keyword::While, "`while`").span;
        let ghost s1 = *self;
        let condition = self.parse_expression_without_struct_init();
        let ghost s2 = *self;
        let body = self.parse_block();
        let span = start.join(body.span);
        let statement = Stmt { kind: StmtKind::While { condition, body }, span };
        proof {
            assert(while_shape(*old(self), s1, s2, statement));
        }
        statement
    }

    /// Parses `break`.
    pub(crate) fn parse_break_statement(&mut self) -> (statement: Stmt)
        requires
            old(self).wf(),
        ensures
            final(self).follows(*old(self)),
            statement.kind is Break,
            statement.span == old(self).cur().span,
            old(self).at_keyword(Keyword::Break) ==> final(self).stepped(*old(self))
                && final(self).measure() < old(self).measure(),
            old(self).at_keyword(Keyword::Break) ==> statement_parsed(*old(self), statement, *final(self)),
    {
        let start = self.expect_keyword(Keyword::Break, "`break`").span;
        Stmt { kind: StmtKind::Break, span: start }
    }

    /// Parses `continue`.
    pub(crate) fn parse_continue_statement(&mut self) -> (statement: Stmt)
        requires
            old(self).wf(),
        ensures
            final(self).follows(*old(self)),
            statement.kind is Continue,
            statement.span == old(self).cur().span,
            old(self).at_keyword(Keyword::Continue) ==> final(self).stepped(*old(self))
                && final(self).measure() < old(self).measure(),
            old(self).at_keyword(Keyword::Continue) ==> statement_parsed(*old(self), statement, *final(self)),
    {
        let start = self.expect_keyword(Keyword::Continue, "`continue`").span;
        Stmt { kind: StmtKind::Continue, span: start }
    }

    /// Parses `if condition { ... } [else if ... | else { ... }]`.
    pub(crate) fn parse_if_statement(&mut self) -> (statement: Stmt)
        requires
            old(self).wf(),
            old(self).at_keyword(Keyword::If),
        ensures
            final(self).follows(*old(self)),
            final(self).measure() < old(self).measure(),
            statement.kind is If,
            statement_parsed(*old(self), statement, *final(self)),
        decreases old(self).measure(), 0nat,
    {
        let start = self.expect_keyword(Keyword::If, "`if`").span;
        let ghost s1 = *self;
        let condition = self.parse_expression_without_struct_init();
        let ghost s2 = *self;
        let then_branch = self.parse_block();
        let ghost s3 = *self;
        let ghost mut s4 = *self;
        let else_branch = if self.match_keyword(Keyword::Else) {
            proof {
                s4 = *self;
            }
            if self.current_keyword() == Some(Keyword::If) {
                Some(ElseBranch::If(Box::new(self.parse_if_statement())))
            } else {
                Some(ElseBranch::Block(self.parse_block()))
            }
        } else {
            None
        };
        let end = match &else_branch {
            Some(ElseBranch::Block(block)) => block.span,
            Some(ElseBranch::If(statement)) => statement.span,
            None => then_branch.span,
        };
        let statement = Stmt { kind: StmtKind::If { condition, then_branch, else_branch }, span: start.join(end) };
        proof {
            assert(if_shape(*old(self), s1, s2, s3, s4, statement, *self));
            assert(if_parts(s1, s2, s3, s4, statement, *self));
        }
        statement
    }
}

} // verus!
