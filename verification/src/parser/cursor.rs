use vstd::prelude::*;

use super::{
    is_prefix, keyword_of, simple_kind_eq, spec_simple_kind_eq, split_weight, Parser,
};
use crate::ast::{BinaryOp, TypeRef};
use crate::diagnostic::Diagnostic;
use crate::span::Span;
use crate::token::{Keyword, Token, TokenKind};

verus! {

/// The compound-assignment operator that a token spells: `Some(None)` for `=`,
/// `Some(Some(op))` for `op=`, `None` for anything else.
pub open spec fn assignment_op(kind: TokenKind) -> Option<Option<BinaryOp>> {
    match kind {
        TokenKind::Equal => Some(None),
        TokenKind::PlusEqual => Some(Some(BinaryOp::Add)),
        TokenKind::MinusEqual => Some(Some(BinaryOp::Subtract)),
        TokenKind::StarEqual => Some(Some(BinaryOp::Multiply)),
        TokenKind::SlashEqual => Some(Some(BinaryOp::Divide)),
        TokenKind::PercentEqual => Some(Some(BinaryOp::Remainder)),
        TokenKind::AmpersandEqual => Some(Some(BinaryOp::BitwiseAnd)),
        TokenKind::PipeEqual => Some(Some(BinaryOp::BitwiseOr)),
        TokenKind::CaretEqual => Some(Some(BinaryOp::BitwiseXor)),
        TokenKind::ShiftLeftEqual => Some(Some(BinaryOp::ShiftLeft)),
        TokenKind::ShiftRightEqual => Some(Some(BinaryOp::ShiftRight)),
        _ => None,
    }
}

/// Keywords that begin a top-level declaration.
pub open spec fn starts_top_level(keyword: Option<Keyword>) -> bool {
    match keyword {
        Some(Keyword::From) | Some(Keyword::Enum) | Some(Keyword::Struct) | Some(Keyword::Trait)
        | Some(Keyword::Impl) | Some(Keyword::Fn) | Some(Keyword::Static) => true,
        _ => false,
    }
}

pub open spec fn spec_previous_span(tokens: Seq<Token>, position: usize) -> Span {
    if position >= 1 {
        tokens[position - 1].span
    } else {
        tokens[0].span
    }
}

impl Parser {
    /// A placeholder type for a type that could not be parsed.
    pub(crate) fn missing_type(&self, span: Span) -> (type_ref: TypeRef)
        ensures
            type_ref.name@ == "<missing>"@,
            type_ref.args@.len() == 0,
            type_ref.bindings@.len() == 0,
            type_ref.function is None,
            type_ref.span == span,
    {
        TypeRef {
            name: String::from_str("<missing>"),
            args: Vec::new(),
            bindings: Vec::new(),
            function: None,
            span,
        }
    }

    /// Skips tokens up to the next top-level declaration keyword or the end.
    pub(crate) fn synchronize_top_level(&mut self)
        requires
            old(self).wf(),
        ensures
            final(self).follows(*old(self)),
            final(self).tokens@ == old(self).tokens@,
            final(self).diagnostics@ == old(self).diagnostics@,
            final(self).cur().kind is Eof || starts_top_level(keyword_of(final(self).cur().kind)),
            forall|i: int|
                old(self).position <= i < final(self).position ==> !(#[trigger] old(self).tokens@[i].kind is Eof)
                    && !starts_top_level(keyword_of(old(self).tokens@[i].kind)),
    {
        loop
            invariant
                self.follows(*old(self)),
                self.tokens@ == old(self).tokens@,
                self.diagnostics@ == old(self).diagnostics@,
                forall|i: int|
                    old(self).position <= i < self.position ==> !(#[trigger] old(self).tokens@[i].kind is Eof)
                        && !starts_top_level(keyword_of(old(self).tokens@[i].kind)),
            decreases self.measure(),
        {
            if self.at_eof() {
                return;
            }
            let keyword = self.current_keyword();
            if matches!(keyword, Some(Keyword::From) | Some(Keyword::Enum) | Some(Keyword::Struct)
                | Some(Keyword::Trait) | Some(Keyword::Impl) | Some(Keyword::Fn)
                | Some(Keyword::Static)) {
                return;
            }
            self.advance();
        }
    }

    /// The current identifier, consumed; otherwise an error and `<missing>`.
    pub(crate) fn expect_identifier(&mut self, message: &str) -> (name: String)
        requires
            old(self).wf(),
        ensures
            final(self).follows(*old(self)),
            old(self).cur().kind matches TokenKind::Identifier(n) ==> name == n
                && final(self).stepped(*old(self)) && final(self).measure() < old(self).measure(),
            !(old(self).cur().kind is Identifier) ==> name@ == "<missing>"@
                && final(self).reported(*old(self))
                && final(self).diagnostics@.last().message@ == message@,
    {
        if let Some(name) = self.consume_identifier() {
            return name;
        }
        self.error_here(String::from_str(message));
        String::from_str("<missing>")
    }

    /// Like `expect_identifier`, but also takes the keyword `from` as a name.
    pub(crate) fn expect_callable_name(&mut self, message: &str) -> (name: String)
        requires
            old(self).wf(),
        ensures
            final(self).follows(*old(self)),
            old(self).at_keyword(Keyword::From) ==> name@ == "from"@ && final(self).stepped(
                *old(self),
            ),
            old(self).cur().kind matches TokenKind::Identifier(n) ==> name == n
                && final(self).stepped(*old(self)),
            !old(self).at_keyword(Keyword::From) && !(old(self).cur().kind is Identifier) ==> name@
                == "<missing>"@ && final(self).reported(*old(self))
                && final(self).diagnostics@.last().message@ == message@,
    {
        if self.current_keyword() == Some(Keyword::From) {
            self.advance();
            return String::from_str("from");
        }
        self.expect_identifier(message)
    }

    /// Consumes and returns the current identifier, if there is one.
    pub(crate) fn consume_identifier(&mut self) -> (name: Option<String>)
        requires
            old(self).wf(),
        ensures
            final(self).follows(*old(self)),
            old(self).cur().kind matches TokenKind::Identifier(n) ==> name == Some(n)
                && final(self).stepped(*old(self)) && final(self).measure() < old(self).measure(),
            !(old(self).cur().kind is Identifier) ==> name is None && *final(self) == *old(self),
    {
        match self.current().kind.clone() {
            TokenKind::Identifier(name) => {
                self.advance();
                Some(name)
            },
            _ => None,
        }
    }

    /// Consumes `keyword`; otherwise reports `expected ...` and returns a
    /// placeholder token at the current position.
    pub(crate) fn expect_keyword(&mut self, keyword: Keyword, expected: &str) -> (token: Token)
        requires
            old(self).wf(),
        ensures
            final(self).follows(*old(self)),
            token.span == old(self).cur().span,
            old(self).at_keyword(keyword) ==> token == old(self).cur() && final(self).stepped(
                *old(self),
            ) && final(self).measure() < old(self).measure(),
            !old(self).at_keyword(keyword) ==> final(self).reported(*old(self))
                && final(self).diagnostics@.last().message@ == "expected "@ + expected@,
    {
        if self.current_keyword() == Some(keyword) {
            return self.advance();
        }
        let message = String::from_str("expected ").concat(expected);
        self.error_here(message);
        self.synthetic_current()
    }

    /// Consumes a payload-free `kind`; otherwise reports `expected ...`.
    pub(crate) fn expect_kind(&mut self, kind: &TokenKind, expected: &str) -> (token: Token)
        requires
            old(self).wf(),
        ensures
            final(self).follows(*old(self)),
            token.span == old(self).cur().span,
            old(self).at_kind(*kind) ==> token == old(self).cur() && final(self).stepped(
                *old(self),
            ),
            old(self).at_kind(*kind) && !(old(self).cur().kind is Eof) ==> final(self).measure()
                < old(self).measure(),
            !old(self).at_kind(*kind) ==> final(self).reported(*old(self))
                && final(self).diagnostics@.last().message@ == "expected "@ + expected@,
    {
        if self.check_kind(kind) {
            return self.advance();
        }
        let message = String::from_str("expected ").concat(expected);
        self.error_here(message);
        self.synthetic_current()
    }

    pub(crate) fn match_keyword(&mut self, keyword: Keyword) -> (matched: bool)
        requires
            old(self).wf(),
        ensures
            final(self).follows(*old(self)),
            matched == old(self).at_keyword(keyword),
            matched ==> final(self).stepped(*old(self)),
            matched && !(old(self).cur().kind is Eof) ==> final(self).measure() < old(
                self,
            ).measure(),
            !matched ==> *final(self) == *old(self),
    {
        if self.current_keyword() != Some(keyword) {
            return false;
        }
        self.advance();
        true
    }

    pub(crate) fn match_kind(&mut self, kind: &TokenKind) -> (matched: bool)
        requires
            old(self).wf(),
        ensures
            final(self).follows(*old(self)),
            matched == old(self).at_kind(*kind),
            matched ==> final(self).stepped(*old(self)),
            matched && !(old(self).cur().kind is Eof) ==> final(self).measure() < old(
                self,
            ).measure(),
            !matched ==> *final(self) == *old(self),
    {
        if !self.check_kind(kind) {
            return false;
        }
        self.advance();
        true
    }

    /// Consumes `=` or a compound assignment operator.
    pub(crate) fn match_assignment_operator(&mut self) -> (op: Option<Option<BinaryOp>>)
        requires
            old(self).wf(),
        ensures
            final(self).follows(*old(self)),
            op == assignment_op(old(self).cur().kind),
            op is Some ==> final(self).stepped(*old(self)) && final(self).measure() < old(
                self,
            ).measure(),
            op is None ==> *final(self) == *old(self),
    {
        let op = match self.current().kind {
            TokenKind::Equal => None,
            TokenKind::PlusEqual => Some(BinaryOp::Add),
            TokenKind::MinusEqual => Some(BinaryOp::Subtract),
            TokenKind::StarEqual => Some(BinaryOp::Multiply),
            TokenKind::SlashEqual => Some(BinaryOp::Divide),
            TokenKind::PercentEqual => Some(BinaryOp::Remainder),
            TokenKind::AmpersandEqual => Some(BinaryOp::BitwiseAnd),
            TokenKind::PipeEqual => Some(BinaryOp::BitwiseOr),
            TokenKind::CaretEqual => Some(BinaryOp::BitwiseXor),
            TokenKind::ShiftLeftEqual => Some(BinaryOp::ShiftLeft),
            TokenKind::ShiftRightEqual => Some(BinaryOp::ShiftRight),
            _ => return None,
        };
        self.advance();
        Some(op)
    }

    pub(crate) fn check_identifier(&self) -> (found: bool)
        requires
            self.wf(),
        ensures
            found == self.cur().kind is Identifier,
    {
        matches!(self.current().kind, TokenKind::Identifier(_))
    }

    pub(crate) fn check_kind(&self, kind: &TokenKind) -> (found: bool)
        requires
            self.wf(),
        ensures
            found == self.at_kind(*kind),
    {
        simple_kind_eq(&self.current().kind, kind)
    }

    pub(crate) fn current_keyword(&self) -> (keyword: Option<Keyword>)
        requires
            self.wf(),
        ensures
            keyword == keyword_of(self.cur().kind),
    {
        match self.current().kind {
            TokenKind::Keyword(keyword) => Some(keyword),
            _ => None,
        }
    }

    pub(crate) fn at_eof(&self) -> (eof: bool)
        requires
            self.wf(),
        ensures
            eof == self.cur().kind is Eof,
    {
        matches!(self.current().kind, TokenKind::Eof)
    }

    pub(crate) fn current(&self) -> (token: &Token)
        requires
            self.wf(),
        ensures
            *token == self.cur(),
    {
        &self.tokens[self.position]
    }

    /// Returns the current token and moves past it, except at `Eof`.
    pub(crate) fn advance(&mut self) -> (token: Token)
        requires
            old(self).wf(),
        ensures
            token == old(self).cur(),
            final(self).stepped(*old(self)),
            final(self).follows(*old(self)),
            !(old(self).cur().kind is Eof) ==> final(self).measure() < old(self).measure(),
    {
        let token = self.current().clone();
        if !matches!(token.kind, TokenKind::Eof) {
            let len = self.tokens.len();
            assert(self.tokens@.last() == self.tokens@[len - 1]);
            self.position = self.position + 1;
        }
        token
    }

    /// The span of the token before the current one (of the first token at the start).
    pub(crate) fn previous_span(&self) -> (span: Span)
        requires
            self.wf(),
        ensures
            span == spec_previous_span(self.tokens@, self.position),
    {
        let index = if self.position >= 1 { self.position - 1 } else { 0 };
        self.tokens[index].span
    }

    /// An empty identifier token at the current position.
    pub(crate) fn synthetic_current(&self) -> (token: Token)
        requires
            self.wf(),
        ensures
            (token.kind matches TokenKind::Identifier(name) && name@.len() == 0),
            token.span == self.cur().span,
            token.lexeme@.len() == 0,
    {
        Token {
            kind: TokenKind::Identifier(String::new()),
            span: self.current().span,
            lexeme: String::new(),
        }
    }

    /// Returns to an earlier position and drops the diagnostics reported since.
    pub(crate) fn backtrack(&mut self, position: usize, diagnostic_count: usize, saved: Ghost<Parser>)
        requires
            saved@.wf(),
            old(self).follows(saved@),
            position == saved@.position,
            diagnostic_count == saved@.diagnostics@.len(),
        ensures
            final(self).follows(saved@),
            final(self).position == saved@.position,
            final(self).diagnostics@ == saved@.diagnostics@,
            final(self).tokens@ == old(self).tokens@,
    {
        self.position = position;
        self.diagnostics.truncate(diagnostic_count);
        assert(self.diagnostics@ =~= saved@.diagnostics@);
    }

    /// Records an error at the current token.
    pub(crate) fn error_here(&mut self, message: String)
        requires
            old(self).wf(),
        ensures
            final(self).reported(*old(self)),
            final(self).follows(*old(self)),
            final(self).diagnostics@.last() == (Diagnostic {
                severity: crate::diagnostic::Severity::Error,
                span: old(self).cur().span,
                message,
            }),
    {
        let span = self.current().span;
        self.diagnostics.push(Diagnostic::error(span, message));
        assert(self.diagnostics@.drop_last() =~= old(self).diagnostics@);
    }
}

} // verus!
