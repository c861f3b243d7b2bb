use vstd::prelude::*;

use crate::ast::{Expr, ExprKind, Item, Program};
use crate::diagnostic::{Diagnostic, Severity};
use crate::token::{is_simple_kind, Keyword, Token, TokenKind};

mod cursor;
mod types;
mod patterns;
mod expressions;
mod statements;
mod declarations;

use cursor::starts_top_level;
use declarations::{
    enum_parsed, export_parsed, impl_parsed, import_parsed, struct_parsed, top_function_parsed,
    trait_parsed,
};
use types::reported_with;

verus! {

/// A recursive-descent parser over a token stream that ends with `Eof`.
pub struct Parser {
    pub(crate) tokens: Vec<Token>,
    pub(crate) position: usize,
    pub(crate) diagnostics: Vec<Diagnostic>,
    pub(crate) allow_struct_init: bool,
}

/// How much a token can still shrink in place: `>>=` splits into `>` and `>=`,
/// `>=` into `>` and `=`, `>>` into `>` and `>`.
pub open spec fn split_weight(kind: TokenKind) -> nat {
    match kind {
        TokenKind::ShiftRightEqual => 2,
        TokenKind::ShiftRight => 1,
        TokenKind::GreaterEqual => 1,
        _ => 0,
    }
}

/// A token that the parser can split in place: its span leaves room for the
/// splits, and a `>>` or `>>=` token has a lexeme to split.
pub open spec fn token_splittable(token: Token) -> bool {
    &&& token.span.start + split_weight(token.kind) < usize::MAX
    &&& (token.kind is ShiftRight || token.kind is ShiftRightEqual) ==> token.lexeme@.len() >= 1
}

/// The token stream can be parsed: it is not empty, its last token is `Eof`,
/// and every token can be split.
pub open spec fn ends_with_eof(tokens: Seq<Token>) -> bool {
    &&& tokens.len() > 0
    &&& tokens.last().kind is Eof
    &&& forall|i: int| 0 <= i < tokens.len() ==> token_splittable(#[trigger] tokens[i])
}

/// `a` is a prefix of `b`.
pub open spec fn is_prefix<T>(a: Seq<T>, b: Seq<T>) -> bool {
    a.len() <= b.len() && forall|i: int| 0 <= i < a.len() ==> #[trigger] b[i] == a[i]
}

/// `left == right` for two payload-free token kinds.
pub open spec fn spec_simple_kind_eq(left: TokenKind, right: TokenKind) -> bool {
    is_simple_kind(left) && left == right
}

/// The keyword that a token kind carries, if any.
pub open spec fn keyword_of(kind: TokenKind) -> Option<Keyword> {
    match kind {
        TokenKind::Keyword(keyword) => Some(keyword),
        _ => None,
    }
}

/// The dotted name that an identifier or a chain of member accesses spells.
pub open spec fn spec_expression_path(expr: Expr) -> Option<Seq<char>>
    decreases expr,
{
    match expr.kind {
        ExprKind::Identifier(name) => Some(name@),
        ExprKind::Member { object, name } => match spec_expression_path(*object) {
            Some(path) => Some(path + seq!['.'] + name@),
            None => None,
        },
        _ => None,
    }
}

impl Parser {
    /// The parser's invariant: a current token exists and the stream ends with `Eof`.
    pub(crate) open spec fn wf(&self) -> bool {
        &&& ends_with_eof(self.tokens@)
        &&& self.position < self.tokens@.len()
    }

    pub(crate) open spec fn cur(&self) -> Token {
        self.tokens@[self.position as int]
    }

    /// Decreases with every consumed or split token.
    pub(crate) open spec fn measure(&self) -> nat {
        (3 * (self.tokens@.len() - self.position) + split_weight(self.cur().kind)) as nat
    }

    /// What every parsing step keeps, from `old` to `self`: the invariant, the
    /// length of the stream, a position that only moves forward, tokens that only
    /// shrink, diagnostics that are only appended, and the struct-init flag.
    pub(crate) open spec fn follows(&self, old: Parser) -> bool {
        &&& self.wf()
        &&& self.tokens@.len() == old.tokens@.len()
        &&& old.position <= self.position
        &&& forall|i: int|
            0 <= i < self.tokens@.len() ==> split_weight(#[trigger] self.tokens@[i].kind)
                <= split_weight(old.tokens@[i].kind)
        &&& forall|i: int|
            0 <= i < self.tokens@.len() ==> (#[trigger] self.tokens@[i].kind is Eof) == (
            old.tokens@[i].kind is Eof)
        &&& self.measure() <= old.measure()
        &&& is_prefix(old.diagnostics@, self.diagnostics@)
        &&& forall|i: int|
            old.diagnostics@.len() <= i < self.diagnostics@.len() ==> (#[trigger] self.diagnostics@[i]).severity
                == Severity::Error
        &&& self.allow_struct_init == old.allow_struct_init
    }

    /// Only the position changed, by one token unless the current one is `Eof`.
    pub(crate) open spec fn stepped(&self, old: Parser) -> bool {
        &&& self.tokens@ == old.tokens@
        &&& self.diagnostics@ == old.diagnostics@
        &&& self.allow_struct_init == old.allow_struct_init
        &&& self.position == if old.cur().kind is Eof {
            old.position
        } else {
            (old.position + 1) as usize
        }
    }

    /// Nothing but the diagnostics changed, by one error at the current token.
    pub(crate) open spec fn reported(&self, old: Parser) -> bool {
        &&& self.tokens@ == old.tokens@
        &&& self.position == old.position
        &&& self.allow_struct_init == old.allow_struct_init
        &&& self.diagnostics@.len() == old.diagnostics@.len() + 1
        &&& self.diagnostics@.drop_last() == old.diagnostics@
        &&& self.diagnostics@.last().span == old.cur().span
    }

    /// The current token's kind is a payload-free `kind`.
    pub(crate) open spec fn at_kind(&self, kind: TokenKind) -> bool {
        spec_simple_kind_eq(self.cur().kind, kind)
    }

    pub(crate) open spec fn at_keyword(&self, keyword: Keyword) -> bool {
        self.cur().kind == TokenKind::Keyword(keyword)
    }

    /// The tokens that the parser reads.
    pub closed spec fn token_seq(&self) -> Seq<Token> {
        self.tokens@
    }

    /// Where in the tokens the parser stands.
    pub closed spec fn position_at(&self) -> int {
        self.position as int
    }

    /// The diagnostics reported so far.
    pub closed spec fn diagnostic_seq(&self) -> Seq<Diagnostic> {
        self.diagnostics@
    }

    /// Whether a struct literal may follow a name where the parser stands.
    pub closed spec fn struct_literals_allowed(&self) -> bool {
        self.allow_struct_init
    }

    /// At the start of a stream that ends with `Eof`, with no diagnostics yet.
    pub closed spec fn is_ready(&self) -> bool {
        &&& self.wf()
        &&& self.position == 0
        &&& self.diagnostics@.len() == 0
        &&& self.allow_struct_init
    }

    pub fn new(tokens: Vec<Token>) -> (parser: Self)
        ensures
            parser.token_seq() == tokens@,
            parser.position_at() == 0,
            parser.diagnostic_seq().len() == 0,
            parser.struct_literals_allowed(),
            parser.is_ready() <==> ends_with_eof(tokens@),
    {
        Self { tokens, position: 0, diagnostics: Vec::new(), allow_struct_init: true }
    }
}

/// Whether a token starts a top-level declaration.
pub open spec fn opens_declaration(kind: TokenKind) -> bool {
    match keyword_of(kind) {
        Some(k) => k == Keyword::From || k == Keyword::Export || k == Keyword::Enum || k == Keyword::Struct || k
            == Keyword::Trait || k == Keyword::Impl || k == Keyword::Fn || k == Keyword::Static,
        None => false,
    }
}

/// What is reported for a token that starts no top-level declaration.
pub open spec fn stray_message(kind: TokenKind) -> Seq<char> {
    if keyword_of(kind) == Some(Keyword::Type) {
        "associated-type definitions are only allowed inside trait impls"@
    } else {
        "expected a top-level declaration"@
    }
}

/// `q` is where skipping from `s` stops: at the first token from there on that
/// is the end or a keyword that starts a top-level declaration.
pub(crate) open spec fn synchronized(s: Parser, q: Parser) -> bool {
    &&& q.tokens@ == s.tokens@
    &&& q.diagnostics@ == s.diagnostics@
    &&& q.allow_struct_init == s.allow_struct_init
    &&& s.position <= q.position
    &&& q.cur().kind is Eof || starts_top_level(keyword_of(q.cur().kind))
    &&& forall|i: int|
        s.position <= i < q.position ==> !(#[trigger] s.tokens@[i].kind is Eof) && !starts_top_level(
            keyword_of(s.tokens@[i].kind),
        )
}

/// A stray token at `p`: reported (`s1`), stepped over (`s2`), and the tokens
/// after it skipped up to the next declaration (`q`).
pub(crate) open spec fn stray_steps(p: Parser, s1: Parser, s2: Parser, q: Parser) -> bool {
    &&& reported_with(s1, p, stray_message(p.cur().kind))
    &&& s2.stepped(s1)
    &&& synchronized(s2, q)
}

/// What parsing the declaration at `p` gives, by its keyword: an import, an
/// enum, a struct, a trait, an impl, a top-level function or an `export` as
/// their own relations state them; a `static fn` extension gives a function
/// or an extension.
pub(crate) open spec fn declaration_parsed(p: Parser, item: Item, q: Parser) -> bool {
    &&& q.follows(p)
    &&& q.measure() < p.measure()
    &&& match keyword_of(p.cur().kind) {
        Some(Keyword::From) => item matches Item::Import(decl) && import_parsed(p, decl, q),
        Some(Keyword::Enum) => item matches Item::Enum(decl) && enum_parsed(p, false, p.cur().span, decl, q),
        Some(Keyword::Struct) => item matches Item::Struct(decl) && struct_parsed(
            p,
            false,
            p.cur().span,
            decl,
            q,
        ),
        Some(Keyword::Trait) => item matches Item::Trait(decl) && trait_parsed(p, false, p.cur().span, decl, q),
        Some(Keyword::Impl) => item matches Item::Impl(decl) && impl_parsed(p, decl, q),
        Some(Keyword::Fn) => top_function_parsed(p, item, q),
        Some(Keyword::Static) => item is Function || item is Extension,
        Some(Keyword::Export) => export_parsed(p, item, q),
        _ => true,
    }
}

/// One top-level step from `mid`, with the items `prev` before it and `acc`
/// after it: a declaration, which adds an item, or a stray token; a step that
/// consumed nothing is followed by skipping one token, leaving `cur`.
pub(crate) open spec fn top_level_step(mid: Parser, b: Parser, cur: Parser, prev: Seq<Item>, acc: Seq<Item>) -> bool {
    &&& !(mid.cur().kind is Eof)
    &&& if opens_declaration(mid.cur().kind) {
        &&& acc.len() == prev.len() + 1
        &&& acc.drop_last() == prev
        &&& declaration_parsed(mid, acc.last(), b)
    } else {
        &&& acc == prev
        &&& exists|s1: Parser, s2: Parser| #[trigger] stray_steps(mid, s1, s2, b)
    }
    &&& if b.position == mid.position {
        cur.stepped(b)
    } else {
        cur == b
    }
    &&& cur.measure() < mid.measure()
}

/// From `p`, after top-level steps, the parser stands at `cur` with the items `acc`.
pub(crate) open spec fn top_level_upto(p: Parser, acc: Seq<Item>, cur: Parser) -> bool
    decreases p.measure() - cur.measure(),
{
    ||| acc.len() == 0 && cur == p
    ||| exists|mid: Parser, b: Parser, prev: Seq<Item>|
        #[trigger] top_level_step(mid, b, cur, prev, acc) && mid.measure() <= p.measure()
            && top_level_upto(p, prev, mid)
}

/// What parsing the whole stream from `p` gives: the items of its top-level
/// steps, up to the end, and the diagnostics reported on the way.
pub closed spec fn program_parsed(p: Parser, items: Seq<Item>, diagnostics: Seq<Diagnostic>) -> bool {
    exists|end: Parser|
        #[trigger] top_level_upto(p, items, end) && end.cur().kind is Eof && diagnostics
            == end.diagnostics@
}

impl Parser {
    /// Parses the whole token stream into a program, collecting diagnostics:
    /// declarations one after another, each giving an item, and stray tokens
    /// reported and skipped up to the next declaration (see `program_parsed`).
    /// Every item comes from at least one token, so there are fewer items than tokens.
    pub fn parse(self) -> (result: (Program, Vec<Diagnostic>))
        requires
            self.is_ready(),
        ensures
            result.0.items@.len() < self.token_seq().len(),
            forall|i: int| 0 <= i < result.1@.len() ==> (#[trigger] result.1@[i]).severity == Severity::Error,
            self.token_seq().len() == 1 ==> result.0.items@.len() == 0 && result.1@.len() == 0,
            !(self.token_seq()[0].kind is Eof) ==> result.0.items@.len() + result.1@.len() > 0,
            !(self.token_seq()[0].kind is Eof) && !opens_declaration(self.token_seq()[0].kind) ==> {
                &&& result.1@.len() > 0
                &&& result.1@[0].span == self.token_seq()[0].span
                &&& result.1@[0].message@ == stray_message(self.token_seq()[0].kind)
            },
            program_parsed(self, result.0.items@, result.1@),
    {
        let mut parser = self;
        let ghost initial = parser;
        let mut items: Vec<Item> = Vec::new();
        loop
            invariant
                parser.follows(initial),
                items@.len() <= parser.position,
                initial.position == 0,
                initial.diagnostics@.len() == 0,
                initial.tokens@.len() == 1 ==> parser.diagnostics@.len() == 0,
                !(initial.tokens@[0].kind is Eof) && parser.position > 0 ==> items@.len() + parser.diagnostics@.len() > 0,
                parser.position == 0 ==> parser.diagnostics@.len() == 0 && parser.tokens@ == initial.tokens@,
                top_level_upto(initial, items@, parser),
                !(initial.tokens@[0].kind is Eof) && !opens_declaration(initial.tokens@[0].kind) && parser.position > 0 ==> {
                    &&& parser.diagnostics@.len() > 0
                    &&& parser.diagnostics@[0].span == initial.tokens@[0].span
                    &&& parser.diagnostics@[0].message@ == stray_message(initial.tokens@[0].kind)
                },
            ensures
                parser.cur().kind is Eof,
                top_level_upto(initial, items@, parser),
            decreases parser.measure(),
        {
            let ghost items_before = items@.len();
            let ghost diagnostics_before = parser.diagnostics@.len();
            let ghost mid = parser;
            let ghost prev = items@;
            assert(parser.tokens@.len() == 1 ==> parser.cur() == parser.tokens@.last());
            if parser.at_eof() {
                break;
            }
            let start = parser.position;
            match parser.current_keyword() {
                Some(Keyword::From) => items.push(Item::Import(parser.parse_import())),
                Some(Keyword::Export) => items.push(parser.parse_export()),
                Some(Keyword::Enum) => items.push(Item::Enum(parser.parse_enum(false, None))),
                Some(Keyword::Struct) => items.push(Item::Struct(parser.parse_struct(false, None))),
                Some(Keyword::Trait) => items.push(Item::Trait(parser.parse_trait(false, None))),
                Some(Keyword::Impl) => items.push(Item::Impl(parser.parse_impl())),
                Some(Keyword::Fn) => items.push(parser.parse_top_level_function(false, None)),
                Some(Keyword::Static) => items.push(parser.parse_static_extension(false, None)),
                Some(Keyword::Type) => {
                    parser.error_here(
                        String::from_str(
                            "associated-type definitions are only allowed inside trait impls",
                        ),
                    );
                    let ghost s1 = parser;
                    parser.advance();
                    let ghost s2 = parser;
                    parser.synchronize_top_level();
                    proof {
                        assert(stray_steps(mid, s1, s2, parser));
                    }
                },
                _ => {
                    parser.error_here(String::from_str("expected a top-level declaration"));
                    let ghost s1 = parser;
                    parser.advance();
                    let ghost s2 = parser;
                    parser.synchronize_top_level();
                    proof {
                        assert(stray_steps(mid, s1, s2, parser));
                    }
                },
            }
            let ghost b = parser;
            if parser.position == start {
                parser.advance();
            }
            proof {
                assert(!(mid.cur().kind is Eof));
                if opens_declaration(mid.cur().kind) {
                    assert(items@.len() == prev.len() + 1);
                    assert(items@.drop_last() == prev);
                    assert(declaration_parsed(mid, items@.last(), b));
                } else {
                    assert(items@ == prev);
                }
                assert(parser.measure() < mid.measure());
                assert(top_level_step(mid, b, parser, prev, items@));
            }
            proof {
                assert(parser.diagnostics@.len() >= diagnostics_before);
                assert(items@.len() >= items_before);
            }
        }
        proof {
            if parser.position == 0 {
                assert(parser.tokens@[0].kind is Eof);
                assert(initial.tokens@[0].kind is Eof);
            }
        }
        let ghost end = parser;
        let result = (Program { items }, parser.diagnostics);
        proof {
            assert(top_level_upto(initial, result.0.items@, end));
            assert(program_parsed(self, result.0.items@, result.1@));
        }
        result
    }
}

/// The dotted path of an identifier or member chain, such as `a.b.c`.
pub(crate) fn expression_path(expr: &Expr) -> (path: Option<String>)
    ensures
        path.is_some() == spec_expression_path(*expr).is_some(),
        path matches Some(p) ==> p@ == spec_expression_path(*expr).unwrap(),
    decreases expr,
{
    match &expr.kind {
        ExprKind::Identifier(name) => Some(name.clone()),
        ExprKind::Member { object, name } => {
            match expression_path(object) {
                Some(path) => {
                    let with_dot = path.concat(".");
                    let full = with_dot.concat(name.as_str());
                    proof {
                        reveal_strlit(".");
                        assert(full@ == spec_expression_path(**object).unwrap() + seq!['.'] + name@);
                    }
                    Some(full)
                },
                None => None,
            }
        },
        _ => None,
    }
}

/// Whether two payload-free token kinds are the same kind.
pub(crate) fn simple_kind_eq(left: &TokenKind, right: &TokenKind) -> (same: bool)
    ensures
        same == spec_simple_kind_eq(*left, *right),
{
    match (left, right) {
        (TokenKind::LeftParen, TokenKind::LeftParen)
        | (TokenKind::RightParen, TokenKind::RightParen)
        | (TokenKind::LeftBrace, TokenKind::LeftBrace)
        | (TokenKind::RightBrace, TokenKind::RightBrace)
        | (TokenKind::LeftBracket, TokenKind::LeftBracket)
        | (TokenKind::RightBracket, TokenKind::RightBracket)
        | (TokenKind::Colon, TokenKind::Colon)
        | (TokenKind::Comma, TokenKind::Comma)
        | (TokenKind::Dot, TokenKind::Dot)
        | (TokenKind::DotDot, TokenKind::DotDot)
        | (TokenKind::DotDotEqual, TokenKind::DotDotEqual)
        | (TokenKind::Ellipsis, TokenKind::Ellipsis)
        | (TokenKind::Slash, TokenKind::Slash)
        | (TokenKind::SlashEqual, TokenKind::SlashEqual)
        | (TokenKind::Plus, TokenKind::Plus)
        | (TokenKind::PlusPlus, TokenKind::PlusPlus)
        | (TokenKind::PlusEqual, TokenKind::PlusEqual)
        | (TokenKind::Minus, TokenKind::Minus)
        | (TokenKind::MinusEqual, TokenKind::MinusEqual)
        | (TokenKind::Star, TokenKind::Star)
        | (TokenKind::StarEqual, TokenKind::StarEqual)
        | (TokenKind::Percent, TokenKind::Percent)
        | (TokenKind::PercentEqual, TokenKind::PercentEqual)
        | (TokenKind::Equal, TokenKind::Equal)
        | (TokenKind::EqualEqual, TokenKind::EqualEqual)
        | (TokenKind::Bang, TokenKind::Bang)
        | (TokenKind::BangEqual, TokenKind::BangEqual)
        | (TokenKind::Ampersand, TokenKind::Ampersand)
        | (TokenKind::AmpersandEqual, TokenKind::AmpersandEqual)
        | (TokenKind::AndAnd, TokenKind::AndAnd)
        | (TokenKind::Pipe, TokenKind::Pipe)
        | (TokenKind::PipeEqual, TokenKind::PipeEqual)
        | (TokenKind::OrOr, TokenKind::OrOr)
        | (TokenKind::Caret, TokenKind::Caret)
        | (TokenKind::CaretEqual, TokenKind::CaretEqual)
        | (TokenKind::FatArrow, TokenKind::FatArrow)
        | (TokenKind::ShiftLeft, TokenKind::ShiftLeft)
        | (TokenKind::ShiftLeftEqual, TokenKind::ShiftLeftEqual)
        | (TokenKind::ShiftRight, TokenKind::ShiftRight)
        | (TokenKind::ShiftRightEqual, TokenKind::ShiftRightEqual)
        | (TokenKind::LessEqual, TokenKind::LessEqual)
        | (TokenKind::GreaterEqual, TokenKind::GreaterEqual)
        | (TokenKind::Less, TokenKind::Less)
        | (TokenKind::Greater, TokenKind::Greater)
        | (TokenKind::Eof, TokenKind::Eof) => true,
        _ => false,
    }
}

} // verus!
