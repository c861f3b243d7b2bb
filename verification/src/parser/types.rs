use vstd::prelude::*;

use super::{ends_with_eof, keyword_of, split_weight, Parser};
use super::cursor::spec_previous_span;
use crate::ast::{FunctionTypeParam, FunctionTypeRef, TypeRef};
use crate::span::{spec_join, Span};
use crate::token::{Keyword, Token, TokenKind};

verus! {

/// Tokens that can close a type-argument list: `>`, `>=`, `>>` and `>>=`.
pub open spec fn closes_type_args(kind: TokenKind) -> bool {
    kind is Greater || kind is GreaterEqual || kind is ShiftRight || kind is ShiftRightEqual
}

/// What remains of a token after its leading `>` has been split off.
pub open spec fn split_rest(kind: TokenKind) -> TokenKind {
    match kind {
        TokenKind::GreaterEqual => TokenKind::Equal,
        TokenKind::ShiftRightEqual => TokenKind::GreaterEqual,
        _ => TokenKind::Greater,
    }
}

/// `q` is `p` after one error at the current token, with `message`.
pub(crate) open spec fn reported_with(q: Parser, p: Parser, message: Seq<char>) -> bool {
    &&& q.reported(p)
    &&& q.diagnostics@.last().message@ == message
}

/// What remains of a split token's text once its leading `>` is taken.
pub(crate) open spec fn split_rest_lexeme(token: Token) -> Seq<char> {
    if token.kind is GreaterEqual {
        "="@
    } else {
        token.lexeme@.subrange(1, token.lexeme@.len() as int)
    }
}

/// The span of the `>` that closes type arguments at `p`: the current token's,
/// or its first character where the token is split.
pub(crate) open spec fn closing_span(p: Parser) -> Span {
    let token = p.cur();
    if closes_type_args(token.kind) && !(token.kind is Greater) {
        Span { start: token.span.start, end: (token.span.start + 1) as usize }
    } else {
        token.span
    }
}

/// `q` is `p` after the `>` that closes type arguments: past a `>`; with `>=`,
/// `>>` or `>>=` split in place, what remains of it the current token; otherwise
/// with ``expected `>` `` reported.
pub(crate) open spec fn closed_type_args(q: Parser, p: Parser) -> bool {
    let token = p.cur();
    if token.kind is Greater {
        q.stepped(p)
    } else if closes_type_args(token.kind) {
        &&& q.position == p.position
        &&& q.diagnostics@ == p.diagnostics@
        &&& q.allow_struct_init == p.allow_struct_init
        &&& q.tokens@ == p.tokens@.update(p.position as int, q.cur())
        &&& q.cur().kind == split_rest(token.kind)
        &&& q.cur().span == Span { start: (token.span.start + 1) as usize, end: token.span.end }
        &&& q.cur().lexeme@ == split_rest_lexeme(token)
    } else {
        reported_with(q, p, "expected `>`"@)
    }
}

/// One `.part` of a dotted type name: `mid` is at `.`, `s` past it; an
/// identifier there extends `name0` by `.part`, anything else is reported and
/// extends it by `.<missing>`; `cur` is where the parser then stands.
pub(crate) open spec fn dotted_step(
    mid: Parser,
    s: Parser,
    name0: Seq<char>,
    cur: Parser,
    name: Seq<char>,
) -> bool {
    &&& mid.at_kind(TokenKind::Dot)
    &&& s.stepped(mid)
    &&& match s.cur().kind {
        TokenKind::Identifier(part) => cur.stepped(s) && name == name0 + "."@ + part@,
        _ => reported_with(cur, s, "expected type name after `.`"@) && name == name0 + "."@
            + "<missing>"@,
    }
}

/// From the identifier at `p`, after `j` dotted parts, the parser stands at
/// `cur` and the name read so far is `name`.
pub(crate) open spec fn dotted_upto(p: Parser, name: Seq<char>, cur: Parser, j: nat) -> bool
    decreases j,
{
    if j == 0 {
        p.cur().kind matches TokenKind::Identifier(n) && name == n@ && cur.stepped(p)
    } else {
        exists|mid: Parser, s: Parser, name0: Seq<char>|
            #[trigger] dotted_step(mid, s, name0, cur, name) && dotted_upto(
                p,
                name0,
                mid,
                (j - 1) as nat,
            )
    }
}

/// The parser stands where a type-argument list stops: at `Eof` or at a token
/// that closes it.
pub(crate) open spec fn ends_type_args(p: Parser) -> bool {
    p.cur().kind is Eof || closes_type_args(p.cur().kind)
}

/// The type that `r` adds to a list: none, or the one it holds.
pub(crate) open spec fn opt_seq(r: Option<TypeRef>) -> Seq<TypeRef> {
    match r {
        Some(t) => seq![t],
        None => Seq::empty(),
    }
}

/// One step of a type-argument list, apart from parsing the argument: `mid`
/// starts below measure `m` and not at the list's end, the argument `r` closes
/// `acc`, and the `,` at `b` is consumed, leaving `cur` further on than `mid`.
pub(crate) open spec fn arg_step(
    m: nat,
    mid: Parser,
    r: Option<TypeRef>,
    b: Parser,
    cur: Parser,
    acc: Seq<TypeRef>,
) -> bool {
    &&& mid.measure() < m
    &&& cur.measure() < mid.measure()
    &&& !ends_type_args(mid)
    &&& acc.len() >= opt_seq(r).len()
    &&& acc == acc.take(acc.len() - opt_seq(r).len()) + opt_seq(r)
    &&& b.at_kind(TokenKind::Comma)
    &&& cur.stepped(b)
}

/// From the `<` at `less`, after arguments each followed by `,`, the parser
/// stands at `cur` with the parsed arguments `acc` (one that fails to parse is
/// left out). Each argument starts below measure `m`.
pub(crate) open spec fn args_upto(m: nat, less: Parser, acc: Seq<TypeRef>, cur: Parser) -> bool
    decreases m, 0nat, m - cur.measure(),
{
    ||| acc.len() == 0 && cur.stepped(less)
    ||| exists|mid: Parser, r: Option<TypeRef>, b: Parser|
        #[trigger] arg_step(m, mid, r, b, cur, acc) && type_parsed(mid, r, b) && args_upto(
            m,
            less,
            acc.take(acc.len() - opt_seq(r).len()),
            mid,
        )
}

/// The named type that the parser builds from `p` once its arguments, `acc`
/// and then `last`'s, end at `s`: the `>` there is consumed or split, giving `q`.
pub(crate) open spec fn args_closed(
    p: Parser,
    name: Seq<char>,
    acc: Seq<TypeRef>,
    last: Option<TypeRef>,
    s: Parser,
    r: Option<TypeRef>,
    q: Parser,
) -> bool {
    &&& closed_type_args(q, s)
    &&& r matches Some(t) && t.name@ == name && t.args@ == acc + opt_seq(last)
        && t.bindings@.len() == 0 && t.function is None && t.span == spec_join(
        p.cur().span,
        closing_span(s),
    )
}

/// How a type-argument list that reached `cur` with `acc` stops at `s`: there,
/// at its end (no last argument), or after a last argument `last`, parsed from
/// `cur`, with no `,` after it; then it is closed.
pub(crate) open spec fn args_stop(
    p: Parser,
    name: Seq<char>,
    cur: Parser,
    acc: Seq<TypeRef>,
    last: Option<TypeRef>,
    s: Parser,
    r: Option<TypeRef>,
    q: Parser,
) -> bool {
    &&& ends_type_args(cur) ==> last is None && s == cur
    &&& !ends_type_args(cur) ==> cur.measure() < p.measure() && !s.at_kind(TokenKind::Comma)
    &&& args_closed(p, name, acc, last, s, r, q)
}

/// `q` is `p` after expecting the payload-free `kind`: past it, or with
/// `expected <what>` reported.
pub(crate) open spec fn expected_kind(q: Parser, p: Parser, kind: TokenKind, what: Seq<char>) -> bool {
    if p.at_kind(kind) {
        q.stepped(p)
    } else {
        reported_with(q, p, "expected "@ + what)
    }
}

/// `t` is the type that `r` gives, or where `r` is none, a `<missing>` type at
/// the current token of `s`.
pub(crate) open spec fn type_or_missing(r: Option<TypeRef>, s: Parser, t: TypeRef) -> bool {
    match r {
        Some(x) => t == x,
        None => t.name@ == "<missing>"@ && t.args@.len() == 0 && t.bindings@.len() == 0
            && t.function is None && t.span == s.cur().span,
    }
}

/// The parser stands where a parameter list of a function type stops: at
/// `Eof` or at `)`.
pub(crate) open spec fn ends_params(p: Parser) -> bool {
    p.cur().kind is Eof || p.at_kind(TokenKind::RightParen)
}

/// One parameter of a function type, apart from parsing its type: `mid`
/// starts below measure `m` and not at the list's end; an optional `mut` takes
/// it to `a`, where the type `r` is parsed, ending at `b`; `param` is then the
/// parameter, `mut` or not, of that type (or of a `<missing>` one at `b`).
pub(crate) open spec fn param_parsed(
    m: nat,
    mid: Parser,
    a: Parser,
    r: Option<TypeRef>,
    b: Parser,
    param: FunctionTypeParam,
) -> bool {
    &&& mid.measure() < m
    &&& !ends_params(mid)
    &&& if mid.at_keyword(Keyword::Mut) {
        a.stepped(mid)
    } else {
        a == mid
    }
    &&& a.measure() < m
    &&& param.mutable == mid.at_keyword(Keyword::Mut)
    &&& type_or_missing(r, b, param.type_ref)
}

/// One parameter step: the parameter parsed from `mid` ends `acc`, and the `,`
/// at `b` is consumed, leaving `cur` further on than `mid`.
pub(crate) open spec fn param_step(
    m: nat,
    mid: Parser,
    a: Parser,
    r: Option<TypeRef>,
    b: Parser,
    cur: Parser,
    acc: Seq<FunctionTypeParam>,
) -> bool {
    &&& acc.len() > 0
    &&& param_parsed(m, mid, a, r, b, acc.last())
    &&& b.at_kind(TokenKind::Comma)
    &&& cur.stepped(b)
    &&& cur.measure() < mid.measure()
}

/// From `start`, just inside `(`, after parameters each followed by `,`, the
/// parser stands at `cur` with the parameters `acc`. Each parameter starts
/// below measure `m`.
pub(crate) open spec fn params_upto(
    m: nat,
    start: Parser,
    acc: Seq<FunctionTypeParam>,
    cur: Parser,
) -> bool
    decreases m, 0nat, m - cur.measure(),
{
    ||| acc.len() == 0 && cur == start
    ||| exists|mid: Parser, a: Parser, r: Option<TypeRef>, b: Parser|
        #[trigger] param_step(m, mid, a, r, b, cur, acc) && type_parsed(a, r, b) && params_upto(
            m,
            start,
            acc.drop_last(),
            mid,
        )
}

/// The shape of a function type parsed from `p`: `fn` and the `(` after it
/// (reported if missing) lead to `s1`; the parameters `acc` reach `cur`, where
/// the list stops, there or after a last parameter parsed from `cur` through
/// `a` to `e` with no `,` after it; `)` and `:` (each reported if missing) lead
/// to `s6`, where the return type `rr` is parsed, ending at `q`. `r` is the type
/// `fn` with those parameters and that return type (or a `<missing>` one).
pub(crate) open spec fn fn_type_shape(
    p: Parser,
    s0: Parser,
    s1: Parser,
    cur: Parser,
    acc: Seq<FunctionTypeParam>,
    a: Parser,
    last: Option<TypeRef>,
    e: Parser,
    s5: Parser,
    s6: Parser,
    rr: Option<TypeRef>,
    r: Option<TypeRef>,
    q: Parser,
) -> bool {
    &&& s0.stepped(p)
    &&& expected_kind(s1, s0, TokenKind::LeftParen, "`(`"@)
    &&& ends_params(cur) ==> e == cur
    &&& !ends_params(cur) ==> !e.at_kind(TokenKind::Comma)
    &&& expected_kind(s5, e, TokenKind::RightParen, "`)`"@)
    &&& expected_kind(s6, s5, TokenKind::Colon, "`:`"@)
    &&& s6.measure() < p.measure()
    &&& r matches Some(t) && t.name@ == "fn"@ && t.args@.len() == 0 && t.bindings@.len() == 0
        && t.function is Some && fn_type_parts(p, cur, acc, a, last, e, rr, q, t.function.unwrap(), t.span)
}

/// The parameters, return type and span of a function type parsed from `p`,
/// as `fn_type_shape` describes them.
pub(crate) open spec fn fn_type_parts(
    p: Parser,
    cur: Parser,
    acc: Seq<FunctionTypeParam>,
    a: Parser,
    last: Option<TypeRef>,
    e: Parser,
    rr: Option<TypeRef>,
    q: Parser,
    f: FunctionTypeRef,
    span: Span,
) -> bool {
    &&& type_or_missing(rr, q, *f.return_type)
    &&& span == spec_join(p.cur().span, f.return_type.span)
    &&& if ends_params(cur) {
        f.params@ == acc
    } else {
        &&& f.params@.len() == acc.len() + 1
        &&& f.params@.drop_last() == acc
        &&& param_parsed(p.measure(), cur, a, last, e, f.params@.last())
    }
}

/// What parsing a type from `p` gives: the type `r` and the parser `q`.
///
/// A dotted name (`a.b.C`, a missing part reported) with optional arguments
/// `<T, ...>`: each argument a type parsed in turn, separated by `,`, one that
/// fails to parse left out, and the list closed by `>` or by the first `>` of a
/// `>=`, `>>` or `>>=`, which is split in place. Its span runs from the name to
/// the closing `>`, or to the name's last token. Anything else but `fn` is
/// reported as ``expected type name`` and gives no type. A function type
/// `fn(...): R` gives a type with a function part.
pub(crate) open spec fn type_parsed(p: Parser, r: Option<TypeRef>, q: Parser) -> bool
    decreases p.measure(), 1nat, 0int,
{
    if p.at_keyword(Keyword::Fn) {
        exists|
            s0: Parser,
            s1: Parser,
            cur: Parser,
            acc: Seq<FunctionTypeParam>,
            a: Parser,
            last: Option<TypeRef>,
            e: Parser,
            s5: Parser,
            s6: Parser,
            rr: Option<TypeRef>,
        |
            #[trigger] fn_type_shape(p, s0, s1, cur, acc, a, last, e, s5, s6, rr, r, q)
                && params_upto(p.measure(), s1, acc, cur) && (ends_params(cur) || type_parsed(
                a,
                last,
                e,
            )) && type_parsed(s6, rr, q)
    } else if p.cur().kind is Identifier {
        exists|s1: Parser, name: Seq<char>, j: nat|
            #[trigger] dotted_upto(p, name, s1, j) && !s1.at_kind(TokenKind::Dot) && (if s1.at_kind(
                TokenKind::Less,
            ) {
                exists|cur: Parser, acc: Seq<TypeRef>, last: Option<TypeRef>, s: Parser|
                    #[trigger] args_stop(p, name, cur, acc, last, s, r, q) && args_upto(
                        p.measure(),
                        s1,
                        acc,
                        cur,
                    ) && (ends_type_args(cur) || type_parsed(cur, last, s))
            } else {
                &&& q == s1
                &&& r matches Some(t) && t.name@ == name && t.args@.len() == 0
                    && t.bindings@.len() == 0 && t.function is None && t.span == spec_join(
                    p.cur().span,
                    spec_previous_span(s1.tokens@, s1.position),
                )
            })
    } else {
        r is None && reported_with(q, p, "expected type name"@)
    }
}

/// One step of an explicit type-argument list, apart from parsing the
/// argument: `mid` starts below measure `m` and not at the list's end, the type
/// `t` parsed there ends `acc`, and the `,` at `b` is consumed, leaving `cur`
/// further on than `mid`.
pub(crate) open spec fn type_arg_step(
    m: nat,
    mid: Parser,
    t: TypeRef,
    b: Parser,
    cur: Parser,
    acc: Seq<TypeRef>,
) -> bool {
    &&& mid.measure() < m
    &&& cur.measure() < mid.measure()
    &&& !ends_type_args(mid)
    &&& acc.len() > 0
    &&& acc.last() == t
    &&& b.at_kind(TokenKind::Comma)
    &&& cur.stepped(b)
}

/// From the `<` at `less`, after types each followed by `,`, the parser stands
/// at `cur` with the types `acc`. Each starts below measure `m`.
pub(crate) open spec fn type_args_upto(m: nat, less: Parser, acc: Seq<TypeRef>, cur: Parser) -> bool
    decreases m - cur.measure(),
{
    ||| acc.len() == 0 && cur.stepped(less)
    ||| exists|mid: Parser, t: TypeRef, b: Parser|
        #[trigger] type_arg_step(m, mid, t, b, cur, acc) && type_parsed(mid, Some(t), b)
            && type_args_upto(m, less, acc.drop_last(), mid)
}

/// How an explicit type-argument list from `p` that reached `cur` with `acc`
/// ends: at the list's end (no last type), closed; after a last type `last`
/// parsed from `cur` to `s` with no `,` after it, closed; or, where that type
/// failed to parse, with no list and the parser left at `s`.
pub(crate) open spec fn type_args_stop(
    p: Parser,
    cur: Parser,
    acc: Seq<TypeRef>,
    last: Option<TypeRef>,
    s: Parser,
    r: Option<Vec<TypeRef>>,
    q: Parser,
) -> bool {
    if ends_type_args(cur) {
        &&& last is None
        &&& s == cur
        &&& closed_type_args(q, s)
        &&& r matches Some(v) && v@ == acc
    } else {
        &&& cur.measure() < p.measure()
        &&& match last {
            Some(t) => !s.at_kind(TokenKind::Comma) && closed_type_args(q, s) && (r matches Some(v)
                && v@ == acc.push(t)),
            None => r is None && q == s,
        }
    }
}

/// What parsing explicit type arguments from `p` gives: none where no `<`
/// stands there; otherwise the types parsed in turn, separated by `,`, and the
/// closing `>` (split from `>=`, `>>` or `>>=`), or none where a type fails.
pub(crate) open spec fn type_args_parsed(p: Parser, r: Option<Vec<TypeRef>>, q: Parser) -> bool {
    if !p.at_kind(TokenKind::Less) {
        r is None && q == p
    } else {
        exists|cur: Parser, acc: Seq<TypeRef>, last: Option<TypeRef>, s: Parser|
            #[trigger] type_args_stop(p, cur, acc, last, s, r, q) && type_args_upto(
                p.measure(),
                p,
                acc,
                cur,
            ) && (ends_type_args(cur) || type_parsed(cur, last, s))
    }
}

impl Parser {
    /// Parses `<T, ...>` when the current token is `<`.
    pub(crate) fn parse_type_args(&mut self) -> (args: Option<Vec<TypeRef>>)
        requires
            old(self).wf(),
        ensures
            final(self).follows(*old(self)),
            !old(self).at_kind(TokenKind::Less) ==> args is None && *final(self) == *old(self),
            old(self).at_kind(TokenKind::Less) ==> final(self).measure() < old(self).measure(),
            type_args_parsed(*old(self), args, *final(self)),
    {
        if !self.match_kind(&TokenKind::Less) {
            return None;
        }
        let ghost m = old(self).measure();
        let mut args: Vec<TypeRef> = Vec::new();
        let ghost mut last: Parser = *self;
        let ghost mut acc: Seq<TypeRef> = Seq::empty();
        let ghost mut last_type: Option<TypeRef> = None;
        proof {
            assert(type_args_upto(m, *old(self), args@, *self));
        }
        loop
            invariant_except_break
                type_args_upto(m, *old(self), args@, *self),
            invariant
                self.follows(*old(self)),
                self.measure() < old(self).measure(),
                old(self).at_kind(TokenKind::Less),
                m == old(self).measure(),
            ensures
                self.follows(*old(self)),
                self.measure() < old(self).measure(),
                type_args_upto(m, *old(self), acc, last),
                ends_type_args(last) ==> *self == last && args@ == acc,
                !ends_type_args(last) ==> last.measure() < m && type_parsed(last, last_type, *self)
                    && last_type is Some && !self.at_kind(TokenKind::Comma)
                    && args@ == acc.push(last_type.unwrap()),
            decreases self.measure(),
        {
            proof {
                last = *self;
                acc = args@;
            }
            if self.at_eof() || self.check_type_greater() {
                break;
            }
            let parsed = self.parse_type();
            proof {
                last_type = parsed;
            }
            let ghost b = *self;
            match parsed {
                Some(arg) => args.push(arg),
                None => {
                    proof {
                        assert(type_args_stop(*old(self), last, acc, None, *self, None, *self));
                    }
                    return None;
                },
            }
            if !self.match_kind(&TokenKind::Comma) {
                break;
            }
            proof {
                assert(args@.drop_last() == acc);
                assert(type_arg_step(m, last, last_type.unwrap(), b, *self, args@));
                assert(type_args_upto(m, *old(self), args@, *self));
            }
        }
        let ghost before_close = *self;
        self.expect_type_greater();
        proof {
            let last_arg = if ends_type_args(last) { None } else { last_type };
            assert(type_args_stop(*old(self), last, acc, last_arg, before_close, Some(args), *self));
        }
        Some(args)
    }

    /// Parses a named type with optional arguments, or `fn(...): R`.
    pub(crate) fn parse_type(&mut self) -> (type_ref: Option<TypeRef>)
        requires
            old(self).wf(),
        ensures
            final(self).follows(*old(self)),
            type_ref is Some <==> (old(self).at_keyword(Keyword::Fn) || old(self).cur().kind is Identifier),
            type_ref is Some ==> final(self).measure() < old(self).measure(),
            type_ref is None ==> final(self).reported(*old(self)),
            old(self).at_keyword(Keyword::Fn) ==> (type_ref matches Some(t) && t.function is Some),
            old(self).cur().kind is Identifier ==> (type_ref matches Some(t) && t.function is None),
            ({
                let next = old(self).tokens@[old(self).position + 1].kind;
                old(self).cur().kind matches TokenKind::Identifier(n) ==> (!(next is Dot) && !(next is Less) ==> (
                type_ref matches Some(t) && t.name@ == n@ && t.args@.len() == 0 && t.bindings@.len() == 0
                    && t.function is None && final(self).stepped(*old(self))))
            }),
            type_parsed(*old(self), type_ref, *final(self)),
        decreases old(self).measure(),
    {
        let start = self.current().span;
        let ghost p0 = *self;
        if self.match_keyword(Keyword::Fn) {
            let ghost s0 = *self;
            self.expect_kind(&TokenKind::LeftParen, "`(`");
            let ghost s1 = *self;
            let ghost m = p0.measure();
            let mut params: Vec<FunctionTypeParam> = Vec::new();
            let ghost mut last: Parser = *self;
            let ghost mut acc: Seq<FunctionTypeParam> = Seq::empty();
            let ghost mut after_mut: Parser = *self;
            let ghost mut last_type: Option<TypeRef> = None;
            proof {
                assert(params_upto(m, s1, params@, *self));
            }
            loop
                invariant_except_break
                    params_upto(m, s1, params@, *self),
                invariant
                    self.follows(*old(self)),
                    self.measure() < old(self).measure(),
                    m == old(self).measure(),
                ensures
                    self.follows(*old(self)),
                    self.measure() < old(self).measure(),
                    params_upto(m, s1, acc, last),
                    ends_params(last) ==> *self == last && params@ == acc,
                    !ends_params(last) ==> type_parsed(after_mut, last_type, *self)
                        && !self.at_kind(TokenKind::Comma) && params@.len() == acc.len() + 1
                        && params@.drop_last() == acc && param_parsed(
                        m,
                        last,
                        after_mut,
                        last_type,
                        *self,
                        params@.last(),
                    ),
                decreases self.measure(),
            {
                proof {
                    last = *self;
                    acc = params@;
                }
                if self.at_eof() || self.check_kind(&TokenKind::RightParen) {
                    break;
                }
                let mutable = self.match_keyword(Keyword::Mut);
                proof {
                    after_mut = *self;
                }
                let parsed = self.parse_type();
                proof {
                    last_type = parsed;
                }
                let type_ref = match parsed {
                    Some(type_ref) => type_ref,
                    None => self.missing_type(self.current().span),
                };
                params.push(FunctionTypeParam { mutable, type_ref });
                let ghost b = *self;
                proof {
                    assert(params@.drop_last() == acc);
                    assert(param_parsed(m, last, after_mut, last_type, b, params@.last()));
                }
                if !self.match_kind(&TokenKind::Comma) {
                    break;
                }
                proof {
                    assert(param_step(m, last, after_mut, last_type, b, *self, params@));
                    assert(params_upto(m, s1, params@, *self));
                }
            }
            let ghost e = *self;
            self.expect_kind(&TokenKind::RightParen, "`)`");
            let ghost s5 = *self;
            self.expect_kind(&TokenKind::Colon, "`:`");
            let ghost s6 = *self;
            let parsed_return = self.parse_type();
            let return_type = match parsed_return {
                Some(type_ref) => type_ref,
                None => self.missing_type(self.current().span),
            };
            let span = start.join(return_type.span);
            let type_ref = TypeRef {
                name: String::from_str("fn"),
                args: Vec::new(),
                bindings: Vec::new(),
                function: Some(FunctionTypeRef { params, return_type: Box::new(return_type) }),
                span,
            };
            proof {
                assert(fn_type_shape(
                    p0,
                    s0,
                    s1,
                    last,
                    acc,
                    after_mut,
                    last_type,
                    e,
                    s5,
                    s6,
                    parsed_return,
                    Some(type_ref),
                    *self,
                ));
                assert(type_parsed(p0, Some(type_ref), *self));
            }
            return Some(type_ref);
        }
        let mut name = match self.consume_identifier() {
            Some(name) => name,
            None => {
                self.error_here(String::from_str("expected type name"));
                return None;
            },
        };
        let ghost mut j: nat = 0;
        let ghost after_name = *self;
        let ghost first = name@;
        let ghost simple = !(old(self).tokens@[old(self).position + 1].kind is Dot)
            && !(old(self).tokens@[old(self).position + 1].kind is Less);
        proof {
            if old(self).cur().kind is Identifier {
                assert(old(self).position + 1 < old(self).tokens@.len());
            }
        }
        loop
            invariant
                self.follows(*old(self)),
                self.measure() < old(self).measure(),
                old(self).cur().kind is Identifier,
                after_name.stepped(*old(self)),
                old(self).position + 1 < old(self).tokens@.len(),
                simple == (!(old(self).tokens@[old(self).position + 1].kind is Dot)
                    && !(old(self).tokens@[old(self).position + 1].kind is Less)),
                simple ==> *self == after_name && name@ == first,
                p0 == *old(self),
                dotted_upto(p0, name@, *self, j),
            ensures
                self.follows(*old(self)),
                self.measure() < old(self).measure(),
                simple ==> *self == after_name && name@ == first,
                dotted_upto(p0, name@, *self, j),
                !self.at_kind(TokenKind::Dot),
            decreases self.measure(),
        {
            let ghost mid = *self;
            let ghost name0 = name@;
            if !self.match_kind(&TokenKind::Dot) {
                break;
            }
            let ghost s = *self;
            name.append(".");
            let part = self.expect_identifier("expected type name after `.`");
            name.append(part.as_str());
            proof {
                assert(dotted_step(mid, s, name0, *self, name@));
                j = j + 1;
                assert(dotted_upto(p0, name@, *self, j));
            }
        }
        let ghost s1 = *self;
        let mut args = Vec::new();
        let mut end = self.previous_span();
        proof {
            if simple {
                assert(self.cur() == old(self).tokens@[old(self).position + 1]);
            }
        }
        let ghost m = old(self).measure();
        if self.match_kind(&TokenKind::Less) {
            let ghost mut last: Parser = *self;
            let ghost mut acc: Seq<TypeRef> = Seq::empty();
            let ghost mut last_type: Option<TypeRef> = None;
            proof {
                assert(args_upto(m, s1, args@, *self));
            }
            loop
                invariant_except_break
                    args_upto(m, s1, args@, *self),
                invariant
                    self.follows(*old(self)),
                    self.measure() < old(self).measure(),
                    m == old(self).measure(),
                    s1.at_kind(TokenKind::Less),
                ensures
                    self.follows(*old(self)),
                    self.measure() < old(self).measure(),
                    args_upto(m, s1, acc, last),
                    ends_type_args(last) ==> *self == last && args@ == acc,
                    !ends_type_args(last) ==> last.measure() < m && type_parsed(last, last_type, *self)
                        && !self.at_kind(TokenKind::Comma) && args@ == acc + opt_seq(last_type),
                decreases self.measure(),
            {
                proof {
                    last = *self;
                    acc = args@;
                }
                if self.at_eof() || self.check_type_greater() {
                    break;
                }
                let parsed = self.parse_type();
                let ghost b = *self;
                proof {
                    last_type = parsed;
                }
                if let Some(type_ref) = parsed {
                    args.push(type_ref);
                }
                proof {
                    assert(args@ == acc + opt_seq(last_type));
                    assert(args@.take(args@.len() - opt_seq(last_type).len()) == acc);
                }
                if !self.match_kind(&TokenKind::Comma) {
                    break;
                }
                proof {
                    assert(arg_step(m, last, last_type, b, *self, args@));
                    assert(args_upto(m, s1, args@, *self));
                }
            }
            let ghost before_close = *self;
            end = self.expect_type_greater().span;
            let type_ref = TypeRef { name, args, bindings: Vec::new(), function: None, span: start.join(end) };
            proof {
                let ghost last_arg = if ends_type_args(last) { None } else { last_type };
                assert(args_stop(p0, name@, last, acc, last_arg, before_close, Some(type_ref), *self));
                assert(type_parsed(p0, Some(type_ref), *self));
            }
            return Some(type_ref);
        }
        let type_ref = TypeRef { name, args, bindings: Vec::new(), function: None, span: start.join(end) };
        proof {
            assert(*self == s1);
            assert(type_parsed(p0, Some(type_ref), *self));
        }
        Some(type_ref)
    }

    /// Consumes a `>` that closes type arguments; `>=`, `>>` and `>>=` are split
    /// in place, leaving their remainder as the current token.
    pub(crate) fn expect_type_greater(&mut self) -> (token: Token)
        requires
            old(self).wf(),
        ensures
            final(self).follows(*old(self)),
            token.span.start == old(self).cur().span.start,
            old(self).cur().kind is Greater ==> token == old(self).cur() && final(self).stepped(
                *old(self),
            ),
            closes_type_args(old(self).cur().kind) && !(old(self).cur().kind is Greater) ==> {
                &&& token.kind is Greater
                &&& final(self).position == old(self).position
                &&& final(self).diagnostics@ == old(self).diagnostics@
                &&& final(self).tokens@.len() == old(self).tokens@.len()
                &&& final(self).cur().kind == split_rest(old(self).cur().kind)
            },
            closes_type_args(old(self).cur().kind) ==> final(self).measure() < old(self).measure(),
            !closes_type_args(old(self).cur().kind) ==> final(self).reported(*old(self)),
            closed_type_args(*final(self), *old(self)),
            token.span == closing_span(*old(self)),
    {
        let token = self.current().clone();
        let ghost before = self.tokens@;
        match token.kind {
            TokenKind::Greater => self.advance(),
            TokenKind::GreaterEqual => {
                assert(super::token_splittable(before[self.position as int]));
                let rest = Token {
                    kind: TokenKind::Equal,
                    span: Span::new(token.span.start + 1, token.span.end),
                    lexeme: String::from_str("="),
                };
                self.tokens.set(self.position, rest);
                proof { self.lemma_split_keeps_invariant(before); }
                Token {
                    kind: TokenKind::Greater,
                    span: Span::new(token.span.start, token.span.start + 1),
                    lexeme: String::from_str(">"),
                }
            },
            TokenKind::ShiftRight | TokenKind::ShiftRightEqual => {
                assert(super::token_splittable(before[self.position as int]));
                let kind = if matches!(token.kind, TokenKind::ShiftRightEqual) {
                    TokenKind::GreaterEqual
                } else {
                    TokenKind::Greater
                };
                let len = token.lexeme.as_str().unicode_len();
                let rest_text = token.lexeme.as_str().substring_char(1, len);
                let rest = Token {
                    kind,
                    span: Span::new(token.span.start + 1, token.span.end),
                    lexeme: String::from_str(rest_text),
                };
                self.tokens.set(self.position, rest);
                proof { self.lemma_split_keeps_invariant(before); }
                Token {
                    kind: TokenKind::Greater,
                    span: Span::new(token.span.start, token.span.start + 1),
                    lexeme: String::from_str(">"),
                }
            },
            _ => {
                self.error_here(String::from_str("expected `>`"));
                self.synthetic_current()
            },
        }
    }

    /// After the current token was replaced by what remains of it after a split,
    /// the invariant holds and the parser follows its earlier state.
    pub(crate) proof fn lemma_split_keeps_invariant(&self, before: Seq<Token>)
        requires
            ends_with_eof(before),
            self.position < before.len(),
            self.tokens@ == before.update(self.position as int, self.cur()),
            closes_type_args(before[self.position as int].kind),
            !(before[self.position as int].kind is Greater),
            self.cur().kind == split_rest(before[self.position as int].kind),
            self.cur().span.start == before[self.position as int].span.start + 1,
            self.cur().kind is GreaterEqual ==> true,
        ensures
            ends_with_eof(self.tokens@),
            forall|i: int|
                0 <= i < self.tokens@.len() ==> split_weight(#[trigger] self.tokens@[i].kind)
                    <= split_weight(before[i].kind),
            split_weight(self.cur().kind) < split_weight(before[self.position as int].kind),
            forall|i: int|
                0 <= i < self.tokens@.len() ==> (#[trigger] self.tokens@[i].kind is Eof) == (
                before[i].kind is Eof),
    {
        let p = self.position as int;
        assert(self.tokens@.last() == before.last()) by {
            if p == before.len() - 1 {
                assert(false);
            }
        }
        assert forall|i: int| 0 <= i < self.tokens@.len() implies super::token_splittable(
            #[trigger] self.tokens@[i],
        ) by {
            if i != p {
                assert(self.tokens@[i] == before[i]);
            }
        }
    }

    pub(crate) fn check_type_greater(&self) -> (found: bool)
        requires
            self.wf(),
        ensures
            found == closes_type_args(self.cur().kind),
    {
        matches!(
            self.current().kind,
            TokenKind::Greater | TokenKind::GreaterEqual | TokenKind::ShiftRight
                | TokenKind::ShiftRightEqual
        )
    }
}

} // verus!
