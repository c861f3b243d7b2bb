use vstd::prelude::*;

use super::expressions::{
    consumed_unless_eof, expression_parsed, field_parsed, field_step, fields_upto, struct_init_parsed,
    struct_init_shape,
};
use super::cursor::spec_previous_span;
use super::expressions::{ends_list, name_read};
use super::statements::{block_parsed, expected_keyword};
use super::types::{
    closed_type_args, ends_type_args, expected_kind, reported_with, type_or_missing, type_parsed,
};
use super::{keyword_of, spec_simple_kind_eq, synchronized, Parser};
use crate::ast::{
    AssociatedTypeBinding, AssociatedTypeDecl, AssociatedTypeDef, EnumDecl, EnumVariant, Expr,
    ExprKind, ExtensionDecl, FieldDecl, FunctionBody, FunctionDecl, ImplDecl, ImplMember,
    ImportDecl, ImportName, ImportNamespace, Item, Param, StructDecl, StructInitField,
    StructMember, TraitDecl, TraitMethodDecl, TypeParamBound, TypeRef,
};
use crate::span::{spec_join, Span};
use crate::text::contains_string;
use crate::token::{Keyword, Token, TokenKind};

verus! {

/// One parameter of a function, apart from its type: `mid` starts below
/// measure `m` and not at `)` or the end; an optional `mut` leads to `a1`, the
/// name to `a2`; after `:` a type is parsed from `a3` to `b`, otherwise `b` is
/// `a2`; `param` spans from `mid` to the token before `b`.
pub(crate) open spec fn param_decl_parsed(
    m: nat,
    mid: Parser,
    a1: Parser,
    a2: Parser,
    a3: Parser,
    b: Parser,
    param: Param,
) -> bool {
    &&& mid.measure() < m
    &&& !ends_list(mid, TokenKind::RightParen)
    &&& if mid.at_keyword(Keyword::Mut) {
        a1.stepped(mid)
    } else {
        a1 == mid
    }
    &&& param.mutable == mid.at_keyword(Keyword::Mut)
    &&& name_read(a1, param.name@, a2, false, "expected parameter name"@)
    &&& if a2.at_kind(TokenKind::Colon) {
        a3.stepped(a2) && type_parsed(a3, param.type_ref, b)
    } else {
        param.type_ref is None && b == a2
    }
    &&& param.span == spec_join(mid.cur().span, spec_previous_span(b.tokens@, b.position))
}

/// One parameter step: the parameter parsed from `mid` ends `acc`, and the
/// `,` at `b` is consumed, leaving `cur` further on than `mid`.
pub(crate) open spec fn param_decl_step(
    m: nat,
    mid: Parser,
    a1: Parser,
    a2: Parser,
    a3: Parser,
    b: Parser,
    cur: Parser,
    acc: Seq<Param>,
) -> bool {
    &&& acc.len() > 0
    &&& param_decl_parsed(m, mid, a1, a2, a3, b, acc.last())
    &&& b.at_kind(TokenKind::Comma)
    &&& cur.stepped(b)
    &&& cur.measure() < mid.measure()
}

/// From `start`, after parameters each followed by `,`, the parser stands at
/// `cur` with the parameters `acc`. Each starts below measure `m`.
pub(crate) open spec fn param_decls_upto(m: nat, start: Parser, acc: Seq<Param>, cur: Parser) -> bool
    decreases m - cur.measure(),
{
    ||| acc.len() == 0 && cur == start
    ||| exists|mid: Parser, a1: Parser, a2: Parser, a3: Parser, b: Parser|
        #[trigger] param_decl_step(m, mid, a1, a2, a3, b, cur, acc) && param_decls_upto(
            m,
            start,
            acc.drop_last(),
            mid,
        )
}

/// How a parameter list from `p` that reached `cur` with `acc` stops at `q`
/// with `params`: at `)` or the end, or after a last parameter parsed from
/// `cur` (through `a1`, `a2`, `a3`) with no `,` after it.
pub(crate) open spec fn param_decls_stop(
    p: Parser,
    cur: Parser,
    acc: Seq<Param>,
    a1: Parser,
    a2: Parser,
    a3: Parser,
    params: Seq<Param>,
    q: Parser,
) -> bool {
    if ends_list(cur, TokenKind::RightParen) {
        q == cur && params == acc
    } else {
        &&& params.len() == acc.len() + 1
        &&& params.drop_last() == acc
        &&& param_decl_parsed(p.measure() + 1, cur, a1, a2, a3, q, params.last())
        &&& !q.at_kind(TokenKind::Comma)
    }
}

/// What parsing the parameters of a function from `p` gives: `[mut] name [:
/// Type]` separated by `,`, up to `)` or the end.
pub(crate) open spec fn param_decls_parsed(p: Parser, params: Seq<Param>, q: Parser) -> bool {
    exists|cur: Parser, acc: Seq<Param>, a1: Parser, a2: Parser, a3: Parser|
        #[trigger] param_decls_stop(p, cur, acc, a1, a2, a3, params, q) && param_decls_upto(
            p.measure() + 1,
            p,
            acc,
            cur,
        )
}

/// The shape of a function from `p`, after its name and type parameters:
/// `(` (reported if missing) to `s2`, the parameters to `s3`, `)` (reported if
/// missing) to `s4`, an optional `: Type` (from `s5`) to `s6`, then a block, or
/// `=>` (to `s7`) and an expression, or else an error and a missing body. `f`
/// has the given name and type parameters and spans from `start` to its body.
pub(crate) open spec fn function_tail_shape(
    p: Parser,
    start: Span,
    name: Option<String>,
    type_params: Vec<String>,
    bounds: Vec<TypeParamBound>,
    s2: Parser,
    s3: Parser,
    s4: Parser,
    s5: Parser,
    s6: Parser,
    s7: Parser,
    f: FunctionDecl,
    q: Parser,
) -> bool {
    &&& expected_kind(s2, p, TokenKind::LeftParen, "`(`"@)
    &&& param_decls_parsed(s2, f.params@, s3)
    &&& expected_kind(s4, s3, TokenKind::RightParen, "`)`"@)
    &&& if s4.at_kind(TokenKind::Colon) {
        s5.stepped(s4) && type_parsed(s5, f.return_type, s6)
    } else {
        f.return_type is None && s6 == s4
    }
    &&& s6.measure() <= p.measure()
    &&& if s6.at_kind(TokenKind::LeftBrace) {
        f.body is Block
    } else if s6.at_kind(TokenKind::FatArrow) {
        s7.stepped(s6) && s7.measure() < p.measure() && f.body is Expr
    } else {
        &&& reported_with(q, s6, "expected function body"@)
        &&& f.body == FunctionBody::Expr(Box::new(Expr { kind: ExprKind::Missing, span: s6.cur().span }))
    }
    &&& f.name == name
    &&& !f.exported
    &&& f.type_params == type_params
    &&& f.type_param_bounds == bounds
    &&& f.span == spec_join(start, f.body.spec_span())
}


/// One bound of a type parameter: at `c`, below measure `m`, the trait type
/// `r` is parsed, ending at `d`; `bound` binds the parameter `name`, which
/// starts at `start`, to that trait (or a missing one at `d`).
pub(crate) open spec fn bound_parsed(
    m: nat,
    c: Parser,
    r: Option<TypeRef>,
    d: Parser,
    bound: TypeParamBound,
    name: Seq<char>,
    start: Span,
) -> bool {
    &&& c.measure() < m
    &&& type_parsed(c, r, d)
    &&& type_or_missing(r, d, bound.trait_ref)
    &&& bound.param@ == name
    &&& bound.span == spec_join(start, bound.trait_ref.span)
}

/// One bound followed by `+`: the bound parsed from `c` ends `added`, and the
/// `+` at `d` is consumed, leaving `cur` further on than `c`.
pub(crate) open spec fn bound_step(
    m: nat,
    c: Parser,
    r: Option<TypeRef>,
    d: Parser,
    cur: Parser,
    added: Seq<TypeParamBound>,
    name: Seq<char>,
    start: Span,
) -> bool {
    &&& added.len() > 0
    &&& bound_parsed(m, c, r, d, added.last(), name, start)
    &&& d.at_kind(TokenKind::Plus)
    &&& cur.stepped(d)
    &&& cur.measure() < c.measure()
}

/// From `first`, after bounds each followed by `+`, the parser stands at
/// `cur` with the bounds `added`.
pub(crate) open spec fn bounds_upto(
    m: nat,
    first: Parser,
    added: Seq<TypeParamBound>,
    cur: Parser,
    name: Seq<char>,
    start: Span,
) -> bool
    decreases m - cur.measure(),
{
    ||| added.len() == 0 && cur == first
    ||| exists|c: Parser, r: Option<TypeRef>, d: Parser|
        #[trigger] bound_step(m, c, r, d, cur, added, name, start) && bounds_upto(
            m,
            first,
            added.drop_last(),
            c,
            name,
            start,
        )
}

/// The bounds `added` of the parameter `name`, from `first` after `:` to
/// `q`: types separated by `+`, at least one.
pub(crate) open spec fn bounds_parsed(
    m: nat,
    first: Parser,
    added: Seq<TypeParamBound>,
    q: Parser,
    name: Seq<char>,
    start: Span,
) -> bool {
    &&& added.len() > 0
    &&& !q.at_kind(TokenKind::Plus)
    &&& exists|c: Parser, r: Option<TypeRef>|
        #[trigger] bound_parsed(m, c, r, q, added.last(), name, start) && bounds_upto(
            m,
            first,
            added.drop_last(),
            c,
            name,
            start,
        )
}

/// One type parameter: at `mid`, below measure `m` and not at the list's end,
/// its name leads to `a1`; after `:` (to `a2`) its bounds `added` end at `b`;
/// otherwise it has none and `b` is `a1`.
pub(crate) open spec fn type_param_parsed(
    m: nat,
    mid: Parser,
    a1: Parser,
    a2: Parser,
    b: Parser,
    name: Seq<char>,
    added: Seq<TypeParamBound>,
) -> bool {
    &&& mid.measure() < m
    &&& !ends_type_args(mid)
    &&& name_read(mid, name, a1, false, "expected type parameter name"@)
    &&& if a1.at_kind(TokenKind::Colon) {
        a2.stepped(a1) && bounds_parsed(m, a2, added, b, name, mid.cur().span)
    } else {
        added.len() == 0 && b == a1
    }
}

/// One type parameter followed by `,`: it ends `params`, its `k` bounds end
/// `bounds`, and the `,` at `b` is consumed, leaving `cur` further on than `mid`.
pub(crate) open spec fn type_param_step(
    m: nat,
    mid: Parser,
    a1: Parser,
    a2: Parser,
    b: Parser,
    cur: Parser,
    params: Seq<String>,
    bounds: Seq<TypeParamBound>,
    k: int,
) -> bool {
    &&& params.len() > 0
    &&& 0 <= k <= bounds.len()
    &&& type_param_parsed(m, mid, a1, a2, b, params.last()@, bounds.skip(bounds.len() - k))
    &&& b.at_kind(TokenKind::Comma)
    &&& cur.stepped(b)
    &&& cur.measure() < mid.measure()
}

/// From the `<` at `less`, after type parameters each followed by `,`, the
/// parser stands at `cur` with `params` and their `bounds`.
pub(crate) open spec fn type_params_upto(
    m: nat,
    less: Parser,
    params: Seq<String>,
    bounds: Seq<TypeParamBound>,
    cur: Parser,
) -> bool
    decreases m - cur.measure(),
{
    ||| params.len() == 0 && bounds.len() == 0 && cur.stepped(less)
    ||| exists|mid: Parser, a1: Parser, a2: Parser, b: Parser, k: int|
        #[trigger] type_param_step(m, mid, a1, a2, b, cur, params, bounds, k) && type_params_upto(
            m,
            less,
            params.drop_last(),
            bounds.take(bounds.len() - k),
            mid,
        )
}

/// How a type-parameter list that reached `cur` with `ps` and `bs` stops at
/// `s`: at its end, or after a last parameter (through `a1`, `a2`, with `k`
/// bounds) with no `,` after it; `params` and `bounds` are the whole lists.
pub(crate) open spec fn type_params_stop(
    m: nat,
    cur: Parser,
    ps: Seq<String>,
    bs: Seq<TypeParamBound>,
    a1: Parser,
    a2: Parser,
    k: int,
    s: Parser,
    params: Seq<String>,
    bounds: Seq<TypeParamBound>,
) -> bool {
    if ends_type_args(cur) {
        s == cur && params == ps && bounds == bs
    } else {
        &&& params.len() == ps.len() + 1
        &&& params.drop_last() == ps
        &&& 0 <= k <= bounds.len()
        &&& bounds.take(bounds.len() - k) == bs
        &&& type_param_parsed(m, cur, a1, a2, s, params.last()@, bounds.skip(bounds.len() - k))
        &&& !s.at_kind(TokenKind::Comma)
    }
}

/// What parsing type parameters from `p` gives: none where no `<` stands
/// there; otherwise names, each with optional `: Bound + ...`, separated by
/// `,`, and the closing `>` (split from `>=`, `>>` or `>>=`).
pub(crate) open spec fn type_params_parsed(
    p: Parser,
    params: Seq<String>,
    bounds: Seq<TypeParamBound>,
    q: Parser,
) -> bool {
    if !p.at_kind(TokenKind::Less) {
        params.len() == 0 && bounds.len() == 0 && q == p
    } else {
        exists|cur: Parser, ps: Seq<String>, bs: Seq<TypeParamBound>, a1: Parser, a2: Parser, k: int, s: Parser|
            #[trigger] type_params_stop(p.measure(), cur, ps, bs, a1, a2, k, s, params, bounds)
                && type_params_upto(p.measure(), p, ps, bs, cur) && closed_type_args(q, s)
    }
}

/// What parsing the rest of a function from `p` gives (see
/// `function_tail_shape`), its body included.
pub(crate) open spec fn function_tail_parsed(
    p: Parser,
    start: Span,
    name: Option<String>,
    type_params: Vec<String>,
    bounds: Vec<TypeParamBound>,
    f: FunctionDecl,
    q: Parser,
) -> bool
    decreases p.measure(), 15nat, 0int,
{
    exists|s2: Parser, s3: Parser, s4: Parser, s5: Parser, s6: Parser, s7: Parser|
        #[trigger] function_tail_shape(p, start, name, type_params, bounds, s2, s3, s4, s5, s6, s7, f, q)
            && match f.body {
            FunctionBody::Block(b) => block_parsed(s6, b, q),
            FunctionBody::Expr(x) => !s6.at_kind(TokenKind::FatArrow) || expression_parsed(s7, *x, q),
        }
}

/// A lambda at `p`: `fn` consumed to `s1`, then the rest of a function with
/// no name and no type parameters.
pub(crate) open spec fn lambda_parsed(p: Parser, f: FunctionDecl, q: Parser) -> bool
    decreases p.measure(), 16nat, 0int,
{
    exists|s1: Parser|
        #[trigger] s1.stepped(p) && s1.measure() < p.measure() && f.type_params@.len() == 0
            && f.type_param_bounds@.len() == 0 && function_tail_parsed(
            s1,
            p.cur().span,
            None,
            f.type_params,
            f.type_param_bounds,
            f,
            q,
        )
}

/// A named function at `p`: `fn` to `s1`, its name (`from` allowed) to
/// `s2`, its type parameters to `s3`, where the rest of the function starts.
pub(crate) open spec fn named_function_shape(p: Parser, s1: Parser, s2: Parser, s3: Parser, f: FunctionDecl) -> bool {
    &&& s1.stepped(p)
    &&& f.name matches Some(n) && name_read(s1, n@, s2, true, "expected function name"@)
    &&& type_params_parsed(s2, f.type_params@, f.type_param_bounds@, s3)
}

/// What parsing a named function (a method) from `p` gives.
pub(crate) open spec fn named_function_parsed(p: Parser, f: FunctionDecl, q: Parser) -> bool {
    exists|s1: Parser, s2: Parser, s3: Parser|
        #[trigger] named_function_shape(p, s1, s2, s3, f) && function_tail_parsed(
            s3,
            p.cur().span,
            f.name,
            f.type_params,
            f.type_param_bounds,
            f,
            q,
        )
}

/// The head of a trait method at `p`: `static fn` (a missing `fn` reported)
/// or `fn`, leading to `s1`; the name (`from` allowed) to `s2`; type
/// parameters to `s3`; `(` (reported if missing) to `s4`; the parameters to
/// `s5`; `)` (reported if missing) to `s6`; an optional `: Type` (from `s7`)
/// to `s8`. The method spans from its first token to its body, or to the
/// token before `q` where it has none.
pub(crate) open spec fn trait_method_shape(
    p: Parser,
    s0: Parser,
    s1: Parser,
    s2: Parser,
    s3: Parser,
    s4: Parser,
    s5: Parser,
    s6: Parser,
    s7: Parser,
    s8: Parser,
    method: TraitMethodDecl,
    q: Parser,
) -> bool {
    &&& method.static_ == p.at_keyword(Keyword::Static)
    &&& if method.static_ {
        s0.stepped(p) && expected_keyword(s1, s0, Keyword::Fn, "`fn`"@)
    } else {
        s1.stepped(p)
    }
    &&& name_read(s1, method.name@, s2, true, "expected trait method name"@)
    &&& type_params_parsed(s2, method.type_params@, method.type_param_bounds@, s3)
    &&& expected_kind(s4, s3, TokenKind::LeftParen, "`(`"@)
    &&& param_decls_parsed(s4, method.params@, s5)
    &&& expected_kind(s6, s5, TokenKind::RightParen, "`)`"@)
    &&& if s6.at_kind(TokenKind::Colon) {
        s7.stepped(s6) && type_parsed(s7, method.return_type, s8)
    } else {
        method.return_type is None && s8 == s6
    }
    &&& s8.measure() < p.measure()
    &&& method.span == spec_join(
        p.cur().span,
        match method.body {
            Some(body) => body.spec_span(),
            None => spec_previous_span(q.tokens@, q.position),
        },
    )
}

/// What parsing a trait method from `p` gives: its head (see
/// `trait_method_shape`) and an optional default body, a block or `=>` and
/// an expression (from `s9`).
pub(crate) open spec fn trait_method_parsed(p: Parser, method: TraitMethodDecl, q: Parser) -> bool {
    exists|s0: Parser, s1: Parser, s2: Parser, s3: Parser, s4: Parser, s5: Parser, s6: Parser, s7: Parser, s8: Parser|
        #[trigger] trait_method_shape(p, s0, s1, s2, s3, s4, s5, s6, s7, s8, method, q) && if s8.at_kind(
            TokenKind::LeftBrace,
        ) {
            method.body matches Some(FunctionBody::Block(block)) && block_parsed(s8, block, q)
        } else if s8.at_kind(TokenKind::FatArrow) {
            exists|s9: Parser| #[trigger] s9.stepped(s8) && (method.body matches Some(FunctionBody::Expr(x)) && expression_parsed(
                s9,
                *x,
                q,
            ))
        } else {
            method.body is None && q == s8
        }
}

/// One type of a `+`-separated list: at `c`, below measure `m`, the type `r`
/// is parsed, ending at `d`; `t` is it, or a missing one at `d`.
pub(crate) open spec fn listed_type_parsed(m: nat, c: Parser, r: Option<TypeRef>, d: Parser, t: TypeRef) -> bool {
    &&& c.measure() < m
    &&& type_parsed(c, r, d)
    &&& type_or_missing(r, d, t)
}

/// One listed type followed by `+`: it ends `added`, and the `+` at `d` is
/// consumed, leaving `cur` further on than `c`.
pub(crate) open spec fn listed_type_step(
    m: nat,
    c: Parser,
    r: Option<TypeRef>,
    d: Parser,
    cur: Parser,
    added: Seq<TypeRef>,
) -> bool {
    &&& added.len() > 0
    &&& listed_type_parsed(m, c, r, d, added.last())
    &&& d.at_kind(TokenKind::Plus)
    &&& cur.stepped(d)
    &&& cur.measure() < c.measure()
}

/// From `first`, after types each followed by `+`, the parser stands at `cur`
/// with `added`.
pub(crate) open spec fn type_list_upto(m: nat, first: Parser, added: Seq<TypeRef>, cur: Parser) -> bool
    decreases m - cur.measure(),
{
    ||| added.len() == 0 && cur == first
    ||| exists|c: Parser, r: Option<TypeRef>, d: Parser|
        #[trigger] listed_type_step(m, c, r, d, cur, added) && type_list_upto(m, first, added.drop_last(), c)
}

/// The types `added`, from `first` to `q`, separated by `+`: at least one.
pub(crate) open spec fn type_list_parsed(m: nat, first: Parser, added: Seq<TypeRef>, q: Parser) -> bool {
    &&& added.len() > 0
    &&& !q.at_kind(TokenKind::Plus)
    &&& exists|c: Parser, r: Option<TypeRef>|
        #[trigger] listed_type_parsed(m, c, r, q, added.last()) && type_list_upto(m, first, added.drop_last(), c)
}

/// An associated type at `a` (at `type`): `type` to `c1`, its name to `c2`, its
/// type parameters to `c3`; after `:` (to `c4`) its bounds to `c5`; after `=`
/// (to `c6`) its default type `r` (or a missing one) to `c7`.
pub(crate) open spec fn associated_type_parsed(
    m: nat,
    a: Parser,
    c1: Parser,
    c2: Parser,
    c3: Parser,
    c4: Parser,
    c5: Parser,
    c6: Parser,
    r: Option<TypeRef>,
    c7: Parser,
    decl: AssociatedTypeDecl,
) -> bool {
    &&& c1.stepped(a)
    &&& name_read(c1, decl.name@, c2, false, "expected associated type name"@)
    &&& type_params_parsed(c2, decl.type_params@, decl.type_param_bounds@, c3)
    &&& if c3.at_kind(TokenKind::Colon) {
        c4.stepped(c3) && type_list_parsed(m, c4, decl.bounds@, c5)
    } else {
        decl.bounds@.len() == 0 && c5 == c3
    }
    &&& if c5.at_kind(TokenKind::Equal) {
        c6.stepped(c5) && c6.measure() < m && type_parsed(c6, r, c7) && (decl.default matches Some(t)
            && type_or_missing(r, c7, t))
    } else {
        decl.default is None && c7 == c5
    }
    &&& decl.span == spec_join(a.cur().span, spec_previous_span(c7.tokens@, c7.position))
}

/// One entry of a trait body at `a`: a method, an associated type (through
/// `c1` to `c7`), or else an error, the token skipped; `b` is where it ends.
pub(crate) open spec fn trait_entry_parsed(
    m: nat,
    a: Parser,
    c1: Parser,
    c2: Parser,
    c3: Parser,
    c4: Parser,
    c5: Parser,
    c6: Parser,
    r: Option<TypeRef>,
    method: Option<TraitMethodDecl>,
    associated: Option<AssociatedTypeDecl>,
    b: Parser,
) -> bool {
    if a.at_keyword(Keyword::Fn) || a.at_keyword(Keyword::Static) {
        associated is None && (method matches Some(mm) && trait_method_parsed(a, mm, b))
    } else if a.at_keyword(Keyword::Type) {
        method is None && (associated matches Some(d) && associated_type_parsed(
            m,
            a,
            c1,
            c2,
            c3,
            c4,
            c5,
            c6,
            r,
            b,
            d,
        ))
    } else {
        &&& method is None
        &&& associated is None
        &&& reported_with(c1, a, "expected trait method or associated type"@)
        &&& b.stepped(c1)
    }
}

/// One entry step of a trait body: the entry parsed from `a` (below measure
/// `m`, not at `}` or the end) ends `methods` or `associated`, leaving `b`
/// further on than `a`.
pub(crate) open spec fn trait_entry_step(
    m: nat,
    a: Parser,
    c1: Parser,
    c2: Parser,
    c3: Parser,
    c4: Parser,
    c5: Parser,
    c6: Parser,
    r: Option<TypeRef>,
    method: Option<TraitMethodDecl>,
    associated: Option<AssociatedTypeDecl>,
    b: Parser,
    methods: Seq<TraitMethodDecl>,
    associated_types: Seq<AssociatedTypeDecl>,
) -> bool {
    &&& a.measure() < m
    &&& b.measure() < a.measure()
    &&& !ends_list(a, TokenKind::RightBrace)
    &&& trait_entry_parsed(m, a, c1, c2, c3, c4, c5, c6, r, method, associated, b)
    &&& member_added(before_member(methods, method), method, methods)
    &&& member_added(before_member(associated_types, associated), associated, associated_types)
}

/// From `opened`, just inside `{`, after entries, the parser stands at `cur`
/// with `methods` and `associated_types`.
pub(crate) open spec fn trait_entries_upto(
    m: nat,
    opened: Parser,
    methods: Seq<TraitMethodDecl>,
    associated_types: Seq<AssociatedTypeDecl>,
    cur: Parser,
) -> bool
    decreases m - cur.measure(),
{
    ||| methods.len() == 0 && associated_types.len() == 0 && cur == opened
    ||| exists|
        a: Parser,
        c1: Parser,
        c2: Parser,
        c3: Parser,
        c4: Parser,
        c5: Parser,
        c6: Parser,
        r: Option<TypeRef>,
        method: Option<TraitMethodDecl>,
        associated: Option<AssociatedTypeDecl>,
    |
        #[trigger] trait_entry_step(m, a, c1, c2, c3, c4, c5, c6, r, method, associated, cur, methods, associated_types)
            && trait_entries_upto(
            m,
            opened,
            before_member(methods, method),
            before_member(associated_types, associated),
            a,
        )
}

/// A trait at `p` whose declaration starts at `start`: `trait` to `s0`, its
/// name to `s1`, its type parameters to `s2`, `{` (reported if missing) to
/// `s3`, its entries to `cur`, at `}` or the end, and `}` (reported if
/// missing) to `q`.
pub(crate) open spec fn trait_shape(
    p: Parser,
    exported: bool,
    start: Span,
    s0: Parser,
    s1: Parser,
    s2: Parser,
    s3: Parser,
    cur: Parser,
    decl: TraitDecl,
    q: Parser,
) -> bool {
    &&& s0.stepped(p)
    &&& name_read(s0, decl.name@, s1, false, "expected trait name"@)
    &&& type_params_parsed(s1, decl.type_params@, decl.type_param_bounds@, s2)
    &&& expected_kind(s3, s2, TokenKind::LeftBrace, "`{`"@)
    &&& ends_list(cur, TokenKind::RightBrace)
    &&& expected_kind(q, cur, TokenKind::RightBrace, "`}`"@)
    &&& decl.exported == exported
    &&& decl.span == spec_join(start, spec_previous_span(q.tokens@, q.position))
}

/// What parsing a trait from `p` gives.
pub(crate) open spec fn trait_parsed(p: Parser, exported: bool, start: Span, decl: TraitDecl, q: Parser) -> bool {
    exists|s0: Parser, s1: Parser, s2: Parser, s3: Parser, cur: Parser|
        #[trigger] trait_shape(p, exported, start, s0, s1, s2, s3, cur, decl, q) && trait_entries_upto(
            p.measure(),
            s3,
            decl.methods@,
            decl.associated_types@,
            cur,
        )
}

/// One entry of an impl body at `a`: a method, `static fn name(...)` (through
/// `c1`, `c2`, `c3`, a missing `fn` reported) or a named function; an
/// associated type definition `type Name<T>: Type` (through `c1` to `c4`, the
/// type `r`, a missing one at its end); or else an error, the token skipped.
/// `b` is where it ends.
pub(crate) open spec fn impl_entry_parsed(
    a: Parser,
    c1: Parser,
    c2: Parser,
    c3: Parser,
    c4: Parser,
    r: Option<TypeRef>,
    method: Option<ImplMember>,
    definition: Option<AssociatedTypeDef>,
    b: Parser,
) -> bool {
    if a.at_keyword(Keyword::Static) {
        &&& definition is None
        &&& c1.stepped(a)
        &&& expected_keyword(c2, c1, Keyword::Fn, "`fn`"@)
        &&& method matches Some(mm) && mm.static_ && mm.span == mm.function.span && (mm.function.name matches Some(n)
            && name_read(c2, n@, c3, true, "expected impl method name"@)) && mm.function.type_params@.len() == 0
            && mm.function.type_param_bounds@.len() == 0 && function_tail_parsed(
            c3,
            a.cur().span,
            mm.function.name,
            mm.function.type_params,
            mm.function.type_param_bounds,
            mm.function,
            b,
        )
    } else if a.at_keyword(Keyword::Fn) {
        &&& definition is None
        &&& method matches Some(mm) && !mm.static_ && mm.span == mm.function.span && named_function_parsed(
            a,
            mm.function,
            b,
        )
    } else if a.at_keyword(Keyword::Type) {
        &&& method is None
        &&& c1.stepped(a)
        &&& definition matches Some(d) && name_read(c1, d.name@, c2, false, "expected associated type name"@)
            && type_params_parsed(c2, d.type_params@, d.type_param_bounds@, c3) && type_or_missing(
            r,
            b,
            d.type_ref,
        ) && d.span == spec_join(a.cur().span, d.type_ref.span)
        &&& expected_kind(c4, c3, TokenKind::Colon, "`:`"@)
        &&& type_parsed(c4, r, b)
    } else {
        &&& method is None
        &&& definition is None
        &&& reported_with(c1, a, "expected impl method or associated type definition"@)
        &&& b.stepped(c1)
    }
}

/// One entry step of an impl body: the entry parsed from `a` (below measure
/// `m`, not at `}` or the end) ends `methods` or `definitions`, leaving `b`
/// further on than `a`.
pub(crate) open spec fn impl_entry_step(
    m: nat,
    a: Parser,
    c1: Parser,
    c2: Parser,
    c3: Parser,
    c4: Parser,
    r: Option<TypeRef>,
    method: Option<ImplMember>,
    definition: Option<AssociatedTypeDef>,
    b: Parser,
    methods: Seq<ImplMember>,
    definitions: Seq<AssociatedTypeDef>,
) -> bool {
    &&& a.measure() < m
    &&& b.measure() < a.measure()
    &&& !ends_list(a, TokenKind::RightBrace)
    &&& impl_entry_parsed(a, c1, c2, c3, c4, r, method, definition, b)
    &&& member_added(before_member(methods, method), method, methods)
    &&& member_added(before_member(definitions, definition), definition, definitions)
}

/// From `opened`, just inside `{`, after entries, the parser stands at `cur`
/// with `methods` and `definitions`.
pub(crate) open spec fn impl_entries_upto(
    m: nat,
    opened: Parser,
    methods: Seq<ImplMember>,
    definitions: Seq<AssociatedTypeDef>,
    cur: Parser,
) -> bool
    decreases m - cur.measure(),
{
    ||| methods.len() == 0 && definitions.len() == 0 && cur == opened
    ||| exists|
        a: Parser,
        c1: Parser,
        c2: Parser,
        c3: Parser,
        c4: Parser,
        r: Option<TypeRef>,
        method: Option<ImplMember>,
        definition: Option<AssociatedTypeDef>,
    |
        #[trigger] impl_entry_step(m, a, c1, c2, c3, c4, r, method, definition, cur, methods, definitions)
            && impl_entries_upto(
            m,
            opened,
            before_member(methods, method),
            before_member(definitions, definition),
            a,
        )
}

/// An impl at `p`: `impl` to `s0`, type parameters to `s1`, the trait type
/// `r1` to `s2`, `for` (reported if missing) to `s3`, the implementing type
/// `r2` to `s4` (missing types at their ends), `{` (reported if missing) to
/// `s5`, its entries to `cur`, at `}` or the end, and `}` (reported if
/// missing) to `q`.
pub(crate) open spec fn impl_shape(
    p: Parser,
    s0: Parser,
    s1: Parser,
    r1: Option<TypeRef>,
    s2: Parser,
    s3: Parser,
    r2: Option<TypeRef>,
    s4: Parser,
    s5: Parser,
    cur: Parser,
    decl: ImplDecl,
    q: Parser,
) -> bool {
    &&& s0.stepped(p)
    &&& type_params_parsed(s0, decl.type_params@, decl.type_param_bounds@, s1)
    &&& type_parsed(s1, r1, s2)
    &&& type_or_missing(r1, s2, decl.trait_ref)
    &&& expected_keyword(s3, s2, Keyword::For, "`for`"@)
    &&& type_parsed(s3, r2, s4)
    &&& type_or_missing(r2, s4, decl.type_ref)
    &&& expected_kind(s5, s4, TokenKind::LeftBrace, "`{`"@)
    &&& ends_list(cur, TokenKind::RightBrace)
    &&& expected_kind(q, cur, TokenKind::RightBrace, "`}`"@)
    &&& decl.span == spec_join(p.cur().span, spec_previous_span(q.tokens@, q.position))
}

/// What parsing an impl from `p` gives.
pub(crate) open spec fn impl_parsed(p: Parser, decl: ImplDecl, q: Parser) -> bool {
    exists|s0: Parser, s1: Parser, r1: Option<TypeRef>, s2: Parser, s3: Parser, r2: Option<TypeRef>, s4: Parser, s5: Parser, cur: Parser|
        #[trigger] impl_shape(p, s0, s1, r1, s2, s3, r2, s4, s5, cur, decl, q) && impl_entries_upto(
            p.measure(),
            s5,
            decl.methods@,
            decl.associated_types@,
            cur,
        )
}

/// After `export` at `s0`, something that cannot be exported: reported
/// (`s1`), stepped over (`s2`), and the tokens after it skipped up to the next
/// declaration (`q`).
pub(crate) open spec fn export_error_steps(s0: Parser, s1: Parser, s2: Parser, q: Parser) -> bool {
    &&& reported_with(s1, s0, "expected exported enum, struct, trait, or function"@)
    &&& s2.stepped(s1)
    &&& synchronized(s2, q)
}

/// What parsing `export` and what follows it from `p` gives: an exported
/// enum, struct or trait whose declaration starts at `export`; an exported
/// function or extension; or else an error and a placeholder function named
/// `<missing>`.
pub(crate) open spec fn export_parsed(p: Parser, item: Item, q: Parser) -> bool {
    exists|s0: Parser|
        #[trigger] s0.stepped(p) && match keyword_of(s0.cur().kind) {
            Some(Keyword::Enum) => item matches Item::Enum(d) && enum_parsed(s0, true, p.cur().span, d, q),
            Some(Keyword::Struct) => item matches Item::Struct(d) && struct_parsed(s0, true, p.cur().span, d, q),
            Some(Keyword::Trait) => item matches Item::Trait(d) && trait_parsed(s0, true, p.cur().span, d, q),
            Some(Keyword::Fn) | Some(Keyword::Static) => item is Function || item is Extension,
            _ => {
                &&& exists|s1: Parser, s2: Parser| #[trigger] export_error_steps(s0, s1, s2, q)
                &&& item matches Item::Function(f) && (f.name matches Some(n) && n@ == "<missing>"@)
                    && f.exported && f.type_params@.len() == 0 && f.type_param_bounds@.len() == 0
                    && f.params@.len() == 0 && f.return_type is None && f.body == FunctionBody::Expr(
                    Box::new(Expr { kind: ExprKind::Missing, span: p.cur().span }),
                ) && f.span == p.cur().span
            },
        }
}

/// The text of the tokens from `from` up to `to`, their lexemes one after another.
pub(crate) open spec fn lexemes(tokens: Seq<Token>, from: int, to: int) -> Seq<char>
    decreases to - from,
{
    if to <= from {
        Seq::empty()
    } else {
        lexemes(tokens, from, to - 1) + tokens[to - 1].lexeme@
    }
}

/// One imported name at `mid`, an identifier: consumed to `c1`; after `as`
/// (to `c2`) an alias, read to `c3`; otherwise `c3` is `c1`. `name` spans from
/// `mid` to the token before `c3`.
pub(crate) open spec fn import_name_parsed(mid: Parser, c1: Parser, c2: Parser, c3: Parser, name: ImportName) -> bool {
    &&& mid.cur().kind matches TokenKind::Identifier(n) && name.name == n
    &&& c1.stepped(mid)
    &&& if c1.at_keyword(Keyword::As) {
        c2.stepped(c1) && (name.alias matches Some(alias) && name_read(
            c2,
            alias@,
            c3,
            false,
            "expected import alias after `as`"@,
        ))
    } else {
        name.alias is None && c3 == c1
    }
    &&& name.span == spec_join(mid.cur().span, spec_previous_span(c3.tokens@, c3.position))
}

/// One imported name followed by `,`: it ends `acc`, and the `,` at `c3` is
/// consumed, leaving `cur` further on than `mid`.
pub(crate) open spec fn import_name_step(
    mid: Parser,
    c1: Parser,
    c2: Parser,
    c3: Parser,
    cur: Parser,
    acc: Seq<ImportName>,
) -> bool {
    &&& acc.len() > 0
    &&& !ends_list(mid, TokenKind::RightBrace)
    &&& import_name_parsed(mid, c1, c2, c3, acc.last())
    &&& c3.at_kind(TokenKind::Comma)
    &&& cur.stepped(c3)
    &&& cur.measure() < mid.measure()
}

/// From `opened`, just inside `{`, after names each followed by `,`, the
/// parser stands at `cur` with the names `acc`; `m` bounds the measure.
pub(crate) open spec fn import_names_upto(m: nat, opened: Parser, acc: Seq<ImportName>, cur: Parser) -> bool
    decreases m - cur.measure(),
{
    ||| acc.len() == 0 && cur == opened
    ||| exists|mid: Parser, c1: Parser, c2: Parser, c3: Parser|
        #[trigger] import_name_step(mid, c1, c2, c3, cur, acc) && mid.measure() <= m
            && import_names_upto(m, opened, acc.drop_last(), mid)
}

/// How the names that reached `cur` with `acc` stop at `s` with `names`: at
/// `}` or the end; at a token that is no name, reported; or after a last name
/// (through `c1`, `c2`, `c3`) with no `,` after it.
pub(crate) open spec fn import_names_stop(
    cur: Parser,
    acc: Seq<ImportName>,
    c1: Parser,
    c2: Parser,
    s: Parser,
    names: Seq<ImportName>,
) -> bool {
    if ends_list(cur, TokenKind::RightBrace) {
        s == cur && names == acc
    } else if !(cur.cur().kind is Identifier) {
        reported_with(s, cur, "expected imported name"@) && names == acc
    } else {
        &&& names.len() == acc.len() + 1
        &&& names.drop_last() == acc
        &&& import_name_parsed(cur, c1, c2, s, names.last())
        &&& !s.at_kind(TokenKind::Comma)
    }
}

/// An import at `p`: `from` to `s0`; the path, the text of the tokens up to
/// `import` or the end, to `s1`; `import` (reported if missing) to `s2`; then
/// `{ names }` (with `}` reported if missing) or a namespace name, to `q`.
pub(crate) open spec fn import_shape(p: Parser, s0: Parser, s1: Parser, s2: Parser, decl: ImportDecl, q: Parser) -> bool {
    &&& s0.stepped(p)
    &&& s1.tokens@ == s0.tokens@
    &&& s1.diagnostics@ == s0.diagnostics@
    &&& s1.allow_struct_init == s0.allow_struct_init
    &&& s0.position <= s1.position
    &&& s1.cur().kind is Eof || s1.at_keyword(Keyword::Import)
    &&& forall|i: int|
        s0.position <= i < s1.position ==> !(#[trigger] s0.tokens@[i].kind is Eof) && s0.tokens@[i].kind
            != TokenKind::Keyword(Keyword::Import)
    &&& decl.path@ == lexemes(s0.tokens@, s0.position as int, s1.position as int)
    &&& expected_keyword(s2, s1, Keyword::Import, "`import`"@)
    &&& decl.span == spec_join(p.cur().span, spec_previous_span(q.tokens@, q.position))
    &&& if s2.at_kind(TokenKind::LeftBrace) {
        &&& decl.namespace is None
        &&& exists|s3: Parser, cur: Parser, acc: Seq<ImportName>, c1: Parser, c2: Parser, s: Parser|
            #![trigger import_names_stop(cur, acc, c1, c2, s, decl.names@), import_names_upto(s3.measure(), s3, acc, cur)]
            import_names_stop(cur, acc, c1, c2, s, decl.names@) && s3.stepped(s2)
                && import_names_upto(s3.measure(), s3, acc, cur) && expected_kind(
                q,
                s,
                TokenKind::RightBrace,
                "`}`"@,
            )
    } else {
        &&& decl.names@.len() == 0
        &&& decl.namespace matches Some(ns) && name_read(s2, ns.name@, q, false, "expected module namespace"@)
            && ns.span == spec_join(s2.cur().span, spec_previous_span(q.tokens@, q.position))
    }
}

/// What parsing an import from `p` gives.
pub(crate) open spec fn import_parsed(p: Parser, decl: ImportDecl, q: Parser) -> bool {
    exists|s0: Parser, s1: Parser, s2: Parser| #[trigger] import_shape(p, s0, s1, s2, decl, q)
}

/// A method member at `a`: `static fn name<T>(...) ...` (a missing `fn`
/// reported) through `c1`, `c2`, `c3` and `c4`, or a named function.
pub(crate) open spec fn method_member_parsed(
    a: Parser,
    c1: Parser,
    c2: Parser,
    c3: Parser,
    c4: Parser,
    member: StructMember,
    b: Parser,
) -> bool {
    if a.at_keyword(Keyword::Static) {
        &&& c1.stepped(a)
        &&& expected_keyword(c2, c1, Keyword::Fn, "`fn`"@)
        &&& member matches StructMember::StaticMethod(f) && (f.name matches Some(n) && name_read(
            c2,
            n@,
            c3,
            false,
            "expected static function name"@,
        )) && type_params_parsed(c3, f.type_params@, f.type_param_bounds@, c4) && function_tail_parsed(
            c4,
            a.cur().span,
            f.name,
            f.type_params,
            f.type_param_bounds,
            f,
            b,
        )
    } else {
        &&& a.at_keyword(Keyword::Fn)
        &&& member matches StructMember::Method(f) && named_function_parsed(a, f, b)
    }
}

/// The members list `acc` without what `member` added to it.
pub(crate) open spec fn before_member<T>(acc: Seq<T>, member: Option<T>) -> Seq<T> {
    if member is Some {
        acc.drop_last()
    } else {
        acc
    }
}

/// `acc` is `prev` with what `member` adds.
pub(crate) open spec fn member_added<T>(prev: Seq<T>, member: Option<T>, acc: Seq<T>) -> bool {
    match member {
        Some(x) => acc == prev.push(x),
        None => acc == prev,
    }
}

/// One member of a struct at `a`: a method (see `method_member_parsed`); a
/// field `[internal] name: Type` (an optional `internal` to `c1`, the name to
/// `c2`, `:` to `c3`, the type `r` to `c4`, a missing type at the field's start)
/// with an optional `,` after it; or else an error, the token skipped. `b` is
/// where it ends.
pub(crate) open spec fn struct_member_parsed(
    a: Parser,
    c1: Parser,
    c2: Parser,
    c3: Parser,
    c4: Parser,
    r: Option<TypeRef>,
    member: Option<StructMember>,
    b: Parser,
) -> bool {
    if a.at_keyword(Keyword::Static) || a.at_keyword(Keyword::Fn) {
        member matches Some(mm) && method_member_parsed(a, c1, c2, c3, c4, mm, b)
    } else if a.at_keyword(Keyword::Internal) || a.cur().kind is Identifier {
        &&& if a.at_keyword(Keyword::Internal) {
            c1.stepped(a)
        } else {
            c1 == a
        }
        &&& member matches Some(StructMember::Field(field)) && field.internal == a.at_keyword(
            Keyword::Internal,
        ) && name_read(c1, field.name@, c2, false, "expected field name"@) && type_or_missing(
            r,
            c1,
            field.type_ref,
        ) && field.span == spec_join(c1.cur().span, field.type_ref.span)
        &&& expected_kind(c3, c2, TokenKind::Colon, "`:`"@)
        &&& type_parsed(c3, r, c4)
        &&& if c4.at_kind(TokenKind::Comma) {
            b.stepped(c4)
        } else {
            b == c4
        }
    } else {
        &&& member is None
        &&& reported_with(c1, a, "expected struct field or method"@)
        &&& b.stepped(c1)
    }
}

/// One member step of a struct body: the member parsed from `a` (below
/// measure `m`, not at `}` or the end) ends `acc`; one that consumed nothing
/// is followed by skipping a token, leaving `cur` further on than `a`.
pub(crate) open spec fn struct_member_step(
    m: nat,
    a: Parser,
    c1: Parser,
    c2: Parser,
    c3: Parser,
    c4: Parser,
    r: Option<TypeRef>,
    member: Option<StructMember>,
    b: Parser,
    cur: Parser,
    acc: Seq<StructMember>,
) -> bool {
    &&& a.measure() < m
    &&& cur.measure() < a.measure()
    &&& !ends_list(a, TokenKind::RightBrace)
    &&& struct_member_parsed(a, c1, c2, c3, c4, r, member, b)
    &&& member_added(before_member(acc, member), member, acc)
    &&& if b.position == a.position {
        cur.stepped(b)
    } else {
        cur == b
    }
}

/// From `opened`, just inside `{`, after members, the parser stands at `cur`
/// with the members `acc`.
pub(crate) open spec fn struct_members_upto(m: nat, opened: Parser, acc: Seq<StructMember>, cur: Parser) -> bool
    decreases m - cur.measure(),
{
    ||| acc.len() == 0 && cur == opened
    ||| exists|
        a: Parser,
        c1: Parser,
        c2: Parser,
        c3: Parser,
        c4: Parser,
        r: Option<TypeRef>,
        member: Option<StructMember>,
        b: Parser,
    |
        #[trigger] struct_member_step(m, a, c1, c2, c3, c4, r, member, b, cur, acc)
            && struct_members_upto(m, opened, before_member(acc, member), a)
}

/// One entry of an enum body at `a`: a method (see `method_member_parsed`),
/// or a variant `Name[(Payload)]` (its name to `c1`, `(` to `c2`, the payload
/// `r` to `c3`, `)` to `c4`) with an optional `,` after it; `b` is where it ends.
pub(crate) open spec fn enum_entry_parsed(
    a: Parser,
    c1: Parser,
    c2: Parser,
    c3: Parser,
    c4: Parser,
    member: Option<StructMember>,
    variant: Option<EnumVariant>,
    b: Parser,
) -> bool {
    if a.at_keyword(Keyword::Static) || a.at_keyword(Keyword::Fn) {
        variant is None && (member matches Some(mm) && method_member_parsed(a, c1, c2, c3, c4, mm, b))
    } else {
        &&& member is None
        &&& variant matches Some(v) && name_read(a, v.name@, c1, false, "expected enum variant name"@)
            && v.span == spec_join(a.cur().span, spec_previous_span(c4.tokens@, c4.position)) && if c1.at_kind(
            TokenKind::LeftParen,
        ) {
            c2.stepped(c1) && type_parsed(c2, v.payload, c3) && expected_kind(
                c4,
                c3,
                TokenKind::RightParen,
                "`)`"@,
            )
        } else {
            v.payload is None && c4 == c1
        }
        &&& if c4.at_kind(TokenKind::Comma) {
            b.stepped(c4)
        } else {
            b == c4
        }
    }
}

/// One entry step of an enum body: the entry parsed from `a` (below measure
/// `m`, not at `}` or the end) ends `variants` or `members`; one that consumed
/// nothing is followed by skipping a token, leaving `cur` further on than `a`.
pub(crate) open spec fn enum_entry_step(
    m: nat,
    a: Parser,
    c1: Parser,
    c2: Parser,
    c3: Parser,
    c4: Parser,
    member: Option<StructMember>,
    variant: Option<EnumVariant>,
    b: Parser,
    cur: Parser,
    variants: Seq<EnumVariant>,
    members: Seq<StructMember>,
) -> bool {
    &&& a.measure() < m
    &&& cur.measure() < a.measure()
    &&& !ends_list(a, TokenKind::RightBrace)
    &&& enum_entry_parsed(a, c1, c2, c3, c4, member, variant, b)
    &&& member_added(before_member(members, member), member, members)
    &&& member_added(before_member(variants, variant), variant, variants)
    &&& if b.position == a.position {
        cur.stepped(b)
    } else {
        cur == b
    }
}

/// From `opened`, just inside `{`, after entries, the parser stands at `cur`
/// with `variants` and `members`.
pub(crate) open spec fn enum_entries_upto(
    m: nat,
    opened: Parser,
    variants: Seq<EnumVariant>,
    members: Seq<StructMember>,
    cur: Parser,
) -> bool
    decreases m - cur.measure(),
{
    ||| variants.len() == 0 && members.len() == 0 && cur == opened
    ||| exists|
        a: Parser,
        c1: Parser,
        c2: Parser,
        c3: Parser,
        c4: Parser,
        member: Option<StructMember>,
        variant: Option<EnumVariant>,
        b: Parser,
    |
        #[trigger] enum_entry_step(m, a, c1, c2, c3, c4, member, variant, b, cur, variants, members)
            && enum_entries_upto(
            m,
            opened,
            before_member(variants, variant),
            before_member(members, member),
            a,
        )
}

/// An enum at `p` whose declaration starts at `start`: `enum` to `s0`, its
/// name to `s1`, its type parameters to `s2`, `{` (reported if missing) to
/// `s3`, its entries to `cur`, at `}` or the end, and `}` (reported if
/// missing) to `q`.
pub(crate) open spec fn enum_shape(
    p: Parser,
    exported: bool,
    start: Span,
    s0: Parser,
    s1: Parser,
    s2: Parser,
    s3: Parser,
    cur: Parser,
    decl: EnumDecl,
    q: Parser,
) -> bool {
    &&& s0.stepped(p)
    &&& name_read(s0, decl.name@, s1, false, "expected enum name"@)
    &&& type_params_parsed(s1, decl.type_params@, decl.type_param_bounds@, s2)
    &&& expected_kind(s3, s2, TokenKind::LeftBrace, "`{`"@)
    &&& ends_list(cur, TokenKind::RightBrace)
    &&& expected_kind(q, cur, TokenKind::RightBrace, "`}`"@)
    &&& decl.exported == exported
    &&& decl.span == spec_join(start, spec_previous_span(q.tokens@, q.position))
}

/// What parsing an enum from `p` gives.
pub(crate) open spec fn enum_parsed(p: Parser, exported: bool, start: Span, decl: EnumDecl, q: Parser) -> bool {
    exists|s0: Parser, s1: Parser, s2: Parser, s3: Parser, cur: Parser|
        #[trigger] enum_shape(p, exported, start, s0, s1, s2, s3, cur, decl, q) && enum_entries_upto(
            p.measure(),
            s3,
            decl.variants@,
            decl.members@,
            cur,
        )
}

/// A struct at `p` whose declaration starts at `start`: `struct` to `s0`, its
/// name to `s1`, its type parameters to `s2`, `{` (reported if missing) to
/// `s3`, its members to `cur`, at `}` or the end, and `}` (reported if
/// missing) to `q`.
pub(crate) open spec fn struct_shape(
    p: Parser,
    exported: bool,
    start: Span,
    s0: Parser,
    s1: Parser,
    s2: Parser,
    s3: Parser,
    cur: Parser,
    decl: StructDecl,
    q: Parser,
) -> bool {
    &&& s0.stepped(p)
    &&& name_read(s0, decl.name@, s1, false, "expected struct name"@)
    &&& type_params_parsed(s1, decl.type_params@, decl.type_param_bounds@, s2)
    &&& expected_kind(s3, s2, TokenKind::LeftBrace, "`{`"@)
    &&& ends_list(cur, TokenKind::RightBrace)
    &&& expected_kind(q, cur, TokenKind::RightBrace, "`}`"@)
    &&& decl.exported == exported
    &&& decl.span == spec_join(start, spec_previous_span(q.tokens@, q.position))
}

/// What parsing a struct from `p` gives.
pub(crate) open spec fn struct_parsed(p: Parser, exported: bool, start: Span, decl: StructDecl, q: Parser) -> bool {
    exists|s0: Parser, s1: Parser, s2: Parser, s3: Parser, cur: Parser|
        #[trigger] struct_shape(p, exported, start, s0, s1, s2, s3, cur, decl, q) && struct_members_upto(
            p.measure(),
            s3,
            decl.members@,
            cur,
        )
}

/// At `p`, a name that neither type arguments (`<`) nor a `.` follow: a plain
/// function's name rather than an extension's receiver type.
pub(crate) open spec fn plain_function_name(p: Parser) -> bool {
    &&& p.cur().kind is Identifier
    &&& !spec_simple_kind_eq(p.tokens@[p.position + 1].kind, TokenKind::Less)
    &&& !spec_simple_kind_eq(p.tokens@[p.position + 1].kind, TokenKind::Dot)
}

/// A plain top-level function from `p`, at its name: the name consumed to
/// `s1`; trying it as an extension's receiver type leaves the parser as `s3`,
/// where `s1` stood; `item` is a function of that name, without type parameters.
pub(crate) open spec fn plain_function_shape(p: Parser, s1: Parser, s3: Parser, item: Item) -> bool {
    &&& s1.stepped(p)
    &&& s3.tokens@ == s1.tokens@
    &&& s3.position == s1.position
    &&& s3.diagnostics@ == s1.diagnostics@
    &&& s3.allow_struct_init == s1.allow_struct_init
    &&& item matches Item::Function(f) && f.type_params@.len() == 0 && f.type_param_bounds@.len() == 0
        && (f.name matches Some(name) && p.cur().kind matches TokenKind::Identifier(n) && name@ == n@)
}

/// What the rest of a top-level function from `p`, at its name, gives: for a
/// plain function, the function that its name and the rest of a function make,
/// spanning from `start`.
pub(crate) open spec fn plain_function_tail(p: Parser, start: Span, item: Item, q: Parser) -> bool {
    plain_function_name(p) ==> exists|s1: Parser, s3: Parser|
        #[trigger] plain_function_shape(p, s1, s3, item) && (item matches Item::Function(f)
            && function_tail_parsed(s3, start, f.name, f.type_params, f.type_param_bounds, f, q))
}

/// What parsing a top-level function from `p` gives: a function or an
/// extension; for a plain function, `fn`, its name and the rest of a function.
pub(crate) open spec fn top_function_parsed(p: Parser, item: Item, q: Parser) -> bool {
    &&& item is Function || item is Extension
    &&& exists|s0: Parser| #[trigger] s0.stepped(p) && plain_function_tail(s0, p.cur().span, item, q)
    &&& item matches Item::Extension(e) ==> extension_method_parsed(e.function)
}

/// The method of an extension: the parser at `s2` stands at the `.` after the
/// receiver type, `s3` just past it; the method's name is read there, leaving
/// `s4`; the type parameters read from `s4`, leaving `s5`, are the method's.
pub(crate) open spec fn extension_method_shape(s2: Parser, s3: Parser, s4: Parser, s5: Parser, f: FunctionDecl) -> bool {
    &&& s2.at_kind(TokenKind::Dot)
    &&& s3.stepped(s2)
    &&& s4.wf()
    &&& f.name matches Some(n) && name_read(s3, n@, s4, true, "expected extension function name"@)
    &&& type_params_parsed(s4, f.type_params@, f.type_param_bounds@, s5)
}

/// `f` is the method of an extension as `extension_method_shape` describes it.
pub(crate) open spec fn extension_method_parsed(f: FunctionDecl) -> bool {
    exists|s2: Parser, s3: Parser, s4: Parser, s5: Parser|
        #[trigger] extension_method_shape(s2, s3, s4, s5, f)
}

/// In a type-parameter list that starts at the `<` at `less` and has the
/// identifier `u` just after it, the first parameter read is `u`.
pub(crate) proof fn lemma_first_type_param(
    m: nat,
    less: Parser,
    params: Seq<String>,
    bounds: Seq<TypeParamBound>,
    cur: Parser,
    u: String,
)
    requires
        type_params_upto(m, less, params, bounds, cur),
        params.len() > 0,
        less.wf(),
        less.tokens@.len() <= usize::MAX,
        less.at_kind(TokenKind::Less),
        less.tokens@[less.position + 1].kind == TokenKind::Identifier(u),
    ensures
        params[0]@ == u@,
    decreases params.len(),
{
    let (mid, a1, a2, b, k) = choose|mid: Parser, a1: Parser, a2: Parser, b: Parser, k: int|
        #[trigger] type_param_step(m, mid, a1, a2, b, cur, params, bounds, k) && type_params_upto(
            m,
            less,
            params.drop_last(),
            bounds.take(bounds.len() - k),
            mid,
        );
    if params.drop_last().len() > 0 {
        lemma_first_type_param(m, less, params.drop_last(), bounds.take(bounds.len() - k), mid, u);
    } else {
        assert(mid.stepped(less));
        assert(less.position + 1 < less.tokens@.len());
        assert(mid.position == less.position + 1);
        assert(mid.cur().kind == TokenKind::Identifier(u));
        assert(params.len() == 1);
        assert(params.last() == params[0]);
    }
}

/// In a type-parameter list `< u >` starting at `less`, no parameter is
/// followed by `,`: none is read before the list stops.
pub(crate) proof fn lemma_single_type_param_list(
    m: nat,
    less: Parser,
    params: Seq<String>,
    bounds: Seq<TypeParamBound>,
    cur: Parser,
    u: String,
)
    requires
        type_params_upto(m, less, params, bounds, cur),
        less.wf(),
        less.tokens@.len() <= usize::MAX,
        less.at_kind(TokenKind::Less),
        less.tokens@[less.position + 1].kind == TokenKind::Identifier(u),
        spec_simple_kind_eq(less.tokens@[less.position + 2].kind, TokenKind::Greater),
    ensures
        params.len() == 0,
        cur.stepped(less),
    decreases params.len(),
{
    if params.len() > 0 {
        let (mid, a1, a2, b, k) = choose|mid: Parser, a1: Parser, a2: Parser, b: Parser, k: int|
            #[trigger] type_param_step(m, mid, a1, a2, b, cur, params, bounds, k) && type_params_upto(
                m,
                less,
                params.drop_last(),
                bounds.take(bounds.len() - k),
                mid,
            );
        lemma_single_type_param_list(m, less, params.drop_last(), bounds.take(bounds.len() - k), mid, u);
        assert(less.position + 2 < less.tokens@.len());
        assert(mid.position == less.position + 1);
        assert(mid.cur().kind == TokenKind::Identifier(u));
        assert(a1.stepped(mid));
        assert(spec_simple_kind_eq(a1.cur().kind, TokenKind::Greater));
        assert(!a1.at_kind(TokenKind::Colon));
        assert(b == a1);
        assert(false);
    }
}

/// The type parameters of an extension's method are those read after the
/// method's name: none where no `<` follows it; where `<` and a name `u`
/// follow it, `u` is the first; and for `<u>`, `u` is the only one.
pub(crate) proof fn law_extension_method_type_params(
    s2: Parser,
    s3: Parser,
    s4: Parser,
    s5: Parser,
    f: FunctionDecl,
)
    requires
        extension_method_shape(s2, s3, s4, s5, f),
        s4.tokens@.len() <= usize::MAX,
    ensures
        !s4.at_kind(TokenKind::Less) ==> f.type_params@.len() == 0,
        s4.at_kind(TokenKind::Less) ==> (s4.tokens@[s4.position + 1].kind matches TokenKind::Identifier(u)
            ==> f.type_params@.len() > 0 && f.type_params@[0]@ == u@),
        s4.at_kind(TokenKind::Less) && spec_simple_kind_eq(s4.tokens@[s4.position + 2].kind, TokenKind::Greater)
            ==> (s4.tokens@[s4.position + 1].kind matches TokenKind::Identifier(u) ==> f.type_params@.len()
            == 1 && f.type_params@[0]@ == u@),
{
    if s4.at_kind(TokenKind::Less) {
        let params = f.type_params@;
        let bounds = f.type_param_bounds@;
        let (cur, ps, bs, a1, a2, k, s) = choose|
            cur: Parser,
            ps: Seq<String>,
            bs: Seq<TypeParamBound>,
            a1: Parser,
            a2: Parser,
            k: int,
            s: Parser,
        |
            #[trigger] type_params_stop(s4.measure(), cur, ps, bs, a1, a2, k, s, params, bounds)
                && type_params_upto(s4.measure(), s4, ps, bs, cur) && closed_type_args(s5, s);
        if let TokenKind::Identifier(u) = s4.tokens@[s4.position + 1].kind {
            assert(s4.position + 1 < s4.tokens@.len());
            if ps.len() > 0 {
                lemma_first_type_param(s4.measure(), s4, ps, bs, cur, u);
                assert(params[0] == ps[0]);
            } else {
                assert(cur.stepped(s4));
                assert(cur.position == s4.position + 1);
                assert(cur.cur().kind == TokenKind::Identifier(u));
                assert(params.len() == 1);
                assert(params.last() == params[0]);
            }
            if spec_simple_kind_eq(s4.tokens@[s4.position + 2].kind, TokenKind::Greater) {
                lemma_single_type_param_list(s4.measure(), s4, ps, bs, cur, u);
            }
        }
    }
}

impl Parser {
    /// Parses `from path import { a, b as c }` or `from path import namespace`.
    #[verifier::spinoff_prover]
    #[verifier::rlimit(60)]
    pub(crate) fn parse_import(&mut self) -> (import: ImportDecl)
        requires
            old(self).wf(),
            old(self).at_keyword(Keyword::From),
        ensures
            final(self).follows(*old(self)),
            final(self).measure() < old(self).measure(),
            import_parsed(*old(self), import, *final(self)),
    {
        let start = self.expect_keyword(Keyword::From, "`from`").span;
        let ghost opened = *self;
        let mut path = String::new();
        proof {
            assert(path@ == lexemes(opened.tokens@, opened.position as int, self.position as int));
        }
        loop
            invariant
                self.follows(opened),
                opened.follows(*old(self)),
                opened.measure() < old(self).measure(),
                self.tokens@ == opened.tokens@,
                self.diagnostics@ == opened.diagnostics@,
                opened.position <= self.position,
                path@ == lexemes(opened.tokens@, opened.position as int, self.position as int),
                forall|i: int|
                    opened.position <= i < self.position ==> !(#[trigger] opened.tokens@[i].kind is Eof)
                        && opened.tokens@[i].kind != TokenKind::Keyword(Keyword::Import),
            ensures
                self.follows(opened),
                self.tokens@ == opened.tokens@,
                self.diagnostics@ == opened.diagnostics@,
                opened.position <= self.position,
                path@ == lexemes(opened.tokens@, opened.position as int, self.position as int),
                forall|i: int|
                    opened.position <= i < self.position ==> !(#[trigger] opened.tokens@[i].kind is Eof)
                        && opened.tokens@[i].kind != TokenKind::Keyword(Keyword::Import),
                self.cur().kind is Eof || self.at_keyword(Keyword::Import),
            decreases self.measure(),
        {
            if self.at_eof() || self.current_keyword() == Some(Keyword::Import) {
                break;
            }
            let ghost before = *self;
            let token = self.advance();
            path.append(token.lexeme.as_str());
            proof {
                assert(self.position == before.position + 1);
                assert(path@ == lexemes(opened.tokens@, opened.position as int, self.position as int));
            }
        }
        let ghost s1 = *self;
        self.expect_keyword(Keyword::Import, "`import`");
        let ghost s2 = *self;
        let mut names: Vec<ImportName> = Vec::new();
        let braced = self.match_kind(&TokenKind::LeftBrace);
        let ghost s3 = *self;
        let ghost m = s3.measure();
        let ghost mut last: Parser = *self;
        let ghost mut acc: Seq<ImportName> = Seq::empty();
        let ghost mut c1: Parser = *self;
        let ghost mut c2: Parser = *self;
        let ghost mut s_end: Parser = *self;
        let namespace = if braced {
            loop
                invariant_except_break
                    import_names_upto(m, s3, names@, *self),
                invariant
                    self.follows(s3),
                    s3.follows(opened),
                    m == s3.measure(),
                ensures
                    self.follows(s3),
                    import_names_upto(m, s3, acc, last),
                    import_names_stop(last, acc, c1, c2, *self, names@),
                decreases self.measure(),
            {
                proof {
                    last = *self;
                    acc = names@;
                }
                if self.at_eof() || self.check_kind(&TokenKind::RightBrace) {
                    break;
                }
                let name_start = self.current().span;
                if let Some(name) = self.consume_identifier() {
                    proof {
                        c1 = *self;
                        c2 = *self;
                    }
                    let alias = if self.match_keyword(Keyword::As) {
                        proof {
                            c2 = *self;
                        }
                        Some(self.expect_identifier("expected import alias after `as`"))
                    } else {
                        None
                    };
                    names.push(ImportName { name, alias, span: name_start.join(self.previous_span()) });
                    proof {
                        assert(names@.drop_last() == acc);
                        assert(import_name_parsed(last, c1, c2, *self, names@.last()));
                    }
                } else {
                    self.error_here(String::from_str("expected imported name"));
                    break;
                }
                let ghost c3 = *self;
                if !self.match_kind(&TokenKind::Comma) {
                    break;
                }
                proof {
                    assert(import_name_step(last, c1, c2, c3, *self, names@));
                }
            }
            proof {
                s_end = *self;
            }
            self.expect_kind(&TokenKind::RightBrace, "`}`");
            None
        } else {
            let namespace_start = self.current().span;
            let name = self.expect_identifier("expected module namespace");
            Some(ImportNamespace { name, span: namespace_start.join(self.previous_span()) })
        };
        let end = self.previous_span();
        let import = ImportDecl { path, names, namespace, span: start.join(end) };
        proof {
            assert(opened.stepped(*old(self)));
            assert(import.path@ == lexemes(opened.tokens@, opened.position as int, s1.position as int));
            assert(expected_keyword(s2, s1, Keyword::Import, "`import`"@));
            assert(import.span == spec_join(old(self).cur().span, spec_previous_span(self.tokens@, self.position)));
            assert(s1.cur().kind is Eof || s1.at_keyword(Keyword::Import));
            assert(forall|i: int|
                opened.position <= i < s1.position ==> !(#[trigger] opened.tokens@[i].kind is Eof) && opened.tokens@[i].kind
                    != TokenKind::Keyword(Keyword::Import));
            if braced {
                assert(s3.stepped(s2));
                assert(import_names_upto(s3.measure(), s3, acc, last));
                assert(import_names_stop(last, acc, c1, c2, s_end, import.names@));
                assert(expected_kind(*self, s_end, TokenKind::RightBrace, "`}`"@));
                assert(import.namespace is None);
            } else {
                assert(import.names@.len() == 0);
            }
            assert(import_shape(*old(self), opened, s1, s2, import, *self));
        }
        import
    }

    /// Parses `export` followed by an enum, struct, trait or function.
    pub(crate) fn parse_export(&mut self) -> (item: Item)
        requires
            old(self).wf(),
            old(self).at_keyword(Keyword::Export),
        ensures
            final(self).follows(*old(self)),
            final(self).measure() < old(self).measure(),
            export_parsed(*old(self), item, *final(self)),
    {
        let start = self.expect_keyword(Keyword::Export, "`export`").span;
        let ghost s0 = *self;
        match self.current_keyword() {
            Some(Keyword::Enum) => Item::Enum(self.parse_enum(true, Some(start))),
            Some(Keyword::Struct) => Item::Struct(self.parse_struct(true, Some(start))),
            Some(Keyword::Trait) => Item::Trait(self.parse_trait(true, Some(start))),
            Some(Keyword::Fn) => self.parse_top_level_function(true, Some(start)),
            Some(Keyword::Static) => self.parse_static_extension(true, Some(start)),
            _ => {
                self.error_here(
                    String::from_str("expected exported enum, struct, trait, or function"),
                );
                let ghost s1 = *self;
                self.advance();
                let ghost s2 = *self;
                self.synchronize_top_level();
                proof {
                    assert(export_error_steps(s0, s1, s2, *self));
                    reveal_strlit("<missing>");
                }
                Item::Function(
                    FunctionDecl {
                        name: Some(String::from_str("<missing>")),
                        exported: true,
                        type_params: Vec::new(),
                        type_param_bounds: Vec::new(),
                        params: Vec::new(),
                        return_type: None,
                        body: FunctionBody::Expr(Box::new(self.missing_expr(start))),
                        span: start,
                    },
                )
            },
        }
    }

    /// The start of a declaration: the `export` keyword's span when there is one,
    /// else the span of the declaration keyword.
    pub(crate) fn declaration_start(&mut self, keyword: Keyword, expected: &str, export_start: Option<Span>) -> (start: Span)
        requires
            old(self).wf(),
            old(self).at_keyword(keyword),
        ensures
            final(self).follows(*old(self)),
            final(self).stepped(*old(self)),
            final(self).measure() < old(self).measure(),
            start == match export_start {
                Some(span) => span,
                None => old(self).cur().span,
            },
    {
        let token = self.expect_keyword(keyword, expected);
        match export_start {
            Some(start) => start,
            None => token.span,
        }
    }

    /// Parses an enum with its variants and methods.
    #[verifier::spinoff_prover]
    #[verifier::rlimit(80)]
    pub(crate) fn parse_enum(&mut self, exported: bool, export_start: Option<Span>) -> (decl: EnumDecl)
        requires
            old(self).wf(),
            old(self).at_keyword(Keyword::Enum),
        ensures
            final(self).follows(*old(self)),
            final(self).measure() < old(self).measure(),
            decl.exported == exported,
            enum_parsed(
                *old(self),
                exported,
                match export_start {
                    Some(span) => span,
                    None => old(self).cur().span,
                },
                decl,
                *final(self),
            ),
    {
        let start = self.declaration_start(Keyword::Enum, "`enum`", export_start);
        let ghost opened = *self;
        let ghost m = old(self).measure();
        let name = self.expect_identifier("expected enum name");
        let ghost s1 = *self;
        let (type_params, type_param_bounds) = self.parse_type_params();
        let ghost s2 = *self;
        self.expect_kind(&TokenKind::LeftBrace, "`{`");
        let ghost s3 = *self;
        let mut variants: Vec<EnumVariant> = Vec::new();
        let mut members: Vec<StructMember> = Vec::new();
        loop
            invariant
                self.follows(opened),
                opened.follows(*old(self)),
                opened.measure() < m,
                m == old(self).measure(),
                self.measure() < m,
                enum_entries_upto(m, s3, variants@, members@, *self),
            ensures
                self.follows(opened),
                enum_entries_upto(m, s3, variants@, members@, *self),
                ends_list(*self, TokenKind::RightBrace),
            decreases self.measure(),
        {
            if self.at_eof() || self.check_kind(&TokenKind::RightBrace) {
                break;
            }
            let ghost a = *self;
            let ghost vacc = variants@;
            let ghost macc = members@;
            let ghost mut c1 = *self;
            let ghost mut c2 = *self;
            let ghost mut c3 = *self;
            let ghost mut c4 = *self;
            let ghost mut member: Option<StructMember> = None;
            let ghost mut variant: Option<EnumVariant> = None;
            let member_start = self.position;
            if self.current_keyword() == Some(Keyword::Static) {
                let start = self.expect_keyword(Keyword::Static, "`static`").span;
                proof {
                    c1 = *self;
                }
                self.expect_keyword(Keyword::Fn, "`fn`");
                proof {
                    c2 = *self;
                }
                let name = self.expect_identifier("expected static function name");
                proof {
                    c3 = *self;
                }
                let (type_params, type_param_bounds) = self.parse_type_params();
                proof {
                    c4 = *self;
                }
                let method = StructMember::StaticMethod(
                    self.parse_function_tail(start, Some(name), type_params, type_param_bounds),
                );
                proof {
                    member = Some(method);
                }
                members.push(method);
            } else if self.current_keyword() == Some(Keyword::Fn) {
                let method = StructMember::Method(self.parse_function(true));
                proof {
                    member = Some(method);
                }
                members.push(method);
            } else {
                let variant_start = self.current().span;
                let variant_name = self.expect_identifier("expected enum variant name");
                proof {
                    c1 = *self;
                    c4 = *self;
                }
                let payload = if self.match_kind(&TokenKind::LeftParen) {
                    proof {
                        c2 = *self;
                    }
                    let payload = self.parse_type();
                    proof {
                        c3 = *self;
                    }
                    self.expect_kind(&TokenKind::RightParen, "`)`");
                    proof {
                        c4 = *self;
                    }
                    payload
                } else {
                    None
                };
                let span = variant_start.join(self.previous_span());
                let entry = EnumVariant { name: variant_name, payload, span };
                proof {
                    variant = Some(entry);
                }
                variants.push(entry);
                self.match_kind(&TokenKind::Comma);
            }
            let ghost b = *self;
            if self.position == member_start {
                proof {
                    assert(self.tokens@[self.position as int].kind is Eof == (a.tokens@[a.position as int].kind is Eof));
                }
                self.advance();
            }
            proof {
                assert(enum_entry_parsed(a, c1, c2, c3, c4, member, variant, b));
                assert(before_member(members@, member) == macc);
                assert(before_member(variants@, variant) == vacc);
                assert(enum_entry_step(m, a, c1, c2, c3, c4, member, variant, b, *self, variants@, members@));
            }
        }
        let ghost cur = *self;
        self.expect_kind(&TokenKind::RightBrace, "`}`");
        let end = self.previous_span();
        let decl = EnumDecl { name, exported, type_params, type_param_bounds, variants, members, span: start.join(end) };
        proof {
            assert(enum_shape(*old(self), exported, start, opened, s1, s2, s3, cur, decl, *self));
        }
        decl
    }

    /// Parses a struct with its fields and methods.
    #[verifier::spinoff_prover]
    #[verifier::rlimit(80)]
    pub(crate) fn parse_struct(&mut self, exported: bool, export_start: Option<Span>) -> (decl: StructDecl)
        requires
            old(self).wf(),
            old(self).at_keyword(Keyword::Struct),
        ensures
            final(self).follows(*old(self)),
            final(self).measure() < old(self).measure(),
            decl.exported == exported,
            struct_parsed(
                *old(self),
                exported,
                match export_start {
                    Some(span) => span,
                    None => old(self).cur().span,
                },
                decl,
                *final(self),
            ),
    {
        let start = self.declaration_start(Keyword::Struct, "`struct`", export_start);
        let ghost opened = *self;
        let ghost m = old(self).measure();
        let name = self.expect_identifier("expected struct name");
        let ghost s1 = *self;
        let (type_params, type_param_bounds) = self.parse_type_params();
        let ghost s2 = *self;
        self.expect_kind(&TokenKind::LeftBrace, "`{`");
        let ghost s3 = *self;
        let mut members: Vec<StructMember> = Vec::new();
        loop
            invariant
                self.follows(opened),
                opened.follows(*old(self)),
                opened.measure() < m,
                m == old(self).measure(),
                self.measure() < m,
                struct_members_upto(m, s3, members@, *self),
            ensures
                self.follows(opened),
                struct_members_upto(m, s3, members@, *self),
                ends_list(*self, TokenKind::RightBrace),
            decreases self.measure(),
        {
            if self.at_eof() || self.check_kind(&TokenKind::RightBrace) {
                break;
            }
            let ghost a = *self;
            let ghost acc = members@;
            let ghost mut c1 = *self;
            let ghost mut c2 = *self;
            let ghost mut c3 = *self;
            let ghost mut c4 = *self;
            let ghost mut r: Option<TypeRef> = None;
            let ghost mut member: Option<StructMember> = None;
            let member_start = self.position;
            if self.current_keyword() == Some(Keyword::Static) {
                let start = self.expect_keyword(Keyword::Static, "`static`").span;
                proof {
                    c1 = *self;
                }
                self.expect_keyword(Keyword::Fn, "`fn`");
                proof {
                    c2 = *self;
                }
                let name = self.expect_identifier("expected static function name");
                proof {
                    c3 = *self;
                }
                let (type_params, type_param_bounds) = self.parse_type_params();
                proof {
                    c4 = *self;
                }
                let method = StructMember::StaticMethod(
                    self.parse_function_tail(start, Some(name), type_params, type_param_bounds),
                );
                proof {
                    member = Some(method);
                }
                members.push(method);
            } else if self.current_keyword() == Some(Keyword::Fn) {
                let method = StructMember::Method(self.parse_function(true));
                proof {
                    member = Some(method);
                }
                members.push(method);
            } else if self.current_keyword() == Some(Keyword::Internal) || self.check_identifier() {
                let internal = self.match_keyword(Keyword::Internal);
                proof {
                    c1 = *self;
                }
                let field_start = self.current().span;
                let name = self.expect_identifier("expected field name");
                proof {
                    c2 = *self;
                }
                self.expect_kind(&TokenKind::Colon, "`:`");
                proof {
                    c3 = *self;
                }
                let parsed = self.parse_type();
                proof {
                    c4 = *self;
                    r = parsed;
                }
                let type_ref = match parsed {
                    Some(type_ref) => type_ref,
                    None => self.missing_type(field_start),
                };
                let span = field_start.join(type_ref.span);
                let field = StructMember::Field(FieldDecl { name, internal, span, type_ref });
                proof {
                    member = Some(field);
                }
                members.push(field);
                self.match_kind(&TokenKind::Comma);
            } else {
                self.error_here(String::from_str("expected struct field or method"));
                proof {
                    c1 = *self;
                }
                self.advance();
            }
            let ghost b = *self;
            if self.position == member_start {
                proof {
                    assert(self.tokens@[self.position as int].kind is Eof == (a.tokens@[a.position as int].kind is Eof));
                }
                self.advance();
            }
            proof {
                assert(struct_member_parsed(a, c1, c2, c3, c4, r, member, b));
                assert(before_member(members@, member) == acc);
                assert(struct_member_step(m, a, c1, c2, c3, c4, r, member, b, *self, members@));
            }
        }
        let ghost cur = *self;
        self.expect_kind(&TokenKind::RightBrace, "`}`");
        let end = self.previous_span();
        let decl = StructDecl { name, exported, type_params, type_param_bounds, members, span: start.join(end) };
        proof {
            assert(struct_shape(*old(self), exported, start, opened, s1, s2, s3, cur, decl, *self));
        }
        decl
    }

    /// Parses a trait with its associated types and method signatures.
    #[verifier::spinoff_prover]
    #[verifier::rlimit(80)]
    pub(crate) fn parse_trait(&mut self, exported: bool, export_start: Option<Span>) -> (decl: TraitDecl)
        requires
            old(self).wf(),
            old(self).at_keyword(Keyword::Trait),
        ensures
            final(self).follows(*old(self)),
            final(self).measure() < old(self).measure(),
            decl.exported == exported,
            trait_parsed(
                *old(self),
                exported,
                match export_start {
                    Some(span) => span,
                    None => old(self).cur().span,
                },
                decl,
                *final(self),
            ),
    {
        let start = self.declaration_start(Keyword::Trait, "`trait`", export_start);
        let ghost opened = *self;
        let ghost m = old(self).measure();
        let name = self.expect_identifier("expected trait name");
        let ghost s1 = *self;
        let (type_params, type_param_bounds) = self.parse_type_params();
        let ghost s2 = *self;
        self.expect_kind(&TokenKind::LeftBrace, "`{`");
        let ghost s3 = *self;
        let mut associated_types: Vec<AssociatedTypeDecl> = Vec::new();
        let mut methods: Vec<TraitMethodDecl> = Vec::new();
        loop
            invariant
                self.follows(opened),
                opened.follows(*old(self)),
                opened.measure() < m,
                m == old(self).measure(),
                self.measure() < m,
                trait_entries_upto(m, s3, methods@, associated_types@, *self),
            ensures
                self.follows(opened),
                trait_entries_upto(m, s3, methods@, associated_types@, *self),
                ends_list(*self, TokenKind::RightBrace),
            decreases self.measure(),
        {
            if self.at_eof() || self.check_kind(&TokenKind::RightBrace) {
                break;
            }
            let ghost a = *self;
            let ghost macc = methods@;
            let ghost tacc = associated_types@;
            let ghost mut c1 = *self;
            let ghost mut c2 = *self;
            let ghost mut c3 = *self;
            let ghost mut c4 = *self;
            let ghost mut c5 = *self;
            let ghost mut c6 = *self;
            let ghost mut r: Option<TypeRef> = None;
            let ghost mut method: Option<TraitMethodDecl> = None;
            let ghost mut associated: Option<AssociatedTypeDecl> = None;
            let keyword = self.current_keyword();
            if keyword == Some(Keyword::Fn) || keyword == Some(Keyword::Static) {
                let parsed = self.parse_trait_method();
                proof {
                    method = Some(parsed);
                }
                methods.push(parsed);
            } else if keyword == Some(Keyword::Type) {
                let type_start = self.expect_keyword(Keyword::Type, "`type`").span;
                proof {
                    c1 = *self;
                }
                let name = self.expect_identifier("expected associated type name");
                proof {
                    c2 = *self;
                }
                let (type_params, type_param_bounds) = self.parse_type_params();
                proof {
                    c3 = *self;
                    c4 = *self;
                }
                let mut bounds: Vec<TypeRef> = Vec::new();
                if self.match_kind(&TokenKind::Colon) {
                    let ghost colon = *self;
                    proof {
                        c4 = *self;
                    }
                    loop
                        invariant_except_break
                            type_list_upto(m, colon, bounds@, *self),
                        invariant
                            self.follows(colon),
                            colon.follows(opened),
                            self.measure() < m,
                            m == old(self).measure(),
                        ensures
                            self.follows(colon),
                            type_list_parsed(m, colon, bounds@, *self),
                        decreases self.measure(),
                    {
                        let ghost c = *self;
                        let ghost before = bounds@;
                        let parsed = self.parse_type();
                        let ghost d = *self;
                        let bound = match parsed {
                            Some(bound) => bound,
                            None => self.missing_type(self.current().span),
                        };
                        bounds.push(bound);
                        proof {
                            assert(bounds@.drop_last() == before);
                            assert(listed_type_parsed(m, c, parsed, d, bounds@.last()));
                        }
                        if !self.match_kind(&TokenKind::Plus) {
                            break;
                        }
                        proof {
                            assert(listed_type_step(m, c, parsed, d, *self, bounds@));
                        }
                    }
                }
                proof {
                    c5 = *self;
                    c6 = *self;
                }
                let default = if self.match_kind(&TokenKind::Equal) {
                    proof {
                        c6 = *self;
                    }
                    let parsed = self.parse_type();
                    proof {
                        r = parsed;
                    }
                    Some(
                        match parsed {
                            Some(type_ref) => type_ref,
                            None => self.missing_type(self.current().span),
                        },
                    )
                } else {
                    None
                };
                let entry = AssociatedTypeDecl {
                    name,
                    type_params,
                    type_param_bounds,
                    bounds,
                    default,
                    span: type_start.join(self.previous_span()),
                };
                proof {
                    associated = Some(entry);
                }
                associated_types.push(entry);
            } else {
                self.error_here(String::from_str("expected trait method or associated type"));
                proof {
                    c1 = *self;
                }
                self.advance();
            }
            proof {
                assert(trait_entry_parsed(m, a, c1, c2, c3, c4, c5, c6, r, method, associated, *self));
                assert(before_member(methods@, method) == macc);
                assert(before_member(associated_types@, associated) == tacc);
                assert(trait_entry_step(m, a, c1, c2, c3, c4, c5, c6, r, method, associated, *self, methods@, associated_types@));
            }
        }
        let ghost cur = *self;
        self.expect_kind(&TokenKind::RightBrace, "`}`");
        let end = self.previous_span();
        let decl = TraitDecl {
            name,
            exported,
            type_params,
            type_param_bounds,
            associated_types,
            methods,
            span: start.join(end),
        };
        proof {
            assert(trait_shape(*old(self), exported, start, opened, s1, s2, s3, cur, decl, *self));
        }
        decl
    }

    /// Parses `[static] fn name<T>(params): R` with an optional default body.
    #[verifier::spinoff_prover]
    #[verifier::rlimit(40)]
    pub(crate) fn parse_trait_method(&mut self) -> (method: TraitMethodDecl)
        requires
            old(self).wf(),
            old(self).at_keyword(Keyword::Fn) || old(self).at_keyword(Keyword::Static),
        ensures
            final(self).follows(*old(self)),
            final(self).measure() < old(self).measure(),
            method.static_ == old(self).at_keyword(Keyword::Static),
            trait_method_parsed(*old(self), method, *final(self)),
    {
        let ghost mut s0 = *self;
        let (start, static_) = if self.current_keyword() == Some(Keyword::Static) {
            let start = self.expect_keyword(Keyword::Static, "`static`").span;
            proof {
                s0 = *self;
            }
            self.expect_keyword(Keyword::Fn, "`fn`");
            (start, true)
        } else {
            (self.expect_keyword(Keyword::Fn, "`fn`").span, false)
        };
        let ghost s1 = *self;
        let name = self.expect_callable_name("expected trait method name");
        let ghost s2 = *self;
        let (type_params, type_param_bounds) = self.parse_type_params();
        let ghost s3 = *self;
        self.expect_kind(&TokenKind::LeftParen, "`(`");
        let ghost s4 = *self;
        let params = self.parse_params();
        let ghost s5 = *self;
        self.expect_kind(&TokenKind::RightParen, "`)`");
        let ghost s6 = *self;
        let ghost mut s7 = *self;
        let return_type = if self.match_kind(&TokenKind::Colon) {
            proof {
                s7 = *self;
            }
            self.parse_type()
        } else {
            None
        };
        let ghost s8 = *self;
        let ghost mut s9 = *self;
        let body = if self.check_kind(&TokenKind::LeftBrace) {
            Some(FunctionBody::Block(self.parse_block()))
        } else if self.match_kind(&TokenKind::FatArrow) {
            proof {
                s9 = *self;
            }
            Some(FunctionBody::Expr(Box::new(self.parse_expression())))
        } else {
            None
        };
        let end = match &body {
            Some(body) => body.span(),
            None => self.previous_span(),
        };
        let method = TraitMethodDecl {
            name,
            static_,
            type_params,
            type_param_bounds,
            params,
            return_type,
            span: start.join(end),
            body,
        };
        proof {
            assert(trait_method_shape(*old(self), s0, s1, s2, s3, s4, s5, s6, s7, s8, method, *self));
        }
        method
    }

    /// Parses `impl<T> Trait for Type { ... }`.
    #[verifier::spinoff_prover]
    #[verifier::rlimit(80)]
    pub(crate) fn parse_impl(&mut self) -> (decl: ImplDecl)
        requires
            old(self).wf(),
            old(self).at_keyword(Keyword::Impl),
        ensures
            final(self).follows(*old(self)),
            final(self).measure() < old(self).measure(),
            impl_parsed(*old(self), decl, *final(self)),
    {
        let start = self.expect_keyword(Keyword::Impl, "`impl`").span;
        let ghost opened = *self;
        let ghost m = old(self).measure();
        let (type_params, type_param_bounds) = self.parse_type_params();
        let ghost s1 = *self;
        let parsed_trait = self.parse_type();
        let ghost s2 = *self;
        let trait_ref = match parsed_trait {
            Some(type_ref) => type_ref,
            None => self.missing_type(self.current().span),
        };
        self.expect_keyword(Keyword::For, "`for`");
        let ghost s3 = *self;
        let parsed_type = self.parse_type();
        let ghost s4 = *self;
        let type_ref = match parsed_type {
            Some(type_ref) => type_ref,
            None => self.missing_type(self.current().span),
        };
        self.expect_kind(&TokenKind::LeftBrace, "`{`");
        let ghost s5 = *self;
        let mut associated_types: Vec<AssociatedTypeDef> = Vec::new();
        let mut methods: Vec<ImplMember> = Vec::new();
        loop
            invariant
                self.follows(opened),
                opened.follows(*old(self)),
                opened.measure() < m,
                m == old(self).measure(),
                self.measure() < m,
                impl_entries_upto(m, s5, methods@, associated_types@, *self),
            ensures
                self.follows(opened),
                impl_entries_upto(m, s5, methods@, associated_types@, *self),
                ends_list(*self, TokenKind::RightBrace),
            decreases self.measure(),
        {
            if self.at_eof() || self.check_kind(&TokenKind::RightBrace) {
                break;
            }
            let ghost a = *self;
            let ghost macc = methods@;
            let ghost tacc = associated_types@;
            let ghost mut c1 = *self;
            let ghost mut c2 = *self;
            let ghost mut c3 = *self;
            let ghost mut c4 = *self;
            let ghost mut r: Option<TypeRef> = None;
            let ghost mut method: Option<ImplMember> = None;
            let ghost mut definition: Option<AssociatedTypeDef> = None;
            let keyword = self.current_keyword();
            if keyword == Some(Keyword::Fn) || keyword == Some(Keyword::Static) {
                let (function, static_) = if keyword == Some(Keyword::Static) {
                    let start = self.expect_keyword(Keyword::Static, "`static`").span;
                    proof {
                        c1 = *self;
                    }
                    self.expect_keyword(Keyword::Fn, "`fn`");
                    proof {
                        c2 = *self;
                    }
                    let name = self.expect_callable_name("expected impl method name");
                    proof {
                        c3 = *self;
                    }
                    (self.parse_function_tail(start, Some(name), Vec::new(), Vec::new()), true)
                } else {
                    (self.parse_function(true), false)
                };
                let span = function.span;
                let member = ImplMember { function, static_, span };
                proof {
                    method = Some(member);
                }
                methods.push(member);
            } else if keyword == Some(Keyword::Type) {
                let type_start = self.expect_keyword(Keyword::Type, "`type`").span;
                proof {
                    c1 = *self;
                }
                let name = self.expect_identifier("expected associated type name");
                proof {
                    c2 = *self;
                }
                let (type_params, type_param_bounds) = self.parse_type_params();
                proof {
                    c3 = *self;
                }
                self.expect_kind(&TokenKind::Colon, "`:`");
                proof {
                    c4 = *self;
                }
                let parsed = self.parse_type();
                proof {
                    r = parsed;
                }
                let type_ref = match parsed {
                    Some(type_ref) => type_ref,
                    None => self.missing_type(self.current().span),
                };
                let span = type_start.join(type_ref.span);
                let entry = AssociatedTypeDef { name, type_params, type_param_bounds, span, type_ref };
                proof {
                    definition = Some(entry);
                }
                associated_types.push(entry);
            } else {
                self.error_here(
                    String::from_str("expected impl method or associated type definition"),
                );
                proof {
                    c1 = *self;
                }
                self.advance();
            }
            proof {
                assert(impl_entry_parsed(a, c1, c2, c3, c4, r, method, definition, *self));
                assert(before_member(methods@, method) == macc);
                assert(before_member(associated_types@, definition) == tacc);
                assert(impl_entry_step(m, a, c1, c2, c3, c4, r, method, definition, *self, methods@, associated_types@));
            }
        }
        let ghost cur = *self;
        self.expect_kind(&TokenKind::RightBrace, "`}`");
        let end = self.previous_span();
        let decl = ImplDecl {
            type_params,
            type_param_bounds,
            trait_ref,
            type_ref,
            associated_types,
            methods,
            span: start.join(end),
        };
        proof {
            assert(impl_shape(*old(self), opened, s1, parsed_trait, s2, s3, parsed_type, s4, s5, cur, decl, *self));
        }
        decl
    }

    /// Parses `<T: Bound + Bound, U>`, if present.
    pub(crate) fn parse_type_params(&mut self) -> (params: (Vec<String>, Vec<TypeParamBound>))
        requires
            old(self).wf(),
        ensures
            final(self).follows(*old(self)),
            !old(self).at_kind(TokenKind::Less) ==> *final(self) == *old(self) && params.0@.len()
                == 0 && params.1@.len() == 0,
            type_params_parsed(*old(self), params.0@, params.1@, *final(self)),
    {
        let mut params: Vec<String> = Vec::new();
        let mut bounds: Vec<TypeParamBound> = Vec::new();
        if !self.match_kind(&TokenKind::Less) {
            return (params, bounds);
        }
        let ghost opened = *self;
        let ghost m = old(self).measure();
        let ghost mut last: Parser = *self;
        let ghost mut ps: Seq<String> = Seq::empty();
        let ghost mut bs: Seq<TypeParamBound> = Seq::empty();
        let ghost mut a1: Parser = *self;
        let ghost mut a2: Parser = *self;
        let ghost mut k: int = 0;
        loop
            invariant_except_break
                type_params_upto(m, *old(self), params@, bounds@, *self),
            invariant
                self.follows(opened),
                opened.follows(*old(self)),
                opened.stepped(*old(self)),
                old(self).at_kind(TokenKind::Less),
                m == old(self).measure(),
                self.measure() < m,
            ensures
                self.follows(opened),
                type_params_upto(m, *old(self), ps, bs, last),
                type_params_stop(m, last, ps, bs, a1, a2, k, *self, params@, bounds@),
            decreases self.measure(),
        {
            proof {
                last = *self;
                ps = params@;
                bs = bounds@;
            }
            if self.at_eof() || self.check_type_greater() {
                break;
            }
            let start = self.current().span;
            let param = self.expect_identifier("expected type parameter name");
            proof {
                a1 = *self;
                a2 = *self;
            }
            params.push(param.clone());
            let ghost mut added: Seq<TypeParamBound> = Seq::empty();
            if self.match_kind(&TokenKind::Colon) {
                let ghost colon = *self;
                proof {
                    a2 = *self;
                }
                let ghost mut c_last: Parser = *self;
                let ghost mut r_last: Option<TypeRef> = None;
                loop
                    invariant_except_break
                        bounds_upto(m, colon, added, *self, param@, start),
                    invariant
                        self.follows(colon),
                        colon.follows(opened),
                        self.measure() < m,
                        m == old(self).measure(),
                        bounds@ == bs + added,
                        start == last.cur().span,
                    ensures
                        self.follows(colon),
                        bounds@ == bs + added,
                        bounds_parsed(m, colon, added, *self, param@, start),
                    decreases self.measure(),
                {
                    let ghost c = *self;
                    let ghost before = added;
                    let parsed = self.parse_type();
                    let ghost d = *self;
                    let trait_ref = match parsed {
                        Some(trait_ref) => trait_ref,
                        None => self.missing_type(self.current().span),
                    };
                    let span = start.join(trait_ref.span);
                    let bound = TypeParamBound { param: param.clone(), span, trait_ref };
                    proof {
                        added = added.push(bound);
                        assert(bound_parsed(m, c, parsed, d, bound, param@, start));
                    }
                    bounds.push(bound);
                    proof {
                        assert(bounds@ == bs + added);
                        assert(added.drop_last() == before);
                    }
                    if !self.match_kind(&TokenKind::Plus) {
                        proof {
                            assert(bounds_upto(m, colon, added.drop_last(), c, param@, start));
                            assert(bound_parsed(m, c, parsed, *self, added.last(), param@, start));
                        }
                        break;
                    }
                    proof {
                        assert(bound_step(m, c, parsed, d, *self, added, param@, start));
                    }
                }
            }
            let ghost b = *self;
            proof {
                k = added.len() as int;
                assert(bounds@.skip(bounds@.len() - k) == added);
                assert(bounds@.take(bounds@.len() - k) == bs);
                assert(params@.drop_last() == ps);
                assert(type_param_parsed(m, last, a1, a2, b, params@.last()@, added));
            }
            if !self.match_kind(&TokenKind::Comma) {
                break;
            }
            proof {
                assert(type_param_step(m, last, a1, a2, b, *self, params@, bounds@, k));
            }
        }
        let ghost s = *self;
        self.expect_type_greater();
        proof {
            assert(type_params_stop(m, last, ps, bs, a1, a2, k, s, params@, bounds@));
        }
        (params, bounds)
    }

    /// Parses `fn [name<T>](params): R body`; lambdas have no name.
    pub(crate) fn parse_function(&mut self, named: bool) -> (function: FunctionDecl)
        requires
            old(self).wf(),
            old(self).at_keyword(Keyword::Fn),
        ensures
            final(self).follows(*old(self)),
            final(self).measure() < old(self).measure(),
            function.name is Some == named,
            !function.exported,
            !named ==> lambda_parsed(*old(self), function, *final(self)),
            named ==> named_function_parsed(*old(self), function, *final(self)),
        decreases old(self).measure(), 0nat,
    {
        let start = self.expect_keyword(Keyword::Fn, "`fn`").span;
        let ghost s1 = *self;
        let name = if named {
            Some(self.expect_callable_name("expected function name"))
        } else {
            None
        };
        let ghost s2 = *self;
        let (type_params, type_param_bounds) = if named {
            self.parse_type_params()
        } else {
            (Vec::new(), Vec::new())
        };
        let ghost s3 = *self;
        let function = self.parse_function_tail(start, name, type_params, type_param_bounds);
        proof {
            if named {
                assert(named_function_shape(*old(self), s1, s2, s3, function));
            }
        }
        function
    }

    /// Parses a top-level `fn`, which may declare an extension method `fn Type.name`.
    pub(crate) fn parse_top_level_function(&mut self, exported: bool, export_start: Option<Span>) -> (item: Item)
        requires
            old(self).wf(),
            old(self).at_keyword(Keyword::Fn),
        ensures
            final(self).follows(*old(self)),
            final(self).measure() < old(self).measure(),
            item is Function || item is Extension,
            !exported && export_start is None ==> top_function_parsed(*old(self), item, *final(self)),
    {
        let start = self.declaration_start(Keyword::Fn, "`fn`", export_start);
        let ghost s0 = *self;
        let item = self.parse_top_level_function_tail(start, false, exported);
        proof {
            if !exported && export_start is None {
                assert(s0.stepped(*old(self)));
                assert(plain_function_tail(s0, old(self).cur().span, item, *self));
            }
        }
        item
    }

    /// Parses a top-level `static fn Type.name`.
    pub(crate) fn parse_static_extension(&mut self, exported: bool, export_start: Option<Span>) -> (item: Item)
        requires
            old(self).wf(),
            old(self).at_keyword(Keyword::Static),
        ensures
            final(self).follows(*old(self)),
            final(self).measure() < old(self).measure(),
            item is Function || item is Extension,
    {
        let start = self.declaration_start(Keyword::Static, "`static`", export_start);
        let ghost after_static = *self;
        self.expect_keyword(Keyword::Fn, "`fn`");
        self.parse_top_level_function_tail(start, true, exported)
    }

    /// After `fn` (or `static fn`): either `Type<...>.name ...`, an extension,
    /// or a plain function `name<T>(...)`.
    pub(crate) fn parse_top_level_function_tail(&mut self, start: Span, static_: bool, exported: bool) -> (item: Item)
        requires
            old(self).wf(),
        ensures
            final(self).follows(*old(self)),
            item is Function || item is Extension,
            item matches Item::Function(f) ==> f.exported == exported,
            item matches Item::Extension(e) ==> e.exported == exported && e.static_ == static_,
            !static_ && !exported ==> plain_function_tail(*old(self), start, item, *final(self)),
            item matches Item::Extension(e) ==> extension_method_parsed(e.function),
    {
        let name_span = self.current().span;
        let first_name = self.expect_identifier("expected function or extension type name");
        let ghost s1 = *self;
        proof {
            if plain_function_name(*old(self)) {
                assert(self.cur() == old(self).tokens@[old(self).position + 1]);
            }
        }
        let after_name = self.position;
        let diagnostic_count = self.diagnostics.len();
        let ghost saved = *self;
        let (type_ref, extension_type_params, extension_type_param_bounds) =
            self.parse_extension_target_type(first_name.clone(), name_span);
        let ghost s2 = *self;
        if self.match_kind(&TokenKind::Dot) {
            let ghost s3 = *self;
            let function_name = self.expect_callable_name("expected extension function name");
            let ghost s4 = *self;
            let (function_type_params, function_type_param_bounds) = self.parse_type_params();
            let ghost s5 = *self;
            let mut function = self.parse_function_tail(
                start,
                Some(function_name),
                function_type_params,
                function_type_param_bounds,
            );
            function.exported = exported;
            proof {
                assert(extension_method_shape(s2, s3, s4, s5, function));
            }
            Item::Extension(
                ExtensionDecl {
                    span: start.join(function.span),
                    type_ref,
                    exported,
                    type_params: extension_type_params,
                    type_param_bounds: extension_type_param_bounds,
                    function,
                    static_,
                },
            )
        } else {
            self.backtrack(after_name, diagnostic_count, Ghost(saved));
            let ghost s3 = *self;
            if static_ {
                self.error_here(String::from_str("static functions must be declared on a type"));
            }
            let (type_params, type_param_bounds) = self.parse_type_params();
            let ghost s4 = *self;
            let mut function = self.parse_function_tail(
                start,
                Some(first_name),
                type_params,
                type_param_bounds,
            );
            function.exported = exported;
            let item = Item::Function(function);
            proof {
                if !static_ && !exported && plain_function_name(*old(self)) {
                    assert(s4 == s3);
                    assert(plain_function_shape(*old(self), s1, s3, item));
                }
            }
            item
        }
    }

    /// Parses the receiver type of an extension, `Name<A, T: Bound, type X: B>`,
    /// collecting the type parameters that it declares and their bounds.
    pub(crate) fn parse_extension_target_type(&mut self, name: String, name_span: Span) -> (target: (
        TypeRef,
        Vec<String>,
        Vec<TypeParamBound>,
    ))
        requires
            old(self).wf(),
        ensures
            final(self).follows(*old(self)),
            target.0.name == name,
            target.0.function is None,
            !old(self).at_kind(TokenKind::Less) ==> *final(self) == *old(self),
    {
        let mut args = Vec::new();
        let mut bindings = Vec::new();
        let mut type_params: Vec<String> = Vec::new();
        let mut type_param_bounds = Vec::new();
        let mut end = name_span;
        if self.match_kind(&TokenKind::Less) {
            let ghost opened = *self;
            loop
                invariant
                    self.follows(opened),
                    opened.follows(*old(self)),
                decreases self.measure(),
            {
                if self.at_eof() || self.check_type_greater() {
                    break;
                }
                if self.current_keyword() == Some(Keyword::Type) {
                    let binding_start = self.expect_keyword(Keyword::Type, "`type`").span;
                    let binding_name = self.expect_identifier("expected associated type name");
                    self.expect_kind(&TokenKind::Colon, "`:`");
                    let type_ref = match self.parse_type() {
                        Some(type_ref) => type_ref,
                        None => self.missing_type(self.current().span),
                    };
                    let span = binding_start.join(type_ref.span);
                    bindings.push(AssociatedTypeBinding { name: binding_name, span, type_ref });
                } else {
                    let arg = match self.parse_type() {
                        Some(arg) => arg,
                        None => break,
                    };
                    if arg.args.len() == 0 && arg.function.is_none() && self.match_kind(
                        &TokenKind::Colon,
                    ) {
                        if !contains_string(&type_params, &arg.name) {
                            type_params.push(arg.name.clone());
                        }
                        let ghost colon = *self;
                        loop
                            invariant
                                self.follows(colon),
                                colon.follows(opened),
                            decreases self.measure(),
                        {
                            let trait_ref = match self.parse_type() {
                                Some(trait_ref) => trait_ref,
                                None => self.missing_type(self.current().span),
                            };
                            let span = arg.span.join(trait_ref.span);
                            type_param_bounds.push(
                                TypeParamBound { param: arg.name.clone(), span, trait_ref },
                            );
                            if !self.match_kind(&TokenKind::Plus) {
                                break;
                            }
                        }
                    }
                    args.push(arg);
                }
                if !self.match_kind(&TokenKind::Comma) {
                    break;
                }
            }
            end = self.expect_type_greater().span;
        }
        (
            TypeRef { name, args, bindings, function: None, span: name_span.join(end) },
            type_params,
            type_param_bounds,
        )
    }

    /// Parses `(params): R` and a body `{ ... }` or `=> expr`.
    pub(crate) fn parse_function_tail(
        &mut self,
        start: Span,
        name: Option<String>,
        type_params: Vec<String>,
        type_param_bounds: Vec<TypeParamBound>,
    ) -> (function: FunctionDecl)
        requires
            old(self).wf(),
        ensures
            final(self).follows(*old(self)),
            function.name == name,
            !function.exported,
            function.type_params == type_params,
            function.type_param_bounds == type_param_bounds,
            function_tail_parsed(
                *old(self),
                start,
                name,
                type_params,
                type_param_bounds,
                function,
                *final(self),
            ),
        decreases old(self).measure(), 10nat,
    {
        let ghost p0 = *self;
        let ghost name0 = name;
        let ghost tp0 = type_params;
        let ghost bounds0 = type_param_bounds;
        self.expect_kind(&TokenKind::LeftParen, "`(`");
        let ghost s2 = *self;
        let params = self.parse_params();
        let ghost s3 = *self;
        self.expect_kind(&TokenKind::RightParen, "`)`");
        let ghost s4 = *self;
        let ghost mut s5 = *self;
        let return_type = if self.match_kind(&TokenKind::Colon) {
            proof {
                s5 = *self;
            }
            self.parse_type()
        } else {
            None
        };
        let ghost s6 = *self;
        let ghost mut s7 = *self;
        let body = if self.check_kind(&TokenKind::LeftBrace) {
            FunctionBody::Block(self.parse_block())
        } else if self.match_kind(&TokenKind::FatArrow) {
            proof {
                s7 = *self;
            }
            FunctionBody::Expr(Box::new(self.parse_expression()))
        } else {
            self.error_here(String::from_str("expected function body"));
            FunctionBody::Expr(Box::new(self.missing_expr(self.current().span)))
        };
        let span = start.join(body.span());
        let function = FunctionDecl {
            name,
            exported: false,
            type_params,
            type_param_bounds,
            params,
            return_type,
            body,
            span,
        };
        proof {
            assert(function_tail_shape(p0, start, name0, tp0, bounds0, s2, s3, s4, s5, s6, s7, function, *self));
        }
        function
    }

    /// Parses `[mut] name [: Type], ...` up to `)`.
    pub(crate) fn parse_params(&mut self) -> (params: Vec<Param>)
        requires
            old(self).wf(),
        ensures
            final(self).follows(*old(self)),
            param_decls_parsed(*old(self), params@, *final(self)),
    {
        let ghost m = old(self).measure() + 1;
        let mut params: Vec<Param> = Vec::new();
        let ghost mut last: Parser = *self;
        let ghost mut acc: Seq<Param> = Seq::empty();
        let ghost mut a1: Parser = *self;
        let ghost mut a2: Parser = *self;
        let ghost mut a3: Parser = *self;
        loop
            invariant_except_break
                param_decls_upto(m, *old(self), params@, *self),
            invariant
                self.follows(*old(self)),
                m == old(self).measure() + 1,
            ensures
                self.follows(*old(self)),
                param_decls_stop(*old(self), last, acc, a1, a2, a3, params@, *self),
                param_decls_upto(m, *old(self), acc, last),
            decreases self.measure(),
        {
            proof {
                last = *self;
                acc = params@;
            }
            if self.at_eof() || self.check_kind(&TokenKind::RightParen) {
                break;
            }
            let start = self.current().span;
            let mutable = self.match_keyword(Keyword::Mut);
            proof {
                a1 = *self;
            }
            let name = self.expect_identifier("expected parameter name");
            proof {
                a2 = *self;
                a3 = *self;
            }
            let type_ref = if self.match_kind(&TokenKind::Colon) {
                proof {
                    a3 = *self;
                }
                self.parse_type()
            } else {
                None
            };
            let ghost b = *self;
            params.push(Param { name, mutable, type_ref, span: start.join(self.previous_span()) });
            proof {
                assert(params@.drop_last() == acc);
                assert(param_decl_parsed(m, last, a1, a2, a3, b, params@.last()));
            }
            if !self.match_kind(&TokenKind::Comma) {
                break;
            }
            proof {
                assert(param_decl_step(m, last, a1, a2, a3, b, *self, params@));
            }
        }
        params
    }

    /// Parses the fields of a struct literal `Name<T> { field: value, ... }`.
    pub(crate) fn parse_struct_init(&mut self, name: String, args: Vec<TypeRef>, start: Span) -> (expr: Expr)
        requires
            old(self).wf(),
            old(self).at_kind(TokenKind::LeftBrace),
        ensures
            final(self).follows(*old(self)),
            final(self).measure() < old(self).measure(),
            expr.kind matches ExprKind::StructInit { name: n, args: a, .. } && n == name && a == args,
            struct_init_parsed(*old(self), name@, args, start, expr, *final(self)),
        decreases old(self).measure(), 0nat,
    {
        self.expect_kind(&TokenKind::LeftBrace, "`{`");
        let ghost opened = *self;
        let ghost m = old(self).measure();
        let mut fields: Vec<StructInitField> = Vec::new();
        let ghost mut last: Parser = *self;
        let ghost mut acc: Seq<StructInitField> = Seq::empty();
        let ghost mut k1: Parser = *self;
        let ghost mut k2: Parser = *self;
        loop
            invariant_except_break
                fields_upto(m, opened, fields@, *self),
            invariant
                self.follows(opened),
                opened.follows(*old(self)),
                opened.measure() < old(self).measure(),
                opened.stepped(*old(self)),
                m == old(self).measure(),
            ensures
                self.follows(opened),
                fields_upto(m, opened, acc, last),
                ends_list(last, TokenKind::RightBrace) ==> *self == last && fields@ == acc,
                !ends_list(last, TokenKind::RightBrace) ==> fields@.len() == acc.len() + 1
                    && fields@.drop_last() == acc && field_parsed(m, last, k1, k2, *self, fields@.last())
                    && expression_parsed(k2, fields@.last().value, *self)
                    && !self.at_kind(TokenKind::Comma),
            decreases self.measure(),
        {
            proof {
                last = *self;
                acc = fields@;
            }
            if self.at_eof() || self.check_kind(&TokenKind::RightBrace) {
                break;
            }
            let field_start = self.current().span;
            let name = self.expect_identifier("expected struct field name");
            proof {
                k1 = *self;
            }
            self.expect_kind(&TokenKind::Colon, "`:`");
            proof {
                k2 = *self;
            }
            let value = self.parse_expression();
            let span = field_start.join(value.span);
            let ghost b = *self;
            fields.push(StructInitField { name, value, span });
            proof {
                assert(fields@.drop_last() == acc);
                assert(field_parsed(m, last, k1, k2, b, fields@.last()));
            }
            if !self.match_kind(&TokenKind::Comma) {
                break;
            }
            proof {
                assert(field_step(m, last, k1, k2, b, *self, fields@));
            }
        }
        let ghost e2 = *self;
        self.expect_kind(&TokenKind::RightBrace, "`}`");
        let span = start.join(self.previous_span());
        let expr = Expr { kind: ExprKind::StructInit { name, args, fields }, span };
        proof {
            assert(struct_init_shape(*old(self), name@, args, start, opened, last, acc, k1, k2, e2, expr, *self));
        }
        expr
    }
}

} // verus!
