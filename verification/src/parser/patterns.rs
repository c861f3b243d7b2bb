use vstd::prelude::*;

use super::cursor::spec_previous_span;
use super::expressions::name_read;
use super::types::{expected_kind, reported_with};
use super::Parser;
use crate::ast::Pattern;
use crate::span::spec_join;
use crate::text::{join_seqs, join_strings, string_is, string_views};
use crate::token::{Keyword, TokenKind};

verus! {

/// The current token is the wildcard identifier `_`.
pub open spec fn is_wildcard(kind: TokenKind) -> bool {
    kind matches TokenKind::Identifier(name) && name@ == "_"@
}

/// One `.part` of a pattern's path: `mid` is at `.`, `s` past it, and the
/// part, the last of `parts`, is read there (reported if missing), leaving `cur`.
pub(crate) open spec fn path_step(mid: Parser, s: Parser, parts: Seq<Seq<char>>, cur: Parser) -> bool {
    &&& mid.at_kind(TokenKind::Dot)
    &&& s.stepped(mid)
    &&& parts.len() >= 2
    &&& name_read(s, parts.last(), cur, false, "expected enum variant in match pattern"@)
}

/// From `p`, the path's first name and `j` dotted parts give `parts` and
/// leave the parser at `cur`.
pub(crate) open spec fn path_upto(p: Parser, parts: Seq<Seq<char>>, cur: Parser, j: nat) -> bool
    decreases j,
{
    if j == 0 {
        parts.len() == 1 && name_read(p, parts[0], cur, false, "expected enum name in match pattern"@)
    } else {
        exists|mid: Parser, s: Parser|
            #[trigger] path_step(mid, s, parts, cur) && path_upto(p, parts.drop_last(), mid, (j - 1) as nat)
    }
}

/// An enum-variant pattern from `p` whose path, `parts`, ends at `c0`: the
/// enum is the path without its last part, which is the variant (an empty
/// enum name is reported, leaving `c1`); an optional `([mut] binding)` follows,
/// through `c2`, `c3` and `c4`, to `q`.
pub(crate) open spec fn variant_pattern_shape(
    p: Parser,
    parts: Seq<Seq<char>>,
    c0: Parser,
    c1: Parser,
    c2: Parser,
    c3: Parser,
    c4: Parser,
    pattern: Pattern,
    q: Parser,
) -> bool {
    &&& !c0.at_kind(TokenKind::Dot)
    &&& pattern matches Pattern::Variant { enum_name, variant, binding, binding_mutable, span } && {
        &&& variant@ == parts.last()
        &&& enum_name@ == join_seqs(parts.drop_last(), "."@)
        &&& if enum_name@.len() == 0 {
            reported_with(c1, c0, "expected `.` and enum variant in match pattern"@)
        } else {
            c1 == c0
        }
        &&& if c1.at_kind(TokenKind::LeftParen) {
            &&& c2.stepped(c1)
            &&& binding_mutable == c2.at_keyword(Keyword::Mut)
            &&& if binding_mutable {
                c3.stepped(c2)
            } else {
                c3 == c2
            }
            &&& binding matches Some(b) && name_read(c3, b@, c4, false, "expected pattern binding"@)
            &&& expected_kind(q, c4, TokenKind::RightParen, "`)`"@)
        } else {
            binding is None && !binding_mutable && q == c1
        }
        &&& span == spec_join(p.cur().span, spec_previous_span(q.tokens@, q.position))
    }
}

/// What parsing a match pattern from `p` gives: a string, a number, a numeric
/// range `a..b` or `a..=b` (a missing end reported), `_`, or an enum variant
/// `Enum.Variant` with an optional binding.
pub(crate) open spec fn pattern_parsed(p: Parser, pattern: Pattern, q: Parser) -> bool {
    let start = p.cur().span;
    match p.cur().kind {
        TokenKind::StringLiteral(value) => q.stepped(p) && pattern == (Pattern::String { value, span: start }),
        TokenKind::Number(value) => exists|s1: Parser|
            #[trigger] s1.stepped(p) && if s1.at_kind(TokenKind::DotDotEqual) || s1.at_kind(
                TokenKind::DotDot,
            ) {
                exists|s2: Parser| #[trigger] s2.stepped(s1) && (pattern matches Pattern::Range { start: v, end, inclusive, span } && v == value
                    && inclusive == s1.at_kind(TokenKind::DotDotEqual) && span == spec_join(
                    start,
                    spec_previous_span(q.tokens@, q.position),
                ) && match s2.cur().kind {
                    TokenKind::Number(e) => end == e && q.stepped(s2),
                    _ => end@.len() == 0 && reported_with(q, s2, "expected range pattern end"@),
                })
            } else {
                q == s1 && pattern == (Pattern::Number { value, span: start })
            },
        _ => if is_wildcard(p.cur().kind) {
            q.stepped(p) && pattern == (Pattern::Wildcard { span: start })
        } else {
            exists|parts: Seq<Seq<char>>, c0: Parser, c1: Parser, c2: Parser, c3: Parser, c4: Parser|
                #[trigger] variant_pattern_shape(p, parts, c0, c1, c2, c3, c4, pattern, q) && path_upto(
                    p,
                    parts,
                    c0,
                    (parts.len() - 1) as nat,
                )
        },
    }
}

impl Parser {
    /// Parses a match pattern: a string, a number, a numeric range, `_`, or an
    /// enum variant `Enum.Variant` with an optional `(binding)`.
    pub(crate) fn parse_pattern(&mut self) -> (pattern: Pattern)
        requires
            old(self).wf(),
        ensures
            final(self).follows(*old(self)),
            old(self).cur().kind matches TokenKind::StringLiteral(v) ==> pattern == (Pattern::String {
                value: v,
                span: old(self).cur().span,
            }) && final(self).stepped(*old(self)),
            is_wildcard(old(self).cur().kind) ==> pattern == (Pattern::Wildcard {
                span: old(self).cur().span,
            }) && final(self).stepped(*old(self)),
            old(self).cur().kind is Number ==> (pattern is Number || pattern is Range),
            pattern_parsed(*old(self), pattern, *final(self)),
    {
        let start = self.current().span;
        if let TokenKind::StringLiteral(value) = self.current().kind.clone() {
            self.advance();
            return Pattern::String { value, span: start };
        }
        if let TokenKind::Number(value) = self.current().kind.clone() {
            self.advance();
            let ghost s1 = *self;
            let inclusive = if self.match_kind(&TokenKind::DotDotEqual) {
                Some(true)
            } else if self.match_kind(&TokenKind::DotDot) {
                Some(false)
            } else {
                None
            };
            let ghost s2 = *self;
            if let Some(inclusive) = inclusive {
                let end = if let TokenKind::Number(end) = self.current().kind.clone() {
                    self.advance();
                    end
                } else {
                    self.error_here(String::from_str("expected range pattern end"));
                    String::new()
                };
                let span = start.join(self.previous_span());
                let pattern = Pattern::Range { start: value, end, inclusive, span };
                proof {
                    assert(s2.stepped(s1));
                }
                return pattern;
            }
            proof {
                assert(s1.stepped(*old(self)));
            }
            return Pattern::Number { value, span: start };
        }
        let wildcard = match &self.current().kind {
            TokenKind::Identifier(name) => string_is(name, "_"),
            _ => false,
        };
        if wildcard {
            self.advance();
            return Pattern::Wildcard { span: start };
        }
        let mut path: Vec<String> = Vec::new();
        path.push(self.expect_identifier("expected enum name in match pattern"));
        let ghost mut j: nat = 0;
        proof {
            assert(string_views(path@) =~= seq![path@[0]@]);
            assert(path_upto(*old(self), string_views(path@), *self, j));
        }
        loop
            invariant
                self.follows(*old(self)),
                path@.len() >= 1,
                path@.len() == j + 1,
                path_upto(*old(self), string_views(path@), *self, j),
            ensures
                self.follows(*old(self)),
                path@.len() >= 1,
                path@.len() == j + 1,
                path_upto(*old(self), string_views(path@), *self, j),
                !self.at_kind(TokenKind::Dot),
            decreases self.measure(),
        {
            let ghost mid = *self;
            let ghost before = string_views(path@);
            if !self.match_kind(&TokenKind::Dot) {
                break;
            }
            let ghost s = *self;
            path.push(self.expect_identifier("expected enum variant in match pattern"));
            proof {
                assert(string_views(path@).drop_last() =~= before);
                assert(path_step(mid, s, string_views(path@), *self));
                j = j + 1;
            }
        }
        let ghost parts = string_views(path@);
        let ghost c0 = *self;
        let variant = match path.pop() {
            Some(variant) => variant,
            None => String::new(),
        };
        proof {
            assert(string_views(path@) =~= parts.drop_last());
        }
        let enum_name = join_strings(&path, ".");
        if enum_name.as_str().unicode_len() == 0 {
            self.error_here(String::from_str("expected `.` and enum variant in match pattern"));
        }
        let ghost c1 = *self;
        let ghost mut c2 = *self;
        let ghost mut c3 = *self;
        let ghost mut c4 = *self;
        let (binding, binding_mutable) = if self.match_kind(&TokenKind::LeftParen) {
            proof {
                c2 = *self;
            }
            let binding_mutable = self.match_keyword(Keyword::Mut);
            proof {
                c3 = *self;
            }
            let binding = self.expect_identifier("expected pattern binding");
            proof {
                c4 = *self;
            }
            self.expect_kind(&TokenKind::RightParen, "`)`");
            (Some(binding), binding_mutable)
        } else {
            (None, false)
        };
        let span = start.join(self.previous_span());
        let pattern = Pattern::Variant { enum_name, variant, binding, binding_mutable, span };
        proof {
            assert(parts.len() - 1 == j);
            assert(variant_pattern_shape(*old(self), parts, c0, c1, c2, c3, c4, pattern, *self));
        }
        pattern
    }
}

} // verus!
