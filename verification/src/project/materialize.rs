use vstd::prelude::*;

use crate::ast::{Block, Expr, ExprKind, FunctionDecl, Stmt, StmtKind, StructInitField};
use crate::ast_copy::{copy_function, same_function};
use crate::project::comptime::ComptimeValue;
use crate::project::rewrite::{find_pair, lookup_pair};
use crate::span::Span;

verus! {

/// Whether a value can be written as source: it holds nothing unsupported,
/// and each closure in it is one of the recorded lambdas.
pub open spec fn value_ok(value: ComptimeValue, lambdas: Seq<(String, FunctionDecl)>) -> bool
    decreases value,
{
    match value {
        ComptimeValue::Unsupported(_) => false,
        ComptimeValue::Struct { fields, .. } => forall|i: int|
            #![trigger fields@[i]]
            0 <= i < fields@.len() ==> value_ok(fields@[i].1, lambdas),
        ComptimeValue::Enum { payload, .. } => match payload {
            Some(p) => value_ok(*p, lambdas),
            None => true,
        },
        ComptimeValue::Closure { name, captures } => lookup_pair(lambdas, name@) is Some && forall|i: int|
            #![trigger captures@[i]]
            0 <= i < captures@.len() ==> value_ok(captures@[i].1, lambdas),
        _ => true,
    }
}

/// Why a value cannot be written as source: the first part of it, in order,
/// that cannot.
pub open spec fn value_error(value: ComptimeValue, lambdas: Seq<(String, FunctionDecl)>) -> Seq<char>
    decreases value, 0nat,
{
    match value {
        ComptimeValue::Unsupported(message) => message@,
        ComptimeValue::Struct { fields, .. } => first_error(fields@, lambdas),
        ComptimeValue::Enum { payload, .. } => match payload {
            Some(p) => value_error(*p, lambdas),
            None => seq![],
        },
        ComptimeValue::Closure { name, captures } => if lookup_pair(lambdas, name@) is None {
            "comptime result cannot be materialized as Gust source"@
        } else {
            first_error(captures@, lambdas)
        },
        _ => seq![],
    }
}

pub open spec fn first_error(entries: Seq<(String, ComptimeValue)>, lambdas: Seq<(String, FunctionDecl)>) -> Seq<char>
    decreases entries, 1nat,
{
    if entries.len() == 0 {
        seq![]
    } else if !value_ok(entries[0].1, lambdas) {
        value_error(entries[0].1, lambdas)
    } else {
        first_error(entries.drop_first(), lambdas)
    }
}

/// The callee that names variant `variant` of enum `name`, at `span`.
pub open spec fn variant_callee(callee: Expr, name: String, variant: String, span: Span) -> bool {
    &&& callee.span == span
    &&& callee.kind matches ExprKind::Member { object, name: v2 } && v2 == variant && object.span == span
        && object.kind == ExprKind::Identifier(name)
}

/// The statement that binds a capture: a mutable `let` of its name, with no
/// annotation, whose value is the capture's value written as source.
pub open spec fn capture_let(
    statement: Stmt,
    capture: (String, ComptimeValue),
    span: Span,
    lambdas: Seq<(String, FunctionDecl)>,
) -> bool
    decreases capture.1, 1nat,
{
    statement.span == span && match statement.kind {
        StmtKind::Let { name, mutable, type_annotation, value } => name == capture.0 && mutable && type_annotation is None
            && match value {
            Some(v) => value_expr(capture.1, span, lambdas, v),
            None => false,
        },
        _ => false,
    }
}

/// The source that a value is written as, everything at `span`: a literal
/// for a scalar (`Void` as a missing expression), a struct literal, a
/// variant (called with its payload), or the recorded lambda (in a block that
/// first binds its captures, each mutable, when it has any).
pub open spec fn value_expr(value: ComptimeValue, span: Span, lambdas: Seq<(String, FunctionDecl)>, expr: Expr) -> bool
    decreases value, 0nat,
{
    expr.span == span && match value {
        ComptimeValue::Void => expr.kind == ExprKind::Missing,
        ComptimeValue::Bool(b) => expr.kind == ExprKind::Bool(b),
        ComptimeValue::Number(n) => expr.kind == ExprKind::Number(n),
        ComptimeValue::String(s) => expr.kind == ExprKind::String(s),
        ComptimeValue::Char(c) => expr.kind == ExprKind::Char(c),
        ComptimeValue::Struct { name, fields } => expr.kind matches ExprKind::StructInit { name: n2, args, fields: f2 }
            && n2 == name && args@.len() == 0 && f2@.len() == fields@.len() && forall|i: int|
            #![trigger fields@[i]]
            0 <= i < fields@.len() ==> f2@[i].name == fields@[i].0 && f2@[i].span == span && value_expr(
                fields@[i].1,
                span,
                lambdas,
                f2@[i].value,
            ),
        ComptimeValue::Enum { name, variant, payload } => match payload {
            Some(p) => expr.kind matches ExprKind::Call { callee, args } && variant_callee(*callee, name, variant, span)
                && args@.len() == 1 && value_expr(*p, span, lambdas, args@[0]),
            None => variant_callee(expr, name, variant, span),
        },
        ComptimeValue::Closure { name, captures } => {
            let function = lookup_pair(lambdas, name@).unwrap();
            if captures@.len() == 0 {
                expr.kind matches ExprKind::Lambda(g) && same_function(function, g)
            } else {
                expr.kind matches ExprKind::Block(block) && block.span == span && block.statements@.len()
                    == captures@.len() + 1 && (forall|i: int|
                    #![trigger captures@[i]]
                    0 <= i < captures@.len() ==> capture_let(block.statements@[i], captures@[i], span, lambdas)) && {
                    let last = block.statements@[captures@.len() as int];
                    last.span == span && (last.kind matches StmtKind::Return { value: Some(l) } && l.span == span
                        && (l.kind matches ExprKind::Lambda(g) && same_function(function, g)))
                }
            }
        },
        ComptimeValue::Unsupported(_) => false,
    }
}

proof fn lemma_first_error_prefix(entries: Seq<(String, ComptimeValue)>, lambdas: Seq<(String, FunctionDecl)>, i: int)
    requires
        0 <= i < entries.len(),
        forall|j: int| 0 <= j < i ==> value_ok(#[trigger] entries[j].1, lambdas),
        !value_ok(entries[i].1, lambdas),
    ensures
        first_error(entries, lambdas) == value_error(entries[i].1, lambdas),
    decreases i,
{
    if i > 0 {
        assert(value_ok(entries[0].1, lambdas));
        assert forall|j: int| 0 <= j < i - 1 implies value_ok(#[trigger] entries.drop_first()[j].1, lambdas) by {
            assert(entries.drop_first()[j] == entries[j + 1]);
        }
        assert(entries.drop_first()[i - 1] == entries[i]);
        lemma_first_error_prefix(entries.drop_first(), lambdas, i - 1);
    }
}

impl ComptimeValue {
    /// Writes the value as source at `span` (see `value_expr`); where it
    /// cannot be written, the first reason, in order (see `value_error`).
    pub fn to_expr(&self, span: Span, lambdas: &Vec<(String, FunctionDecl)>) -> (expr: Result<Expr, String>)
        ensures
            expr is Ok <==> value_ok(*self, lambdas@),
            expr matches Ok(e) ==> value_expr(*self, span, lambdas@, e),
            expr matches Err(message) ==> message@ == value_error(*self, lambdas@),
        decreases self,
    {
        match self {
            ComptimeValue::Void => Ok(Expr { kind: ExprKind::Missing, span }),
            ComptimeValue::Bool(value) => Ok(Expr { kind: ExprKind::Bool(*value), span }),
            ComptimeValue::Number(value) => Ok(Expr { kind: ExprKind::Number(value.clone()), span }),
            ComptimeValue::String(value) => Ok(Expr { kind: ExprKind::String(value.clone()), span }),
            ComptimeValue::Char(value) => Ok(Expr { kind: ExprKind::Char(*value), span }),
            ComptimeValue::Struct { name, fields } => {
                let mut converted: Vec<StructInitField> = Vec::new();
                let mut i: usize = 0;
                while i < fields.len()
                    invariant
                        *self matches ComptimeValue::Struct { name: n0, fields: f0 } && n0 == *name && f0 == *fields,
                        i <= fields@.len(),
                        converted@.len() == i,
                        forall|j: int| 0 <= j < i ==> value_ok(#[trigger] fields@[j].1, lambdas@),
                        forall|j: int|
                            #![trigger fields@[j]]
                            0 <= j < i ==> converted@[j].name == fields@[j].0 && converted@[j].span == span && value_expr(
                                fields@[j].1,
                                span,
                                lambdas@,
                                converted@[j].value,
                            ),
                    decreases fields.len() - i,
                {
                    proof {
                        assert(self->Struct_fields == *fields);
                        assert(decreases_to!(*self => self->Struct_fields));
                        assert(decreases_to!(self->Struct_fields => self->Struct_fields@));
                        assert(decreases_to!(self->Struct_fields@ => self->Struct_fields@[i as int]));
                        assert(decreases_to!(self->Struct_fields@[i as int] => self->Struct_fields@[i as int].1));
                    }
                    match fields[i].1.to_expr(span, lambdas) {
                        Ok(value) => {
                            converted.push(StructInitField { name: fields[i].0.clone(), value, span });
                        },
                        Err(message) => {
                            proof {
                                lemma_first_error_prefix(fields@, lambdas@, i as int);
                                assert(!value_ok(fields@[i as int].1, lambdas@));
                                assert(self->Struct_fields == *fields);
                            }
                            return Err(message);
                        },
                    }
                    i = i + 1;
                }
                Ok(Expr { kind: ExprKind::StructInit { name: name.clone(), args: Vec::new(), fields: converted }, span })
            },
            ComptimeValue::Enum { name, variant, payload } => {
                let callee = Expr {
                    span,
                    kind: ExprKind::Member {
                        object: Box::new(Expr { span, kind: ExprKind::Identifier(name.clone()) }),
                        name: variant.clone(),
                    },
                };
                match payload {
                    Some(payload) => match payload.to_expr(span, lambdas) {
                        Ok(argument) => {
                            let mut args: Vec<Expr> = Vec::new();
                            args.push(argument);
                            Ok(Expr { span, kind: ExprKind::Call { callee: Box::new(callee), args } })
                        },
                        Err(message) => Err(message),
                    },
                    None => Ok(callee),
                }
            },
            ComptimeValue::Closure { name, captures } => {
                let function = match find_pair(lambdas, name.as_str()) {
                    Some(function) => function,
                    None => {
                        let message = String::from_str("comptime result cannot be materialized as Gust source");
                        proof {
                            reveal_strlit("comptime result cannot be materialized as Gust source");
                        }
                        return Err(message);
                    },
                };
                if captures.len() == 0 {
                    return Ok(Expr { kind: ExprKind::Lambda(copy_function(function)), span });
                }
                let mut statements: Vec<Stmt> = Vec::new();
                let mut i: usize = 0;
                while i < captures.len()
                    invariant
                        *self matches ComptimeValue::Closure { name: n0, captures: c0 } && n0 == *name && c0 == *captures,
                        lookup_pair(lambdas@, name@) == Some(*function),
                        i <= captures@.len(),
                        statements@.len() == i,
                        forall|j: int| 0 <= j < i ==> value_ok(#[trigger] captures@[j].1, lambdas@),
                        forall|j: int|
                            #![trigger captures@[j]]
                            0 <= j < i ==> capture_let(statements@[j], captures@[j], span, lambdas@),
                    decreases captures.len() - i,
                {
                    proof {
                        assert(self->Closure_captures == *captures);
                        assert(decreases_to!(*self => self->Closure_captures));
                        assert(decreases_to!(self->Closure_captures => self->Closure_captures@));
                        assert(decreases_to!(self->Closure_captures@ => self->Closure_captures@[i as int]));
                        assert(decreases_to!(self->Closure_captures@[i as int] => self->Closure_captures@[i as int].1));
                    }
                    match captures[i].1.to_expr(span, lambdas) {
                        Ok(value) => {
                            let ghost before = statements@;
                            let statement = Stmt {
                                span,
                                kind: StmtKind::Let {
                                    name: captures[i].0.clone(),
                                    mutable: true,
                                    type_annotation: None,
                                    value: Some(value),
                                },
                            };
                            statements.push(statement);
                            proof {
                                assert(statements@[i as int] == statement);
                                assert forall|j: int| 0 <= j < i implies statements@[j] == before[j] by {}
                                assert(capture_let(statement, captures@[i as int], span, lambdas@));
                                assert forall|j: int| #![trigger captures@[j]] 0 <= j < i + 1 implies capture_let(statements@[j], captures@[j], span, lambdas@) by {
                                    if j < i {
                                        assert(statements@[j] == before[j]);
                                    }
                                }
                            }
                        },
                        Err(message) => {
                            proof {
                                lemma_first_error_prefix(captures@, lambdas@, i as int);
                                assert(!value_ok(captures@[i as int].1, lambdas@));
                                assert(self->Closure_captures == *captures);
                            }
                            return Err(message);
                        },
                    }
                    i = i + 1;
                }
                let ghost lets = statements@;
                statements.push(
                    Stmt {
                        span,
                        kind: StmtKind::Return {
                            value: Some(Expr { kind: ExprKind::Lambda(copy_function(function)), span }),
                        },
                    },
                );
                assert forall|j: int| 0 <= j < captures@.len() implies statements@[j] == lets[j] by {}
                Ok(Expr { span, kind: ExprKind::Block(Block { statements, span }) })
            },
            ComptimeValue::Unsupported(message) => Err(message.clone()),
        }
    }
}

} // verus!
