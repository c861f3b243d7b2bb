use vstd::prelude::*;

use crate::ast::{number_literal_is_float, spec_number_is_float, BinaryOp, Expr, ExprKind, Stmt, StmtKind, TypeRef};
use crate::ast_copy::same_type;
use crate::monomorphize::defaults::plain_type;
use crate::monomorphize::substitute::{copy_type, lookup};
use crate::span::Span;

verus! {

/// Where the type of a comptime result comes from: a type named outright at
/// a span, or the declared type of a static.
pub enum RunnerType {
    Named(Seq<char>, Span),
    Declared(TypeRef),
}

pub open spec fn runner_type_name(t: RunnerType) -> Seq<char> {
    match t {
        RunnerType::Named(name, _) => name,
        RunnerType::Declared(d) => d.name@,
    }
}

pub open spec fn runner_type_plain(t: RunnerType) -> bool {
    match t {
        RunnerType::Named(..) => true,
        RunnerType::Declared(d) => d.args@.len() == 0,
    }
}

/// Whether `t` is the type that `source` describes.
pub open spec fn is_runner_type(t: TypeRef, source: RunnerType) -> bool {
    match source {
        RunnerType::Named(name, span) => plain_type(t, name, span),
        RunnerType::Declared(d) => same_type(d, t),
    }
}

/// Whether an operator always gives a `bool`.
pub open spec fn gives_bool(op: BinaryOp) -> bool {
    op == BinaryOp::LogicalAnd || op == BinaryOp::LogicalOr || op == BinaryOp::Equal || op == BinaryOp::NotEqual
        || op == BinaryOp::Less || op == BinaryOp::LessEqual || op == BinaryOp::Greater || op == BinaryOp::GreaterEqual
}

/// The type of a comptime result, as far as the expression shows it: a
/// static's declared type, a literal's type, `bool` for a comparison or a
/// logical operator, the common plain type of both sides of another operator,
/// and for a block the type of its first `return` whose value has one.
pub open spec fn runner_type(expr: Expr, statics: Seq<(String, TypeRef)>) -> Option<RunnerType>
    decreases expr, 0nat,
{
    match expr.kind {
        ExprKind::Identifier(name) => match lookup(statics, name@) {
            Some(t) => Some(RunnerType::Declared(t)),
            None => None,
        },
        ExprKind::Number(value) => Some(
            RunnerType::Named(
                if spec_number_is_float(value@) {
                    "f64"@
                } else {
                    "i32"@
                },
                expr.span,
            ),
        ),
        ExprKind::String(_) => Some(RunnerType::Named("string"@, expr.span)),
        ExprKind::Char(_) => Some(RunnerType::Named("char"@, expr.span)),
        ExprKind::Bool(_) => Some(RunnerType::Named("bool"@, expr.span)),
        ExprKind::Binary { left, op, right } => if gives_bool(op) {
            Some(RunnerType::Named("bool"@, expr.span))
        } else {
            match (runner_type(*left, statics), runner_type(*right, statics)) {
                (Some(l), Some(r)) => if runner_type_name(l) == runner_type_name(r) && runner_type_plain(l)
                    && runner_type_plain(r) {
                    Some(l)
                } else {
                    None
                },
                _ => None,
            }
        },
        ExprKind::Block(block) => first_return_type(block.statements@, statics),
        _ => None,
    }
}

pub open spec fn first_return_type(statements: Seq<Stmt>, statics: Seq<(String, TypeRef)>) -> Option<RunnerType>
    decreases statements, 1nat,
{
    if statements.len() == 0 {
        None
    } else {
        let rest = first_return_type(statements.drop_first(), statics);
        match statements[0].kind {
            StmtKind::Return { value: Some(v) } => match runner_type(v, statics) {
                Some(t) => Some(t),
                None => rest,
            },
            _ => rest,
        }
    }
}

fn named(name: &str, span: Span) -> (type_ref: TypeRef)
    ensures
        plain_type(type_ref, name@, span),
{
    TypeRef { name: String::from_str(name), args: Vec::new(), bindings: Vec::new(), function: None, span }
}

fn find_static<'a>(statics: &'a Vec<(String, TypeRef)>, name: &String) -> (found: Option<&'a TypeRef>)
    ensures
        found is Some <==> lookup(statics@, name@) is Some,
        found matches Some(t) ==> *t == lookup(statics@, name@).unwrap(),
{
    assert(statics@.skip(0) =~= statics@);
    let mut i: usize = 0;
    while i < statics.len()
        invariant
            i <= statics@.len(),
            lookup(statics@, name@) == lookup(statics@.skip(i as int), name@),
        decreases statics.len() - i,
    {
        assert(statics@.skip(i as int).drop_first() =~= statics@.skip(i + 1));
        if statics[i].0.eq(name) {
            return Some(&statics[i].1);
        }
        i = i + 1;
    }
    None
}

/// The type of a comptime result as far as the expression shows it (see
/// `runner_type`), given the declared types of the statics.
pub fn infer_runner_expr_type(expr: &Expr, static_types: &Vec<(String, TypeRef)>) -> (found: Option<TypeRef>)
    ensures
        match (found, runner_type(*expr, static_types@)) {
            (Some(t), Some(source)) => is_runner_type(t, source),
            (None, None) => true,
            _ => false,
        },
    decreases expr, 0nat,
{
    match &expr.kind {
        ExprKind::Identifier(name) => match find_static(static_types, name) {
            Some(t) => Some(copy_type(t, t.span)),
            None => None,
        },
        ExprKind::Number(value) => {
            if number_literal_is_float(value.as_str()) {
                proof {
                    reveal_strlit("f64");
                }
                Some(named("f64", expr.span))
            } else {
                proof {
                    reveal_strlit("i32");
                }
                Some(named("i32", expr.span))
            }
        },
        ExprKind::String(_) => Some(named("string", expr.span)),
        ExprKind::Char(_) => Some(named("char", expr.span)),
        ExprKind::Bool(_) => Some(named("bool", expr.span)),
        ExprKind::Binary { left, op, right } => {
            let comparison = match op {
                BinaryOp::LogicalAnd | BinaryOp::LogicalOr | BinaryOp::Equal | BinaryOp::NotEqual | BinaryOp::Less
                | BinaryOp::LessEqual | BinaryOp::Greater | BinaryOp::GreaterEqual => true,
                _ => false,
            };
            if comparison {
                return Some(named("bool", expr.span));
            }
            let left_type = match infer_runner_expr_type(left, static_types) {
                Some(t) => t,
                None => return None,
            };
            let right_type = match infer_runner_expr_type(right, static_types) {
                Some(t) => t,
                None => return None,
            };
            if left_type.name.eq(&right_type.name) && left_type.args.len() == 0 && right_type.args.len() == 0 {
                Some(left_type)
            } else {
                None
            }
        },
        ExprKind::Block(block) => {
            let statements = &block.statements;
            assert(statements@.skip(0) =~= statements@);
            let mut i: usize = 0;
            while i < statements.len()
                invariant
                    i <= statements@.len(),
                    *statements == block.statements,
                    *expr matches Expr { kind: ExprKind::Block(b), .. } && b == *block,
                    first_return_type(statements@, static_types@) == first_return_type(
                        statements@.skip(i as int),
                        static_types@,
                    ),
                decreases statements.len() - i,
            {
                assert(statements@.skip(i as int).drop_first() =~= statements@.skip(i + 1));
                assert(statements@.skip(i as int)[0] == statements@[i as int]);
                proof {
                    assert(decreases_to!(*expr => expr.kind->Block_0));
                    assert(decreases_to!(expr.kind->Block_0 => expr.kind->Block_0.statements));
                    assert(decreases_to!(expr.kind->Block_0.statements => expr.kind->Block_0.statements@));
                    assert(decreases_to!(expr.kind->Block_0.statements@ => expr.kind->Block_0.statements@[i as int]));
                    assert(decreases_to!(expr.kind->Block_0.statements@[i as int] => expr.kind->Block_0.statements@[i as int].kind));
                }
                if let StmtKind::Return { value: Some(value) } = &statements[i].kind {
                    proof {
                        assert(decreases_to!(expr.kind->Block_0.statements@[i as int].kind => *value));
                    }
                    if let Some(t) = infer_runner_expr_type(value, static_types) {
                        return Some(t);
                    }
                }
                i = i + 1;
            }
            None
        },
        _ => None,
    }
}

} // verus!
