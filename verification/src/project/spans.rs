use vstd::prelude::*;

use crate::ast::{
    Block, ElseBranch, EnumVariant, Expr, ExprKind, FunctionBody, FunctionDecl, ImplMember,
    ImportDecl, Item, MatchBranch, MatchBranchBody, Param, Pattern, Program, Stmt, StmtKind,
    StructInitField, StructMember, TraitMethodDecl, TypeRef,
};
use crate::diagnostic::Diagnostic;
use crate::span::Span;

verus! {

/// `after` is `before` moved `offset` bytes later.
pub open spec fn span_shifted(before: Span, after: Span, offset: usize) -> bool {
    after.start == before.start + offset && after.end == before.end + offset
}

/// Moving `span` by `offset` does not overflow.
pub open spec fn span_fits(span: Span, offset: usize) -> bool {
    span.start + offset <= usize::MAX && span.end + offset <= usize::MAX
}

/// `after` is `before` with its span, its argument types (or, for a function
/// type, its parameter and return types) moved by `offset`; bindings stay.
pub open spec fn type_shifted(before: TypeRef, after: TypeRef, offset: usize) -> bool
    decreases before,
{
    &&& span_shifted(before.span, after.span, offset)
    &&& after.name == before.name
    &&& after.bindings == before.bindings
    &&& match (before.function, after.function) {
        (Some(f), Some(g)) => {
            &&& f.params@.len() == g.params@.len()
            &&& (forall|i: int|
                #![trigger f.params@[i]]
                0 <= i < f.params@.len() ==> g.params@[i].mutable == f.params@[i].mutable
                    && type_shifted(f.params@[i].type_ref, g.params@[i].type_ref, offset))
            &&& type_shifted(*f.return_type, *g.return_type, offset)
            &&& after.args == before.args
        },
        (None, None) => {
            &&& before.args@.len() == after.args@.len()
            &&& forall|i: int|
                #![trigger before.args@[i]]
                0 <= i < before.args@.len() ==> type_shifted(before.args@[i], after.args@[i], offset)
        },
        _ => false,
    }
}

/// Every span that shifting a type touches can be moved by `offset`.
pub open spec fn type_fits(type_ref: TypeRef, offset: usize) -> bool
    decreases type_ref,
{
    &&& span_fits(type_ref.span, offset)
    &&& match type_ref.function {
        Some(f) => {
            &&& (forall|i: int|
                #![trigger f.params@[i]]
                0 <= i < f.params@.len() ==> type_fits(f.params@[i].type_ref, offset))
            &&& type_fits(*f.return_type, offset)
        },
        None => forall|i: int|
            #![trigger type_ref.args@[i]]
            0 <= i < type_ref.args@.len() ==> type_fits(type_ref.args@[i], offset),
    }
}

/// An optional type, shifted where it is present.
pub open spec fn opt_type_shifted(before: Option<TypeRef>, after: Option<TypeRef>, offset: usize) -> bool {
    match before {
        Some(t) => after matches Some(u) && type_shifted(t, u, offset),
        None => after is None,
    }
}

pub open spec fn opt_type_fits(type_ref: Option<TypeRef>, offset: usize) -> bool {
    match type_ref {
        Some(t) => type_fits(t, offset),
        None => true,
    }
}

/// Each type of `after` is the type at the same place in `before`, shifted.
pub open spec fn types_shifted(before: Seq<TypeRef>, after: Seq<TypeRef>, offset: usize) -> bool {
    &&& before.len() == after.len()
    &&& forall|i: int| 0 <= i < before.len() ==> #[trigger] type_shifted(before[i], after[i], offset)
}

pub open spec fn types_fit(types: Seq<TypeRef>, offset: usize) -> bool {
    forall|i: int| 0 <= i < types.len() ==> #[trigger] type_fits(types[i], offset)
}

/// A parameter keeps its name and mutability; its span and type move.
pub open spec fn param_shifted(before: Param, after: Param, offset: usize) -> bool {
    &&& after.name == before.name
    &&& after.mutable == before.mutable
    &&& span_shifted(before.span, after.span, offset)
    &&& opt_type_shifted(before.type_ref, after.type_ref, offset)
}

pub open spec fn param_fits(param: Param, offset: usize) -> bool {
    span_fits(param.span, offset) && opt_type_fits(param.type_ref, offset)
}

pub open spec fn params_shifted(before: Seq<Param>, after: Seq<Param>, offset: usize) -> bool {
    &&& before.len() == after.len()
    &&& forall|i: int| 0 <= i < before.len() ==> #[trigger] param_shifted(before[i], after[i], offset)
}

pub open spec fn params_fit(params: Seq<Param>, offset: usize) -> bool {
    forall|i: int| 0 <= i < params.len() ==> #[trigger] param_fits(params[i], offset)
}

/// `pattern` with its span replaced by `span`.
pub open spec fn pattern_with_span(pattern: Pattern, span: Span) -> Pattern {
    match pattern {
        Pattern::Variant { enum_name, variant, binding, binding_mutable, .. } => Pattern::Variant {
            enum_name,
            variant,
            binding,
            binding_mutable,
            span,
        },
        Pattern::String { value, .. } => Pattern::String { value, span },
        Pattern::Number { value, .. } => Pattern::Number { value, span },
        Pattern::Range { start, end, inclusive, .. } => Pattern::Range { start, end, inclusive, span },
        Pattern::Wildcard { .. } => Pattern::Wildcard { span },
    }
}

/// A pattern keeps everything but its span, which moves.
pub open spec fn pattern_shifted(before: Pattern, after: Pattern, offset: usize) -> bool {
    &&& span_shifted(before.spec_span(), after.spec_span(), offset)
    &&& after == pattern_with_span(before, after.spec_span())
}

/// `after` is `before` with every span that shifting visits moved by
/// `offset`: the expression's own span and, recursively, those of its
/// subexpressions, types, blocks, lambdas, match branches and patterns.
/// Names, operators, literals and match guards stay as they were.
pub open spec fn expr_shifted(before: Expr, after: Expr, offset: usize) -> bool
    decreases before, 0nat,
{
    &&& span_shifted(before.span, after.span, offset)
    &&& match before.kind {
        ExprKind::Array(items) => after.kind matches ExprKind::Array(items2)
            && exprs_shifted(items@, items2@, offset),
        ExprKind::CollectionLiteral { collection, items } => after.kind matches ExprKind::CollectionLiteral {
            collection: collection2,
            items: items2,
        } && type_shifted(collection, collection2, offset) && exprs_shifted(items@, items2@, offset),
        ExprKind::Call { callee, args } => after.kind matches ExprKind::Call { callee: callee2, args: args2 }
            && expr_shifted(*callee, *callee2, offset) && exprs_shifted(args@, args2@, offset),
        ExprKind::Member { object, name } => after.kind matches ExprKind::Member { object: object2, name: name2 }
            && name2 == name && expr_shifted(*object, *object2, offset),
        ExprKind::GenericMember { object, name, args } => after.kind matches ExprKind::GenericMember {
            object: object2,
            name: name2,
            args: args2,
        } && name2 == name && expr_shifted(*object, *object2, offset) && types_shifted(args@, args2@, offset),
        ExprKind::GenericType { name, args } => after.kind matches ExprKind::GenericType { name: name2, args: args2 }
            && name2 == name && types_shifted(args@, args2@, offset),
        ExprKind::StructInit { name, args, fields } => after.kind matches ExprKind::StructInit {
            name: name2,
            args: args2,
            fields: fields2,
        } && name2 == name && types_shifted(args@, args2@, offset) && fields2@.len() == fields@.len()
            && forall|i: int|
            #![trigger fields@[i]]
            0 <= i < fields@.len() ==> field_shifted(fields@[i], fields2@[i], offset),
        ExprKind::Range { start, end, inclusive } => after.kind matches ExprKind::Range {
            start: start2,
            end: end2,
            inclusive: inclusive2,
        } && inclusive2 == inclusive && expr_shifted(*start, *start2, offset) && expr_shifted(*end, *end2, offset),
        ExprKind::Binary { left, op, right } => after.kind matches ExprKind::Binary {
            left: left2,
            op: op2,
            right: right2,
        } && op2 == op && expr_shifted(*left, *left2, offset) && expr_shifted(*right, *right2, offset),
        ExprKind::Unary { op, operand } => after.kind matches ExprKind::Unary { op: op2, operand: operand2 }
            && op2 == op && expr_shifted(*operand, *operand2, offset),
        ExprKind::PostfixIncrement(operand) => after.kind matches ExprKind::PostfixIncrement(operand2)
            && expr_shifted(*operand, *operand2, offset),
        ExprKind::Match { value, branches } => after.kind matches ExprKind::Match { value: value2, branches: branches2 }
            && expr_shifted(*value, *value2, offset) && branches2@.len() == branches@.len()
            && forall|i: int|
            #![trigger branches@[i]]
            0 <= i < branches@.len() ==> branch_shifted(branches@[i], branches2@[i], offset),
        ExprKind::Lambda(function) => after.kind matches ExprKind::Lambda(function2)
            && function_shifted(function, function2, offset),
        ExprKind::Block(block) => after.kind matches ExprKind::Block(block2)
            && block_shifted(block, block2, offset),
        ExprKind::Comptime(inner) => after.kind matches ExprKind::Comptime(inner2)
            && expr_shifted(*inner, *inner2, offset),
        _ => after.kind == before.kind,
    }
}

pub open spec fn exprs_shifted(before: Seq<Expr>, after: Seq<Expr>, offset: usize) -> bool
    decreases before, 1nat,
{
    &&& after.len() == before.len()
    &&& forall|i: int| #![trigger before[i]] 0 <= i < before.len() ==> expr_shifted(before[i], after[i], offset)
}

pub open spec fn field_shifted(before: StructInitField, after: StructInitField, offset: usize) -> bool
    decreases before, 0nat,
{
    &&& after.name == before.name
    &&& span_shifted(before.span, after.span, offset)
    &&& expr_shifted(before.value, after.value, offset)
}

/// A match branch moves its span, pattern and body; its guard stays.
pub open spec fn branch_shifted(before: MatchBranch, after: MatchBranch, offset: usize) -> bool
    decreases before, 0nat,
{
    &&& span_shifted(before.span, after.span, offset)
    &&& pattern_shifted(before.pattern, after.pattern, offset)
    &&& after.guard == before.guard
    &&& match before.body {
        MatchBranchBody::Expr(e) => after.body matches MatchBranchBody::Expr(e2) && expr_shifted(*e, *e2, offset),
        MatchBranchBody::Block(b) => after.body matches MatchBranchBody::Block(b2) && block_shifted(b, b2, offset),
    }
}

/// A function moves its span, parameters, return type and body; its name,
/// type parameters and their bounds stay.
pub open spec fn function_shifted(before: FunctionDecl, after: FunctionDecl, offset: usize) -> bool
    decreases before, 0nat,
{
    &&& after.name == before.name
    &&& after.exported == before.exported
    &&& after.type_params == before.type_params
    &&& after.type_param_bounds == before.type_param_bounds
    &&& span_shifted(before.span, after.span, offset)
    &&& params_shifted(before.params@, after.params@, offset)
    &&& opt_type_shifted(before.return_type, after.return_type, offset)
    &&& match before.body {
        FunctionBody::Block(b) => after.body matches FunctionBody::Block(b2) && block_shifted(b, b2, offset),
        FunctionBody::Expr(e) => after.body matches FunctionBody::Expr(e2) && expr_shifted(*e, *e2, offset),
    }
}

pub open spec fn block_shifted(before: Block, after: Block, offset: usize) -> bool
    decreases before, 0nat,
{
    &&& span_shifted(before.span, after.span, offset)
    &&& after.statements@.len() == before.statements@.len()
    &&& forall|i: int|
        #![trigger before.statements@[i]]
        0 <= i < before.statements@.len() ==> stmt_shifted(before.statements@[i], after.statements@[i], offset)
}

pub open spec fn stmt_shifted(before: Stmt, after: Stmt, offset: usize) -> bool
    decreases before, 0nat,
{
    &&& span_shifted(before.span, after.span, offset)
    &&& match before.kind {
        StmtKind::Let { name, mutable, type_annotation, value } => after.kind matches StmtKind::Let {
            name: name2,
            mutable: mutable2,
            type_annotation: type_annotation2,
            value: value2,
        } && name2 == name && mutable2 == mutable && opt_type_shifted(type_annotation, type_annotation2, offset)
            && (match value {
            Some(v) => value2 matches Some(v2) && expr_shifted(v, v2, offset),
            None => value2 is None,
        }),
        StmtKind::Assign { target, op, value } => after.kind matches StmtKind::Assign {
            target: target2,
            op: op2,
            value: value2,
        } && op2 == op && expr_shifted(target, target2, offset) && expr_shifted(value, value2, offset),
        StmtKind::Return { value } => after.kind matches StmtKind::Return { value: value2 } && (match value {
            Some(v) => value2 matches Some(v2) && expr_shifted(v, v2, offset),
            None => value2 is None,
        }),
        StmtKind::If { condition, then_branch, else_branch } => after.kind matches StmtKind::If {
            condition: condition2,
            then_branch: then_branch2,
            else_branch: else_branch2,
        } && expr_shifted(condition, condition2, offset) && block_shifted(then_branch, then_branch2, offset)
            && (match else_branch {
            Some(ElseBranch::Block(b)) => else_branch2 matches Some(ElseBranch::Block(b2))
                && block_shifted(b, b2, offset),
            Some(ElseBranch::If(s)) => else_branch2 matches Some(ElseBranch::If(s2))
                && stmt_shifted(*s, *s2, offset),
            None => else_branch2 is None,
        }),
        StmtKind::While { condition, body } => after.kind matches StmtKind::While {
            condition: condition2,
            body: body2,
        } && expr_shifted(condition, condition2, offset) && block_shifted(body, body2, offset),
        StmtKind::For { name, iterable, body } => after.kind matches StmtKind::For {
            name: name2,
            iterable: iterable2,
            body: body2,
        } && name2 == name && expr_shifted(iterable, iterable2, offset) && block_shifted(body, body2, offset),
        StmtKind::Expr(e) => after.kind matches StmtKind::Expr(e2) && expr_shifted(e, e2, offset),
        _ => after.kind == before.kind,
    }
}

/// Every span that shifting an expression visits can be moved by `offset`.
pub open spec fn expr_fits(expr: Expr, offset: usize) -> bool
    decreases expr, 0nat,
{
    &&& span_fits(expr.span, offset)
    &&& match expr.kind {
        ExprKind::Array(items) => exprs_fit(items@, offset),
        ExprKind::CollectionLiteral { collection, items } => type_fits(collection, offset) && exprs_fit(items@, offset),
        ExprKind::Call { callee, args } => expr_fits(*callee, offset) && exprs_fit(args@, offset),
        ExprKind::Member { object, .. } => expr_fits(*object, offset),
        ExprKind::GenericMember { object, args, .. } => expr_fits(*object, offset) && types_fit(args@, offset),
        ExprKind::GenericType { args, .. } => types_fit(args@, offset),
        ExprKind::StructInit { args, fields, .. } => types_fit(args@, offset) && forall|i: int|
            #![trigger fields@[i]]
            0 <= i < fields@.len() ==> field_fits(fields@[i], offset),
        ExprKind::Range { start, end, .. } => expr_fits(*start, offset) && expr_fits(*end, offset),
        ExprKind::Binary { left, right, .. } => expr_fits(*left, offset) && expr_fits(*right, offset),
        ExprKind::Unary { operand, .. } => expr_fits(*operand, offset),
        ExprKind::PostfixIncrement(operand) => expr_fits(*operand, offset),
        ExprKind::Match { value, branches } => expr_fits(*value, offset) && forall|i: int|
            #![trigger branches@[i]]
            0 <= i < branches@.len() ==> branch_fits(branches@[i], offset),
        ExprKind::Lambda(function) => function_fits(function, offset),
        ExprKind::Block(block) => block_fits(block, offset),
        ExprKind::Comptime(inner) => expr_fits(*inner, offset),
        _ => true,
    }
}

pub open spec fn exprs_fit(items: Seq<Expr>, offset: usize) -> bool
    decreases items, 1nat,
{
    forall|i: int| #![trigger items[i]] 0 <= i < items.len() ==> expr_fits(items[i], offset)
}

pub open spec fn field_fits(field: StructInitField, offset: usize) -> bool
    decreases field, 0nat,
{
    span_fits(field.span, offset) && expr_fits(field.value, offset)
}

pub open spec fn branch_fits(branch: MatchBranch, offset: usize) -> bool
    decreases branch, 0nat,
{
    &&& span_fits(branch.span, offset)
    &&& span_fits(branch.pattern.spec_span(), offset)
    &&& match branch.body {
        MatchBranchBody::Expr(e) => expr_fits(*e, offset),
        MatchBranchBody::Block(b) => block_fits(b, offset),
    }
}

pub open spec fn function_fits(function: FunctionDecl, offset: usize) -> bool
    decreases function, 0nat,
{
    &&& span_fits(function.span, offset)
    &&& params_fit(function.params@, offset)
    &&& opt_type_fits(function.return_type, offset)
    &&& match function.body {
        FunctionBody::Block(b) => block_fits(b, offset),
        FunctionBody::Expr(e) => expr_fits(*e, offset),
    }
}

pub open spec fn block_fits(block: Block, offset: usize) -> bool
    decreases block, 0nat,
{
    &&& span_fits(block.span, offset)
    &&& forall|i: int|
        #![trigger block.statements@[i]]
        0 <= i < block.statements@.len() ==> stmt_fits(block.statements@[i], offset)
}

pub open spec fn stmt_fits(statement: Stmt, offset: usize) -> bool
    decreases statement, 0nat,
{
    &&& span_fits(statement.span, offset)
    &&& match statement.kind {
        StmtKind::Let { type_annotation, value, .. } => opt_type_fits(type_annotation, offset) && (match value {
            Some(v) => expr_fits(v, offset),
            None => true,
        }),
        StmtKind::Assign { target, value, .. } => expr_fits(target, offset) && expr_fits(value, offset),
        StmtKind::Return { value } => match value {
            Some(v) => expr_fits(v, offset),
            None => true,
        },
        StmtKind::If { condition, then_branch, else_branch } => expr_fits(condition, offset)
            && block_fits(then_branch, offset) && (match else_branch {
            Some(ElseBranch::Block(b)) => block_fits(b, offset),
            Some(ElseBranch::If(s)) => stmt_fits(*s, offset),
            None => true,
        }),
        StmtKind::While { condition, body } => expr_fits(condition, offset) && block_fits(body, offset),
        StmtKind::For { iterable, body, .. } => expr_fits(iterable, offset) && block_fits(body, offset),
        StmtKind::Expr(e) => expr_fits(e, offset),
        _ => true,
    }
}

/// A struct or enum member moves: a field its span and type, a method as a function.
pub open spec fn member_shifted(before: StructMember, after: StructMember, offset: usize) -> bool {
    match before {
        StructMember::Field(f) => after matches StructMember::Field(g) && g.name == f.name
            && g.internal == f.internal && span_shifted(f.span, g.span, offset)
            && type_shifted(f.type_ref, g.type_ref, offset),
        StructMember::Method(f) => after matches StructMember::Method(g) && function_shifted(f, g, offset),
        StructMember::StaticMethod(f) => after matches StructMember::StaticMethod(g)
            && function_shifted(f, g, offset),
    }
}

pub open spec fn member_fits(member: StructMember, offset: usize) -> bool {
    match member {
        StructMember::Field(f) => span_fits(f.span, offset) && type_fits(f.type_ref, offset),
        StructMember::Method(f) => function_fits(f, offset),
        StructMember::StaticMethod(f) => function_fits(f, offset),
    }
}

pub open spec fn members_shifted(before: Seq<StructMember>, after: Seq<StructMember>, offset: usize) -> bool {
    &&& before.len() == after.len()
    &&& forall|i: int| 0 <= i < before.len() ==> #[trigger] member_shifted(before[i], after[i], offset)
}

pub open spec fn members_fit(members: Seq<StructMember>, offset: usize) -> bool {
    forall|i: int| 0 <= i < members.len() ==> #[trigger] member_fits(members[i], offset)
}

pub open spec fn variant_shifted(before: EnumVariant, after: EnumVariant, offset: usize) -> bool {
    &&& after.name == before.name
    &&& span_shifted(before.span, after.span, offset)
    &&& opt_type_shifted(before.payload, after.payload, offset)
}

pub open spec fn variant_fits(variant: EnumVariant, offset: usize) -> bool {
    span_fits(variant.span, offset) && opt_type_fits(variant.payload, offset)
}

/// A trait method moves its span, parameters and return type; a default body stays.
pub open spec fn trait_method_shifted(before: TraitMethodDecl, after: TraitMethodDecl, offset: usize) -> bool {
    &&& after.name == before.name
    &&& after.static_ == before.static_
    &&& after.type_params == before.type_params
    &&& after.type_param_bounds == before.type_param_bounds
    &&& after.body == before.body
    &&& span_shifted(before.span, after.span, offset)
    &&& params_shifted(before.params@, after.params@, offset)
    &&& opt_type_shifted(before.return_type, after.return_type, offset)
}

pub open spec fn trait_method_fits(method: TraitMethodDecl, offset: usize) -> bool {
    &&& span_fits(method.span, offset)
    &&& params_fit(method.params@, offset)
    &&& opt_type_fits(method.return_type, offset)
}

pub open spec fn impl_member_shifted(before: ImplMember, after: ImplMember, offset: usize) -> bool {
    &&& after.static_ == before.static_
    &&& span_shifted(before.span, after.span, offset)
    &&& function_shifted(before.function, after.function, offset)
}

pub open spec fn impl_member_fits(member: ImplMember, offset: usize) -> bool {
    span_fits(member.span, offset) && function_fits(member.function, offset)
}

/// An import moves its own span and those of its names and namespace.
pub open spec fn import_shifted(before: ImportDecl, after: ImportDecl, offset: usize) -> bool {
    &&& after.path == before.path
    &&& span_shifted(before.span, after.span, offset)
    &&& after.names@.len() == before.names@.len()
    &&& forall|i: int|
        #![trigger before.names@[i]]
        0 <= i < before.names@.len() ==> {
            &&& after.names@[i].name == before.names@[i].name
            &&& after.names@[i].alias == before.names@[i].alias
            &&& span_shifted(before.names@[i].span, after.names@[i].span, offset)
        }
    &&& match before.namespace {
        Some(n) => after.namespace matches Some(m) && m.name == n.name && span_shifted(n.span, m.span, offset),
        None => after.namespace is None,
    }
}

pub open spec fn import_fits(import: ImportDecl, offset: usize) -> bool {
    &&& span_fits(import.span, offset)
    &&& forall|i: int|
        #![trigger import.names@[i]]
        0 <= i < import.names@.len() ==> span_fits(import.names@[i].span, offset)
    &&& match import.namespace {
        Some(n) => span_fits(n.span, offset),
        None => true,
    }
}

/// `after` is the item `before` with every span that shifting visits moved by `offset`.
pub open spec fn item_shifted(before: Item, after: Item, offset: usize) -> bool {
    match before {
        Item::Import(i) => after matches Item::Import(j) && import_shifted(i, j, offset),
        Item::Enum(e) => after matches Item::Enum(f) && {
            &&& f.name == e.name
            &&& f.exported == e.exported
            &&& f.type_params == e.type_params
            &&& f.type_param_bounds == e.type_param_bounds
            &&& span_shifted(e.span, f.span, offset)
            &&& f.variants@.len() == e.variants@.len()
            &&& (forall|i: int|
                0 <= i < e.variants@.len() ==> #[trigger] variant_shifted(e.variants@[i], f.variants@[i], offset))
            &&& members_shifted(e.members@, f.members@, offset)
        },
        Item::Struct(s) => after matches Item::Struct(t) && {
            &&& t.name == s.name
            &&& t.exported == s.exported
            &&& t.type_params == s.type_params
            &&& t.type_param_bounds == s.type_param_bounds
            &&& span_shifted(s.span, t.span, offset)
            &&& members_shifted(s.members@, t.members@, offset)
        },
        Item::Trait(t) => after matches Item::Trait(u) && {
            &&& u.name == t.name
            &&& u.exported == t.exported
            &&& u.type_params == t.type_params
            &&& u.type_param_bounds == t.type_param_bounds
            &&& u.associated_types == t.associated_types
            &&& span_shifted(t.span, u.span, offset)
            &&& u.methods@.len() == t.methods@.len()
            &&& forall|i: int|
                0 <= i < t.methods@.len() ==> #[trigger] trait_method_shifted(t.methods@[i], u.methods@[i], offset)
        },
        Item::Impl(i) => after matches Item::Impl(j) && {
            &&& j.type_params == i.type_params
            &&& j.type_param_bounds == i.type_param_bounds
            &&& j.associated_types == i.associated_types
            &&& span_shifted(i.span, j.span, offset)
            &&& type_shifted(i.trait_ref, j.trait_ref, offset)
            &&& type_shifted(i.type_ref, j.type_ref, offset)
            &&& j.methods@.len() == i.methods@.len()
            &&& forall|k: int|
                0 <= k < i.methods@.len() ==> #[trigger] impl_member_shifted(i.methods@[k], j.methods@[k], offset)
        },
        Item::Extension(x) => after matches Item::Extension(y) && {
            &&& y.exported == x.exported
            &&& y.type_params == x.type_params
            &&& y.type_param_bounds == x.type_param_bounds
            &&& y.static_ == x.static_
            &&& span_shifted(x.span, y.span, offset)
            &&& type_shifted(x.type_ref, y.type_ref, offset)
            &&& function_shifted(x.function, y.function, offset)
        },
        Item::Function(f) => after matches Item::Function(g) && function_shifted(f, g, offset),
    }
}

pub open spec fn item_fits(item: Item, offset: usize) -> bool {
    match item {
        Item::Import(i) => import_fits(i, offset),
        Item::Enum(e) => {
            &&& span_fits(e.span, offset)
            &&& (forall|i: int| 0 <= i < e.variants@.len() ==> #[trigger] variant_fits(e.variants@[i], offset))
            &&& members_fit(e.members@, offset)
        },
        Item::Struct(s) => span_fits(s.span, offset) && members_fit(s.members@, offset),
        Item::Trait(t) => {
            &&& span_fits(t.span, offset)
            &&& forall|i: int| 0 <= i < t.methods@.len() ==> #[trigger] trait_method_fits(t.methods@[i], offset)
        },
        Item::Impl(i) => {
            &&& span_fits(i.span, offset)
            &&& type_fits(i.trait_ref, offset)
            &&& type_fits(i.type_ref, offset)
            &&& forall|k: int| 0 <= k < i.methods@.len() ==> #[trigger] impl_member_fits(i.methods@[k], offset)
        },
        Item::Extension(x) => {
            &&& span_fits(x.span, offset)
            &&& type_fits(x.type_ref, offset)
            &&& function_fits(x.function, offset)
        },
        Item::Function(f) => function_fits(f, offset),
    }
}

/// `after` is the program `before` with every item shifted by `offset`.
pub open spec fn program_shifted(before: Program, after: Program, offset: usize) -> bool {
    &&& after.items@.len() == before.items@.len()
    &&& forall|i: int|
        0 <= i < before.items@.len() ==> #[trigger] item_shifted(before.items@[i], after.items@[i], offset)
}

/// Every span that shifting a program visits can be moved by `offset`.
pub open spec fn program_fits(program: Program, offset: usize) -> bool {
    forall|i: int| 0 <= i < program.items@.len() ==> #[trigger] item_fits(program.items@[i], offset)
}

pub fn shift_span(span: &mut Span, offset: usize)
    requires
        span_fits(*old(span), offset),
    ensures
        span_shifted(*old(span), *final(span), offset),
{
    span.start = span.start + offset;
    span.end = span.end + offset;
}

pub fn shift_type(type_ref: &mut TypeRef, offset: usize)
    requires
        type_fits(*old(type_ref), offset),
    ensures
        type_shifted(*old(type_ref), *final(type_ref), offset),
    decreases *old(type_ref),
{
    let ghost before = *type_ref;
    shift_span(&mut type_ref.span, offset);
    if let Some(function) = &mut type_ref.function {
        let ghost f0 = before.function.unwrap();
        let mut i: usize = 0;
        while i < function.params.len()
            invariant
                before.function == Some(f0),
                before == *old(type_ref),
                type_fits(before, offset),
                i <= function.params@.len(),
                function.params@.len() == f0.params@.len(),
                forall|j: int|
                    #![trigger function.params@[j]]
                    0 <= j < i ==> function.params@[j].mutable == f0.params@[j].mutable
                        && type_shifted(f0.params@[j].type_ref, function.params@[j].type_ref, offset),
                forall|j: int|
                    #![trigger function.params@[j]]
                    i <= j < function.params@.len() ==> function.params@[j] == f0.params@[j],
                function.return_type == f0.return_type,
            decreases function.params.len() - i,
        {
            assert(function.params@[i as int] == f0.params@[i as int]);
            shift_type(&mut function.params[i].type_ref, offset);
            i = i + 1;
        }
        shift_type(&mut function.return_type, offset);
        return;
    }
    let mut i: usize = 0;
    while i < type_ref.args.len()
        invariant
            type_fits(before, offset),
            before == *old(type_ref),
            before.function is None,
            i <= type_ref.args@.len(),
            type_ref.args@.len() == before.args@.len(),
            forall|j: int|
                #![trigger type_ref.args@[j]]
                0 <= j < i ==> type_shifted(before.args@[j], type_ref.args@[j], offset),
            forall|j: int|
                #![trigger type_ref.args@[j]]
                i <= j < type_ref.args@.len() ==> type_ref.args@[j] == before.args@[j],
            type_ref.function is None,
            type_ref.name == before.name,
            type_ref.bindings == before.bindings,
            span_shifted(before.span, type_ref.span, offset),
        decreases type_ref.args.len() - i,
    {
        assert(type_ref.args@[i as int] == before.args@[i as int]);
        shift_type(&mut type_ref.args[i], offset);
        i = i + 1;
    }
}

/// Moves a pattern's span by `offset`.
pub fn shift_pattern(pattern: &mut Pattern, offset: usize)
    requires
        span_fits(old(pattern).spec_span(), offset),
    ensures
        pattern_shifted(*old(pattern), *final(pattern), offset),
{
    match pattern {
        Pattern::Variant { span, .. } => shift_span(span, offset),
        Pattern::String { span, .. } => shift_span(span, offset),
        Pattern::Number { span, .. } => shift_span(span, offset),
        Pattern::Range { span, .. } => shift_span(span, offset),
        Pattern::Wildcard { span } => shift_span(span, offset),
    }
}

/// Moves a parameter's span and type by `offset`.
pub fn shift_param(param: &mut Param, offset: usize)
    requires
        param_fits(*old(param), offset),
    ensures
        param_shifted(*old(param), *final(param), offset),
{
    shift_span(&mut param.span, offset);
    if let Some(type_ref) = &mut param.type_ref {
        shift_type(type_ref, offset);
    }
}

fn shift_params(params: &mut Vec<Param>, offset: usize)
    requires
        params_fit(old(params)@, offset),
    ensures
        params_shifted(old(params)@, final(params)@, offset),
{
    let ghost before = params@;
    let mut i: usize = 0;
    while i < params.len()
        invariant
            before == old(params)@,
            params_fit(before, offset),
            params@.len() == before.len(),
            i <= params@.len(),
            forall|j: int| 0 <= j < i ==> #[trigger] param_shifted(before[j], params@[j], offset),
            forall|j: int| i <= j < params@.len() ==> #[trigger] params@[j] == before[j],
        decreases params.len() - i,
    {
        assert(params@[i as int] == before[i as int]);
        assert(param_fits(before[i as int], offset));
        shift_param(&mut params[i], offset);
        i = i + 1;
    }
}

fn shift_types(types: &mut Vec<TypeRef>, offset: usize)
    requires
        types_fit(old(types)@, offset),
    ensures
        types_shifted(old(types)@, final(types)@, offset),
{
    let ghost before = types@;
    let mut i: usize = 0;
    while i < types.len()
        invariant
            before == old(types)@,
            types_fit(before, offset),
            types@.len() == before.len(),
            i <= types@.len(),
            forall|j: int| 0 <= j < i ==> #[trigger] type_shifted(before[j], types@[j], offset),
            forall|j: int| i <= j < types@.len() ==> #[trigger] types@[j] == before[j],
        decreases types.len() - i,
    {
        assert(types@[i as int] == before[i as int]);
        assert(type_fits(before[i as int], offset));
        shift_type(&mut types[i], offset);
        i = i + 1;
    }
}

fn shift_exprs(items: &mut Vec<Expr>, offset: usize)
    requires
        exprs_fit(old(items)@, offset),
    ensures
        exprs_shifted(old(items)@, final(items)@, offset),
    decreases *old(items), 1nat,
{
    let ghost before = items@;
    let mut i: usize = 0;
    while i < items.len()
        invariant
            before == old(items)@,
            exprs_fit(before, offset),
            items@.len() == before.len(),
            i <= items@.len(),
            forall|j: int| #![trigger before[j]] 0 <= j < i ==> expr_shifted(before[j], items@[j], offset),
            forall|j: int| #![trigger items@[j]] i <= j < items@.len() ==> items@[j] == before[j],
        decreases items.len() - i,
    {
        assert(items@[i as int] == before[i as int]);
        assert(expr_fits(before[i as int], offset));
        shift_expr(&mut items[i], offset);
        i = i + 1;
    }
}

/// Moves every span of an expression by `offset` (see `expr_shifted`).
pub fn shift_expr(expr: &mut Expr, offset: usize)
    requires
        expr_fits(*old(expr), offset),
    ensures
        expr_shifted(*old(expr), *final(expr), offset),
    decreases *old(expr), 0nat,
{
    match &mut expr.kind {
        ExprKind::Array(items) => shift_exprs(items, offset),
        ExprKind::CollectionLiteral { collection, items } => {
            shift_type(collection, offset);
            shift_exprs(items, offset);
        },
        ExprKind::Call { callee, args } => {
            shift_expr(callee, offset);
            shift_exprs(args, offset);
        },
        ExprKind::Member { object, .. } => shift_expr(object, offset),
        ExprKind::GenericMember { object, args, .. } => {
            shift_expr(object, offset);
            shift_types(args, offset);
        },
        ExprKind::GenericType { args, .. } => shift_types(args, offset),
        ExprKind::StructInit { args, fields, .. } => {
            shift_types(args, offset);
            shift_fields(fields, offset);
        },
        ExprKind::Range { start, end, .. } => {
            shift_expr(start, offset);
            shift_expr(end, offset);
        },
        ExprKind::Binary { left, right, .. } => {
            shift_expr(left, offset);
            shift_expr(right, offset);
        },
        ExprKind::Unary { operand, .. } => shift_expr(operand, offset),
        ExprKind::PostfixIncrement(operand) => shift_expr(operand, offset),
        ExprKind::Match { value, branches } => {
            shift_expr(value, offset);
            shift_branches(branches, offset);
        },
        ExprKind::Lambda(function) => shift_function(function, offset),
        ExprKind::Block(block) => shift_block(block, offset),
        ExprKind::Comptime(inner) => shift_expr(inner, offset),
        _ => {},
    }
    shift_span(&mut expr.span, offset);
}

fn shift_fields(fields: &mut Vec<StructInitField>, offset: usize)
    requires
        forall|j: int| #![trigger old(fields)@[j]] 0 <= j < old(fields)@.len() ==> field_fits(old(fields)@[j], offset),
    ensures
        final(fields)@.len() == old(fields)@.len(),
        forall|j: int|
            #![trigger old(fields)@[j]]
            0 <= j < old(fields)@.len() ==> field_shifted(old(fields)@[j], final(fields)@[j], offset),
    decreases *old(fields), 1nat,
{
    let ghost before = fields@;
    let mut i: usize = 0;
    while i < fields.len()
        invariant
            before == old(fields)@,
            forall|j: int| #![trigger before[j]] 0 <= j < before.len() ==> field_fits(before[j], offset),
            fields@.len() == before.len(),
            i <= fields@.len(),
            forall|j: int| #![trigger before[j]] 0 <= j < i ==> field_shifted(before[j], fields@[j], offset),
            forall|j: int| #![trigger fields@[j]] i <= j < fields@.len() ==> fields@[j] == before[j],
        decreases fields.len() - i,
    {
        assert(fields@[i as int] == before[i as int]);
        assert(field_fits(before[i as int], offset));
        shift_span(&mut fields[i].span, offset);
        shift_expr(&mut fields[i].value, offset);
        i = i + 1;
    }
}

fn shift_branches(branches: &mut Vec<MatchBranch>, offset: usize)
    requires
        forall|j: int| #![trigger old(branches)@[j]] 0 <= j < old(branches)@.len() ==> branch_fits(old(branches)@[j], offset),
    ensures
        final(branches)@.len() == old(branches)@.len(),
        forall|j: int|
            #![trigger old(branches)@[j]]
            0 <= j < old(branches)@.len() ==> branch_shifted(old(branches)@[j], final(branches)@[j], offset),
    decreases *old(branches), 1nat,
{
    let ghost before = branches@;
    let mut i: usize = 0;
    while i < branches.len()
        invariant
            before == old(branches)@,
            forall|j: int| #![trigger before[j]] 0 <= j < before.len() ==> branch_fits(before[j], offset),
            branches@.len() == before.len(),
            i <= branches@.len(),
            forall|j: int| #![trigger before[j]] 0 <= j < i ==> branch_shifted(before[j], branches@[j], offset),
            forall|j: int| #![trigger branches@[j]] i <= j < branches@.len() ==> branches@[j] == before[j],
        decreases branches.len() - i,
    {
        assert(branches@[i as int] == before[i as int]);
        assert(branch_fits(before[i as int], offset));
        shift_branch(&mut branches[i], offset);
        i = i + 1;
    }
}

fn shift_branch(branch: &mut MatchBranch, offset: usize)
    requires
        branch_fits(*old(branch), offset),
    ensures
        branch_shifted(*old(branch), *final(branch), offset),
    decreases *old(branch), 0nat,
{
    shift_span(&mut branch.span, offset);
    shift_pattern(&mut branch.pattern, offset);
    match &mut branch.body {
        MatchBranchBody::Expr(expr) => shift_expr(expr, offset),
        MatchBranchBody::Block(block) => shift_block(block, offset),
    }
}

/// Moves a function's span, parameters, return type and body by `offset`.
pub fn shift_function(function: &mut FunctionDecl, offset: usize)
    requires
        function_fits(*old(function), offset),
    ensures
        function_shifted(*old(function), *final(function), offset),
    decreases *old(function), 0nat,
{
    shift_span(&mut function.span, offset);
    shift_params(&mut function.params, offset);
    if let Some(return_type) = &mut function.return_type {
        shift_type(return_type, offset);
    }
    match &mut function.body {
        FunctionBody::Block(block) => shift_block(block, offset),
        FunctionBody::Expr(expr) => shift_expr(expr, offset),
    }
}

/// Moves a block's span and statements by `offset`.
pub fn shift_block(block: &mut Block, offset: usize)
    requires
        block_fits(*old(block), offset),
    ensures
        block_shifted(*old(block), *final(block), offset),
    decreases *old(block), 0nat,
{
    let ghost before = block.statements@;
    let mut i: usize = 0;
    while i < block.statements.len()
        invariant
            before == old(block).statements@,
            block_fits(*old(block), offset),
            block.span == old(block).span,
            block.statements@.len() == before.len(),
            i <= block.statements@.len(),
            forall|j: int| #![trigger before[j]] 0 <= j < i ==> stmt_shifted(before[j], block.statements@[j], offset),
            forall|j: int| #![trigger block.statements@[j]] i <= j < block.statements@.len() ==> block.statements@[j] == before[j],
        decreases block.statements.len() - i,
    {
        assert(block.statements@[i as int] == before[i as int]);
        assert(stmt_fits(before[i as int], offset));
        shift_statement(&mut block.statements[i], offset);
        i = i + 1;
    }
    shift_span(&mut block.span, offset);
}

/// Moves a statement's span and everything inside it by `offset`.
pub fn shift_statement(statement: &mut Stmt, offset: usize)
    requires
        stmt_fits(*old(statement), offset),
    ensures
        stmt_shifted(*old(statement), *final(statement), offset),
    decreases *old(statement), 0nat,
{
    match &mut statement.kind {
        StmtKind::Let { type_annotation, value, .. } => {
            if let Some(type_ref) = type_annotation {
                shift_type(type_ref, offset);
            }
            if let Some(value) = value {
                shift_expr(value, offset);
            }
        },
        StmtKind::Assign { target, value, .. } => {
            shift_expr(target, offset);
            shift_expr(value, offset);
        },
        StmtKind::Return { value } => {
            if let Some(value) = value {
                shift_expr(value, offset);
            }
        },
        StmtKind::If { condition, then_branch, else_branch } => {
            shift_expr(condition, offset);
            shift_block(then_branch, offset);
            if let Some(else_branch) = else_branch {
                match else_branch {
                    ElseBranch::Block(block) => shift_block(block, offset),
                    ElseBranch::If(inner) => shift_statement(inner, offset),
                }
            }
        },
        StmtKind::While { condition, body } => {
            shift_expr(condition, offset);
            shift_block(body, offset);
        },
        StmtKind::For { iterable, body, .. } => {
            shift_expr(iterable, offset);
            shift_block(body, offset);
        },
        StmtKind::Expr(expr) => shift_expr(expr, offset),
        _ => {},
    }
    shift_span(&mut statement.span, offset);
}

/// Moves a diagnostic's span by `offset`.
pub fn shift_diagnostic(diagnostic: Diagnostic, offset: usize) -> (shifted: Diagnostic)
    requires
        span_fits(diagnostic.span, offset),
    ensures
        span_shifted(diagnostic.span, shifted.span, offset),
        shifted.severity == diagnostic.severity,
        shifted.message == diagnostic.message,
{
    let mut diagnostic = diagnostic;
    shift_span(&mut diagnostic.span, offset);
    diagnostic
}

/// Moves every span of a program that came from a source file placed at
/// `offset` (see `item_shifted`).
pub fn shift_program(program: &mut Program, offset: usize)
    requires
        program_fits(*old(program), offset),
    ensures
        program_shifted(*old(program), *final(program), offset),
{
    let ghost before = program.items@;
    let mut i: usize = 0;
    while i < program.items.len()
        invariant
            before == old(program).items@,
            program_fits(*old(program), offset),
            program.items@.len() == before.len(),
            i <= program.items@.len(),
            forall|j: int| 0 <= j < i ==> #[trigger] item_shifted(before[j], program.items@[j], offset),
            forall|j: int| i <= j < program.items@.len() ==> #[trigger] program.items@[j] == before[j],
        decreases program.items.len() - i,
    {
        assert(program.items@[i as int] == before[i as int]);
        assert(item_fits(before[i as int], offset));
        shift_item(&mut program.items[i], offset);
        i = i + 1;
    }
}

fn shift_members(members: &mut Vec<StructMember>, offset: usize)
    requires
        members_fit(old(members)@, offset),
    ensures
        members_shifted(old(members)@, final(members)@, offset),
{
    let ghost before = members@;
    let mut i: usize = 0;
    while i < members.len()
        invariant
            before == old(members)@,
            members_fit(before, offset),
            members@.len() == before.len(),
            i <= members@.len(),
            forall|j: int| 0 <= j < i ==> #[trigger] member_shifted(before[j], members@[j], offset),
            forall|j: int| i <= j < members@.len() ==> #[trigger] members@[j] == before[j],
        decreases members.len() - i,
    {
        assert(members@[i as int] == before[i as int]);
        assert(member_fits(before[i as int], offset));
        match &mut members[i] {
            StructMember::Field(field) => {
                shift_span(&mut field.span, offset);
                shift_type(&mut field.type_ref, offset);
            },
            StructMember::Method(function) => shift_function(function, offset),
            StructMember::StaticMethod(function) => shift_function(function, offset),
        }
        i = i + 1;
    }
}

#[verifier::loop_isolation(false)]
fn shift_item(item: &mut Item, offset: usize)
    requires
        item_fits(*old(item), offset),
    ensures
        item_shifted(*old(item), *final(item), offset),
{
    match item {
        Item::Import(import) => {
            shift_span(&mut import.span, offset);
            let ghost names = import.names@;
            let ghost snapshot = *import;
            let mut i: usize = 0;
            while i < import.names.len()
                invariant
                    import.path == snapshot.path,
                    import.span == snapshot.span,
                    import.namespace == snapshot.namespace,
                    import.names@.len() == names.len(),
                    i <= names.len(),
                    forall|j: int|
                        #![trigger names[j]]
                        0 <= j < i ==> {
                            &&& import.names@[j].name == names[j].name
                            &&& import.names@[j].alias == names[j].alias
                            &&& span_shifted(names[j].span, import.names@[j].span, offset)
                        },
                    forall|j: int| #![trigger import.names@[j]] i <= j < names.len() ==> import.names@[j] == names[j],
                decreases names.len() - i,
            {
                assert(import.names@[i as int] == names[i as int]);
                shift_span(&mut import.names[i].span, offset);
                i = i + 1;
            }
            if let Some(namespace) = &mut import.namespace {
                shift_span(&mut namespace.span, offset);
            }
        },
        Item::Enum(decl) => {
            shift_span(&mut decl.span, offset);
            let ghost variants = decl.variants@;
            let ghost snapshot = *decl;
            let mut i: usize = 0;
            while i < decl.variants.len()
                invariant
                    decl.name == snapshot.name,
                    decl.exported == snapshot.exported,
                    decl.type_params == snapshot.type_params,
                    decl.type_param_bounds == snapshot.type_param_bounds,
                    decl.members == snapshot.members,
                    decl.span == snapshot.span,
                    decl.variants@.len() == variants.len(),
                    i <= variants.len(),
                    forall|j: int| 0 <= j < i ==> #[trigger] variant_shifted(variants[j], decl.variants@[j], offset),
                    forall|j: int| #![trigger decl.variants@[j]] i <= j < variants.len() ==> decl.variants@[j] == variants[j],
                decreases variants.len() - i,
            {
                assert(decl.variants@[i as int] == variants[i as int]);
                assert(variant_fits(variants[i as int], offset));
                shift_span(&mut decl.variants[i].span, offset);
                if let Some(type_ref) = &mut decl.variants[i].payload {
                    shift_type(type_ref, offset);
                }
                i = i + 1;
            }
            shift_members(&mut decl.members, offset);
        },
        Item::Struct(decl) => {
            shift_span(&mut decl.span, offset);
            shift_members(&mut decl.members, offset);
        },
        Item::Trait(decl) => {
            shift_span(&mut decl.span, offset);
            let ghost methods = decl.methods@;
            let ghost snapshot = *decl;
            let mut i: usize = 0;
            while i < decl.methods.len()
                invariant
                    decl.name == snapshot.name,
                    decl.exported == snapshot.exported,
                    decl.type_params == snapshot.type_params,
                    decl.type_param_bounds == snapshot.type_param_bounds,
                    decl.associated_types == snapshot.associated_types,
                    decl.span == snapshot.span,
                    decl.methods@.len() == methods.len(),
                    i <= methods.len(),
                    forall|j: int| 0 <= j < i ==> #[trigger] trait_method_shifted(methods[j], decl.methods@[j], offset),
                    forall|j: int| #![trigger decl.methods@[j]] i <= j < methods.len() ==> decl.methods@[j] == methods[j],
                decreases methods.len() - i,
            {
                assert(decl.methods@[i as int] == methods[i as int]);
                assert(trait_method_fits(methods[i as int], offset));
                shift_span(&mut decl.methods[i].span, offset);
                shift_params(&mut decl.methods[i].params, offset);
                if let Some(return_type) = &mut decl.methods[i].return_type {
                    shift_type(return_type, offset);
                }
                i = i + 1;
            }
        },
        Item::Impl(decl) => {
            shift_span(&mut decl.span, offset);
            shift_type(&mut decl.trait_ref, offset);
            shift_type(&mut decl.type_ref, offset);
            let ghost methods = decl.methods@;
            let ghost snapshot = *decl;
            let mut i: usize = 0;
            while i < decl.methods.len()
                invariant
                    decl.type_params == snapshot.type_params,
                    decl.type_param_bounds == snapshot.type_param_bounds,
                    decl.associated_types == snapshot.associated_types,
                    decl.span == snapshot.span,
                    decl.trait_ref == snapshot.trait_ref,
                    decl.type_ref == snapshot.type_ref,
                    decl.methods@.len() == methods.len(),
                    i <= methods.len(),
                    forall|j: int| 0 <= j < i ==> #[trigger] impl_member_shifted(methods[j], decl.methods@[j], offset),
                    forall|j: int| #![trigger decl.methods@[j]] i <= j < methods.len() ==> decl.methods@[j] == methods[j],
                decreases methods.len() - i,
            {
                assert(decl.methods@[i as int] == methods[i as int]);
                assert(impl_member_fits(methods[i as int], offset));
                shift_span(&mut decl.methods[i].span, offset);
                shift_function(&mut decl.methods[i].function, offset);
                i = i + 1;
            }
        },
        Item::Extension(decl) => {
            shift_span(&mut decl.span, offset);
            shift_type(&mut decl.type_ref, offset);
            shift_function(&mut decl.function, offset);
        },
        Item::Function(function) => shift_function(function, offset),
    }
}

} // verus!
