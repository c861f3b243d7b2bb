use vstd::prelude::*;

use crate::ast::{
    Block, ElseBranch, EnumDecl, Expr, ExprKind, ExtensionDecl, FunctionBody, FunctionDecl, ImplDecl, ImplMember, Item,
    MatchBranch, MatchBranchBody, Program, Stmt, StmtKind, StructDecl, StructInitField, StructMember, TraitDecl,
    TraitMethodDecl,
};
use crate::span::Span;

verus! {

// Where a `comptime` expression at a given span is looked for, in the order in
// which it is looked for: an expression itself, then its parts from left to
// right; statements in order; in an `else if`, only an `if` statement.

/// `e` holds a `comptime` expression at `span`, itself or in a part.
pub open spec fn site_expr(e: Expr, span: Span) -> bool
    decreases e, 0nat,
{
    (e.span == span && e.kind is Comptime) || match e.kind {
        ExprKind::Comptime(inner) => site_expr(*inner, span),
        ExprKind::Array(items) => site_exprs(items@, span),
        ExprKind::CollectionLiteral { items, .. } => site_exprs(items@, span),
        ExprKind::Call { callee, args } => site_expr(*callee, span) || site_exprs(args@, span),
        ExprKind::Member { object, .. } => site_expr(*object, span),
        ExprKind::GenericMember { object, .. } => site_expr(*object, span),
        ExprKind::StructInit { fields, .. } => site_fields(fields@, span),
        ExprKind::Range { start, end, .. } => site_expr(*start, span) || site_expr(*end, span),
        ExprKind::Binary { left, right, .. } => site_expr(*left, span) || site_expr(*right, span),
        ExprKind::Unary { operand, .. } => site_expr(*operand, span),
        ExprKind::PostfixIncrement(operand) => site_expr(*operand, span),
        ExprKind::Match { value, branches } => site_expr(*value, span) || site_branches(branches@, span),
        ExprKind::Lambda(function) => site_body(function.body, span),
        ExprKind::Block(block) => site_block(block, span),
        _ => false,
    }
}

pub open spec fn site_exprs(s: Seq<Expr>, span: Span) -> bool
    decreases s, 1nat,
{
    exists|i: int| #![trigger s[i]] 0 <= i < s.len() && site_expr(s[i], span)
}

pub open spec fn site_fields(s: Seq<StructInitField>, span: Span) -> bool
    decreases s, 1nat,
{
    exists|i: int| #![trigger s[i]] 0 <= i < s.len() && site_expr(s[i].value, span)
}

pub open spec fn site_branch(b: MatchBranch, span: Span) -> bool
    decreases b, 0nat,
{
    (b.guard matches Some(g) && site_expr(g, span)) || match b.body {
        MatchBranchBody::Expr(e) => site_expr(*e, span),
        MatchBranchBody::Block(bl) => site_block(bl, span),
    }
}

pub open spec fn site_branches(s: Seq<MatchBranch>, span: Span) -> bool
    decreases s, 1nat,
{
    exists|i: int| #![trigger s[i]] 0 <= i < s.len() && site_branch(s[i], span)
}

pub open spec fn site_body(b: FunctionBody, span: Span) -> bool
    decreases b, 0nat,
{
    match b {
        FunctionBody::Block(bl) => site_block(bl, span),
        FunctionBody::Expr(e) => site_expr(*e, span),
    }
}

pub open spec fn site_block(b: Block, span: Span) -> bool
    decreases b, 0nat,
{
    site_stmts(b.statements@, span)
}

pub open spec fn site_stmts(s: Seq<Stmt>, span: Span) -> bool
    decreases s, 1nat,
{
    exists|i: int| #![trigger s[i]] 0 <= i < s.len() && site_stmt(s[i], span)
}

pub open spec fn site_opt_expr(e: Option<Expr>, span: Span) -> bool
    decreases e, 0nat,
{
    e matches Some(x) && site_expr(x, span)
}

pub open spec fn site_else(e: Option<ElseBranch>, span: Span) -> bool
    decreases e, 0nat,
{
    match e {
        Some(ElseBranch::Block(bl)) => site_block(bl, span),
        Some(ElseBranch::If(s)) => s.kind is If && site_stmt(*s, span),
        None => false,
    }
}

pub open spec fn site_stmt(s: Stmt, span: Span) -> bool
    decreases s, 0nat,
{
    match s.kind {
        StmtKind::Let { value, .. } => site_opt_expr(value, span),
        StmtKind::Return { value } => site_opt_expr(value, span),
        StmtKind::Assign { target, value, .. } => site_expr(target, span) || site_expr(value, span),
        StmtKind::If { condition, then_branch, else_branch } => site_expr(condition, span) || site_block(
            then_branch,
            span,
        ) || site_else(else_branch, span),
        StmtKind::While { condition, body } => site_expr(condition, span) || site_block(body, span),
        StmtKind::For { iterable, body, .. } => site_expr(iterable, span) || site_block(body, span),
        StmtKind::Expr(e) => site_expr(e, span),
        _ => false,
    }
}

/// `b` is `a` with its first `comptime` expression at `span` (see `site_expr`)
/// replaced by `value`, and nothing else changed.
pub open spec fn replaced_expr(a: Expr, b: Expr, span: Span, value: Expr) -> bool
    decreases a, 0nat,
{
    if a.span == span && a.kind is Comptime {
        b == value
    } else {
        b.span == a.span && match a.kind {
            ExprKind::Comptime(inner) => b.kind matches ExprKind::Comptime(i2) && replaced_expr(*inner, *i2, span, value),
            ExprKind::Array(items) => b.kind matches ExprKind::Array(items2) && replaced_exprs(
                items@,
                items2@,
                span,
                value,
            ),
            ExprKind::CollectionLiteral { collection, items } => b.kind matches ExprKind::CollectionLiteral {
                collection: c2,
                items: items2,
            } && c2 == collection && replaced_exprs(items@, items2@, span, value),
            ExprKind::Call { callee, args } => b.kind matches ExprKind::Call { callee: c2, args: a2 } && (if site_expr(
                *callee,
                span,
            ) {
                replaced_expr(*callee, *c2, span, value) && a2 == args
            } else {
                c2 == callee && replaced_exprs(args@, a2@, span, value)
            }),
            ExprKind::Member { object, name } => b.kind matches ExprKind::Member { object: o2, name: n2 } && n2 == name
                && replaced_expr(*object, *o2, span, value),
            ExprKind::GenericMember { object, name, args } => b.kind matches ExprKind::GenericMember {
                object: o2,
                name: n2,
                args: a2,
            } && n2 == name && a2 == args && replaced_expr(*object, *o2, span, value),
            ExprKind::StructInit { name, args, fields } => b.kind matches ExprKind::StructInit {
                name: n2,
                args: a2,
                fields: f2,
            } && n2 == name && a2 == args && replaced_fields(fields@, f2@, span, value),
            ExprKind::Range { start, end, inclusive } => b.kind matches ExprKind::Range {
                start: s2,
                end: e2,
                inclusive: i2,
            } && i2 == inclusive && (if site_expr(*start, span) {
                replaced_expr(*start, *s2, span, value) && e2 == end
            } else {
                s2 == start && replaced_expr(*end, *e2, span, value)
            }),
            ExprKind::Binary { left, op, right } => b.kind matches ExprKind::Binary { left: l2, op: o2, right: r2 }
                && o2 == op && (if site_expr(*left, span) {
                replaced_expr(*left, *l2, span, value) && r2 == right
            } else {
                l2 == left && replaced_expr(*right, *r2, span, value)
            }),
            ExprKind::Unary { op, operand } => b.kind matches ExprKind::Unary { op: o2, operand: x2 } && o2 == op
                && replaced_expr(*operand, *x2, span, value),
            ExprKind::PostfixIncrement(operand) => b.kind matches ExprKind::PostfixIncrement(x2) && replaced_expr(
                *operand,
                *x2,
                span,
                value,
            ),
            ExprKind::Match { value: scrutinee, branches } => b.kind matches ExprKind::Match {
                value: v2,
                branches: b2,
            } && (if site_expr(*scrutinee, span) {
                replaced_expr(*scrutinee, *v2, span, value) && b2 == branches
            } else {
                v2 == scrutinee && replaced_branches(branches@, b2@, span, value)
            }),
            ExprKind::Lambda(function) => b.kind matches ExprKind::Lambda(f2) && f2 == (FunctionDecl {
                body: f2.body,
                ..function
            }) && replaced_body(function.body, f2.body, span, value),
            ExprKind::Block(block) => b.kind matches ExprKind::Block(b2) && replaced_block(block, b2, span, value),
            _ => false,
        }
    }
}

/// `b` is `a` with the first element that holds a site replaced in.
pub open spec fn replaced_exprs(a: Seq<Expr>, b: Seq<Expr>, span: Span, value: Expr) -> bool
    decreases a, 1nat,
{
    a.len() == b.len() && exists|i: int|
        #![trigger a[i]]
        0 <= i < a.len() && site_expr(a[i], span) && (forall|j: int| #![trigger a[j]] 0 <= j < i ==> !site_expr(a[j], span))
            && replaced_expr(a[i], b[i], span, value) && b == a.update(i, b[i])
}

pub open spec fn replaced_fields(a: Seq<StructInitField>, b: Seq<StructInitField>, span: Span, value: Expr) -> bool
    decreases a, 1nat,
{
    a.len() == b.len() && exists|i: int|
        #![trigger a[i]]
        0 <= i < a.len() && site_expr(a[i].value, span) && (forall|j: int| #![trigger a[j]] 0 <= j < i ==> !site_expr(a[j].value, span)) && b[i].name == a[i].name && b[i].span == a[i].span
            && replaced_expr(a[i].value, b[i].value, span, value) && b == a.update(i, b[i])
}

pub open spec fn replaced_branches(a: Seq<MatchBranch>, b: Seq<MatchBranch>, span: Span, value: Expr) -> bool
    decreases a, 1nat,
{
    a.len() == b.len() && exists|i: int|
        #![trigger a[i]]
        0 <= i < a.len() && site_branch(a[i], span) && (forall|j: int| #![trigger a[j]] 0 <= j < i ==> !site_branch(a[j], span))
            && replaced_branch(a[i], b[i], span, value) && b == a.update(i, b[i])
}

pub open spec fn replaced_branch(a: MatchBranch, b: MatchBranch, span: Span, value: Expr) -> bool
    decreases a, 0nat,
{
    &&& b.pattern == a.pattern
    &&& b.span == a.span
    &&& (if (a.guard matches Some(g) && site_expr(g, span)) {
        b.guard matches Some(g2) && replaced_expr(a.guard->0, g2, span, value) && b.body == a.body
    } else {
        b.guard == a.guard && match a.body {
            MatchBranchBody::Expr(e) => b.body matches MatchBranchBody::Expr(e2) && replaced_expr(*e, *e2, span, value),
            MatchBranchBody::Block(bl) => b.body matches MatchBranchBody::Block(bl2) && replaced_block(
                bl,
                bl2,
                span,
                value,
            ),
        }
    })
}

pub open spec fn replaced_body(a: FunctionBody, b: FunctionBody, span: Span, value: Expr) -> bool
    decreases a, 0nat,
{
    match a {
        FunctionBody::Block(bl) => b matches FunctionBody::Block(bl2) && replaced_block(bl, bl2, span, value),
        FunctionBody::Expr(e) => b matches FunctionBody::Expr(e2) && replaced_expr(*e, *e2, span, value),
    }
}

pub open spec fn replaced_block(a: Block, b: Block, span: Span, value: Expr) -> bool
    decreases a, 0nat,
{
    b.span == a.span && replaced_stmts(a.statements@, b.statements@, span, value)
}

pub open spec fn replaced_stmts(a: Seq<Stmt>, b: Seq<Stmt>, span: Span, value: Expr) -> bool
    decreases a, 1nat,
{
    a.len() == b.len() && exists|i: int|
        #![trigger a[i]]
        0 <= i < a.len() && site_stmt(a[i], span) && (forall|j: int| #![trigger a[j]] 0 <= j < i ==> !site_stmt(a[j], span))
            && replaced_stmt(a[i], b[i], span, value) && b == a.update(i, b[i])
}

pub open spec fn replaced_opt_expr(a: Option<Expr>, b: Option<Expr>, span: Span, value: Expr) -> bool
    decreases a, 0nat,
{
    match a {
        Some(e) => b matches Some(e2) && replaced_expr(e, e2, span, value),
        None => false,
    }
}

pub open spec fn replaced_else(a: Option<ElseBranch>, b: Option<ElseBranch>, span: Span, value: Expr) -> bool
    decreases a, 0nat,
{
    match a {
        Some(ElseBranch::Block(bl)) => b matches Some(ElseBranch::Block(bl2)) && replaced_block(bl, bl2, span, value),
        Some(ElseBranch::If(s)) => b matches Some(ElseBranch::If(s2)) && replaced_stmt(*s, *s2, span, value),
        None => false,
    }
}

/// `b` is statement `a` with its first site replaced in (see `replaced_expr`).
pub open spec fn replaced_stmt(a: Stmt, b: Stmt, span: Span, value: Expr) -> bool
    decreases a, 0nat,
{
    b.span == a.span && match a.kind {
        StmtKind::Let { name, mutable, type_annotation, value: init } => b.kind matches StmtKind::Let {
            name: n2,
            mutable: m2,
            type_annotation: t2,
            value: v2,
        } && n2 == name && m2 == mutable && t2 == type_annotation && replaced_opt_expr(init, v2, span, value),
        StmtKind::Return { value: result } => b.kind matches StmtKind::Return { value: v2 } && replaced_opt_expr(
            result,
            v2,
            span,
            value,
        ),
        StmtKind::Assign { target, op, value: assigned } => b.kind matches StmtKind::Assign {
            target: t2,
            op: o2,
            value: v2,
        } && o2 == op && (if site_expr(target, span) {
            replaced_expr(target, t2, span, value) && v2 == assigned
        } else {
            t2 == target && replaced_expr(assigned, v2, span, value)
        }),
        StmtKind::If { condition, then_branch, else_branch } => b.kind matches StmtKind::If {
            condition: c2,
            then_branch: t2,
            else_branch: e2,
        } && (if site_expr(condition, span) {
            replaced_expr(condition, c2, span, value) && t2 == then_branch && e2 == else_branch
        } else if site_block(then_branch, span) {
            c2 == condition && replaced_block(then_branch, t2, span, value) && e2 == else_branch
        } else {
            c2 == condition && t2 == then_branch && replaced_else(else_branch, e2, span, value)
        }),
        StmtKind::While { condition, body } => b.kind matches StmtKind::While { condition: c2, body: b2 } && (if site_expr(
            condition,
            span,
        ) {
            replaced_expr(condition, c2, span, value) && b2 == body
        } else {
            c2 == condition && replaced_block(body, b2, span, value)
        }),
        StmtKind::For { name, iterable, body } => b.kind matches StmtKind::For { name: n2, iterable: i2, body: b2 } && n2
            == name && (if site_expr(iterable, span) {
            replaced_expr(iterable, i2, span, value) && b2 == body
        } else {
            i2 == iterable && replaced_block(body, b2, span, value)
        }),
        StmtKind::Expr(e) => b.kind matches StmtKind::Expr(e2) && replaced_expr(e, e2, span, value),
        _ => false,
    }
}

/// A member holds a site in a method's body.
pub open spec fn site_member(m: StructMember, span: Span) -> bool {
    match m {
        StructMember::Field(_) => false,
        StructMember::Method(f) => site_body(f.body, span),
        StructMember::StaticMethod(f) => site_body(f.body, span),
    }
}

pub open spec fn replaced_member(a: StructMember, b: StructMember, span: Span, value: Expr) -> bool {
    match a {
        StructMember::Field(_) => false,
        StructMember::Method(f) => b matches StructMember::Method(f2) && f2 == (FunctionDecl { body: f2.body, ..f })
            && replaced_body(f.body, f2.body, span, value),
        StructMember::StaticMethod(f) => b matches StructMember::StaticMethod(f2) && f2 == (FunctionDecl {
            body: f2.body,
            ..f
        }) && replaced_body(f.body, f2.body, span, value),
    }
}

pub open spec fn site_trait_method(m: TraitMethodDecl, span: Span) -> bool {
    m.body matches Some(body) && site_body(body, span)
}

pub open spec fn replaced_trait_method(a: TraitMethodDecl, b: TraitMethodDecl, span: Span, value: Expr) -> bool {
    b == (TraitMethodDecl { body: b.body, ..a }) && match a.body {
        Some(x) => b.body matches Some(y) && replaced_body(x, y, span, value),
        None => false,
    }
}

pub open spec fn site_impl_member(m: ImplMember, span: Span) -> bool {
    site_body(m.function.body, span)
}

pub open spec fn replaced_impl_member(a: ImplMember, b: ImplMember, span: Span, value: Expr) -> bool {
    &&& b == (ImplMember { function: b.function, ..a })
    &&& b.function == (FunctionDecl { body: b.function.body, ..a.function })
    &&& replaced_body(a.function.body, b.function.body, span, value)
}

/// `b` is `a` with its first element that satisfies `site` replaced as
/// `replaced` says, and every other element kept.
pub open spec fn first_replaced<T>(a: Seq<T>, b: Seq<T>, site: spec_fn(T) -> bool, replaced: spec_fn(T, T) -> bool) -> bool {
    a.len() == b.len() && exists|i: int|
        #![trigger a[i]]
        0 <= i < a.len() && site(a[i]) && (forall|j: int| #![trigger a[j]] 0 <= j < i ==> !site(a[j])) && replaced(
            a[i],
            b[i],
        ) && b == a.update(i, b[i])
}

/// An item holds a `comptime` expression at `span` in one of its function bodies.
pub open spec fn site_item(item: Item, span: Span) -> bool {
    match item {
        Item::Enum(d) => exists|i: int| #![trigger d.members@[i]] 0 <= i < d.members@.len() && site_member(d.members@[i], span),
        Item::Struct(d) => exists|i: int|
            #![trigger d.members@[i]]
            0 <= i < d.members@.len() && site_member(d.members@[i], span),
        Item::Trait(d) => exists|i: int|
            #![trigger d.methods@[i]]
            0 <= i < d.methods@.len() && site_trait_method(d.methods@[i], span),
        Item::Impl(d) => exists|i: int|
            #![trigger d.methods@[i]]
            0 <= i < d.methods@.len() && site_impl_member(d.methods@[i], span),
        Item::Extension(d) => site_body(d.function.body, span),
        Item::Function(f) => site_body(f.body, span),
        Item::Import(_) => false,
    }
}

/// `b` is item `a` with its first `comptime` expression at `span` replaced by `value`.
pub open spec fn replaced_item(a: Item, b: Item, span: Span, value: Expr) -> bool {
    match a {
        Item::Enum(d) => b matches Item::Enum(d2) && d2 == (EnumDecl { members: d2.members, ..d }) && first_replaced(
            d.members@,
            d2.members@,
            |m: StructMember| site_member(m, span),
            |m: StructMember, m2: StructMember| replaced_member(m, m2, span, value),
        ),
        Item::Struct(d) => b matches Item::Struct(d2) && d2 == (StructDecl { members: d2.members, ..d })
            && first_replaced(
            d.members@,
            d2.members@,
            |m: StructMember| site_member(m, span),
            |m: StructMember, m2: StructMember| replaced_member(m, m2, span, value),
        ),
        Item::Trait(d) => b matches Item::Trait(d2) && d2 == (TraitDecl { methods: d2.methods, ..d }) && first_replaced(
            d.methods@,
            d2.methods@,
            |m: TraitMethodDecl| site_trait_method(m, span),
            |m: TraitMethodDecl, m2: TraitMethodDecl| replaced_trait_method(m, m2, span, value),
        ),
        Item::Impl(d) => b matches Item::Impl(d2) && d2 == (ImplDecl { methods: d2.methods, ..d }) && first_replaced(
            d.methods@,
            d2.methods@,
            |m: ImplMember| site_impl_member(m, span),
            |m: ImplMember, m2: ImplMember| replaced_impl_member(m, m2, span, value),
        ),
        Item::Extension(d) => b matches Item::Extension(d2) && d2 == (ExtensionDecl { function: d2.function, ..d })
            && d2.function == (FunctionDecl { body: d2.function.body, ..d.function }) && replaced_body(
            d.function.body,
            d2.function.body,
            span,
            value,
        ),
        Item::Function(f) => b matches Item::Function(f2) && f2 == (FunctionDecl { body: f2.body, ..f })
            && replaced_body(f.body, f2.body, span, value),
        Item::Import(_) => false,
    }
}

/// A program holds a `comptime` expression at `span` in one of its items.
pub open spec fn site_program(items: Seq<Item>, span: Span) -> bool {
    exists|i: int| #![trigger items[i]] 0 <= i < items.len() && site_item(items[i], span)
}

/// Whether `expr` holds a `comptime` expression at `span` (see `site_expr`).
fn has_site_expr(expr: &Expr, span: Span) -> (found: bool)
    ensures
        found == site_expr(*expr, span),
    decreases expr, 0nat,
{
    if expr.span == span {
        if let ExprKind::Comptime(_) = &expr.kind {
            return true;
        }
    }
    match &expr.kind {
        ExprKind::Comptime(inner) => has_site_expr(inner, span),
        ExprKind::Array(items) => has_site_exprs(items, span),
        ExprKind::CollectionLiteral { items, .. } => has_site_exprs(items, span),
        ExprKind::Call { callee, args } => has_site_expr(callee, span) || has_site_exprs(args, span),
        ExprKind::Member { object, .. } => has_site_expr(object, span),
        ExprKind::GenericMember { object, .. } => has_site_expr(object, span),
        ExprKind::StructInit { fields, .. } => has_site_fields(fields, span),
        ExprKind::Range { start, end, .. } => has_site_expr(start, span) || has_site_expr(end, span),
        ExprKind::Binary { left, right, .. } => has_site_expr(left, span) || has_site_expr(right, span),
        ExprKind::Unary { operand, .. } => has_site_expr(operand, span),
        ExprKind::PostfixIncrement(operand) => has_site_expr(operand, span),
        ExprKind::Match { value, branches } => has_site_expr(value, span) || has_site_branches(branches, span),
        ExprKind::Lambda(function) => has_site_body(&function.body, span),
        ExprKind::Block(block) => has_site_block(block, span),
        _ => false,
    }
}

fn has_site_exprs(items: &Vec<Expr>, span: Span) -> (found: bool)
    ensures
        found == site_exprs(items@, span),
    decreases items, 1nat,
{
    let mut i: usize = 0;
    while i < items.len()
        invariant
            i <= items@.len(),
            forall|j: int| #![trigger items@[j]] 0 <= j < i ==> !site_expr(items@[j], span),
        decreases items.len() - i,
    {
        if has_site_expr(&items[i], span) {
            return true;
        }
        i = i + 1;
    }
    false
}

fn has_site_fields(fields: &Vec<StructInitField>, span: Span) -> (found: bool)
    ensures
        found == site_fields(fields@, span),
    decreases fields, 1nat,
{
    let mut i: usize = 0;
    while i < fields.len()
        invariant
            i <= fields@.len(),
            forall|j: int| #![trigger fields@[j]] 0 <= j < i ==> !site_expr(fields@[j].value, span),
        decreases fields.len() - i,
    {
        if has_site_expr(&fields[i].value, span) {
            return true;
        }
        i = i + 1;
    }
    false
}

fn has_site_branch(branch: &MatchBranch, span: Span) -> (found: bool)
    ensures
        found == site_branch(*branch, span),
    decreases branch, 0nat,
{
    let in_guard = match &branch.guard {
        Some(guard) => has_site_expr(guard, span),
        None => false,
    };
    in_guard || match &branch.body {
        MatchBranchBody::Expr(e) => has_site_expr(e, span),
        MatchBranchBody::Block(block) => has_site_block(block, span),
    }
}

fn has_site_branches(branches: &Vec<MatchBranch>, span: Span) -> (found: bool)
    ensures
        found == site_branches(branches@, span),
    decreases branches, 1nat,
{
    let mut i: usize = 0;
    while i < branches.len()
        invariant
            i <= branches@.len(),
            forall|j: int| #![trigger branches@[j]] 0 <= j < i ==> !site_branch(branches@[j], span),
        decreases branches.len() - i,
    {
        if has_site_branch(&branches[i], span) {
            return true;
        }
        i = i + 1;
    }
    false
}

fn has_site_body(body: &FunctionBody, span: Span) -> (found: bool)
    ensures
        found == site_body(*body, span),
    decreases body, 0nat,
{
    match body {
        FunctionBody::Block(block) => has_site_block(block, span),
        FunctionBody::Expr(e) => has_site_expr(e, span),
    }
}

fn has_site_block(block: &Block, span: Span) -> (found: bool)
    ensures
        found == site_block(*block, span),
    decreases block, 0nat,
{
    has_site_stmts(&block.statements, span)
}

fn has_site_stmts(statements: &Vec<Stmt>, span: Span) -> (found: bool)
    ensures
        found == site_stmts(statements@, span),
    decreases statements, 1nat,
{
    let mut i: usize = 0;
    while i < statements.len()
        invariant
            i <= statements@.len(),
            forall|j: int| #![trigger statements@[j]] 0 <= j < i ==> !site_stmt(statements@[j], span),
        decreases statements.len() - i,
    {
        if has_site_stmt(&statements[i], span) {
            return true;
        }
        i = i + 1;
    }
    false
}

fn has_site_opt_expr(value: &Option<Expr>, span: Span) -> (found: bool)
    ensures
        found == site_opt_expr(*value, span),
    decreases value, 0nat,
{
    match value {
        Some(e) => has_site_expr(e, span),
        None => false,
    }
}

fn has_site_else(else_branch: &Option<ElseBranch>, span: Span) -> (found: bool)
    ensures
        found == site_else(*else_branch, span),
    decreases else_branch, 0nat,
{
    match else_branch {
        Some(ElseBranch::Block(block)) => has_site_block(block, span),
        Some(ElseBranch::If(inner)) => match &inner.kind {
            StmtKind::If { .. } => has_site_stmt(inner, span),
            _ => false,
        },
        None => false,
    }
}

fn has_site_stmt(statement: &Stmt, span: Span) -> (found: bool)
    ensures
        found == site_stmt(*statement, span),
    decreases statement, 0nat,
{
    match &statement.kind {
        StmtKind::Let { value, .. } => has_site_opt_expr(value, span),
        StmtKind::Return { value } => has_site_opt_expr(value, span),
        StmtKind::Assign { target, value, .. } => has_site_expr(target, span) || has_site_expr(value, span),
        StmtKind::If { condition, then_branch, else_branch } => has_site_expr(condition, span) || has_site_block(
            then_branch,
            span,
        ) || has_site_else(else_branch, span),
        StmtKind::While { condition, body } => has_site_expr(condition, span) || has_site_block(body, span),
        StmtKind::For { iterable, body, .. } => has_site_expr(iterable, span) || has_site_block(body, span),
        StmtKind::Expr(e) => has_site_expr(e, span),
        _ => false,
    }
}

/// Replaces the first `comptime` expression at `span` in `expr` by `value`
/// (see `replaced_expr`).
fn replace_in_expr(expr: &mut Expr, span: Span, value: Expr)
    requires
        site_expr(*old(expr), span),
    ensures
        replaced_expr(*old(expr), *final(expr), span, value),
    decreases *old(expr), 0nat,
{
    let is_site = expr.span == span && match &expr.kind {
        ExprKind::Comptime(_) => true,
        _ => false,
    };
    if is_site {
        *expr = value;
        return;
    }
    match &mut expr.kind {
        ExprKind::Comptime(inner) => replace_in_expr(inner, span, value),
        ExprKind::Array(items) => replace_in_exprs(items, span, value),
        ExprKind::CollectionLiteral { items, .. } => replace_in_exprs(items, span, value),
        ExprKind::Call { callee, args } => {
            if has_site_expr(callee, span) {
                replace_in_expr(callee, span, value);
            } else {
                replace_in_exprs(args, span, value);
            }
        },
        ExprKind::Member { object, .. } => replace_in_expr(object, span, value),
        ExprKind::GenericMember { object, .. } => replace_in_expr(object, span, value),
        ExprKind::StructInit { fields, .. } => replace_in_fields(fields, span, value),
        ExprKind::Range { start, end, .. } => {
            if has_site_expr(start, span) {
                replace_in_expr(start, span, value);
            } else {
                replace_in_expr(end, span, value);
            }
        },
        ExprKind::Binary { left, right, .. } => {
            if has_site_expr(left, span) {
                replace_in_expr(left, span, value);
            } else {
                replace_in_expr(right, span, value);
            }
        },
        ExprKind::Unary { operand, .. } => replace_in_expr(operand, span, value),
        ExprKind::PostfixIncrement(operand) => replace_in_expr(operand, span, value),
        ExprKind::Match { value: scrutinee, branches } => {
            if has_site_expr(scrutinee, span) {
                replace_in_expr(scrutinee, span, value);
            } else {
                replace_in_branches(branches, span, value);
            }
        },
        ExprKind::Lambda(function) => replace_in_body(&mut function.body, span, value),
        ExprKind::Block(block) => replace_in_block(block, span, value),
        _ => {},
    }
}

fn replace_in_exprs(items: &mut Vec<Expr>, span: Span, value: Expr)
    requires
        site_exprs(old(items)@, span),
    ensures
        replaced_exprs(old(items)@, final(items)@, span, value),
    decreases *old(items), 1nat,
{
    let mut i: usize = 0;
    while i < items.len()
        invariant
            i <= items@.len(),
            items@ == old(items)@,
            site_exprs(items@, span),
            forall|j: int| #![trigger items@[j]] 0 <= j < i ==> !site_expr(items@[j], span),
        decreases items.len() - i,
    {
        if has_site_expr(&items[i], span) {
            proof {
                assert(decreases_to!(*old(items) => old(items)@));
                assert(decreases_to!(old(items)@ => old(items)@[i as int]));
            }
            let ghost original = items@;
            replace_in_expr(&mut items[i], span, value);
            assert(items@ == original.update(i as int, items@[i as int]));
            assert(original[i as int] == original[i as int]);
            return;
        }
        i = i + 1;
    }
}

fn replace_in_fields(fields: &mut Vec<StructInitField>, span: Span, value: Expr)
    requires
        site_fields(old(fields)@, span),
    ensures
        replaced_fields(old(fields)@, final(fields)@, span, value),
    decreases *old(fields), 1nat,
{
    let mut i: usize = 0;
    while i < fields.len()
        invariant
            i <= fields@.len(),
            fields@ == old(fields)@,
            site_fields(fields@, span),
            forall|j: int| #![trigger fields@[j]] 0 <= j < i ==> !site_expr(fields@[j].value, span),
        decreases fields.len() - i,
    {
        if has_site_expr(&fields[i].value, span) {
            proof {
                assert(decreases_to!(*old(fields) => old(fields)@));
                assert(decreases_to!(old(fields)@ => old(fields)@[i as int]));
                assert(decreases_to!(old(fields)@[i as int] => old(fields)@[i as int].value));
            }
            let ghost original = fields@;
            replace_in_expr(&mut fields[i].value, span, value);
            assert(fields@ == original.update(i as int, fields@[i as int]));
            assert(original[i as int] == original[i as int]);
            return;
        }
        i = i + 1;
    }
}

fn replace_in_branches(branches: &mut Vec<MatchBranch>, span: Span, value: Expr)
    requires
        site_branches(old(branches)@, span),
    ensures
        replaced_branches(old(branches)@, final(branches)@, span, value),
    decreases *old(branches), 1nat,
{
    let mut i: usize = 0;
    while i < branches.len()
        invariant
            i <= branches@.len(),
            branches@ == old(branches)@,
            site_branches(branches@, span),
            forall|j: int| #![trigger branches@[j]] 0 <= j < i ==> !site_branch(branches@[j], span),
        decreases branches.len() - i,
    {
        if has_site_branch(&branches[i], span) {
            proof {
                assert(decreases_to!(*old(branches) => old(branches)@));
                assert(decreases_to!(old(branches)@ => old(branches)@[i as int]));
            }
            let ghost original = branches@;
            replace_in_branch(&mut branches[i], span, value);
            assert(branches@ == original.update(i as int, branches@[i as int]));
            assert(original[i as int] == original[i as int]);
            return;
        }
        i = i + 1;
    }
}

fn replace_in_branch(branch: &mut MatchBranch, span: Span, value: Expr)
    requires
        site_branch(*old(branch), span),
    ensures
        replaced_branch(*old(branch), *final(branch), span, value),
    decreases *old(branch), 0nat,
{
    let in_guard = match &branch.guard {
        Some(guard) => has_site_expr(guard, span),
        None => false,
    };
    if in_guard {
        match &mut branch.guard {
            Some(guard) => replace_in_expr(guard, span, value),
            None => {},
        }
    } else {
        match &mut branch.body {
            MatchBranchBody::Expr(e) => replace_in_expr(e, span, value),
            MatchBranchBody::Block(block) => replace_in_block(block, span, value),
        }
    }
}

fn replace_in_body(body: &mut FunctionBody, span: Span, value: Expr)
    requires
        site_body(*old(body), span),
    ensures
        replaced_body(*old(body), *final(body), span, value),
    decreases *old(body), 0nat,
{
    match body {
        FunctionBody::Block(block) => replace_in_block(block, span, value),
        FunctionBody::Expr(e) => replace_in_expr(e, span, value),
    }
}

fn replace_in_block(block: &mut Block, span: Span, value: Expr)
    requires
        site_block(*old(block), span),
    ensures
        replaced_block(*old(block), *final(block), span, value),
    decreases *old(block), 0nat,
{
    replace_in_stmts(&mut block.statements, span, value)
}

fn replace_in_stmts(statements: &mut Vec<Stmt>, span: Span, value: Expr)
    requires
        site_stmts(old(statements)@, span),
    ensures
        replaced_stmts(old(statements)@, final(statements)@, span, value),
    decreases *old(statements), 1nat,
{
    let mut i: usize = 0;
    while i < statements.len()
        invariant
            i <= statements@.len(),
            statements@ == old(statements)@,
            site_stmts(statements@, span),
            forall|j: int| #![trigger statements@[j]] 0 <= j < i ==> !site_stmt(statements@[j], span),
        decreases statements.len() - i,
    {
        if has_site_stmt(&statements[i], span) {
            proof {
                assert(decreases_to!(*old(statements) => old(statements)@));
                assert(decreases_to!(old(statements)@ => old(statements)@[i as int]));
            }
            let ghost original = statements@;
            replace_in_stmt(&mut statements[i], span, value);
            assert(statements@ == original.update(i as int, statements@[i as int]));
            assert(original[i as int] == original[i as int]);
            return;
        }
        i = i + 1;
    }
}

fn replace_in_stmt(statement: &mut Stmt, span: Span, value: Expr)
    requires
        site_stmt(*old(statement), span),
    ensures
        replaced_stmt(*old(statement), *final(statement), span, value),
    decreases *old(statement), 0nat,
{
    match &mut statement.kind {
        StmtKind::Let { value: init, .. } => match init {
            Some(e) => replace_in_expr(e, span, value),
            None => {},
        },
        StmtKind::Return { value: result } => match result {
            Some(e) => replace_in_expr(e, span, value),
            None => {},
        },
        StmtKind::Assign { target, value: assigned, .. } => {
            if has_site_expr(target, span) {
                replace_in_expr(target, span, value);
            } else {
                replace_in_expr(assigned, span, value);
            }
        },
        StmtKind::If { condition, then_branch, else_branch } => {
            if has_site_expr(condition, span) {
                replace_in_expr(condition, span, value);
            } else if has_site_block(then_branch, span) {
                replace_in_block(then_branch, span, value);
            } else {
                match else_branch {
                    Some(ElseBranch::Block(block)) => replace_in_block(block, span, value),
                    Some(ElseBranch::If(inner)) => replace_in_stmt(inner, span, value),
                    None => {},
                }
            }
        },
        StmtKind::While { condition, body } => {
            if has_site_expr(condition, span) {
                replace_in_expr(condition, span, value);
            } else {
                replace_in_block(body, span, value);
            }
        },
        StmtKind::For { iterable, body, .. } => {
            if has_site_expr(iterable, span) {
                replace_in_expr(iterable, span, value);
            } else {
                replace_in_block(body, span, value);
            }
        },
        StmtKind::Expr(e) => replace_in_expr(e, span, value),
        _ => {},
    }
}

fn has_site_member(member: &StructMember, span: Span) -> (found: bool)
    ensures
        found == site_member(*member, span),
{
    match member {
        StructMember::Field(_) => false,
        StructMember::Method(f) => has_site_body(&f.body, span),
        StructMember::StaticMethod(f) => has_site_body(&f.body, span),
    }
}

fn has_site_trait_method(method: &TraitMethodDecl, span: Span) -> (found: bool)
    ensures
        found == site_trait_method(*method, span),
{
    match &method.body {
        Some(body) => has_site_body(body, span),
        None => false,
    }
}

/// The index of the first member that holds a site, if any.
fn first_site_member(members: &Vec<StructMember>, span: Span) -> (found: Option<usize>)
    ensures
        match found {
            Some(i) => i < members@.len() && site_member(members@[i as int], span) && forall|j: int|
                #![trigger members@[j]]
                0 <= j < i ==> !site_member(members@[j], span),
            None => forall|j: int| #![trigger members@[j]] 0 <= j < members@.len() ==> !site_member(members@[j], span),
        },
{
    let mut i: usize = 0;
    while i < members.len()
        invariant
            i <= members@.len(),
            forall|j: int| #![trigger members@[j]] 0 <= j < i ==> !site_member(members@[j], span),
        decreases members.len() - i,
    {
        if has_site_member(&members[i], span) {
            return Some(i);
        }
        i = i + 1;
    }
    None
}

fn first_site_trait_method(methods: &Vec<TraitMethodDecl>, span: Span) -> (found: Option<usize>)
    ensures
        match found {
            Some(i) => i < methods@.len() && site_trait_method(methods@[i as int], span) && forall|j: int|
                #![trigger methods@[j]]
                0 <= j < i ==> !site_trait_method(methods@[j], span),
            None => forall|j: int|
                #![trigger methods@[j]]
                0 <= j < methods@.len() ==> !site_trait_method(methods@[j], span),
        },
{
    let mut i: usize = 0;
    while i < methods.len()
        invariant
            i <= methods@.len(),
            forall|j: int| #![trigger methods@[j]] 0 <= j < i ==> !site_trait_method(methods@[j], span),
        decreases methods.len() - i,
    {
        if has_site_trait_method(&methods[i], span) {
            return Some(i);
        }
        i = i + 1;
    }
    None
}

fn first_site_impl_member(methods: &Vec<ImplMember>, span: Span) -> (found: Option<usize>)
    ensures
        match found {
            Some(i) => i < methods@.len() && site_impl_member(methods@[i as int], span) && forall|j: int|
                #![trigger methods@[j]]
                0 <= j < i ==> !site_impl_member(methods@[j], span),
            None => forall|j: int|
                #![trigger methods@[j]]
                0 <= j < methods@.len() ==> !site_impl_member(methods@[j], span),
        },
{
    let mut i: usize = 0;
    while i < methods.len()
        invariant
            i <= methods@.len(),
            forall|j: int| #![trigger methods@[j]] 0 <= j < i ==> !site_impl_member(methods@[j], span),
        decreases methods.len() - i,
    {
        if has_site_body(&methods[i].function.body, span) {
            return Some(i);
        }
        i = i + 1;
    }
    None
}

fn has_site_item(item: &Item, span: Span) -> (found: bool)
    ensures
        found == site_item(*item, span),
{
    match item {
        Item::Enum(d) => first_site_member(&d.members, span).is_some(),
        Item::Struct(d) => first_site_member(&d.members, span).is_some(),
        Item::Trait(d) => first_site_trait_method(&d.methods, span).is_some(),
        Item::Impl(d) => first_site_impl_member(&d.methods, span).is_some(),
        Item::Extension(d) => has_site_body(&d.function.body, span),
        Item::Function(f) => has_site_body(&f.body, span),
        Item::Import(_) => false,
    }
}

fn replace_in_members(members: &mut Vec<StructMember>, span: Span, value: Expr)
    requires
        exists|i: int| #![trigger old(members)@[i]] 0 <= i < old(members)@.len() && site_member(old(members)@[i], span),
    ensures
        first_replaced(
            old(members)@,
            final(members)@,
            |m: StructMember| site_member(m, span),
            |m: StructMember, m2: StructMember| replaced_member(m, m2, span, value),
        ),
{
    let found = first_site_member(members, span);
    if let Some(i) = found {
        let ghost original = members@;
        match &mut members[i] {
            StructMember::Method(f) => replace_in_body(&mut f.body, span, value),
            StructMember::StaticMethod(f) => replace_in_body(&mut f.body, span, value),
            StructMember::Field(_) => {},
        }
        assert(members@ == original.update(i as int, members@[i as int]));
        assert(original[i as int] == original[i as int]);
    }
}

fn replace_in_trait_methods(methods: &mut Vec<TraitMethodDecl>, span: Span, value: Expr)
    requires
        exists|i: int|
            #![trigger old(methods)@[i]]
            0 <= i < old(methods)@.len() && site_trait_method(old(methods)@[i], span),
    ensures
        first_replaced(
            old(methods)@,
            final(methods)@,
            |m: TraitMethodDecl| site_trait_method(m, span),
            |m: TraitMethodDecl, m2: TraitMethodDecl| replaced_trait_method(m, m2, span, value),
        ),
{
    let found = first_site_trait_method(methods, span);
    if let Some(i) = found {
        let ghost original = methods@;
        match &mut methods[i].body {
            Some(body) => replace_in_body(body, span, value),
            None => {},
        }
        assert(methods@ == original.update(i as int, methods@[i as int]));
        assert(original[i as int] == original[i as int]);
    }
}

fn replace_in_impl_members(methods: &mut Vec<ImplMember>, span: Span, value: Expr)
    requires
        exists|i: int|
            #![trigger old(methods)@[i]]
            0 <= i < old(methods)@.len() && site_impl_member(old(methods)@[i], span),
    ensures
        first_replaced(
            old(methods)@,
            final(methods)@,
            |m: ImplMember| site_impl_member(m, span),
            |m: ImplMember, m2: ImplMember| replaced_impl_member(m, m2, span, value),
        ),
{
    let found = first_site_impl_member(methods, span);
    if let Some(i) = found {
        let ghost original = methods@;
        replace_in_body(&mut methods[i].function.body, span, value);
        assert(methods@ == original.update(i as int, methods@[i as int]));
        assert(original[i as int] == original[i as int]);
    }
}

fn replace_in_item(item: &mut Item, span: Span, value: Expr)
    requires
        site_item(*old(item), span),
    ensures
        replaced_item(*old(item), *final(item), span, value),
{
    match item {
        Item::Enum(d) => replace_in_members(&mut d.members, span, value),
        Item::Struct(d) => replace_in_members(&mut d.members, span, value),
        Item::Trait(d) => replace_in_trait_methods(&mut d.methods, span, value),
        Item::Impl(d) => replace_in_impl_members(&mut d.methods, span, value),
        Item::Extension(d) => replace_in_body(&mut d.function.body, span, value),
        Item::Function(f) => replace_in_body(&mut f.body, span, value),
        Item::Import(_) => {},
    }
}

/// Puts `value` in place of the first `comptime` expression at `span` in the
/// program: in item order, and in each item in the order of `site_expr`.
/// Returns whether there was one; where there was none, the program is unchanged.
pub fn replace_comptime_at_span(program: &mut Program, span: Span, value: Expr) -> (replaced: bool)
    ensures
        replaced == site_program(old(program).items@, span),
        replaced ==> first_replaced(
            old(program).items@,
            final(program).items@,
            |item: Item| site_item(item, span),
            |item: Item, item2: Item| replaced_item(item, item2, span, value),
        ),
        !replaced ==> *final(program) == *old(program),
{
    let mut i: usize = 0;
    while i < program.items.len()
        invariant
            i <= program.items@.len(),
            *program == *old(program),
            forall|j: int| #![trigger program.items@[j]] 0 <= j < i ==> !site_item(program.items@[j], span),
        decreases program.items.len() - i,
    {
        if has_site_item(&program.items[i], span) {
            let ghost original = program.items@;
            replace_in_item(&mut program.items[i], span, value);
            assert(program.items@ == original.update(i as int, program.items@[i as int]));
            assert(original[i as int] == original[i as int]);
            return true;
        }
        i = i + 1;
    }
    false
}

} // verus!
