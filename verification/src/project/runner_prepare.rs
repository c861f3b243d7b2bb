use vstd::prelude::*;

use crate::ast::{
    Block, ElseBranch, Expr, ExprKind, FunctionBody, FunctionDecl, ImplMember, Item, MatchBranch, MatchBranchBody,
    Stmt, StmtKind, StructInitField, StructMember, TraitMethodDecl,
};
use crate::ast_copy::{
    copy_bounds, copy_opt_type, copy_params, copy_pattern, copy_strings, copy_types, same_bounds, same_expr,
    same_opt_type, same_params, same_type, same_types,
};
use crate::monomorphize::substitute::copy_type;
use crate::project::permissions::{comptime_permission_value, spec_permission_value, Package};
use crate::project::scan::{
    spec_block_has_comptime, spec_body_has_comptime, spec_branch_has_comptime, spec_expr_has_comptime,
    spec_stmt_has_comptime,
};

verus! {

/// `b` is expression `a` made ready to run at compile time for package `k` of
/// `packages`: every permission query is answered by a `bool` literal at its
/// span, every `comptime` marker is dropped in favour of what it holds, and
/// all else stays as it was.
pub open spec fn runner_ready_expr(a: Expr, b: Expr, packages: Seq<Package>, k: int) -> bool
    decreases a, 0nat,
{
    match spec_permission_value(a, packages, k) {
        Some(v) => b == (Expr { kind: ExprKind::Bool(v), span: a.span }),
        None => match a.kind {
            ExprKind::Comptime(inner) => runner_ready_expr(*inner, b, packages, k),
            ExprKind::Array(items) => b.kind matches ExprKind::Array(items2)
                && runner_ready_exprs(items@, items2@, packages, k) && b.span == a.span,
            ExprKind::CollectionLiteral { collection, items } => b.kind matches ExprKind::CollectionLiteral {
                collection: c2,
                items: items2,
            } && same_type(collection, c2) && runner_ready_exprs(items@, items2@, packages, k) && b.span == a.span,
            ExprKind::Call { callee, args } => b.kind matches ExprKind::Call { callee: c2, args: a2 }
                && runner_ready_expr(*callee, *c2, packages, k) && runner_ready_exprs(args@, a2@, packages, k) && b.span == a.span,
            ExprKind::Member { object, name } => b.kind matches ExprKind::Member {
                object: o2,
                name: n2,
            } && n2 == name && runner_ready_expr(*object, *o2, packages, k) && b.span == a.span,
            ExprKind::GenericMember { object, name, args } => b.kind matches ExprKind::GenericMember {
                object: o2,
                name: n2,
                args: a2,
            } && n2 == name && runner_ready_expr(*object, *o2, packages, k) && same_types(args@, a2@) && b.span == a.span,
            ExprKind::StructInit { name, args, fields } => b.kind matches ExprKind::StructInit {
                name: n2,
                args: a2,
                fields: f2,
            } && n2 == name && same_types(args@, a2@) && runner_ready_fields(fields@, f2@, packages, k) && b.span == a.span,
            ExprKind::Range { start, end, inclusive } => b.kind matches ExprKind::Range {
                start: s2,
                end: e2,
                inclusive: i2,
            } && i2 == inclusive && runner_ready_expr(*start, *s2, packages, k) && runner_ready_expr(
                *end,
                *e2,
                packages,
                k,
            ) && b.span == a.span,
            ExprKind::Binary { left, op, right } => b.kind matches ExprKind::Binary {
                left: l2,
                op: o2,
                right: r2,
            } && o2 == op && runner_ready_expr(*left, *l2, packages, k) && runner_ready_expr(*right, *r2, packages, k) && b.span == a.span,
            ExprKind::Unary { op, operand } => b.kind matches ExprKind::Unary { op: o2, operand: x2 }
                && o2 == op && runner_ready_expr(*operand, *x2, packages, k) && b.span == a.span,
            ExprKind::PostfixIncrement(operand) => b.kind matches ExprKind::PostfixIncrement(x2)
                && runner_ready_expr(*operand, *x2, packages, k) && b.span == a.span,
            ExprKind::Match { value, branches } => b.kind matches ExprKind::Match {
                value: v2,
                branches: b2,
            } && runner_ready_expr(*value, *v2, packages, k) && runner_ready_branches(branches@, b2@, packages, k) && b.span == a.span,
            ExprKind::Lambda(function) => b.kind matches ExprKind::Lambda(f2)
                && runner_ready_function(function, f2, packages, k) && b.span == a.span,
            ExprKind::Block(block) => b.kind matches ExprKind::Block(b2) && runner_ready_block(
                block,
                b2,
                packages,
                k,
            ) && b.span == a.span,
            _ => same_expr(a, b),
        },
    }
}

pub open spec fn runner_ready_exprs(a: Seq<Expr>, b: Seq<Expr>, packages: Seq<Package>, k: int) -> bool
    decreases a, 1nat,
{
    a.len() == b.len() && forall|i: int| #![trigger a[i]] 0 <= i < a.len() ==> runner_ready_expr(a[i], b[i], packages, k)
}

pub open spec fn runner_ready_fields(
    a: Seq<StructInitField>,
    b: Seq<StructInitField>,
    packages: Seq<Package>,
    k: int,
) -> bool
    decreases a, 1nat,
{
    a.len() == b.len() && forall|i: int|
        #![trigger a[i]]
        0 <= i < a.len() ==> a[i].name == b[i].name && a[i].span == b[i].span && runner_ready_expr(
            a[i].value,
            b[i].value,
            packages,
            k,
        )
}

pub open spec fn runner_ready_branches(a: Seq<MatchBranch>, b: Seq<MatchBranch>, packages: Seq<Package>, k: int) -> bool
    decreases a, 1nat,
{
    a.len() == b.len() && forall|i: int|
        #![trigger a[i]]
        0 <= i < a.len() ==> runner_ready_branch(a[i], b[i], packages, k)
}

pub open spec fn runner_ready_branch(a: MatchBranch, b: MatchBranch, packages: Seq<Package>, k: int) -> bool
    decreases a, 0nat,
{
    &&& a.pattern == b.pattern
    &&& a.span == b.span
    &&& match a.guard {
        Some(g) => b.guard matches Some(g2) && runner_ready_expr(g, g2, packages, k),
        None => b.guard is None,
    }
    &&& match a.body {
        MatchBranchBody::Expr(e) => b.body matches MatchBranchBody::Expr(e2) && runner_ready_expr(*e, *e2, packages, k),
        MatchBranchBody::Block(bl) => b.body matches MatchBranchBody::Block(bl2) && runner_ready_block(
            bl,
            bl2,
            packages,
            k,
        ),
    }
}

/// `b` is function `a` with its body made ready to run (see `runner_ready_expr`).
pub open spec fn runner_ready_function(a: FunctionDecl, b: FunctionDecl, packages: Seq<Package>, k: int) -> bool
    decreases a, 0nat,
{
    &&& a.name == b.name
    &&& a.exported == b.exported
    &&& a.type_params@ == b.type_params@
    &&& same_bounds(a.type_param_bounds@, b.type_param_bounds@)
    &&& same_params(a.params@, b.params@)
    &&& same_opt_type(a.return_type, b.return_type)
    &&& a.span == b.span
    &&& runner_ready_body(a.body, b.body, packages, k)
}

pub open spec fn runner_ready_body(a: FunctionBody, b: FunctionBody, packages: Seq<Package>, k: int) -> bool
    decreases a, 0nat,
{
    match a {
        FunctionBody::Block(bl) => b matches FunctionBody::Block(bl2) && runner_ready_block(bl, bl2, packages, k),
        FunctionBody::Expr(e) => b matches FunctionBody::Expr(e2) && runner_ready_expr(*e, *e2, packages, k),
    }
}

pub open spec fn runner_ready_block(a: Block, b: Block, packages: Seq<Package>, k: int) -> bool
    decreases a, 0nat,
{
    a.span == b.span && runner_ready_stmts(a.statements@, b.statements@, packages, k)
}

pub open spec fn runner_ready_stmts(a: Seq<Stmt>, b: Seq<Stmt>, packages: Seq<Package>, k: int) -> bool
    decreases a, 1nat,
{
    a.len() == b.len() && forall|i: int| #![trigger a[i]] 0 <= i < a.len() ==> runner_ready_stmt(a[i], b[i], packages, k)
}

pub open spec fn runner_ready_opt_expr(a: Option<Expr>, b: Option<Expr>, packages: Seq<Package>, k: int) -> bool
    decreases a, 0nat,
{
    match a {
        Some(e) => b matches Some(e2) && runner_ready_expr(e, e2, packages, k),
        None => b is None,
    }
}

/// `b` is statement `a` with every expression in it made ready to run (see
/// `runner_ready_expr`).
pub open spec fn runner_ready_stmt(a: Stmt, b: Stmt, packages: Seq<Package>, k: int) -> bool
    decreases a, 0nat,
{
    a.span == b.span && match a.kind {
        StmtKind::Let { name, mutable, type_annotation, value } => b.kind matches StmtKind::Let {
            name: n2,
            mutable: m2,
            type_annotation: t2,
            value: v2,
        } && n2 == name && m2 == mutable && same_opt_type(type_annotation, t2) && runner_ready_opt_expr(
            value,
            v2,
            packages,
            k,
        ),
        StmtKind::Assign { target, op, value } => b.kind matches StmtKind::Assign { target: t2, op: o2, value: v2 } && o2
            == op && runner_ready_expr(target, t2, packages, k) && runner_ready_expr(value, v2, packages, k),
        StmtKind::Return { value } => b.kind matches StmtKind::Return { value: v2 } && runner_ready_opt_expr(
            value,
            v2,
            packages,
            k,
        ),
        StmtKind::If { condition, then_branch, else_branch } => b.kind matches StmtKind::If {
            condition: c2,
            then_branch: t2,
            else_branch: e2,
        } && runner_ready_expr(condition, c2, packages, k) && runner_ready_block(then_branch, t2, packages, k)
            && match else_branch {
            Some(ElseBranch::Block(bl)) => e2 matches Some(ElseBranch::Block(bl2)) && runner_ready_block(
                bl,
                bl2,
                packages,
                k,
            ),
            Some(ElseBranch::If(s)) => e2 matches Some(ElseBranch::If(s2)) && runner_ready_stmt(*s, *s2, packages, k),
            None => e2 is None,
        },
        StmtKind::While { condition, body } => b.kind matches StmtKind::While { condition: c2, body: b2 }
            && runner_ready_expr(condition, c2, packages, k) && runner_ready_block(body, b2, packages, k),
        StmtKind::For { name, iterable, body } => b.kind matches StmtKind::For { name: n2, iterable: i2, body: b2 } && n2
            == name && runner_ready_expr(iterable, i2, packages, k) && runner_ready_block(body, b2, packages, k),
        StmtKind::Expr(e) => b.kind matches StmtKind::Expr(e2) && runner_ready_expr(e, e2, packages, k),
        _ => b.kind == a.kind,
    }
}

/// A member with its methods' bodies made ready to run; fields stay as they were.
pub open spec fn runner_ready_member(a: StructMember, b: StructMember, packages: Seq<Package>, k: int) -> bool {
    match a {
        StructMember::Field(_) => b == a,
        StructMember::Method(f) => b matches StructMember::Method(f2) && runner_ready_function(f, f2, packages, k),
        StructMember::StaticMethod(f) => b matches StructMember::StaticMethod(f2) && runner_ready_function(
            f,
            f2,
            packages,
            k,
        ),
    }
}

pub open spec fn runner_ready_members(a: Seq<StructMember>, b: Seq<StructMember>, packages: Seq<Package>, k: int) -> bool {
    a.len() == b.len() && forall|i: int|
        #![trigger a[i]]
        0 <= i < a.len() ==> runner_ready_member(a[i], b[i], packages, k)
}

/// A trait method with its default body, where it has one, made ready to run.
pub open spec fn runner_ready_trait_method(a: TraitMethodDecl, b: TraitMethodDecl, packages: Seq<Package>, k: int) -> bool {
    &&& b == TraitMethodDecl { body: b.body, ..a }
    &&& match a.body {
        Some(body) => b.body matches Some(body2) && runner_ready_body(body, body2, packages, k),
        None => b.body is None,
    }
}

/// An item with every function body in it made ready to run (see
/// `runner_ready_expr`); all else stays as it was.
pub open spec fn runner_ready_item(a: Item, b: Item, packages: Seq<Package>, k: int) -> bool {
    match a {
        Item::Enum(d) => b matches Item::Enum(d2) && d2 == (crate::ast::EnumDecl { members: d2.members, ..d })
            && runner_ready_members(d.members@, d2.members@, packages, k),
        Item::Struct(d) => b matches Item::Struct(d2) && d2 == (crate::ast::StructDecl { members: d2.members, ..d })
            && runner_ready_members(d.members@, d2.members@, packages, k),
        Item::Trait(d) => b matches Item::Trait(d2) && d2 == (crate::ast::TraitDecl { methods: d2.methods, ..d })
            && d.methods@.len() == d2.methods@.len() && forall|i: int|
            #![trigger d.methods@[i]]
            0 <= i < d.methods@.len() ==> runner_ready_trait_method(d.methods@[i], d2.methods@[i], packages, k),
        Item::Impl(d) => b matches Item::Impl(d2) && d2 == (crate::ast::ImplDecl { methods: d2.methods, ..d })
            && d.methods@.len() == d2.methods@.len() && forall|i: int|
            #![trigger d.methods@[i]]
            0 <= i < d.methods@.len() ==> d2.methods@[i] == (ImplMember {
                function: d2.methods@[i].function,
                ..d.methods@[i]
            }) && runner_ready_function(d.methods@[i].function, d2.methods@[i].function, packages, k),
        Item::Extension(d) => b matches Item::Extension(d2) && d2 == (crate::ast::ExtensionDecl {
            function: d2.function,
            ..d
        }) && runner_ready_function(d.function, d2.function, packages, k),
        Item::Function(f) => b matches Item::Function(f2) && runner_ready_function(f, f2, packages, k),
        Item::Import(_) => b == a,
    }
}

/// Code made ready to run at compile time holds no `comptime` expression
/// anywhere inside it.
pub proof fn law_runner_code_has_no_comptime(a: Expr, b: Expr, packages: Seq<Package>, k: int)
    requires
        runner_ready_expr(a, b, packages, k),
    ensures
        !spec_expr_has_comptime(b),
    decreases a, 0nat,
{
    if spec_permission_value(a, packages, k) is None {
        match a.kind {
            ExprKind::Comptime(inner) => law_runner_code_has_no_comptime(*inner, b, packages, k),
            ExprKind::Array(items) => {
                let items2 = b.kind->Array_0;
                lemma_ready_exprs_clean(items@, items2@, packages, k);
            },
            ExprKind::CollectionLiteral { items, .. } => {
                let items2 = b.kind->CollectionLiteral_items;
                lemma_ready_exprs_clean(items@, items2@, packages, k);
            },
            ExprKind::Call { callee, args } => {
                law_runner_code_has_no_comptime(*callee, *b.kind->Call_callee, packages, k);
                lemma_ready_exprs_clean(args@, b.kind->Call_args@, packages, k);
            },
            ExprKind::Member { object, .. } => {
                law_runner_code_has_no_comptime(*object, *b.kind->Member_object, packages, k);
            },
            ExprKind::GenericMember { object, .. } => {
                law_runner_code_has_no_comptime(*object, *b.kind->GenericMember_object, packages, k);
            },
            ExprKind::StructInit { fields, .. } => {
                let fields2 = b.kind->StructInit_fields;
                assert(runner_ready_fields(fields@, fields2@, packages, k));
                assert forall|i: int| 0 <= i < fields2@.len() implies !spec_expr_has_comptime(
                    #[trigger] fields2@[i].value,
                ) by {
                    law_runner_code_has_no_comptime(fields@[i].value, fields2@[i].value, packages, k);
                }
            },
            ExprKind::Range { start, end, .. } => {
                law_runner_code_has_no_comptime(*start, *b.kind->Range_start, packages, k);
                law_runner_code_has_no_comptime(*end, *b.kind->Range_end, packages, k);
            },
            ExprKind::Binary { left, right, .. } => {
                law_runner_code_has_no_comptime(*left, *b.kind->Binary_left, packages, k);
                law_runner_code_has_no_comptime(*right, *b.kind->Binary_right, packages, k);
            },
            ExprKind::Unary { operand, .. } => {
                law_runner_code_has_no_comptime(*operand, *b.kind->Unary_operand, packages, k);
            },
            ExprKind::PostfixIncrement(operand) => {
                law_runner_code_has_no_comptime(*operand, *b.kind->PostfixIncrement_0, packages, k);
            },
            ExprKind::Match { value, branches } => {
                law_runner_code_has_no_comptime(*value, *b.kind->Match_value, packages, k);
                let branches2 = b.kind->Match_branches;
                assert(runner_ready_branches(branches@, branches2@, packages, k));
                assert forall|i: int| 0 <= i < branches2@.len() implies !spec_branch_has_comptime(
                    #[trigger] branches2@[i],
                ) by {
                    lemma_ready_branch_clean(branches@[i], branches2@[i], packages, k);
                }
            },
            ExprKind::Lambda(function) => {
                let f2 = b.kind->Lambda_0;
                assert(runner_ready_function(function, f2, packages, k));
                lemma_ready_body_clean(function.body, f2.body, packages, k);
            },
            ExprKind::Block(block) => {
                lemma_ready_block_clean(block, b.kind->Block_0, packages, k);
            },
            _ => {},
        }
    }
}

proof fn lemma_ready_exprs_clean(a: Seq<Expr>, b: Seq<Expr>, packages: Seq<Package>, k: int)
    requires
        runner_ready_exprs(a, b, packages, k),
    ensures
        forall|i: int| #![trigger b[i]] 0 <= i < b.len() ==> !spec_expr_has_comptime(b[i]),
    decreases a, 1nat,
{
    assert forall|i: int| #![trigger b[i]] 0 <= i < b.len() implies !spec_expr_has_comptime(b[i]) by {
        law_runner_code_has_no_comptime(a[i], b[i], packages, k);
    }
}

proof fn lemma_ready_branch_clean(a: MatchBranch, b: MatchBranch, packages: Seq<Package>, k: int)
    requires
        runner_ready_branch(a, b, packages, k),
    ensures
        !spec_branch_has_comptime(b),
    decreases a, 0nat,
{
    if let Some(g) = a.guard {
        law_runner_code_has_no_comptime(g, b.guard->0, packages, k);
    }
    match a.body {
        MatchBranchBody::Expr(e) => law_runner_code_has_no_comptime(*e, *b.body->Expr_0, packages, k),
        MatchBranchBody::Block(bl) => lemma_ready_block_clean(bl, b.body->Block_0, packages, k),
    }
}

proof fn lemma_ready_body_clean(a: FunctionBody, b: FunctionBody, packages: Seq<Package>, k: int)
    requires
        runner_ready_body(a, b, packages, k),
    ensures
        !spec_body_has_comptime(b),
    decreases a, 0nat,
{
    match a {
        FunctionBody::Block(bl) => lemma_ready_block_clean(bl, b->Block_0, packages, k),
        FunctionBody::Expr(e) => law_runner_code_has_no_comptime(*e, *b->Expr_0, packages, k),
    }
}

proof fn lemma_ready_block_clean(a: Block, b: Block, packages: Seq<Package>, k: int)
    requires
        runner_ready_block(a, b, packages, k),
    ensures
        !spec_block_has_comptime(b),
    decreases a, 0nat,
{
    lemma_ready_stmts_clean(a.statements@, b.statements@, packages, k);
    assert forall|i: int| 0 <= i < b.statements@.len() implies !spec_stmt_has_comptime(
        #[trigger] b.statements@[i],
    ) by {}
}

proof fn lemma_ready_stmts_clean(a: Seq<Stmt>, b: Seq<Stmt>, packages: Seq<Package>, k: int)
    requires
        runner_ready_stmts(a, b, packages, k),
    ensures
        forall|i: int| 0 <= i < b.len() ==> !#[trigger] spec_stmt_has_comptime(b[i]),
    decreases a, 1nat,
{
    assert forall|i: int| 0 <= i < b.len() implies !#[trigger] spec_stmt_has_comptime(b[i]) by {
        lemma_ready_stmt_clean(a[i], b[i], packages, k);
    }
}

proof fn lemma_ready_stmt_clean(a: Stmt, b: Stmt, packages: Seq<Package>, k: int)
    requires
        runner_ready_stmt(a, b, packages, k),
    ensures
        !spec_stmt_has_comptime(b),
    decreases a, 0nat,
{
    match a.kind {
        StmtKind::Let { value, .. } => {
            assert(runner_ready_opt_expr(value, b.kind->Let_value, packages, k));
            if let Some(v) = value {
                law_runner_code_has_no_comptime(v, b.kind->Let_value->0, packages, k);
            }
        },
        StmtKind::Return { value } => {
            assert(runner_ready_opt_expr(value, b.kind->Return_value, packages, k));
            if let Some(v) = value {
                law_runner_code_has_no_comptime(v, b.kind->Return_value->0, packages, k);
            }
        },
        StmtKind::Assign { target, value, .. } => {
            law_runner_code_has_no_comptime(target, b.kind->Assign_target, packages, k);
            law_runner_code_has_no_comptime(value, b.kind->Assign_value, packages, k);
        },
        StmtKind::If { condition, then_branch, else_branch } => {
            law_runner_code_has_no_comptime(condition, b.kind->If_condition, packages, k);
            lemma_ready_block_clean(then_branch, b.kind->If_then_branch, packages, k);
            match else_branch {
                Some(ElseBranch::Block(bl)) => {
                    lemma_ready_block_clean(bl, b.kind->If_else_branch->0->Block_0, packages, k);
                },
                Some(ElseBranch::If(s)) => {
                    lemma_ready_stmt_clean(*s, *b.kind->If_else_branch->0->If_0, packages, k);
                },
                None => {},
            }
        },
        StmtKind::While { condition, body } => {
            law_runner_code_has_no_comptime(condition, b.kind->While_condition, packages, k);
            lemma_ready_block_clean(body, b.kind->While_body, packages, k);
        },
        StmtKind::For { iterable, body, .. } => {
            law_runner_code_has_no_comptime(iterable, b.kind->For_iterable, packages, k);
            lemma_ready_block_clean(body, b.kind->For_body, packages, k);
        },
        StmtKind::Expr(e) => law_runner_code_has_no_comptime(e, b.kind->Expr_0, packages, k),
        _ => {},
    }
}

fn ready_expr(expr: &Expr, package: usize, packages: &[Package]) -> (out: Expr)
    ensures
        runner_ready_expr(*expr, out, packages@, package as int),
    decreases expr, 0nat,
{
    if let Some(value) = comptime_permission_value(expr, package, packages) {
        return Expr { kind: ExprKind::Bool(value), span: expr.span };
    }
    let kind = match &expr.kind {
        ExprKind::Comptime(inner) => {
            return ready_expr(inner, package, packages);
        },
        ExprKind::Identifier(name) => ExprKind::Identifier(name.clone()),
        ExprKind::Number(value) => ExprKind::Number(value.clone()),
        ExprKind::String(value) => ExprKind::String(value.clone()),
        ExprKind::Char(value) => ExprKind::Char(*value),
        ExprKind::Bool(value) => ExprKind::Bool(*value),
        ExprKind::Array(items) => ExprKind::Array(ready_exprs(items, package, packages)),
        ExprKind::CollectionLiteral { collection, items } => ExprKind::CollectionLiteral {
            collection: copy_type(collection, collection.span),
            items: ready_exprs(items, package, packages),
        },
        ExprKind::Call { callee, args } => ExprKind::Call {
            callee: Box::new(ready_expr(callee, package, packages)),
            args: ready_exprs(args, package, packages),
        },
        ExprKind::Member { object, name } => ExprKind::Member {
            object: Box::new(ready_expr(object, package, packages)),
            name: name.clone(),
        },
        ExprKind::GenericMember { object, name, args } => ExprKind::GenericMember {
            object: Box::new(ready_expr(object, package, packages)),
            name: name.clone(),
            args: copy_types(args),
        },
        ExprKind::GenericType { name, args } => ExprKind::GenericType { name: name.clone(), args: copy_types(args) },
        ExprKind::StructInit { name, args, fields } => ExprKind::StructInit {
            name: name.clone(),
            args: copy_types(args),
            fields: ready_fields(fields, package, packages),
        },
        ExprKind::Range { start, end, inclusive } => ExprKind::Range {
            start: Box::new(ready_expr(start, package, packages)),
            end: Box::new(ready_expr(end, package, packages)),
            inclusive: *inclusive,
        },
        ExprKind::Binary { left, op, right } => ExprKind::Binary {
            left: Box::new(ready_expr(left, package, packages)),
            op: *op,
            right: Box::new(ready_expr(right, package, packages)),
        },
        ExprKind::Unary { op, operand } => ExprKind::Unary {
            op: *op,
            operand: Box::new(ready_expr(operand, package, packages)),
        },
        ExprKind::PostfixIncrement(operand) => ExprKind::PostfixIncrement(
            Box::new(ready_expr(operand, package, packages)),
        ),
        ExprKind::Match { value, branches } => ExprKind::Match {
            value: Box::new(ready_expr(value, package, packages)),
            branches: ready_branches(branches, package, packages),
        },
        ExprKind::Lambda(function) => ExprKind::Lambda(ready_function(function, package, packages)),
        ExprKind::Block(block) => ExprKind::Block(ready_block(block, package, packages)),
        ExprKind::Missing => ExprKind::Missing,
    };
    Expr { kind, span: expr.span }
}

fn ready_exprs(items: &Vec<Expr>, package: usize, packages: &[Package]) -> (out: Vec<Expr>)
    ensures
        runner_ready_exprs(items@, out@, packages@, package as int),
    decreases items, 1nat,
{
    let mut out: Vec<Expr> = Vec::new();
    let mut i: usize = 0;
    while i < items.len()
        invariant
            i <= items@.len(),
            out@.len() == i,
            forall|j: int|
                #![trigger items@[j]]
                0 <= j < i ==> runner_ready_expr(items@[j], out@[j], packages@, package as int),
        decreases items.len() - i,
    {
        out.push(ready_expr(&items[i], package, packages));
        i = i + 1;
    }
    out
}

fn ready_fields(fields: &Vec<StructInitField>, package: usize, packages: &[Package]) -> (out: Vec<StructInitField>)
    ensures
        runner_ready_fields(fields@, out@, packages@, package as int),
    decreases fields, 1nat,
{
    let mut out: Vec<StructInitField> = Vec::new();
    let mut i: usize = 0;
    while i < fields.len()
        invariant
            i <= fields@.len(),
            out@.len() == i,
            forall|j: int|
                #![trigger fields@[j]]
                0 <= j < i ==> fields@[j].name == out@[j].name && fields@[j].span == out@[j].span
                    && runner_ready_expr(fields@[j].value, out@[j].value, packages@, package as int),
        decreases fields.len() - i,
    {
        let field = &fields[i];
        out.push(
            StructInitField {
                name: field.name.clone(),
                value: ready_expr(&field.value, package, packages),
                span: field.span,
            },
        );
        i = i + 1;
    }
    out
}

fn ready_branches(branches: &Vec<MatchBranch>, package: usize, packages: &[Package]) -> (out: Vec<MatchBranch>)
    ensures
        runner_ready_branches(branches@, out@, packages@, package as int),
    decreases branches, 1nat,
{
    let mut out: Vec<MatchBranch> = Vec::new();
    let mut i: usize = 0;
    while i < branches.len()
        invariant
            i <= branches@.len(),
            out@.len() == i,
            forall|j: int|
                #![trigger branches@[j]]
                0 <= j < i ==> runner_ready_branch(branches@[j], out@[j], packages@, package as int),
        decreases branches.len() - i,
    {
        out.push(ready_branch(&branches[i], package, packages));
        i = i + 1;
    }
    out
}

fn ready_branch(branch: &MatchBranch, package: usize, packages: &[Package]) -> (out: MatchBranch)
    ensures
        runner_ready_branch(*branch, out, packages@, package as int),
    decreases branch, 0nat,
{
    let guard = match &branch.guard {
        Some(g) => Some(ready_expr(g, package, packages)),
        None => None,
    };
    let body = match &branch.body {
        MatchBranchBody::Expr(e) => MatchBranchBody::Expr(Box::new(ready_expr(e, package, packages))),
        MatchBranchBody::Block(block) => MatchBranchBody::Block(ready_block(block, package, packages)),
    };
    MatchBranch { pattern: copy_pattern(&branch.pattern), guard, body, span: branch.span }
}

fn ready_function(function: &FunctionDecl, package: usize, packages: &[Package]) -> (out: FunctionDecl)
    ensures
        runner_ready_function(*function, out, packages@, package as int),
    decreases function, 0nat,
{
    FunctionDecl {
        name: match &function.name {
            Some(n) => Some(n.clone()),
            None => None,
        },
        exported: function.exported,
        type_params: copy_strings(&function.type_params),
        type_param_bounds: copy_bounds(&function.type_param_bounds),
        params: copy_params(&function.params),
        return_type: copy_opt_type(&function.return_type),
        body: ready_body(&function.body, package, packages),
        span: function.span,
    }
}

fn ready_body(body: &FunctionBody, package: usize, packages: &[Package]) -> (out: FunctionBody)
    ensures
        runner_ready_body(*body, out, packages@, package as int),
    decreases body, 0nat,
{
    match body {
        FunctionBody::Block(block) => FunctionBody::Block(ready_block(block, package, packages)),
        FunctionBody::Expr(e) => FunctionBody::Expr(Box::new(ready_expr(e, package, packages))),
    }
}

fn ready_block(block: &Block, package: usize, packages: &[Package]) -> (out: Block)
    ensures
        runner_ready_block(*block, out, packages@, package as int),
    decreases block, 0nat,
{
    Block { statements: ready_stmts(&block.statements, package, packages), span: block.span }
}

fn ready_stmts(statements: &Vec<Stmt>, package: usize, packages: &[Package]) -> (out: Vec<Stmt>)
    ensures
        runner_ready_stmts(statements@, out@, packages@, package as int),
    decreases statements, 1nat,
{
    let mut out: Vec<Stmt> = Vec::new();
    let mut i: usize = 0;
    while i < statements.len()
        invariant
            i <= statements@.len(),
            out@.len() == i,
            forall|j: int|
                #![trigger statements@[j]]
                0 <= j < i ==> runner_ready_stmt(statements@[j], out@[j], packages@, package as int),
        decreases statements.len() - i,
    {
        out.push(ready_stmt(&statements[i], package, packages));
        i = i + 1;
    }
    out
}

fn ready_opt_expr(value: &Option<Expr>, package: usize, packages: &[Package]) -> (out: Option<Expr>)
    ensures
        runner_ready_opt_expr(*value, out, packages@, package as int),
    decreases value, 0nat,
{
    match value {
        Some(e) => Some(ready_expr(e, package, packages)),
        None => None,
    }
}

fn ready_stmt(statement: &Stmt, package: usize, packages: &[Package]) -> (out: Stmt)
    ensures
        runner_ready_stmt(*statement, out, packages@, package as int),
    decreases statement, 0nat,
{
    let kind = match &statement.kind {
        StmtKind::Let { name, mutable, type_annotation, value } => StmtKind::Let {
            name: name.clone(),
            mutable: *mutable,
            type_annotation: copy_opt_type(type_annotation),
            value: ready_opt_expr(value, package, packages),
        },
        StmtKind::Assign { target, op, value } => StmtKind::Assign {
            target: ready_expr(target, package, packages),
            op: *op,
            value: ready_expr(value, package, packages),
        },
        StmtKind::Return { value } => StmtKind::Return { value: ready_opt_expr(value, package, packages) },
        StmtKind::If { condition, then_branch, else_branch } => StmtKind::If {
            condition: ready_expr(condition, package, packages),
            then_branch: ready_block(then_branch, package, packages),
            else_branch: match else_branch {
                Some(ElseBranch::Block(block)) => Some(ElseBranch::Block(ready_block(block, package, packages))),
                Some(ElseBranch::If(inner)) => Some(ElseBranch::If(Box::new(ready_stmt(inner, package, packages)))),
                None => None,
            },
        },
        StmtKind::While { condition, body } => StmtKind::While {
            condition: ready_expr(condition, package, packages),
            body: ready_block(body, package, packages),
        },
        StmtKind::For { name, iterable, body } => StmtKind::For {
            name: name.clone(),
            iterable: ready_expr(iterable, package, packages),
            body: ready_block(body, package, packages),
        },
        StmtKind::Break => StmtKind::Break,
        StmtKind::Continue => StmtKind::Continue,
        StmtKind::Expr(e) => StmtKind::Expr(ready_expr(e, package, packages)),
    };
    Stmt { kind, span: statement.span }
}

/// Makes an expression ready to run at compile time for package `package`
/// (see `runner_ready_expr`).
pub fn prepare_runner_expr(expr: &mut Expr, package: usize, packages: &[Package])
    ensures
        runner_ready_expr(*old(expr), *final(expr), packages@, package as int),
{
    let ready = ready_expr(expr, package, packages);
    *expr = ready;
}

/// Makes every expression in a statement ready to run at compile time.
pub fn prepare_runner_statement(statement: &mut Stmt, package: usize, packages: &[Package])
    ensures
        runner_ready_stmt(*old(statement), *final(statement), packages@, package as int),
{
    let ready = ready_stmt(statement, package, packages);
    *statement = ready;
}

/// Makes every statement of a block ready to run at compile time.
pub fn prepare_runner_block(block: &mut Block, package: usize, packages: &[Package])
    ensures
        runner_ready_block(*old(block), *final(block), packages@, package as int),
{
    let ready = ready_block(block, package, packages);
    *block = ready;
}

/// Makes a function body ready to run at compile time.
pub fn prepare_runner_body(body: &mut FunctionBody, package: usize, packages: &[Package])
    ensures
        runner_ready_body(*old(body), *final(body), packages@, package as int),
{
    let ready = ready_body(body, package, packages);
    *body = ready;
}

fn prepare_members(members: &mut Vec<StructMember>, package: usize, packages: &[Package])
    ensures
        runner_ready_members(old(members)@, final(members)@, packages@, package as int),
{
    let ghost original = members@;
    let mut i: usize = 0;
    while i < members.len()
        invariant
            i <= members@.len(),
            members@.len() == original.len(),
            forall|j: int|
                #![trigger original[j]]
                0 <= j < i ==> runner_ready_member(original[j], members@[j], packages@, package as int),
            forall|j: int| i <= j < members@.len() ==> members@[j] == original[j],
        decreases members.len() - i,
    {
        let replacement = match &members[i] {
            StructMember::Method(function) => Some(StructMember::Method(ready_function(function, package, packages))),
            StructMember::StaticMethod(function) => Some(
                StructMember::StaticMethod(ready_function(function, package, packages)),
            ),
            StructMember::Field(_) => None,
        };
        if let Some(member) = replacement {
            members.set(i, member);
        }
        i = i + 1;
    }
}

fn prepare_trait_methods(methods: &mut Vec<TraitMethodDecl>, package: usize, packages: &[Package])
    ensures
        old(methods)@.len() == final(methods)@.len(),
        forall|i: int|
            #![trigger old(methods)@[i]]
            0 <= i < old(methods)@.len() ==> runner_ready_trait_method(
                old(methods)@[i],
                final(methods)@[i],
                packages@,
                package as int,
            ),
{
    let ghost original = methods@;
    let mut i: usize = 0;
    while i < methods.len()
        invariant
            i <= methods@.len(),
            methods@.len() == original.len(),
            forall|j: int|
                #![trigger original[j]]
                0 <= j < i ==> runner_ready_trait_method(original[j], methods@[j], packages@, package as int),
            forall|j: int| i <= j < methods@.len() ==> methods@[j] == original[j],
        decreases methods.len() - i,
    {
        let ready = match &methods[i].body {
            Some(body) => Some(ready_body(body, package, packages)),
            None => None,
        };
        if ready.is_some() {
            methods[i].body = ready;
        }
        i = i + 1;
    }
}

fn prepare_impl_members(methods: &mut Vec<ImplMember>, package: usize, packages: &[Package])
    ensures
        old(methods)@.len() == final(methods)@.len(),
        forall|i: int|
            #![trigger old(methods)@[i]]
            0 <= i < old(methods)@.len() ==> final(methods)@[i] == (ImplMember {
                function: final(methods)@[i].function,
                ..old(methods)@[i]
            }) && runner_ready_function(old(methods)@[i].function, final(methods)@[i].function, packages@, package as int),
{
    let ghost original = methods@;
    let mut i: usize = 0;
    while i < methods.len()
        invariant
            i <= methods@.len(),
            methods@.len() == original.len(),
            forall|j: int|
                #![trigger original[j]]
                0 <= j < i ==> methods@[j] == (ImplMember { function: methods@[j].function, ..original[j] })
                    && runner_ready_function(original[j].function, methods@[j].function, packages@, package as int),
            forall|j: int| i <= j < methods@.len() ==> methods@[j] == original[j],
        decreases methods.len() - i,
    {
        let ready = ready_function(&methods[i].function, package, packages);
        methods[i].function = ready;
        i = i + 1;
    }
}

/// Makes every function body of an item ready to run at compile time for
/// package `package` (see `runner_ready_item`).
pub fn prepare_runner_item(item: &mut Item, package: usize, packages: &[Package])
    ensures
        runner_ready_item(*old(item), *final(item), packages@, package as int),
{
    match item {
        Item::Enum(decl) => prepare_members(&mut decl.members, package, packages),
        Item::Struct(decl) => prepare_members(&mut decl.members, package, packages),
        Item::Trait(decl) => prepare_trait_methods(&mut decl.methods, package, packages),
        Item::Impl(decl) => prepare_impl_members(&mut decl.methods, package, packages),
        Item::Extension(decl) => {
            let ready = ready_function(&decl.function, package, packages);
            decl.function = ready;
        },
        Item::Function(function) => {
            let ready = ready_function(function, package, packages);
            *function = ready;
        },
        Item::Import(_) => {},
    }
}

} // verus!
