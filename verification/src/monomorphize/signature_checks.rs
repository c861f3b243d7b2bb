use vstd::prelude::*;

use crate::ast::{
    EnumVariant, ImplMember, TraitMethodDecl,
    Block, ElseBranch, Expr, ExprKind, FunctionBody, FunctionDecl, Item, MatchBranch, MatchBranchBody, Param, Program,
    Stmt, StmtKind, StructInitField, StructMember, TypeParamBound,
};
use crate::diagnostic::{Diagnostic, Severity};
use crate::monomorphize::associated_checks::{
    impl_phase_errors, trait_phase_errors, validate_associated_type_declarations,
};
use crate::monomorphize::coherence::diagnostic_views;
use crate::monomorphize::trait_objects::{
    arg_object_errors, associated_binding_errors, binding_object_errors, projection_errors, trait_object_errors,
    validate_associated_bindings, validate_bounded_projection, validate_trait_object_type,
};
use crate::span::Span;
use crate::text::string_views;

verus! {

/// The errors of the first `n` bounds of a function's type parameters: the
/// bound trait's bindings, and the trait-typed values among its arguments
/// and bound types.
pub open spec fn bound_sig_errors(items: Seq<Item>, bounds: Seq<TypeParamBound>, n: int) -> Seq<(Severity, Span, Seq<char>)>
    decreases n,
{
    if n <= 0 || n > bounds.len() {
        seq![]
    } else {
        let t = bounds[n - 1].trait_ref;
        bound_sig_errors(items, bounds, n - 1) + associated_binding_errors(items, t) + arg_object_errors(
            items,
            t.args@,
            t.args@.len() as int,
        ) + binding_object_errors(items, t.bindings@, t.bindings@.len() as int)
    }
}

/// The errors of the declared types of the first `n` parameters: trait-typed
/// values and projections on the function's type parameters.
pub open spec fn param_sig_errors(
    items: Seq<Item>,
    params: Seq<Param>,
    type_params: Seq<Seq<char>>,
    bounds: Seq<TypeParamBound>,
    n: int,
) -> Seq<(Severity, Span, Seq<char>)>
    decreases n,
{
    if n <= 0 || n > params.len() {
        seq![]
    } else {
        param_sig_errors(items, params, type_params, bounds, n - 1) + match params[n - 1].type_ref {
            Some(t) => trait_object_errors(items, t) + projection_errors(items, t, type_params, bounds),
            None => seq![],
        }
    }
}

/// The errors of a function's signature: its bounds, its parameter types,
/// then its return type.
pub open spec fn signature_errors(items: Seq<Item>, f: FunctionDecl) -> Seq<(Severity, Span, Seq<char>)> {
    bound_sig_errors(items, f.type_param_bounds@, f.type_param_bounds@.len() as int) + param_sig_errors(
        items,
        f.params@,
        string_views(f.type_params@),
        f.type_param_bounds@,
        f.params@.len() as int,
    ) + match f.return_type {
        Some(t) => trait_object_errors(items, t) + projection_errors(
            items,
            t,
            string_views(f.type_params@),
            f.type_param_bounds@,
        ),
        None => seq![],
    }
}

/// The errors of a function: its signature, then the types written in its
/// body (with each lambda checked as a function).
pub open spec fn function_object_errors(items: Seq<Item>, f: FunctionDecl) -> Seq<(Severity, Span, Seq<char>)>
    decreases f, 0nat,
{
    signature_errors(items, f) + body_object_errors(items, f.body)
}

pub open spec fn body_object_errors(items: Seq<Item>, body: FunctionBody) -> Seq<(Severity, Span, Seq<char>)>
    decreases body, 0nat,
{
    match body {
        FunctionBody::Block(b) => block_object_errors(items, b),
        FunctionBody::Expr(e) => expr_object_errors(items, *e),
    }
}

pub open spec fn block_object_errors(items: Seq<Item>, block: Block) -> Seq<(Severity, Span, Seq<char>)>
    decreases block, 0nat,
{
    stmts_object_errors(items, block.statements@)
}

pub open spec fn stmts_object_errors(items: Seq<Item>, statements: Seq<Stmt>) -> Seq<(Severity, Span, Seq<char>)>
    decreases statements, 1nat,
{
    if statements.len() == 0 {
        seq![]
    } else {
        stmts_object_errors(items, statements.subrange(0, statements.len() - 1)) + stmt_object_errors(
            items,
            statements[statements.len() - 1],
        )
    }
}

/// The errors of a statement: a `let`'s type annotation, then the
/// expressions and blocks it holds, in order.
pub open spec fn stmt_object_errors(items: Seq<Item>, statement: Stmt) -> Seq<(Severity, Span, Seq<char>)>
    decreases statement, 0nat,
{
    match statement.kind {
        StmtKind::Let { type_annotation, value, .. } => (match type_annotation {
            Some(t) => trait_object_errors(items, t),
            None => seq![],
        }) + match value {
            Some(v) => expr_object_errors(items, v),
            None => seq![],
        },
        StmtKind::Assign { target, value, .. } => expr_object_errors(items, target) + expr_object_errors(items, value),
        StmtKind::Return { value } => match value {
            Some(v) => expr_object_errors(items, v),
            None => seq![],
        },
        StmtKind::If { condition, then_branch, else_branch } => expr_object_errors(items, condition) + block_object_errors(
            items,
            then_branch,
        ) + match else_branch {
            Some(ElseBranch::Block(b)) => block_object_errors(items, b),
            Some(ElseBranch::If(s)) => stmt_object_errors(items, *s),
            None => seq![],
        },
        StmtKind::While { condition, body } => expr_object_errors(items, condition) + block_object_errors(items, body),
        StmtKind::For { iterable, body, .. } => expr_object_errors(items, iterable) + block_object_errors(items, body),
        StmtKind::Expr(e) => expr_object_errors(items, e),
        StmtKind::Break => seq![],
        StmtKind::Continue => seq![],
    }
}

/// The errors of the types written in an expression: collection literal
/// types, type arguments of members, generic names and struct literals, and
/// lambdas (checked as functions), outermost and leftmost first.
pub open spec fn expr_object_errors(items: Seq<Item>, expr: Expr) -> Seq<(Severity, Span, Seq<char>)>
    decreases expr, 0nat,
{
    match expr.kind {
        ExprKind::Array(elements) => exprs_object_errors(items, elements@),
        ExprKind::CollectionLiteral { collection, items: elements } => trait_object_errors(items, collection)
            + exprs_object_errors(items, elements@),
        ExprKind::Call { callee, args } => expr_object_errors(items, *callee) + exprs_object_errors(items, args@),
        ExprKind::Member { object, .. } => expr_object_errors(items, *object),
        ExprKind::GenericMember { object, args, .. } => expr_object_errors(items, *object) + arg_object_errors(
            items,
            args@,
            args@.len() as int,
        ),
        ExprKind::GenericType { args, .. } => arg_object_errors(items, args@, args@.len() as int),
        ExprKind::StructInit { args, fields, .. } => arg_object_errors(items, args@, args@.len() as int)
            + fields_object_errors(items, fields@),
        ExprKind::Range { start, end, .. } => expr_object_errors(items, *start) + expr_object_errors(items, *end),
        ExprKind::Binary { left, right, .. } => expr_object_errors(items, *left) + expr_object_errors(items, *right),
        ExprKind::Unary { operand, .. } => expr_object_errors(items, *operand),
        ExprKind::PostfixIncrement(operand) => expr_object_errors(items, *operand),
        ExprKind::Match { value, branches } => expr_object_errors(items, *value) + branches_object_errors(
            items,
            branches@,
        ),
        ExprKind::Lambda(function) => function_object_errors(items, function),
        ExprKind::Block(block) => block_object_errors(items, block),
        ExprKind::Comptime(inner) => expr_object_errors(items, *inner),
        _ => seq![],
    }
}

pub open spec fn exprs_object_errors(items: Seq<Item>, exprs: Seq<Expr>) -> Seq<(Severity, Span, Seq<char>)>
    decreases exprs, 1nat,
{
    if exprs.len() == 0 {
        seq![]
    } else {
        exprs_object_errors(items, exprs.subrange(0, exprs.len() - 1)) + expr_object_errors(items, exprs[exprs.len() - 1])
    }
}

pub open spec fn fields_object_errors(items: Seq<Item>, fields: Seq<StructInitField>) -> Seq<(Severity, Span, Seq<char>)>
    decreases fields, 1nat,
{
    if fields.len() == 0 {
        seq![]
    } else {
        fields_object_errors(items, fields.subrange(0, fields.len() - 1)) + expr_object_errors(
            items,
            fields[fields.len() - 1].value,
        )
    }
}

pub open spec fn branches_object_errors(items: Seq<Item>, branches: Seq<MatchBranch>) -> Seq<(Severity, Span, Seq<char>)>
    decreases branches, 1nat,
{
    if branches.len() == 0 {
        seq![]
    } else {
        branches_object_errors(items, branches.subrange(0, branches.len() - 1)) + branch_object_errors(
            items,
            branches[branches.len() - 1],
        )
    }
}

pub open spec fn branch_object_errors(items: Seq<Item>, branch: MatchBranch) -> Seq<(Severity, Span, Seq<char>)>
    decreases branch, 0nat,
{
    (match branch.guard {
        Some(g) => expr_object_errors(items, g),
        None => seq![],
    }) + match branch.body {
        MatchBranchBody::Expr(e) => expr_object_errors(items, *e),
        MatchBranchBody::Block(b) => block_object_errors(items, b),
    }
}

fn check_exprs(items: &Vec<Item>, list: &Vec<Expr>, diagnostics: &mut Vec<Diagnostic>)
    ensures
        diagnostic_views(final(diagnostics)@) == diagnostic_views(old(diagnostics)@) + exprs_object_errors(items@, list@),
    decreases list, 1nat,
{
    let ghost start = diagnostics@;
    assert(list@.take(0) =~= Seq::<Expr>::empty());
    let mut i: usize = 0;
    while i < list.len()
        invariant
            i <= list@.len(),
            diagnostic_views(diagnostics@) == diagnostic_views(start) + exprs_object_errors(items@, list@.take(i as int)),
        decreases list.len() - i,
    {
        assert(list@.take(i + 1).subrange(0, i as int) =~= list@.take(i as int));
        assert(list@.take(i + 1)[i as int] == list@[i as int]);
        check_expr(items, &list[i], diagnostics);
        proof {
            assert(diagnostic_views(diagnostics@) =~= diagnostic_views(start) + exprs_object_errors(items@, list@.take(i + 1)));
        }
        i = i + 1;
    }
    assert(list@.take(list@.len() as int) =~= list@);
}

fn check_fields(items: &Vec<Item>, list: &Vec<StructInitField>, diagnostics: &mut Vec<Diagnostic>)
    ensures
        diagnostic_views(final(diagnostics)@) == diagnostic_views(old(diagnostics)@) + fields_object_errors(items@, list@),
    decreases list, 1nat,
{
    let ghost start = diagnostics@;
    assert(list@.take(0) =~= Seq::<StructInitField>::empty());
    let mut i: usize = 0;
    while i < list.len()
        invariant
            i <= list@.len(),
            diagnostic_views(diagnostics@) == diagnostic_views(start) + fields_object_errors(items@, list@.take(i as int)),
        decreases list.len() - i,
    {
        assert(list@.take(i + 1).subrange(0, i as int) =~= list@.take(i as int));
        assert(list@.take(i + 1)[i as int] == list@[i as int]);
        check_expr(items, &list[i].value, diagnostics);
        proof {
            assert(diagnostic_views(diagnostics@) =~= diagnostic_views(start) + fields_object_errors(items@, list@.take(i + 1)));
        }
        i = i + 1;
    }
    assert(list@.take(list@.len() as int) =~= list@);
}

fn check_branches(items: &Vec<Item>, list: &Vec<MatchBranch>, diagnostics: &mut Vec<Diagnostic>)
    ensures
        diagnostic_views(final(diagnostics)@) == diagnostic_views(old(diagnostics)@) + branches_object_errors(items@, list@),
    decreases list, 1nat,
{
    let ghost start = diagnostics@;
    assert(list@.take(0) =~= Seq::<MatchBranch>::empty());
    let mut i: usize = 0;
    while i < list.len()
        invariant
            i <= list@.len(),
            diagnostic_views(diagnostics@) == diagnostic_views(start) + branches_object_errors(items@, list@.take(i as int)),
        decreases list.len() - i,
    {
        assert(list@.take(i + 1).subrange(0, i as int) =~= list@.take(i as int));
        assert(list@.take(i + 1)[i as int] == list@[i as int]);
        check_branch(items, &list[i], diagnostics);
        proof {
            assert(diagnostic_views(diagnostics@) =~= diagnostic_views(start) + branches_object_errors(items@, list@.take(i + 1)));
        }
        i = i + 1;
    }
    assert(list@.take(list@.len() as int) =~= list@);
}

fn check_stmts(items: &Vec<Item>, list: &Vec<Stmt>, diagnostics: &mut Vec<Diagnostic>)
    ensures
        diagnostic_views(final(diagnostics)@) == diagnostic_views(old(diagnostics)@) + stmts_object_errors(items@, list@),
    decreases list, 1nat,
{
    let ghost start = diagnostics@;
    assert(list@.take(0) =~= Seq::<Stmt>::empty());
    let mut i: usize = 0;
    while i < list.len()
        invariant
            i <= list@.len(),
            diagnostic_views(diagnostics@) == diagnostic_views(start) + stmts_object_errors(items@, list@.take(i as int)),
        decreases list.len() - i,
    {
        assert(list@.take(i + 1).subrange(0, i as int) =~= list@.take(i as int));
        assert(list@.take(i + 1)[i as int] == list@[i as int]);
        check_stmt(items, &list[i], diagnostics);
        proof {
            assert(diagnostic_views(diagnostics@) =~= diagnostic_views(start) + stmts_object_errors(items@, list@.take(i + 1)));
        }
        i = i + 1;
    }
    assert(list@.take(list@.len() as int) =~= list@);
}

fn check_bounds(items: &Vec<Item>, bounds: &Vec<TypeParamBound>, diagnostics: &mut Vec<Diagnostic>)
    ensures
        diagnostic_views(final(diagnostics)@) == diagnostic_views(old(diagnostics)@) + bound_sig_errors(
            items@,
            bounds@,
            bounds@.len() as int,
        ),
{
    let mut k: usize = 0;
    while k < bounds.len()
        invariant
            k <= bounds@.len(),
            diagnostic_views(diagnostics@) == diagnostic_views(old(diagnostics)@) + bound_sig_errors(items@, bounds@, k as int),
        decreases bounds.len() - k,
    {
        let t = &bounds[k].trait_ref;
        validate_associated_bindings(items, t, diagnostics);
        let ghost d1 = diagnostics@;
        let mut a: usize = 0;
        while a < t.args.len()
            invariant
                a <= t.args@.len(),
                diagnostic_views(diagnostics@) == diagnostic_views(d1) + arg_object_errors(items@, t.args@, a as int),
            decreases t.args.len() - a,
        {
            validate_trait_object_type(items, &t.args[a], diagnostics);
            proof {
                assert(diagnostic_views(diagnostics@) =~= diagnostic_views(d1) + arg_object_errors(items@, t.args@, a + 1));
            }
            a = a + 1;
        }
        let ghost d2 = diagnostics@;
        let mut b: usize = 0;
        while b < t.bindings.len()
            invariant
                b <= t.bindings@.len(),
                diagnostic_views(diagnostics@) == diagnostic_views(d2) + binding_object_errors(items@, t.bindings@, b as int),
            decreases t.bindings.len() - b,
        {
            validate_trait_object_type(items, &t.bindings[b].type_ref, diagnostics);
            proof {
                assert(diagnostic_views(diagnostics@) =~= diagnostic_views(d2) + binding_object_errors(items@, t.bindings@, b + 1));
            }
            b = b + 1;
        }
        proof {
            assert(diagnostic_views(diagnostics@) =~= diagnostic_views(old(diagnostics)@) + bound_sig_errors(items@, bounds@, k + 1));
        }
        k = k + 1;
    }
}

fn check_signature(items: &Vec<Item>, f: &FunctionDecl, diagnostics: &mut Vec<Diagnostic>)
    ensures
        diagnostic_views(final(diagnostics)@) == diagnostic_views(old(diagnostics)@) + signature_errors(items@, *f),
{
    check_bounds(items, &f.type_param_bounds, diagnostics);
    let ghost d0 = diagnostics@;
    let ghost type_params = string_views(f.type_params@);
    let mut p: usize = 0;
    while p < f.params.len()
        invariant
            p <= f.params@.len(),
            type_params == string_views(f.type_params@),
            diagnostic_views(diagnostics@) == diagnostic_views(d0) + param_sig_errors(
                items@,
                f.params@,
                type_params,
                f.type_param_bounds@,
                p as int,
            ),
        decreases f.params.len() - p,
    {
        if let Some(t) = &f.params[p].type_ref {
            validate_trait_object_type(items, t, diagnostics);
            validate_bounded_projection(items, t, &f.type_params, &f.type_param_bounds, diagnostics);
        }
        proof {
            assert(diagnostic_views(diagnostics@) =~= diagnostic_views(d0) + param_sig_errors(
                items@,
                f.params@,
                type_params,
                f.type_param_bounds@,
                p + 1,
            ));
        }
        p = p + 1;
    }
    if let Some(t) = &f.return_type {
        validate_trait_object_type(items, t, diagnostics);
        validate_bounded_projection(items, t, &f.type_params, &f.type_param_bounds, diagnostics);
    }
    proof {
        assert(diagnostic_views(diagnostics@) =~= diagnostic_views(old(diagnostics)@) + signature_errors(items@, *f));
    }
}

/// Reports `function_object_errors` for a function: its signature (bound
/// traits' bindings, trait-typed values, projections on its type
/// parameters), then the types written in its body, lambdas included.
pub fn validate_function_associated_types(items: &Vec<Item>, f: &FunctionDecl, diagnostics: &mut Vec<Diagnostic>)
    ensures
        diagnostic_views(final(diagnostics)@) == diagnostic_views(old(diagnostics)@) + function_object_errors(items@, *f),
    decreases f, 0nat,
{
    check_signature(items, f, diagnostics);
    check_body(items, &f.body, diagnostics);
    assert(diagnostic_views(diagnostics@) =~= diagnostic_views(old(diagnostics)@) + function_object_errors(items@, *f));
}

fn check_body(items: &Vec<Item>, body: &FunctionBody, diagnostics: &mut Vec<Diagnostic>)
    ensures
        diagnostic_views(final(diagnostics)@) == diagnostic_views(old(diagnostics)@) + body_object_errors(items@, *body),
    decreases body, 0nat,
{
    match body {
        FunctionBody::Block(b) => check_block(items, b, diagnostics),
        FunctionBody::Expr(e) => check_expr(items, e, diagnostics),
    }
}

fn check_block(items: &Vec<Item>, block: &Block, diagnostics: &mut Vec<Diagnostic>)
    ensures
        diagnostic_views(final(diagnostics)@) == diagnostic_views(old(diagnostics)@) + block_object_errors(items@, *block),
    decreases block, 0nat,
{
    check_stmts(items, &block.statements, diagnostics);
}

fn check_branch(items: &Vec<Item>, branch: &MatchBranch, diagnostics: &mut Vec<Diagnostic>)
    ensures
        diagnostic_views(final(diagnostics)@) == diagnostic_views(old(diagnostics)@) + branch_object_errors(items@, *branch),
    decreases branch, 0nat,
{
    if let Some(g) = &branch.guard {
        check_expr(items, g, diagnostics);
    }
    match &branch.body {
        MatchBranchBody::Expr(e) => check_expr(items, e, diagnostics),
        MatchBranchBody::Block(b) => check_block(items, b, diagnostics),
    }
    assert(diagnostic_views(diagnostics@) =~= diagnostic_views(old(diagnostics)@) + branch_object_errors(items@, *branch));
}

#[verifier::spinoff_prover]
#[verifier::rlimit(40)]
fn check_stmt(items: &Vec<Item>, statement: &Stmt, diagnostics: &mut Vec<Diagnostic>)
    ensures
        diagnostic_views(final(diagnostics)@) == diagnostic_views(old(diagnostics)@) + stmt_object_errors(items@, *statement),
    decreases statement, 0nat,
{
    let ghost d0 = diagnostics@;
    match &statement.kind {
        StmtKind::Let { type_annotation, value, .. } => {
            if let Some(t) = type_annotation {
                validate_trait_object_type(items, t, diagnostics);
            }
            let ghost d1 = diagnostics@;
            if let Some(v) = value {
                check_expr(items, v, diagnostics);
            }
        },
        StmtKind::Assign { target, value, .. } => {
            check_expr(items, target, diagnostics);
            let ghost d1 = diagnostics@;
            check_expr(items, value, diagnostics);
        },
        StmtKind::Return { value } => {
            if let Some(v) = value {
                check_expr(items, v, diagnostics);
            }
        },
        StmtKind::If { condition, then_branch, else_branch } => {
            check_expr(items, condition, diagnostics);
            let ghost d1 = diagnostics@;
            check_block(items, then_branch, diagnostics);
            match else_branch {
                Some(ElseBranch::Block(b)) => check_block(items, b, diagnostics),
                Some(ElseBranch::If(s)) => check_stmt(items, s, diagnostics),
                None => {},
            }
        },
        StmtKind::While { condition, body } => {
            check_expr(items, condition, diagnostics);
            let ghost d1 = diagnostics@;
            check_block(items, body, diagnostics);
        },
        StmtKind::For { iterable, body, .. } => {
            check_expr(items, iterable, diagnostics);
            let ghost d1 = diagnostics@;
            check_block(items, body, diagnostics);
        },
        StmtKind::Expr(e) => check_expr(items, e, diagnostics),
        StmtKind::Break => {},
        StmtKind::Continue => {},
    }
    assert(diagnostic_views(diagnostics@) =~= diagnostic_views(d0) + stmt_object_errors(items@, *statement));
}

fn check_type_args(items: &Vec<Item>, args: &Vec<crate::ast::TypeRef>, diagnostics: &mut Vec<Diagnostic>)
    ensures
        diagnostic_views(final(diagnostics)@) == diagnostic_views(old(diagnostics)@) + arg_object_errors(
            items@,
            args@,
            args@.len() as int,
        ),
{
    let mut a: usize = 0;
    while a < args.len()
        invariant
            a <= args@.len(),
            diagnostic_views(diagnostics@) == diagnostic_views(old(diagnostics)@) + arg_object_errors(items@, args@, a as int),
        decreases args.len() - a,
    {
        validate_trait_object_type(items, &args[a], diagnostics);
        proof {
            assert(diagnostic_views(diagnostics@) =~= diagnostic_views(old(diagnostics)@) + arg_object_errors(items@, args@, a + 1));
        }
        a = a + 1;
    }
}

#[verifier::spinoff_prover]
#[verifier::rlimit(40)]
fn check_expr(items: &Vec<Item>, expr: &Expr, diagnostics: &mut Vec<Diagnostic>)
    ensures
        diagnostic_views(final(diagnostics)@) == diagnostic_views(old(diagnostics)@) + expr_object_errors(items@, *expr),
    decreases expr, 0nat,
{
    let ghost d0 = diagnostics@;
    match &expr.kind {
        ExprKind::Array(elements) => check_exprs(items, elements, diagnostics),
        ExprKind::CollectionLiteral { collection, items: elements } => {
            validate_trait_object_type(items, collection, diagnostics);
            check_exprs(items, elements, diagnostics);
        },
        ExprKind::Call { callee, args } => {
            check_expr(items, callee, diagnostics);
            check_exprs(items, args, diagnostics);
        },
        ExprKind::Member { object, .. } => check_expr(items, object, diagnostics),
        ExprKind::GenericMember { object, args, .. } => {
            check_expr(items, object, diagnostics);
            check_type_args(items, args, diagnostics);
        },
        ExprKind::GenericType { args, .. } => check_type_args(items, args, diagnostics),
        ExprKind::StructInit { args, fields, .. } => {
            check_type_args(items, args, diagnostics);
            check_fields(items, fields, diagnostics);
        },
        ExprKind::Range { start, end, .. } => {
            check_expr(items, start, diagnostics);
            check_expr(items, end, diagnostics);
        },
        ExprKind::Binary { left, right, .. } => {
            check_expr(items, left, diagnostics);
            check_expr(items, right, diagnostics);
        },
        ExprKind::Unary { operand, .. } => check_expr(items, operand, diagnostics),
        ExprKind::PostfixIncrement(operand) => check_expr(items, operand, diagnostics),
        ExprKind::Match { value, branches } => {
            check_expr(items, value, diagnostics);
            check_branches(items, branches, diagnostics);
        },
        ExprKind::Lambda(function) => validate_function_associated_types(items, function, diagnostics),
        ExprKind::Block(block) => check_block(items, block, diagnostics),
        ExprKind::Comptime(inner) => check_expr(items, inner, diagnostics),
        _ => {},
    }
    assert(diagnostic_views(diagnostics@) =~= diagnostic_views(d0) + expr_object_errors(items@, *expr));
}

/// The trait-typed values among the declared types of the first `n` parameters.
pub open spec fn param_type_object_errors(items: Seq<Item>, params: Seq<Param>, n: int) -> Seq<(Severity, Span, Seq<char>)>
    decreases n,
{
    if n <= 0 || n > params.len() {
        seq![]
    } else {
        param_type_object_errors(items, params, n - 1) + match params[n - 1].type_ref {
            Some(t) => trait_object_errors(items, t),
            None => seq![],
        }
    }
}

/// The errors of the first `n` members of a struct or enum: its methods as
/// functions and, where `fields_too`, its fields' types.
pub open spec fn member_object_errors(items: Seq<Item>, members: Seq<StructMember>, fields_too: bool, n: int) -> Seq<
    (Severity, Span, Seq<char>),
>
    decreases n,
{
    if n <= 0 || n > members.len() {
        seq![]
    } else {
        member_object_errors(items, members, fields_too, n - 1) + match members[n - 1] {
            StructMember::Field(field) => if fields_too {
                trait_object_errors(items, field.type_ref)
            } else {
                seq![]
            },
            StructMember::Method(f) => function_object_errors(items, f),
            StructMember::StaticMethod(f) => function_object_errors(items, f),
        }
    }
}

pub open spec fn variant_object_errors(items: Seq<Item>, variants: Seq<EnumVariant>, n: int) -> Seq<(Severity, Span, Seq<char>)>
    decreases n,
{
    if n <= 0 || n > variants.len() {
        seq![]
    } else {
        variant_object_errors(items, variants, n - 1) + match variants[n - 1].payload {
            Some(t) => trait_object_errors(items, t),
            None => seq![],
        }
    }
}

pub open spec fn trait_method_object_errors(items: Seq<Item>, methods: Seq<TraitMethodDecl>, n: int) -> Seq<
    (Severity, Span, Seq<char>),
>
    decreases n,
{
    if n <= 0 || n > methods.len() {
        seq![]
    } else {
        trait_method_object_errors(items, methods, n - 1) + param_type_object_errors(
            items,
            methods[n - 1].params@,
            methods[n - 1].params@.len() as int,
        ) + match methods[n - 1].return_type {
            Some(t) => trait_object_errors(items, t),
            None => seq![],
        }
    }
}

pub open spec fn impl_member_object_errors(items: Seq<Item>, members: Seq<ImplMember>, n: int) -> Seq<(Severity, Span, Seq<char>)>
    decreases n,
{
    if n <= 0 || n > members.len() {
        seq![]
    } else {
        impl_member_object_errors(items, members, n - 1) + function_object_errors(items, members[n - 1].function)
    }
}

/// The errors of the types that a declaration writes: a struct's fields and
/// methods; an enum's payloads, then its methods; a trait's method
/// parameter and return types; the functions of impls, extensions and
/// function declarations.
pub open spec fn item_object_errors(items: Seq<Item>, item: Item) -> Seq<(Severity, Span, Seq<char>)> {
    match item {
        Item::Struct(d) => member_object_errors(items, d.members@, true, d.members@.len() as int),
        Item::Enum(d) => variant_object_errors(items, d.variants@, d.variants@.len() as int) + member_object_errors(
            items,
            d.members@,
            false,
            d.members@.len() as int,
        ),
        Item::Trait(d) => trait_method_object_errors(items, d.methods@, d.methods@.len() as int),
        Item::Impl(d) => impl_member_object_errors(items, d.methods@, d.methods@.len() as int),
        Item::Extension(d) => function_object_errors(items, d.function),
        Item::Function(f) => function_object_errors(items, f),
        Item::Import(_) => seq![],
    }
}

pub open spec fn item_phase_errors(items: Seq<Item>, n: int) -> Seq<(Severity, Span, Seq<char>)>
    decreases n,
{
    if n <= 0 || n > items.len() {
        seq![]
    } else {
        item_phase_errors(items, n - 1) + item_object_errors(items, items[n - 1])
    }
}

/// The full error list of `validate_associated_types`.
pub open spec fn associated_type_errors(items: Seq<Item>) -> Seq<(Severity, Span, Seq<char>)> {
    trait_phase_errors(items, items.len() as int) + impl_phase_errors(items, items.len() as int) + item_phase_errors(
        items,
        items.len() as int,
    )
}

fn check_param_types(items: &Vec<Item>, params: &Vec<Param>, diagnostics: &mut Vec<Diagnostic>)
    ensures
        diagnostic_views(final(diagnostics)@) == diagnostic_views(old(diagnostics)@) + param_type_object_errors(
            items@,
            params@,
            params@.len() as int,
        ),
{
    let mut p: usize = 0;
    while p < params.len()
        invariant
            p <= params@.len(),
            diagnostic_views(diagnostics@) == diagnostic_views(old(diagnostics)@) + param_type_object_errors(items@, params@, p as int),
        decreases params.len() - p,
    {
        if let Some(t) = &params[p].type_ref {
            validate_trait_object_type(items, t, diagnostics);
        }
        proof {
            assert(diagnostic_views(diagnostics@) =~= diagnostic_views(old(diagnostics)@) + param_type_object_errors(items@, params@, p + 1));
        }
        p = p + 1;
    }
}

fn check_members(items: &Vec<Item>, members: &Vec<StructMember>, fields_too: bool, diagnostics: &mut Vec<Diagnostic>)
    ensures
        diagnostic_views(final(diagnostics)@) == diagnostic_views(old(diagnostics)@) + member_object_errors(
            items@,
            members@,
            fields_too,
            members@.len() as int,
        ),
{
    let mut m: usize = 0;
    while m < members.len()
        invariant
            m <= members@.len(),
            diagnostic_views(diagnostics@) == diagnostic_views(old(diagnostics)@) + member_object_errors(items@, members@, fields_too, m as int),
        decreases members.len() - m,
    {
        match &members[m] {
            StructMember::Field(field) => if fields_too {
                validate_trait_object_type(items, &field.type_ref, diagnostics);
            },
            StructMember::Method(f) => validate_function_associated_types(items, f, diagnostics),
            StructMember::StaticMethod(f) => validate_function_associated_types(items, f, diagnostics),
        }
        proof {
            assert(diagnostic_views(diagnostics@) =~= diagnostic_views(old(diagnostics)@) + member_object_errors(items@, members@, fields_too, m + 1));
        }
        m = m + 1;
    }
}

fn check_item(items: &Vec<Item>, item: &Item, diagnostics: &mut Vec<Diagnostic>)
    ensures
        diagnostic_views(final(diagnostics)@) == diagnostic_views(old(diagnostics)@) + item_object_errors(items@, *item),
{
    match item {
        Item::Struct(d) => check_members(items, &d.members, true, diagnostics),
        Item::Enum(d) => {
            let mut v: usize = 0;
            while v < d.variants.len()
                invariant
                    v <= d.variants@.len(),
                    diagnostic_views(diagnostics@) == diagnostic_views(old(diagnostics)@) + variant_object_errors(items@, d.variants@, v as int),
                decreases d.variants.len() - v,
            {
                if let Some(t) = &d.variants[v].payload {
                    validate_trait_object_type(items, t, diagnostics);
                }
                proof {
                    assert(diagnostic_views(diagnostics@) =~= diagnostic_views(old(diagnostics)@) + variant_object_errors(items@, d.variants@, v + 1));
                }
                v = v + 1;
            }
            let ghost d1 = diagnostics@;
            check_members(items, &d.members, false, diagnostics);
            assert(diagnostic_views(diagnostics@) =~= diagnostic_views(old(diagnostics)@) + item_object_errors(items@, *item));
        },
        Item::Trait(d) => {
            let mut m: usize = 0;
            while m < d.methods.len()
                invariant
                    m <= d.methods@.len(),
                    diagnostic_views(diagnostics@) == diagnostic_views(old(diagnostics)@) + trait_method_object_errors(items@, d.methods@, m as int),
                decreases d.methods.len() - m,
            {
                let method = &d.methods[m];
                check_param_types(items, &method.params, diagnostics);
                let ghost d1 = diagnostics@;
                if let Some(t) = &method.return_type {
                    validate_trait_object_type(items, t, diagnostics);
                }
                proof {
                    assert(diagnostic_views(diagnostics@) =~= diagnostic_views(old(diagnostics)@) + trait_method_object_errors(items@, d.methods@, m + 1));
                }
                m = m + 1;
            }
        },
        Item::Impl(d) => {
            let mut m: usize = 0;
            while m < d.methods.len()
                invariant
                    m <= d.methods@.len(),
                    diagnostic_views(diagnostics@) == diagnostic_views(old(diagnostics)@) + impl_member_object_errors(items@, d.methods@, m as int),
                decreases d.methods.len() - m,
            {
                validate_function_associated_types(items, &d.methods[m].function, diagnostics);
                proof {
                    assert(diagnostic_views(diagnostics@) =~= diagnostic_views(old(diagnostics)@) + impl_member_object_errors(items@, d.methods@, m + 1));
                }
                m = m + 1;
            }
        },
        Item::Extension(d) => validate_function_associated_types(items, &d.function, diagnostics),
        Item::Function(f) => validate_function_associated_types(items, f, diagnostics),
        Item::Import(_) => {
            assert(diagnostic_views(diagnostics@) =~= diagnostic_views(old(diagnostics)@) + seq![]);
        },
    }
}

/// Checks the associated types of a program and reports
/// `associated_type_errors`: first each trait's own associated types and
/// methods, then each impl's definitions against its trait (see
/// `validate_associated_type_declarations`), then, declaration by
/// declaration, the types written in signatures and bodies (see
/// `item_object_errors`).
pub fn validate_associated_types(program: &Program, diagnostics: &mut Vec<Diagnostic>)
    ensures
        diagnostic_views(final(diagnostics)@) == diagnostic_views(old(diagnostics)@) + associated_type_errors(program.items@),
{
    validate_associated_type_declarations(program, diagnostics);
    let ghost d1 = diagnostics@;
    let items = &program.items;
    let mut i: usize = 0;
    while i < items.len()
        invariant
            i <= items@.len(),
            diagnostic_views(diagnostics@) == diagnostic_views(d1) + item_phase_errors(items@, i as int),
        decreases items.len() - i,
    {
        check_item(items, &items[i], diagnostics);
        proof {
            assert(diagnostic_views(diagnostics@) =~= diagnostic_views(d1) + item_phase_errors(items@, i + 1));
        }
        i = i + 1;
    }
    assert(diagnostic_views(diagnostics@) =~= diagnostic_views(old(diagnostics)@) + associated_type_errors(program.items@));
}

} // verus!
