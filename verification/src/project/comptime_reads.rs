use vstd::prelude::*;

use crate::ast::{Block, ElseBranch, Expr, ExprKind, FunctionBody, FunctionDecl, MatchBranch, MatchBranchBody, Stmt, StmtKind, StructInitField};
use crate::project::rewrite::{in_scopes, scope_views, ScopeViews};
use crate::project::rewrite_code::{names_of, param_names, params_scope, pattern_bindings, pattern_scope};
use crate::span::Span;
use crate::text::{contains_string, string_is};

verus! {

/// A name that code inside `comptime` reads but cannot have, and where it reads it.
#[derive(Debug)]
pub struct RuntimeLocalUse {
    pub name: String,
    pub span: Span,
}

pub open spec fn use_views(uses: Seq<RuntimeLocalUse>) -> Seq<(Seq<char>, Span)> {
    uses.map_values(|u: RuntimeLocalUse| (u.name@, u.span))
}

pub open spec fn opt_names(names: Option<&Vec<String>>) -> Option<Seq<Seq<char>>> {
    match names {
        Some(v) => Some(names_of(v@)),
        None => None,
    }
}

/// Whether a read of `name` inside `comptime` is reported: the comptime code
/// does not bind it itself, and either (for runtime locals, `statics` absent)
/// a runtime scope binds it, or (for runtime statics) no runtime scope binds
/// it and it names a static.
pub open spec fn reported(runtime: ScopeViews, statics: Option<Seq<Seq<char>>>, bound: Seq<Seq<char>>, name: Seq<char>) -> bool {
    !bound.contains(name) && match statics {
        None => in_scopes(runtime, name),
        Some(s) => !in_scopes(runtime, name) && s.contains(name),
    }
}

/// The names that the `let` statements among `statements` bind, in order.
pub open spec fn let_names(statements: Seq<Stmt>) -> Seq<Seq<char>>
    decreases statements.len(),
{
    if statements.len() == 0 {
        seq![]
    } else {
        let earlier = let_names(statements.drop_last());
        match statements.last().kind {
            StmtKind::Let { name, .. } => earlier.push(name@),
            _ => earlier,
        }
    }
}

/// The reported reads in an expression, in source order, where `bound` holds
/// the names that the enclosing comptime code binds.
pub open spec fn reads_expr(runtime: ScopeViews, statics: Option<Seq<Seq<char>>>, bound: Seq<Seq<char>>, expr: Expr) -> Seq<
    (Seq<char>, Span),
>
    decreases expr, 0nat,
{
    match expr.kind {
        ExprKind::Identifier(name) => if reported(runtime, statics, bound, name@) {
            seq![(name@, expr.span)]
        } else {
            seq![]
        },
        ExprKind::Comptime(inner) => reads_expr(runtime, statics, bound, *inner),
        ExprKind::Array(items) => reads_exprs(runtime, statics, bound, items@),
        ExprKind::CollectionLiteral { items, .. } => reads_exprs(runtime, statics, bound, items@),
        ExprKind::Call { callee, args } => reads_expr(runtime, statics, bound, *callee) + reads_exprs(
            runtime,
            statics,
            bound,
            args@,
        ),
        ExprKind::Member { object, .. } => reads_expr(runtime, statics, bound, *object),
        ExprKind::GenericMember { object, .. } => reads_expr(runtime, statics, bound, *object),
        ExprKind::StructInit { fields, .. } => reads_fields(runtime, statics, bound, fields@),
        ExprKind::Range { start, end, .. } => reads_expr(runtime, statics, bound, *start) + reads_expr(
            runtime,
            statics,
            bound,
            *end,
        ),
        ExprKind::Binary { left, right, .. } => reads_expr(runtime, statics, bound, *left) + reads_expr(
            runtime,
            statics,
            bound,
            *right,
        ),
        ExprKind::Unary { operand, .. } => reads_expr(runtime, statics, bound, *operand),
        ExprKind::PostfixIncrement(operand) => reads_expr(runtime, statics, bound, *operand),
        ExprKind::Match { value, branches } => reads_expr(runtime, statics, bound, *value) + reads_branches(
            runtime,
            statics,
            bound,
            branches@,
        ),
        ExprKind::Lambda(function) => reads_function(runtime, statics, bound, function),
        ExprKind::Block(block) => reads_block(runtime, statics, bound, block),
        _ => seq![],
    }
}

pub open spec fn reads_exprs(runtime: ScopeViews, statics: Option<Seq<Seq<char>>>, bound: Seq<Seq<char>>, items: Seq<Expr>) -> Seq<
    (Seq<char>, Span),
>
    decreases items, 1nat,
{
    if items.len() == 0 {
        seq![]
    } else {
        reads_exprs(runtime, statics, bound, items.subrange(0, items.len() - 1)) + reads_expr(
            runtime,
            statics,
            bound,
            items[items.len() - 1],
        )
    }
}

pub open spec fn reads_fields(
    runtime: ScopeViews,
    statics: Option<Seq<Seq<char>>>,
    bound: Seq<Seq<char>>,
    fields: Seq<StructInitField>,
) -> Seq<(Seq<char>, Span)>
    decreases fields, 1nat,
{
    if fields.len() == 0 {
        seq![]
    } else {
        reads_fields(runtime, statics, bound, fields.subrange(0, fields.len() - 1)) + reads_expr(
            runtime,
            statics,
            bound,
            fields[fields.len() - 1].value,
        )
    }
}

pub open spec fn reads_branches(
    runtime: ScopeViews,
    statics: Option<Seq<Seq<char>>>,
    bound: Seq<Seq<char>>,
    branches: Seq<MatchBranch>,
) -> Seq<(Seq<char>, Span)>
    decreases branches, 1nat,
{
    if branches.len() == 0 {
        seq![]
    } else {
        reads_branches(runtime, statics, bound, branches.subrange(0, branches.len() - 1)) + reads_branch(
            runtime,
            statics,
            bound,
            branches[branches.len() - 1],
        )
    }
}

/// A branch sees what its pattern binds, in its guard and its body.
pub open spec fn reads_branch(runtime: ScopeViews, statics: Option<Seq<Seq<char>>>, bound: Seq<Seq<char>>, branch: MatchBranch) -> Seq<
    (Seq<char>, Span),
>
    decreases branch, 0nat,
{
    let inner = bound + pattern_bindings(branch.pattern);
    let guard = match branch.guard {
        Some(g) => reads_expr(runtime, statics, inner, g),
        None => seq![],
    };
    guard + match branch.body {
        MatchBranchBody::Expr(e) => reads_expr(runtime, statics, inner, *e),
        MatchBranchBody::Block(b) => reads_block(runtime, statics, inner, b),
    }
}

/// A lambda sees its parameters.
pub open spec fn reads_function(
    runtime: ScopeViews,
    statics: Option<Seq<Seq<char>>>,
    bound: Seq<Seq<char>>,
    function: FunctionDecl,
) -> Seq<(Seq<char>, Span)>
    decreases function, 0nat,
{
    let inner = bound + param_names(function.params@);
    match function.body {
        FunctionBody::Block(b) => reads_block(runtime, statics, inner, b),
        FunctionBody::Expr(e) => reads_expr(runtime, statics, inner, *e),
    }
}

pub open spec fn reads_block(runtime: ScopeViews, statics: Option<Seq<Seq<char>>>, bound: Seq<Seq<char>>, block: Block) -> Seq<
    (Seq<char>, Span),
>
    decreases block, 0nat,
{
    reads_stmts(runtime, statics, bound, block.statements@)
}

/// Each statement sees what the `let` statements before it bind.
pub open spec fn reads_stmts(runtime: ScopeViews, statics: Option<Seq<Seq<char>>>, bound: Seq<Seq<char>>, statements: Seq<Stmt>) -> Seq<
    (Seq<char>, Span),
>
    decreases statements, 1nat,
{
    if statements.len() == 0 {
        seq![]
    } else {
        let earlier = statements.subrange(0, statements.len() - 1);
        reads_stmts(runtime, statics, bound, earlier) + reads_stmt(
            runtime,
            statics,
            bound + let_names(earlier),
            statements[statements.len() - 1],
        )
    }
}

pub open spec fn reads_stmt(runtime: ScopeViews, statics: Option<Seq<Seq<char>>>, bound: Seq<Seq<char>>, statement: Stmt) -> Seq<
    (Seq<char>, Span),
>
    decreases statement, 0nat,
{
    match statement.kind {
        StmtKind::Let { value, .. } => match value {
            Some(v) => reads_expr(runtime, statics, bound, v),
            None => seq![],
        },
        StmtKind::Return { value } => match value {
            Some(v) => reads_expr(runtime, statics, bound, v),
            None => seq![],
        },
        StmtKind::Assign { target, value, .. } => reads_expr(runtime, statics, bound, target) + reads_expr(
            runtime,
            statics,
            bound,
            value,
        ),
        StmtKind::If { condition, then_branch, else_branch } => reads_expr(runtime, statics, bound, condition)
            + reads_block(runtime, statics, bound, then_branch) + match else_branch {
            Some(ElseBranch::Block(b)) => reads_block(runtime, statics, bound, b),
            Some(ElseBranch::If(s)) => reads_stmt(runtime, statics, bound, *s),
            None => seq![],
        },
        StmtKind::While { condition, body } => reads_expr(runtime, statics, bound, condition) + reads_block(
            runtime,
            statics,
            bound,
            body,
        ),
        StmtKind::For { name, iterable, body } => reads_expr(runtime, statics, bound, iterable) + reads_block(
            runtime,
            statics,
            bound.push(name@),
            body,
        ),
        StmtKind::Expr(e) => reads_expr(runtime, statics, bound, e),
        _ => seq![],
    }
}

/// Whether one of the scopes binds `name`.
pub fn name_visible(scopes: &Vec<Vec<String>>, name: &str) -> (visible: bool)
    ensures
        visible == in_scopes(scope_views(scopes@), name@),
{
    let ghost views = scope_views(scopes@);
    let mut i: usize = 0;
    while i < scopes.len()
        invariant
            i <= scopes@.len(),
            views == scope_views(scopes@),
            forall|a: int, b: int| 0 <= a < i && 0 <= b < views[a].len() ==> #[trigger] views[a][b] != name@,
        decreases scopes.len() - i,
    {
        let mut j: usize = 0;
        while j < scopes[i].len()
            invariant
                i < scopes@.len(),
                views == scope_views(scopes@),
                j <= scopes@[i as int]@.len(),
                forall|b: int| 0 <= b < j ==> #[trigger] views[i as int][b] != name@,
            decreases scopes@[i as int]@.len() - j,
        {
            if string_is(&scopes[i][j], name) {
                assert(views[i as int][j as int] == name@);
                return true;
            }
            j = j + 1;
        }
        i = i + 1;
    }
    false
}

/// Whether `name` is among `names`.
fn names_contain(names: &Vec<String>, name: &String) -> (found: bool)
    ensures
        found == names_of(names@).contains(name@),
{
    let found = contains_string(names, name);
    proof {
        if found {
            let i = choose|i: int| 0 <= i < names@.len() && #[trigger] names@[i]@ == name@;
            assert(names_of(names@)[i] == name@);
        }
        if names_of(names@).contains(name@) {
            let i = choose|i: int| 0 <= i < names_of(names@).len() && names_of(names@)[i] == name@;
            assert(names@[i]@ == name@);
        }
    }
    found
}

/// Appends `names` to `bound`.
fn bind_names(bound: &mut Vec<String>, names: Vec<String>)
    ensures
        names_of(final(bound)@) == names_of(old(bound)@) + names_of(names@),
{
    let mut names = names;
    let ghost all = names@;
    bound.append(&mut names);
    assert(names_of(bound@) =~= names_of(old(bound)@) + names_of(all));
}

/// Drops what was bound after the first `len` names.
fn unbind_to(bound: &mut Vec<String>, len: usize)
    requires
        len <= old(bound)@.len(),
    ensures
        final(bound)@ == old(bound)@.subrange(0, len as int),
{
    bound.truncate(len);
}

proof fn lemma_names_prefix(all: Seq<String>, start: Seq<String>, extra: Seq<Seq<char>>)
    requires
        names_of(all) == names_of(start) + extra,
    ensures
        all.len() == start.len() + extra.len(),
        names_of(all.subrange(0, start.len() as int)) == names_of(start),
{
    assert(names_of(all).len() == all.len());
    assert(names_of(start).len() == start.len());
    assert(names_of(all).len() == all.len());
    assert(names_of(all.subrange(0, start.len() as int)) =~= names_of(start)) by {
        assert forall|i: int| 0 <= i < start.len() implies names_of(all.subrange(0, start.len() as int))[i] == names_of(
            start,
        )[i] by {
            assert(names_of(all)[i] == (names_of(start) + extra)[i]);
        }
    }
}

proof fn lemma_let_names_one(statement: Stmt)
    ensures
        let_names(seq![statement]) == match statement.kind {
            StmtKind::Let { name, .. } => seq![name@],
            _ => Seq::<Seq<char>>::empty(),
        },
{
    assert(seq![statement].drop_last() =~= Seq::<Stmt>::empty());
    assert(seq![statement].last() == statement);
    assert(let_names(Seq::<Stmt>::empty()) =~= Seq::<Seq<char>>::empty());
    match statement.kind {
        StmtKind::Let { name, .. } => {
            assert(Seq::<Seq<char>>::empty().push(name@) =~= seq![name@]);
        },
        _ => {},
    }
}

proof fn lemma_let_names_step(statements: Seq<Stmt>, i: int)
    requires
        0 <= i < statements.len(),
    ensures
        let_names(statements.take(i + 1)) == let_names(statements.take(i)) + let_names(seq![statements[i]]),
{
    lemma_let_names_one(statements[i]);
    assert(statements.take(i + 1).drop_last() =~= statements.take(i));
    assert(statements.take(i + 1).last() == statements[i]);
    match statements[i].kind {
        StmtKind::Let { name, .. } => {
            assert(let_names(statements.take(i)).push(name@) =~= let_names(statements.take(i)) + seq![name@]);
        },
        _ => {
            assert(let_names(statements.take(i)) + Seq::<Seq<char>>::empty() =~= let_names(statements.take(i)));
        },
    }
}

proof fn lemma_use_push(uses: Seq<RuntimeLocalUse>, item: RuntimeLocalUse)
    ensures
        use_views(uses.push(item)) == use_views(uses) + seq![(item.name@, item.span)],
{
    assert(use_views(uses.push(item)) =~= use_views(uses) + seq![(item.name@, item.span)]);
}

/// Records each reported read in an expression (see `reads_expr`).
#[verifier::spinoff_prover]
#[verifier::rlimit(40)]
fn reads_in_expr(
    expr: &Expr,
    runtime: &Vec<Vec<String>>,
    statics: Option<&Vec<String>>,
    bound: &mut Vec<String>,
    uses: &mut Vec<RuntimeLocalUse>,
)
    ensures
        names_of(final(bound)@) == names_of(old(bound)@),
        use_views(final(uses)@) == use_views(old(uses)@) + reads_expr(
            scope_views(runtime@),
            opt_names(statics),
            names_of(old(bound)@),
            *expr,
        ),
    decreases expr, 0nat,
{
    let ghost rt = scope_views(runtime@);
    let ghost st = opt_names(statics);
    let ghost b = names_of(bound@);
    let ghost start = use_views(uses@);
    match &expr.kind {
        ExprKind::Identifier(name) => {
            let counted = !names_contain(bound, name) && match statics {
                None => name_visible(runtime, name.as_str()),
                Some(names) => !name_visible(runtime, name.as_str()) && names_contain(names, name),
            };
            if counted {
                let item = RuntimeLocalUse { name: name.clone(), span: expr.span };
                proof {
                    lemma_use_push(uses@, item);
                }
                uses.push(item);
            } else {
                assert(use_views(uses@) =~= start + seq![]);
            }
        },
        ExprKind::Comptime(inner) => reads_in_expr(inner, runtime, statics, bound, uses),
        ExprKind::Array(items) => reads_in_exprs(items, runtime, statics, bound, uses),
        ExprKind::CollectionLiteral { items, .. } => reads_in_exprs(items, runtime, statics, bound, uses),
        ExprKind::Call { callee, args } => {
            reads_in_expr(callee, runtime, statics, bound, uses);
            reads_in_exprs(args, runtime, statics, bound, uses);
            assert(use_views(uses@) =~= start + (reads_expr(rt, st, b, **callee) + reads_exprs(rt, st, b, args@)));
        },
        ExprKind::Member { object, .. } => reads_in_expr(object, runtime, statics, bound, uses),
        ExprKind::GenericMember { object, .. } => reads_in_expr(object, runtime, statics, bound, uses),
        ExprKind::StructInit { fields, .. } => reads_in_fields(fields, runtime, statics, bound, uses),
        ExprKind::Range { start: first, end, .. } => {
            reads_in_expr(first, runtime, statics, bound, uses);
            reads_in_expr(end, runtime, statics, bound, uses);
            assert(use_views(uses@) =~= start + (reads_expr(rt, st, b, **first) + reads_expr(rt, st, b, **end)));
        },
        ExprKind::Binary { left, right, .. } => {
            reads_in_expr(left, runtime, statics, bound, uses);
            reads_in_expr(right, runtime, statics, bound, uses);
            assert(use_views(uses@) =~= start + (reads_expr(rt, st, b, **left) + reads_expr(rt, st, b, **right)));
        },
        ExprKind::Unary { operand, .. } => reads_in_expr(operand, runtime, statics, bound, uses),
        ExprKind::PostfixIncrement(operand) => reads_in_expr(operand, runtime, statics, bound, uses),
        ExprKind::Match { value, branches } => {
            reads_in_expr(value, runtime, statics, bound, uses);
            reads_in_branches(branches, runtime, statics, bound, uses);
            assert(use_views(uses@) =~= start + (reads_expr(rt, st, b, **value) + reads_branches(rt, st, b, branches@)));
        },
        ExprKind::Lambda(function) => reads_in_function(function, runtime, statics, bound, uses),
        ExprKind::Block(block) => reads_in_block(block, runtime, statics, bound, uses),
        _ => {
            assert(use_views(uses@) =~= start + seq![]);
        },
    }
}

fn reads_in_exprs(
    items: &Vec<Expr>,
    runtime: &Vec<Vec<String>>,
    statics: Option<&Vec<String>>,
    bound: &mut Vec<String>,
    uses: &mut Vec<RuntimeLocalUse>,
)
    ensures
        names_of(final(bound)@) == names_of(old(bound)@),
        use_views(final(uses)@) == use_views(old(uses)@) + reads_exprs(
            scope_views(runtime@),
            opt_names(statics),
            names_of(old(bound)@),
            items@,
        ),
    decreases items, 1nat,
{
    let ghost rt = scope_views(runtime@);
    let ghost st = opt_names(statics);
    let ghost b = names_of(bound@);
    let ghost start = use_views(uses@);
    assert(start + reads_exprs(rt, st, b, items@.take(0)) =~= start);
    let mut i: usize = 0;
    while i < items.len()
        invariant
            i <= items@.len(),
            rt == scope_views(runtime@),
            st == opt_names(statics),
            b == names_of(old(bound)@),
            names_of(bound@) == b,
            start == use_views(old(uses)@),
            use_views(uses@) == start + reads_exprs(rt, st, b, items@.take(i as int)),
        decreases items.len() - i,
    {
        reads_in_expr(&items[i], runtime, statics, bound, uses);
        assert(items@.take(i + 1).subrange(0, i as int) =~= items@.take(i as int));
        assert(items@.take(i + 1)[i as int] == items@[i as int]);
        assert(use_views(uses@) =~= start + reads_exprs(rt, st, b, items@.take(i + 1)));
        i = i + 1;
    }
    assert(items@.take(items@.len() as int) =~= items@);
}

fn reads_in_fields(
    fields: &Vec<StructInitField>,
    runtime: &Vec<Vec<String>>,
    statics: Option<&Vec<String>>,
    bound: &mut Vec<String>,
    uses: &mut Vec<RuntimeLocalUse>,
)
    ensures
        names_of(final(bound)@) == names_of(old(bound)@),
        use_views(final(uses)@) == use_views(old(uses)@) + reads_fields(
            scope_views(runtime@),
            opt_names(statics),
            names_of(old(bound)@),
            fields@,
        ),
    decreases fields, 1nat,
{
    let ghost rt = scope_views(runtime@);
    let ghost st = opt_names(statics);
    let ghost b = names_of(bound@);
    let ghost start = use_views(uses@);
    assert(start + reads_fields(rt, st, b, fields@.take(0)) =~= start);
    let mut i: usize = 0;
    while i < fields.len()
        invariant
            i <= fields@.len(),
            rt == scope_views(runtime@),
            st == opt_names(statics),
            b == names_of(old(bound)@),
            names_of(bound@) == b,
            start == use_views(old(uses)@),
            use_views(uses@) == start + reads_fields(rt, st, b, fields@.take(i as int)),
        decreases fields.len() - i,
    {
        reads_in_expr(&fields[i].value, runtime, statics, bound, uses);
        assert(fields@.take(i + 1).subrange(0, i as int) =~= fields@.take(i as int));
        assert(fields@.take(i + 1)[i as int] == fields@[i as int]);
        assert(use_views(uses@) =~= start + reads_fields(rt, st, b, fields@.take(i + 1)));
        i = i + 1;
    }
    assert(fields@.take(fields@.len() as int) =~= fields@);
}

fn reads_in_branches(
    branches: &Vec<MatchBranch>,
    runtime: &Vec<Vec<String>>,
    statics: Option<&Vec<String>>,
    bound: &mut Vec<String>,
    uses: &mut Vec<RuntimeLocalUse>,
)
    ensures
        names_of(final(bound)@) == names_of(old(bound)@),
        use_views(final(uses)@) == use_views(old(uses)@) + reads_branches(
            scope_views(runtime@),
            opt_names(statics),
            names_of(old(bound)@),
            branches@,
        ),
    decreases branches, 1nat,
{
    let ghost rt = scope_views(runtime@);
    let ghost st = opt_names(statics);
    let ghost b = names_of(bound@);
    let ghost start = use_views(uses@);
    assert(start + reads_branches(rt, st, b, branches@.take(0)) =~= start);
    let mut i: usize = 0;
    while i < branches.len()
        invariant
            i <= branches@.len(),
            rt == scope_views(runtime@),
            st == opt_names(statics),
            b == names_of(old(bound)@),
            names_of(bound@) == b,
            start == use_views(old(uses)@),
            use_views(uses@) == start + reads_branches(rt, st, b, branches@.take(i as int)),
        decreases branches.len() - i,
    {
        reads_in_branch(&branches[i], runtime, statics, bound, uses);
        assert(branches@.take(i + 1).subrange(0, i as int) =~= branches@.take(i as int));
        assert(branches@.take(i + 1)[i as int] == branches@[i as int]);
        assert(use_views(uses@) =~= start + reads_branches(rt, st, b, branches@.take(i + 1)));
        i = i + 1;
    }
    assert(branches@.take(branches@.len() as int) =~= branches@);
}

fn reads_in_branch(
    branch: &MatchBranch,
    runtime: &Vec<Vec<String>>,
    statics: Option<&Vec<String>>,
    bound: &mut Vec<String>,
    uses: &mut Vec<RuntimeLocalUse>,
)
    ensures
        names_of(final(bound)@) == names_of(old(bound)@),
        use_views(final(uses)@) == use_views(old(uses)@) + reads_branch(
            scope_views(runtime@),
            opt_names(statics),
            names_of(old(bound)@),
            *branch,
        ),
    decreases branch, 0nat,
{
    let ghost rt = scope_views(runtime@);
    let ghost st = opt_names(statics);
    let ghost b = names_of(bound@);
    let ghost start = use_views(uses@);
    let ghost outer = bound@;
    let len = bound.len();
    bind_names(bound, pattern_scope(&branch.pattern));
    let ghost inner = names_of(bound@);
    assert(inner == b + pattern_bindings(branch.pattern));
    if let Some(guard) = &branch.guard {
        reads_in_expr(guard, runtime, statics, bound, uses);
    }
    let ghost middle = use_views(uses@);
    match &branch.body {
        MatchBranchBody::Expr(e) => reads_in_expr(e, runtime, statics, bound, uses),
        MatchBranchBody::Block(block) => reads_in_block(block, runtime, statics, bound, uses),
    }
    proof {
        lemma_names_prefix(bound@, outer, pattern_bindings(branch.pattern));
    }
    unbind_to(bound, len);
    assert(use_views(uses@) =~= start + reads_branch(rt, st, b, *branch));
}

fn reads_in_function(
    function: &FunctionDecl,
    runtime: &Vec<Vec<String>>,
    statics: Option<&Vec<String>>,
    bound: &mut Vec<String>,
    uses: &mut Vec<RuntimeLocalUse>,
)
    ensures
        names_of(final(bound)@) == names_of(old(bound)@),
        use_views(final(uses)@) == use_views(old(uses)@) + reads_function(
            scope_views(runtime@),
            opt_names(statics),
            names_of(old(bound)@),
            *function,
        ),
    decreases function, 0nat,
{
    let ghost outer = bound@;
    let len = bound.len();
    bind_names(bound, params_scope(&function.params));
    match &function.body {
        FunctionBody::Block(block) => reads_in_block(block, runtime, statics, bound, uses),
        FunctionBody::Expr(e) => reads_in_expr(e, runtime, statics, bound, uses),
    }
    proof {
        lemma_names_prefix(bound@, outer, param_names(function.params@));
    }
    unbind_to(bound, len);
}

fn reads_in_block(
    block: &Block,
    runtime: &Vec<Vec<String>>,
    statics: Option<&Vec<String>>,
    bound: &mut Vec<String>,
    uses: &mut Vec<RuntimeLocalUse>,
)
    ensures
        names_of(final(bound)@) == names_of(old(bound)@),
        use_views(final(uses)@) == use_views(old(uses)@) + reads_block(
            scope_views(runtime@),
            opt_names(statics),
            names_of(old(bound)@),
            *block,
        ),
    decreases block, 0nat,
{
    let ghost outer = bound@;
    let len = bound.len();
    reads_in_statements(&block.statements, runtime, statics, bound, uses);
    proof {
        lemma_names_prefix(bound@, outer, let_names(block.statements@));
    }
    unbind_to(bound, len);
}

/// Records the reported reads in statements; each `let` binds its name for
/// the statements after it.
fn reads_in_statements(
    statements: &Vec<Stmt>,
    runtime: &Vec<Vec<String>>,
    statics: Option<&Vec<String>>,
    bound: &mut Vec<String>,
    uses: &mut Vec<RuntimeLocalUse>,
)
    ensures
        names_of(final(bound)@) == names_of(old(bound)@) + let_names(statements@),
        use_views(final(uses)@) == use_views(old(uses)@) + reads_stmts(
            scope_views(runtime@),
            opt_names(statics),
            names_of(old(bound)@),
            statements@,
        ),
    decreases statements, 1nat,
{
    let ghost rt = scope_views(runtime@);
    let ghost st = opt_names(statics);
    let ghost b = names_of(bound@);
    let ghost start = use_views(uses@);
    assert(start + reads_stmts(rt, st, b, statements@.take(0)) =~= start);
    assert(b + let_names(statements@.take(0)) =~= b);
    let mut i: usize = 0;
    while i < statements.len()
        invariant
            i <= statements@.len(),
            rt == scope_views(runtime@),
            st == opt_names(statics),
            b == names_of(old(bound)@),
            names_of(bound@) == b + let_names(statements@.take(i as int)),
            start == use_views(old(uses)@),
            use_views(uses@) == start + reads_stmts(rt, st, b, statements@.take(i as int)),
        decreases statements.len() - i,
    {
        reads_in_statement(&statements[i], runtime, statics, bound, uses);
        proof {
            lemma_let_names_step(statements@, i as int);
        }
        assert(statements@.take(i + 1).subrange(0, i as int) =~= statements@.take(i as int));
        assert(statements@.take(i + 1).drop_last() =~= statements@.take(i as int));
        assert(statements@.take(i + 1)[i as int] == statements@[i as int]);
        assert(use_views(uses@) =~= start + reads_stmts(rt, st, b, statements@.take(i + 1)));
        assert(names_of(bound@) =~= b + let_names(statements@.take(i + 1)));
        i = i + 1;
    }
    assert(statements@.take(statements@.len() as int) =~= statements@);
}

/// Records the reported reads in a statement (see `reads_stmt`); a `let`
/// binds its name afterwards.
#[verifier::spinoff_prover]
#[verifier::rlimit(40)]
fn reads_in_statement(
    statement: &Stmt,
    runtime: &Vec<Vec<String>>,
    statics: Option<&Vec<String>>,
    bound: &mut Vec<String>,
    uses: &mut Vec<RuntimeLocalUse>,
)
    ensures
        names_of(final(bound)@) == names_of(old(bound)@) + let_names(seq![*statement]),
        use_views(final(uses)@) == use_views(old(uses)@) + reads_stmt(
            scope_views(runtime@),
            opt_names(statics),
            names_of(old(bound)@),
            *statement,
        ),
    decreases statement, 0nat,
{
    let ghost rt = scope_views(runtime@);
    let ghost st = opt_names(statics);
    let ghost b = names_of(bound@);
    let ghost start = use_views(uses@);
    proof {
        lemma_let_names_one(*statement);
    }
    match &statement.kind {
        StmtKind::Let { name, value, .. } => {
            if let Some(v) = value {
                reads_in_expr(v, runtime, statics, bound, uses);
            } else {
                assert(use_views(uses@) =~= start + seq![]);
            }
            let ghost before = bound@;
            bound.push(name.clone());
            assert(names_of(bound@) =~= names_of(before).push(name@));
        },
        StmtKind::Return { value } => {
            if let Some(v) = value {
                reads_in_expr(v, runtime, statics, bound, uses);
            } else {
                assert(use_views(uses@) =~= start + seq![]);
            }
        },
        StmtKind::Assign { target, value, .. } => {
            reads_in_expr(target, runtime, statics, bound, uses);
            reads_in_expr(value, runtime, statics, bound, uses);
            assert(use_views(uses@) =~= start + (reads_expr(rt, st, b, *target) + reads_expr(rt, st, b, *value)));
        },
        StmtKind::If { condition, then_branch, else_branch } => {
            reads_in_expr(condition, runtime, statics, bound, uses);
            reads_in_block(then_branch, runtime, statics, bound, uses);
            let ghost middle = use_views(uses@);
            match else_branch {
                Some(ElseBranch::Block(block)) => reads_in_block(block, runtime, statics, bound, uses),
                Some(ElseBranch::If(inner)) => {
                    let ghost outer = bound@;
                    let len = bound.len();
                    reads_in_statement(inner, runtime, statics, bound, uses);
                    proof {
                        lemma_names_prefix(bound@, outer, let_names(seq![**inner]));
                    }
                    unbind_to(bound, len);
                },
                None => {},
            }
            assert(use_views(uses@) =~= start + reads_stmt(rt, st, b, *statement));
        },
        StmtKind::While { condition, body } => {
            reads_in_expr(condition, runtime, statics, bound, uses);
            reads_in_block(body, runtime, statics, bound, uses);
            assert(use_views(uses@) =~= start + (reads_expr(rt, st, b, *condition) + reads_block(rt, st, b, *body)));
        },
        StmtKind::For { name, iterable, body } => {
            reads_in_expr(iterable, runtime, statics, bound, uses);
            let ghost outer = bound@;
            let len = bound.len();
            bound.push(name.clone());
            assert(names_of(bound@) =~= b.push(name@));
            reads_in_block(body, runtime, statics, bound, uses);
            proof {
                assert(b.push(name@) =~= names_of(outer) + seq![name@]);
                lemma_names_prefix(bound@, outer, seq![name@]);
            }
            unbind_to(bound, len);
            assert(use_views(uses@) =~= start + (reads_expr(rt, st, b, *iterable) + reads_block(
                rt,
                st,
                b.push(name@),
                *body,
            )));
        },
        StmtKind::Expr(e) => reads_in_expr(e, runtime, statics, bound, uses),
        StmtKind::Break => {
            assert(use_views(uses@) =~= start + seq![]);
        },
        StmtKind::Continue => {
            assert(use_views(uses@) =~= start + seq![]);
        },
    }
    assert(names_of(bound@) =~= b + let_names(seq![*statement]));
}

/// The reads of runtime locals in a comptime expression: names that a
/// runtime scope binds and that the comptime code does not bind itself, in
/// source order.
pub fn runtime_local_uses_in_comptime(expr: &Expr, runtime_scopes: &Vec<Vec<String>>) -> (uses: Vec<RuntimeLocalUse>)
    ensures
        use_views(uses@) == reads_expr(scope_views(runtime_scopes@), None, seq![], *expr),
{
    let mut uses: Vec<RuntimeLocalUse> = Vec::new();
    let mut bound: Vec<String> = Vec::new();
    assert(names_of(bound@) =~= Seq::<Seq<char>>::empty());
    assert(use_views(uses@) =~= Seq::<(Seq<char>, Span)>::empty());
    reads_in_expr(expr, runtime_scopes, None, &mut bound, &mut uses);
    assert(use_views(uses@) =~= reads_expr(scope_views(runtime_scopes@), None, seq![], *expr));
    uses
}

/// The reads of runtime statics in a comptime expression: names of statics
/// that neither a runtime scope nor the comptime code binds, in source order.
pub fn runtime_static_uses_in_comptime(expr: &Expr, runtime_scopes: &Vec<Vec<String>>, static_names: &Vec<String>) -> (uses:
    Vec<RuntimeLocalUse>)
    ensures
        use_views(uses@) == reads_expr(scope_views(runtime_scopes@), Some(names_of(static_names@)), seq![], *expr),
{
    let mut uses: Vec<RuntimeLocalUse> = Vec::new();
    let mut bound: Vec<String> = Vec::new();
    assert(names_of(bound@) =~= Seq::<Seq<char>>::empty());
    assert(use_views(uses@) =~= Seq::<(Seq<char>, Span)>::empty());
    reads_in_expr(expr, runtime_scopes, Some(static_names), &mut bound, &mut uses);
    assert(use_views(uses@) =~= reads_expr(
        scope_views(runtime_scopes@),
        Some(names_of(static_names@)),
        seq![],
        *expr,
    ));
    uses
}

/// Whether a name could be reported in the given mode, wherever it is read.
pub open spec fn fits_mode(runtime: ScopeViews, statics: Option<Seq<Seq<char>>>, name: Seq<char>) -> bool {
    match statics {
        None => in_scopes(runtime, name),
        Some(s) => !in_scopes(runtime, name) && s.contains(name),
    }
}

pub open spec fn all_fit(runtime: ScopeViews, statics: Option<Seq<Seq<char>>>, reads: Seq<(Seq<char>, Span)>) -> bool {
    forall|i: int| 0 <= i < reads.len() ==> fits_mode(runtime, statics, #[trigger] reads[i].0)
}

proof fn lemma_fit_concat(
    runtime: ScopeViews,
    statics: Option<Seq<Seq<char>>>,
    a: Seq<(Seq<char>, Span)>,
    b: Seq<(Seq<char>, Span)>,
)
    requires
        all_fit(runtime, statics, a),
        all_fit(runtime, statics, b),
    ensures
        all_fit(runtime, statics, a + b),
{
    assert forall|i: int| 0 <= i < (a + b).len() implies fits_mode(runtime, statics, #[trigger] (a + b)[i].0) by {
        if i < a.len() {
            assert((a + b)[i] == a[i]);
        } else {
            assert((a + b)[i] == b[i - a.len()]);
        }
    }
}

proof fn lemma_expr_fits(runtime: ScopeViews, statics: Option<Seq<Seq<char>>>, bound: Seq<Seq<char>>, expr: Expr)
    ensures
        all_fit(runtime, statics, reads_expr(runtime, statics, bound, expr)),
    decreases expr, 0nat,
{
    match expr.kind {
        ExprKind::Identifier(name) => {},
        ExprKind::Comptime(inner) => lemma_expr_fits(runtime, statics, bound, *inner),
        ExprKind::Array(items) => lemma_exprs_fit(runtime, statics, bound, items@),
        ExprKind::CollectionLiteral { items, .. } => lemma_exprs_fit(runtime, statics, bound, items@),
        ExprKind::Call { callee, args } => {
            lemma_expr_fits(runtime, statics, bound, *callee);
            lemma_exprs_fit(runtime, statics, bound, args@);
            lemma_fit_concat(
                runtime,
                statics,
                reads_expr(runtime, statics, bound, *callee),
                reads_exprs(runtime, statics, bound, args@),
            );
        },
        ExprKind::Member { object, .. } => lemma_expr_fits(runtime, statics, bound, *object),
        ExprKind::GenericMember { object, .. } => lemma_expr_fits(runtime, statics, bound, *object),
        ExprKind::StructInit { fields, .. } => lemma_fields_fit(runtime, statics, bound, fields@),
        ExprKind::Range { start, end, .. } => {
            lemma_expr_fits(runtime, statics, bound, *start);
            lemma_expr_fits(runtime, statics, bound, *end);
            lemma_fit_concat(
                runtime,
                statics,
                reads_expr(runtime, statics, bound, *start),
                reads_expr(runtime, statics, bound, *end),
            );
        },
        ExprKind::Binary { left, right, .. } => {
            lemma_expr_fits(runtime, statics, bound, *left);
            lemma_expr_fits(runtime, statics, bound, *right);
            lemma_fit_concat(
                runtime,
                statics,
                reads_expr(runtime, statics, bound, *left),
                reads_expr(runtime, statics, bound, *right),
            );
        },
        ExprKind::Unary { operand, .. } => lemma_expr_fits(runtime, statics, bound, *operand),
        ExprKind::PostfixIncrement(operand) => lemma_expr_fits(runtime, statics, bound, *operand),
        ExprKind::Match { value, branches } => {
            lemma_expr_fits(runtime, statics, bound, *value);
            lemma_branches_fit(runtime, statics, bound, branches@);
            lemma_fit_concat(
                runtime,
                statics,
                reads_expr(runtime, statics, bound, *value),
                reads_branches(runtime, statics, bound, branches@),
            );
        },
        ExprKind::Lambda(function) => lemma_function_fits(runtime, statics, bound, function),
        ExprKind::Block(block) => lemma_block_fits(runtime, statics, bound, block),
        _ => {},
    }
}

proof fn lemma_exprs_fit(runtime: ScopeViews, statics: Option<Seq<Seq<char>>>, bound: Seq<Seq<char>>, items: Seq<Expr>)
    ensures
        all_fit(runtime, statics, reads_exprs(runtime, statics, bound, items)),
    decreases items, 1nat,
{
    if items.len() > 0 {
        let earlier = items.subrange(0, items.len() - 1);
        lemma_exprs_fit(runtime, statics, bound, earlier);
        lemma_expr_fits(runtime, statics, bound, items[items.len() - 1]);
        lemma_fit_concat(
            runtime,
            statics,
            reads_exprs(runtime, statics, bound, earlier),
            reads_expr(runtime, statics, bound, items[items.len() - 1]),
        );
    }
}

proof fn lemma_fields_fit(runtime: ScopeViews, statics: Option<Seq<Seq<char>>>, bound: Seq<Seq<char>>, fields: Seq<StructInitField>)
    ensures
        all_fit(runtime, statics, reads_fields(runtime, statics, bound, fields)),
    decreases fields, 1nat,
{
    if fields.len() > 0 {
        let earlier = fields.subrange(0, fields.len() - 1);
        lemma_fields_fit(runtime, statics, bound, earlier);
        lemma_expr_fits(runtime, statics, bound, fields[fields.len() - 1].value);
        lemma_fit_concat(
            runtime,
            statics,
            reads_fields(runtime, statics, bound, earlier),
            reads_expr(runtime, statics, bound, fields[fields.len() - 1].value),
        );
    }
}

proof fn lemma_branches_fit(runtime: ScopeViews, statics: Option<Seq<Seq<char>>>, bound: Seq<Seq<char>>, branches: Seq<MatchBranch>)
    ensures
        all_fit(runtime, statics, reads_branches(runtime, statics, bound, branches)),
    decreases branches, 1nat,
{
    if branches.len() > 0 {
        let earlier = branches.subrange(0, branches.len() - 1);
        lemma_branches_fit(runtime, statics, bound, earlier);
        lemma_branch_fits(runtime, statics, bound, branches[branches.len() - 1]);
        lemma_fit_concat(
            runtime,
            statics,
            reads_branches(runtime, statics, bound, earlier),
            reads_branch(runtime, statics, bound, branches[branches.len() - 1]),
        );
    }
}

proof fn lemma_branch_fits(runtime: ScopeViews, statics: Option<Seq<Seq<char>>>, bound: Seq<Seq<char>>, branch: MatchBranch)
    ensures
        all_fit(runtime, statics, reads_branch(runtime, statics, bound, branch)),
    decreases branch, 0nat,
{
    let inner = bound + pattern_bindings(branch.pattern);
    let guard = match branch.guard {
        Some(g) => reads_expr(runtime, statics, inner, g),
        None => seq![],
    };
    match branch.guard {
        Some(g) => lemma_expr_fits(runtime, statics, inner, g),
        None => {},
    }
    let body = match branch.body {
        MatchBranchBody::Expr(e) => reads_expr(runtime, statics, inner, *e),
        MatchBranchBody::Block(b) => reads_block(runtime, statics, inner, b),
    };
    match branch.body {
        MatchBranchBody::Expr(e) => lemma_expr_fits(runtime, statics, inner, *e),
        MatchBranchBody::Block(b) => lemma_block_fits(runtime, statics, inner, b),
    }
    lemma_fit_concat(runtime, statics, guard, body);
}

proof fn lemma_function_fits(runtime: ScopeViews, statics: Option<Seq<Seq<char>>>, bound: Seq<Seq<char>>, function: FunctionDecl)
    ensures
        all_fit(runtime, statics, reads_function(runtime, statics, bound, function)),
    decreases function, 0nat,
{
    let inner = bound + param_names(function.params@);
    match function.body {
        FunctionBody::Block(b) => lemma_block_fits(runtime, statics, inner, b),
        FunctionBody::Expr(e) => lemma_expr_fits(runtime, statics, inner, *e),
    }
}

proof fn lemma_block_fits(runtime: ScopeViews, statics: Option<Seq<Seq<char>>>, bound: Seq<Seq<char>>, block: Block)
    ensures
        all_fit(runtime, statics, reads_block(runtime, statics, bound, block)),
    decreases block, 0nat,
{
    lemma_stmts_fit(runtime, statics, bound, block.statements@);
}

proof fn lemma_stmts_fit(runtime: ScopeViews, statics: Option<Seq<Seq<char>>>, bound: Seq<Seq<char>>, statements: Seq<Stmt>)
    ensures
        all_fit(runtime, statics, reads_stmts(runtime, statics, bound, statements)),
    decreases statements, 1nat,
{
    if statements.len() > 0 {
        let earlier = statements.subrange(0, statements.len() - 1);
        lemma_stmts_fit(runtime, statics, bound, earlier);
        lemma_stmt_fits(runtime, statics, bound + let_names(earlier), statements[statements.len() - 1]);
        lemma_fit_concat(
            runtime,
            statics,
            reads_stmts(runtime, statics, bound, earlier),
            reads_stmt(runtime, statics, bound + let_names(earlier), statements[statements.len() - 1]),
        );
    }
}

proof fn lemma_stmt_fits(runtime: ScopeViews, statics: Option<Seq<Seq<char>>>, bound: Seq<Seq<char>>, statement: Stmt)
    ensures
        all_fit(runtime, statics, reads_stmt(runtime, statics, bound, statement)),
    decreases statement, 0nat,
{
    match statement.kind {
        StmtKind::Let { value, .. } => match value {
            Some(v) => lemma_expr_fits(runtime, statics, bound, v),
            None => {},
        },
        StmtKind::Return { value } => match value {
            Some(v) => lemma_expr_fits(runtime, statics, bound, v),
            None => {},
        },
        StmtKind::Assign { target, value, .. } => {
            lemma_expr_fits(runtime, statics, bound, target);
            lemma_expr_fits(runtime, statics, bound, value);
            lemma_fit_concat(
                runtime,
                statics,
                reads_expr(runtime, statics, bound, target),
                reads_expr(runtime, statics, bound, value),
            );
        },
        StmtKind::If { condition, then_branch, else_branch } => {
            lemma_expr_fits(runtime, statics, bound, condition);
            lemma_block_fits(runtime, statics, bound, then_branch);
            lemma_fit_concat(
                runtime,
                statics,
                reads_expr(runtime, statics, bound, condition),
                reads_block(runtime, statics, bound, then_branch),
            );
            let rest = match else_branch {
                Some(ElseBranch::Block(b)) => reads_block(runtime, statics, bound, b),
                Some(ElseBranch::If(s)) => reads_stmt(runtime, statics, bound, *s),
                None => seq![],
            };
            match else_branch {
                Some(ElseBranch::Block(b)) => lemma_block_fits(runtime, statics, bound, b),
                Some(ElseBranch::If(s)) => lemma_stmt_fits(runtime, statics, bound, *s),
                None => {},
            }
            lemma_fit_concat(
                runtime,
                statics,
                reads_expr(runtime, statics, bound, condition) + reads_block(runtime, statics, bound, then_branch),
                rest,
            );
        },
        StmtKind::While { condition, body } => {
            lemma_expr_fits(runtime, statics, bound, condition);
            lemma_block_fits(runtime, statics, bound, body);
            lemma_fit_concat(
                runtime,
                statics,
                reads_expr(runtime, statics, bound, condition),
                reads_block(runtime, statics, bound, body),
            );
        },
        StmtKind::For { name, iterable, body } => {
            lemma_expr_fits(runtime, statics, bound, iterable);
            lemma_block_fits(runtime, statics, bound.push(name@), body);
            lemma_fit_concat(
                runtime,
                statics,
                reads_expr(runtime, statics, bound, iterable),
                reads_block(runtime, statics, bound.push(name@), body),
            );
        },
        StmtKind::Expr(e) => lemma_expr_fits(runtime, statics, bound, e),
        _ => {},
    }
}

/// No name is reported both as a read of a runtime local and as a read of a
/// runtime static of the same comptime expression: a local is bound by a
/// runtime scope, a static is not.
pub proof fn law_local_and_static_reads_disjoint(expr: Expr, runtime: ScopeViews, statics: Seq<Seq<char>>)
    ensures
        forall|i: int, j: int|
            0 <= i < reads_expr(runtime, None, seq![], expr).len() && 0 <= j < reads_expr(
                runtime,
                Some(statics),
                seq![],
                expr,
            ).len() ==> #[trigger] reads_expr(runtime, None, seq![], expr)[i].0 != #[trigger] reads_expr(
                runtime,
                Some(statics),
                seq![],
                expr,
            )[j].0,
{
    lemma_expr_fits(runtime, None, seq![], expr);
    lemma_expr_fits(runtime, Some(statics), seq![], expr);
}

/// Every reported read of a runtime local names a local that a runtime
/// scope binds, and every reported read of a runtime static names a static.
pub proof fn law_reported_reads_fit(expr: Expr, runtime: ScopeViews, statics: Option<Seq<Seq<char>>>)
    ensures
        all_fit(runtime, statics, reads_expr(runtime, statics, seq![], expr)),
{
    lemma_expr_fits(runtime, statics, seq![], expr);
}

} // verus!
