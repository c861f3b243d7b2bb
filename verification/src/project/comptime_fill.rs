use vstd::prelude::*;

use crate::ast::{
    Block, ElseBranch, Expr, ExprKind, FunctionBody, FunctionDecl, Item, MatchBranch, MatchBranchBody, Stmt, StmtKind,
    StructInitField,
};
use crate::project::comptime_replace::{
    site_block, site_body, site_branch, site_branches, site_else, site_expr, site_exprs, site_fields, site_item,
    site_member, site_program, site_stmt, site_stmts, site_impl_member, site_trait_method,
};
use crate::project::comptime_sites::{
    sites_block, sites_branch, sites_branches, sites_declared_function, sites_expr, sites_exprs, sites_fields,
    sites_function, sites_impl_members, sites_item, sites_items, sites_members, sites_stmt, sites_stmts,
    sites_trait_methods, sites_scopes, item_package, SiteView,
};
use crate::project::rewrite::ScopeViews;

verus! {

// The sites that collection reports are the places that expansion fills in:
// each reported span names a `comptime` expression that replacement finds.
// This holds of code in which every `else if` holds an `if` statement, as
// parsed code does.

/// Every `else if` in the expression holds an `if` statement.
pub open spec fn tidy_expr(e: Expr) -> bool
    decreases e, 0nat,
{
    match e.kind {
        ExprKind::Comptime(inner) => tidy_expr(*inner),
        ExprKind::Array(items) => tidy_exprs(items@),
        ExprKind::CollectionLiteral { items, .. } => tidy_exprs(items@),
        ExprKind::Call { callee, args } => tidy_expr(*callee) && tidy_exprs(args@),
        ExprKind::Member { object, .. } => tidy_expr(*object),
        ExprKind::GenericMember { object, .. } => tidy_expr(*object),
        ExprKind::StructInit { fields, .. } => tidy_fields(fields@),
        ExprKind::Range { start, end, .. } => tidy_expr(*start) && tidy_expr(*end),
        ExprKind::Binary { left, right, .. } => tidy_expr(*left) && tidy_expr(*right),
        ExprKind::Unary { operand, .. } => tidy_expr(*operand),
        ExprKind::PostfixIncrement(operand) => tidy_expr(*operand),
        ExprKind::Match { value, branches } => tidy_expr(*value) && tidy_branches(branches@),
        ExprKind::Lambda(function) => tidy_body(function.body),
        ExprKind::Block(block) => tidy_block(block),
        _ => true,
    }
}

pub open spec fn tidy_exprs(s: Seq<Expr>) -> bool
    decreases s, 1nat,
{
    forall|i: int| #![trigger s[i]] 0 <= i < s.len() ==> tidy_expr(s[i])
}

pub open spec fn tidy_fields(s: Seq<StructInitField>) -> bool
    decreases s, 1nat,
{
    forall|i: int| #![trigger s[i]] 0 <= i < s.len() ==> tidy_expr(s[i].value)
}

pub open spec fn tidy_branches(s: Seq<MatchBranch>) -> bool
    decreases s, 1nat,
{
    forall|i: int| #![trigger s[i]] 0 <= i < s.len() ==> tidy_branch(s[i])
}

pub open spec fn tidy_branch(b: MatchBranch) -> bool
    decreases b, 0nat,
{
    &&& match b.guard {
        Some(g) => tidy_expr(g),
        None => true,
    }
    &&& match b.body {
        MatchBranchBody::Expr(e) => tidy_expr(*e),
        MatchBranchBody::Block(bl) => tidy_block(bl),
    }
}

pub open spec fn tidy_body(b: FunctionBody) -> bool
    decreases b, 0nat,
{
    match b {
        FunctionBody::Block(bl) => tidy_block(bl),
        FunctionBody::Expr(e) => tidy_expr(*e),
    }
}

pub open spec fn tidy_block(b: Block) -> bool
    decreases b, 0nat,
{
    tidy_stmts(b.statements@)
}

pub open spec fn tidy_stmts(s: Seq<Stmt>) -> bool
    decreases s, 1nat,
{
    forall|i: int| #![trigger s[i]] 0 <= i < s.len() ==> tidy_stmt(s[i])
}

pub open spec fn tidy_stmt(s: Stmt) -> bool
    decreases s, 0nat,
{
    match s.kind {
        StmtKind::Let { value, .. } => match value {
            Some(v) => tidy_expr(v),
            None => true,
        },
        StmtKind::Return { value } => match value {
            Some(v) => tidy_expr(v),
            None => true,
        },
        StmtKind::Assign { target, value, .. } => tidy_expr(target) && tidy_expr(value),
        StmtKind::If { condition, then_branch, else_branch } => tidy_expr(condition) && tidy_block(then_branch)
            && match else_branch {
            Some(ElseBranch::Block(bl)) => tidy_block(bl),
            Some(ElseBranch::If(inner)) => inner.kind is If && tidy_stmt(*inner),
            None => true,
        },
        StmtKind::While { condition, body } => tidy_expr(condition) && tidy_block(body),
        StmtKind::For { iterable, body, .. } => tidy_expr(iterable) && tidy_block(body),
        StmtKind::Expr(e) => tidy_expr(e),
        _ => true,
    }
}

/// Each reported site of a tidy expression is a `comptime` expression that
/// replacement finds there by its span.
pub proof fn lemma_fill_expr(package: usize, statics: Seq<Seq<char>>, scopes: ScopeViews, direct: Option<Seq<char>>, e: Expr)
    requires
        tidy_expr(e),
    ensures
        forall|k: int|
            #![trigger sites_expr(package, statics, scopes, direct, e)[k]]
            0 <= k < sites_expr(package, statics, scopes, direct, e).len() ==> site_expr(
                e,
                sites_expr(package, statics, scopes, direct, e)[k].1,
            ),
    decreases e, 0nat,
{
    let all = sites_expr(package, statics, scopes, direct, e);
    match e.kind {
        ExprKind::Comptime(inner) => {
            assert(all.len() == 1);
            assert(all[0].1 == e.span);
            assert(site_expr(e, e.span));
            assert forall|k: int| #![trigger all[k]] 0 <= k < all.len() implies site_expr(e, all[k].1) by {
                assert(k == 0);
            }
        },
        ExprKind::Array(items) => {
            lemma_fill_exprs(package, statics, scopes, items@);
            assert(all == sites_exprs(package, statics, scopes, items@));
        },
        ExprKind::CollectionLiteral { items, .. } => {
            lemma_fill_exprs(package, statics, scopes, items@);
            assert(all == sites_exprs(package, statics, scopes, items@));
        },
        ExprKind::Call { callee, args } => {
            let a = sites_expr(package, statics, scopes, None, *callee);
            let b = sites_exprs(package, statics, scopes, args@);
            lemma_fill_expr(package, statics, scopes, None, *callee);
            lemma_fill_exprs(package, statics, scopes, args@);
            assert forall|k: int| #![trigger all[k]] 0 <= k < all.len() implies site_expr(e, all[k].1) by {
                if k < a.len() {
                    assert(all[k] == a[k]);
                } else {
                    assert(all[k] == b[k - a.len()]);
                }
            }
        },
        ExprKind::Member { object, .. } => {
            lemma_fill_expr(package, statics, scopes, None, *object);
            assert(all == sites_expr(package, statics, scopes, None, *object));
        },
        ExprKind::GenericMember { object, .. } => {
            lemma_fill_expr(package, statics, scopes, None, *object);
            assert(all == sites_expr(package, statics, scopes, None, *object));
        },
        ExprKind::StructInit { fields, .. } => {
            lemma_fill_fields(package, statics, scopes, fields@);
            assert(all == sites_fields(package, statics, scopes, fields@));
        },
        ExprKind::Range { start, end, .. } => {
            let a = sites_expr(package, statics, scopes, None, *start);
            let b = sites_expr(package, statics, scopes, None, *end);
            lemma_fill_expr(package, statics, scopes, None, *start);
            lemma_fill_expr(package, statics, scopes, None, *end);
            assert forall|k: int| #![trigger all[k]] 0 <= k < all.len() implies site_expr(e, all[k].1) by {
                if k < a.len() {
                    assert(all[k] == a[k]);
                } else {
                    assert(all[k] == b[k - a.len()]);
                }
            }
        },
        ExprKind::Binary { left, right, .. } => {
            let a = sites_expr(package, statics, scopes, None, *left);
            let b = sites_expr(package, statics, scopes, None, *right);
            lemma_fill_expr(package, statics, scopes, None, *left);
            lemma_fill_expr(package, statics, scopes, None, *right);
            assert forall|k: int| #![trigger all[k]] 0 <= k < all.len() implies site_expr(e, all[k].1) by {
                if k < a.len() {
                    assert(all[k] == a[k]);
                } else {
                    assert(all[k] == b[k - a.len()]);
                }
            }
        },
        ExprKind::Unary { operand, .. } => {
            lemma_fill_expr(package, statics, scopes, None, *operand);
            assert(all == sites_expr(package, statics, scopes, None, *operand));
        },
        ExprKind::PostfixIncrement(operand) => {
            lemma_fill_expr(package, statics, scopes, None, *operand);
            assert(all == sites_expr(package, statics, scopes, None, *operand));
        },
        ExprKind::Match { value, branches } => {
            let a = sites_expr(package, statics, scopes, None, *value);
            let b = sites_branches(package, statics, scopes, branches@);
            lemma_fill_expr(package, statics, scopes, None, *value);
            lemma_fill_branches(package, statics, scopes, branches@);
            assert forall|k: int| #![trigger all[k]] 0 <= k < all.len() implies site_expr(e, all[k].1) by {
                if k < a.len() {
                    assert(all[k] == a[k]);
                } else {
                    assert(all[k] == b[k - a.len()]);
                }
            }
        },
        ExprKind::Lambda(function) => {
            lemma_fill_function(package, statics, scopes, function);
            assert(all == sites_function(package, statics, scopes, function));
        },
        ExprKind::Block(block) => {
            lemma_fill_block(package, statics, scopes, None, block);
            assert(all == sites_block(package, statics, scopes, None, block));
        },
        _ => {},
    }
}

pub proof fn lemma_fill_exprs(package: usize, statics: Seq<Seq<char>>, scopes: ScopeViews, items: Seq<Expr>)
    requires
        tidy_exprs(items),
    ensures
        forall|k: int|
            #![trigger sites_exprs(package, statics, scopes, items)[k]]
            0 <= k < sites_exprs(package, statics, scopes, items).len() ==> site_exprs(
                items,
                sites_exprs(package, statics, scopes, items)[k].1,
            ),
    decreases items, 1nat,
{
    if items.len() > 0 {
        let earlier = items.subrange(0, items.len() - 1);
        let last = items[items.len() - 1];
        let a = sites_exprs(package, statics, scopes, earlier);
        let b = sites_expr(package, statics, scopes, None, last);
        let all = sites_exprs(package, statics, scopes, items);
        assert forall|i: int| 0 <= i < earlier.len() implies #[trigger] tidy_expr(earlier[i]) by {
            assert(earlier[i] == items[i]);
        }
        assert(tidy_exprs(earlier));
        lemma_fill_exprs(package, statics, scopes, earlier);
        lemma_fill_expr(package, statics, scopes, None, last);
        assert forall|k: int| #![trigger all[k]] 0 <= k < all.len() implies site_exprs(items, all[k].1) by {
            if k < a.len() {
                assert(all[k] == a[k]);
                let j = choose|j: int| #![trigger earlier[j]] 0 <= j < earlier.len() && site_expr(earlier[j], a[k].1);
                assert(items[j] == earlier[j]);
            } else {
                assert(all[k] == b[k - a.len()]);
                assert(site_expr(items[items.len() - 1], all[k].1));
            }
        }
    }
}

pub proof fn lemma_fill_fields(package: usize, statics: Seq<Seq<char>>, scopes: ScopeViews, fields: Seq<StructInitField>)
    requires
        tidy_fields(fields),
    ensures
        forall|k: int|
            #![trigger sites_fields(package, statics, scopes, fields)[k]]
            0 <= k < sites_fields(package, statics, scopes, fields).len() ==> site_fields(
                fields,
                sites_fields(package, statics, scopes, fields)[k].1,
            ),
    decreases fields, 1nat,
{
    if fields.len() > 0 {
        let earlier = fields.subrange(0, fields.len() - 1);
        let last = fields[fields.len() - 1];
        let a = sites_fields(package, statics, scopes, earlier);
        let b = sites_expr(package, statics, scopes, None, last.value);
        let all = sites_fields(package, statics, scopes, fields);
        assert forall|i: int| 0 <= i < earlier.len() implies #[trigger] tidy_expr(earlier[i].value) by {
            assert(earlier[i] == fields[i]);
        }
        assert(tidy_fields(earlier));
        lemma_fill_fields(package, statics, scopes, earlier);
        lemma_fill_expr(package, statics, scopes, None, last.value);
        assert forall|k: int| #![trigger all[k]] 0 <= k < all.len() implies site_fields(fields, all[k].1) by {
            if k < a.len() {
                assert(all[k] == a[k]);
                let j = choose|j: int| #![trigger earlier[j]] 0 <= j < earlier.len() && site_expr(earlier[j].value, a[k].1);
                assert(fields[j] == earlier[j]);
            } else {
                assert(all[k] == b[k - a.len()]);
                assert(site_expr(fields[fields.len() - 1].value, all[k].1));
            }
        }
    }
}

pub proof fn lemma_fill_branches(package: usize, statics: Seq<Seq<char>>, scopes: ScopeViews, branches: Seq<MatchBranch>)
    requires
        tidy_branches(branches),
    ensures
        forall|k: int|
            #![trigger sites_branches(package, statics, scopes, branches)[k]]
            0 <= k < sites_branches(package, statics, scopes, branches).len() ==> site_branches(
                branches,
                sites_branches(package, statics, scopes, branches)[k].1,
            ),
    decreases branches, 1nat,
{
    if branches.len() > 0 {
        let earlier = branches.subrange(0, branches.len() - 1);
        let last = branches[branches.len() - 1];
        let a = sites_branches(package, statics, scopes, earlier);
        let b = sites_branch(package, statics, scopes, last);
        let all = sites_branches(package, statics, scopes, branches);
        assert forall|i: int| 0 <= i < earlier.len() implies #[trigger] tidy_branch(earlier[i]) by {
            assert(earlier[i] == branches[i]);
        }
        assert(tidy_branches(earlier));
        lemma_fill_branches(package, statics, scopes, earlier);
        lemma_fill_branch(package, statics, scopes, last);
        assert forall|k: int| #![trigger all[k]] 0 <= k < all.len() implies site_branches(branches, all[k].1) by {
            if k < a.len() {
                assert(all[k] == a[k]);
                let j = choose|j: int| #![trigger earlier[j]] 0 <= j < earlier.len() && site_branch(earlier[j], a[k].1);
                assert(branches[j] == earlier[j]);
            } else {
                assert(all[k] == b[k - a.len()]);
                assert(site_branch(branches[branches.len() - 1], all[k].1));
            }
        }
    }
}

pub proof fn lemma_fill_branch(package: usize, statics: Seq<Seq<char>>, scopes: ScopeViews, branch: MatchBranch)
    requires
        tidy_branch(branch),
    ensures
        forall|k: int|
            #![trigger sites_branch(package, statics, scopes, branch)[k]]
            0 <= k < sites_branch(package, statics, scopes, branch).len() ==> site_branch(
                branch,
                sites_branch(package, statics, scopes, branch)[k].1,
            ),
    decreases branch, 0nat,
{
    let inner = scopes.push(crate::project::rewrite_code::pattern_bindings(branch.pattern));
    let a = match branch.guard {
        Some(g) => sites_expr(package, statics, inner, None, g),
        None => seq![],
    };
    let b = match branch.body {
        MatchBranchBody::Expr(e) => sites_expr(package, statics, inner, None, *e),
        MatchBranchBody::Block(bl) => sites_block(package, statics, inner, None, bl),
    };
    let all = sites_branch(package, statics, scopes, branch);
    assert(all == a + b);
    if let Some(g) = branch.guard {
        lemma_fill_expr(package, statics, inner, None, g);
    }
    match branch.body {
        MatchBranchBody::Expr(e) => lemma_fill_expr(package, statics, inner, None, *e),
        MatchBranchBody::Block(bl) => lemma_fill_block(package, statics, inner, None, bl),
    }
    assert forall|k: int| #![trigger all[k]] 0 <= k < all.len() implies site_branch(branch, all[k].1) by {
        if k < a.len() {
            assert(all[k] == a[k]);
        } else {
            assert(all[k] == b[k - a.len()]);
        }
    }
}

pub proof fn lemma_fill_function(package: usize, statics: Seq<Seq<char>>, scopes: ScopeViews, function: FunctionDecl)
    requires
        tidy_body(function.body),
    ensures
        forall|k: int|
            #![trigger sites_function(package, statics, scopes, function)[k]]
            0 <= k < sites_function(package, statics, scopes, function).len() ==> site_body(
                function.body,
                sites_function(package, statics, scopes, function)[k].1,
            ),
    decreases function, 0nat,
{
    let inner = scopes.push(crate::project::rewrite_code::param_names(function.params@));
    match function.body {
        FunctionBody::Block(bl) => {
            lemma_fill_block(package, statics, inner, None, bl);
            assert(sites_function(package, statics, scopes, function) == sites_block(package, statics, inner, None, bl));
        },
        FunctionBody::Expr(e) => {
            lemma_fill_expr(package, statics, inner, None, *e);
            assert(sites_function(package, statics, scopes, function) == sites_expr(package, statics, inner, None, *e));
        },
    }
}

pub proof fn lemma_fill_block(
    package: usize,
    statics: Seq<Seq<char>>,
    scopes: ScopeViews,
    direct: Option<Seq<char>>,
    block: Block,
)
    requires
        tidy_block(block),
    ensures
        forall|k: int|
            #![trigger sites_block(package, statics, scopes, direct, block)[k]]
            0 <= k < sites_block(package, statics, scopes, direct, block).len() ==> site_block(
                block,
                sites_block(package, statics, scopes, direct, block)[k].1,
            ),
    decreases block, 0nat,
{
    lemma_fill_stmts(package, statics, scopes.push(seq![]), direct, block.statements@);
    assert(sites_block(package, statics, scopes, direct, block) == sites_stmts(
        package,
        statics,
        scopes.push(seq![]),
        direct,
        block.statements@,
    ));
}

pub proof fn lemma_fill_stmts(
    package: usize,
    statics: Seq<Seq<char>>,
    scopes: ScopeViews,
    direct: Option<Seq<char>>,
    statements: Seq<Stmt>,
)
    requires
        tidy_stmts(statements),
    ensures
        forall|k: int|
            #![trigger sites_stmts(package, statics, scopes, direct, statements)[k]]
            0 <= k < sites_stmts(package, statics, scopes, direct, statements).len() ==> site_stmts(
                statements,
                sites_stmts(package, statics, scopes, direct, statements)[k].1,
            ),
    decreases statements, 1nat,
{
    if statements.len() > 0 {
        let earlier = statements.subrange(0, statements.len() - 1);
        let last = statements[statements.len() - 1];
        let inner = sites_scopes(scopes, earlier);
        let d = if earlier.len() == 0 {
            direct
        } else {
            None
        };
        let a = sites_stmts(package, statics, scopes, direct, earlier);
        let b = sites_stmt(package, statics, inner, d, last);
        let all = sites_stmts(package, statics, scopes, direct, statements);
        assert(all == a + b);
        assert forall|i: int| 0 <= i < earlier.len() implies #[trigger] tidy_stmt(earlier[i]) by {
            assert(earlier[i] == statements[i]);
        }
        assert(tidy_stmts(earlier));
        lemma_fill_stmts(package, statics, scopes, direct, earlier);
        lemma_fill_stmt(package, statics, inner, d, last);
        assert forall|k: int| #![trigger all[k]] 0 <= k < all.len() implies site_stmts(statements, all[k].1) by {
            if k < a.len() {
                assert(all[k] == a[k]);
                let j = choose|j: int| #![trigger earlier[j]] 0 <= j < earlier.len() && site_stmt(earlier[j], a[k].1);
                assert(statements[j] == earlier[j]);
            } else {
                assert(all[k] == b[k - a.len()]);
                assert(site_stmt(statements[statements.len() - 1], all[k].1));
            }
        }
    }
}

pub proof fn lemma_fill_stmt(
    package: usize,
    statics: Seq<Seq<char>>,
    scopes: ScopeViews,
    direct: Option<Seq<char>>,
    statement: Stmt,
)
    requires
        tidy_stmt(statement),
    ensures
        forall|k: int|
            #![trigger sites_stmt(package, statics, scopes, direct, statement)[k]]
            0 <= k < sites_stmt(package, statics, scopes, direct, statement).len() ==> site_stmt(
                statement,
                sites_stmt(package, statics, scopes, direct, statement)[k].1,
            ),
    decreases statement, 0nat,
{
    let all = sites_stmt(package, statics, scopes, direct, statement);
    match statement.kind {
        StmtKind::Let { value, .. } => {
            if let Some(v) = value {
                lemma_fill_expr(package, statics, scopes, direct, v);
                assert(all == sites_expr(package, statics, scopes, direct, v));
            }
        },
        StmtKind::Return { value } => {
            if let Some(v) = value {
                lemma_fill_expr(package, statics, scopes, direct, v);
                assert(all == sites_expr(package, statics, scopes, direct, v));
            }
        },
        StmtKind::Assign { target, value, .. } => {
            let a = sites_expr(package, statics, scopes, None, target);
            let b = sites_expr(package, statics, scopes, direct, value);
            lemma_fill_expr(package, statics, scopes, None, target);
            lemma_fill_expr(package, statics, scopes, direct, value);
            assert forall|k: int| #![trigger all[k]] 0 <= k < all.len() implies site_stmt(statement, all[k].1) by {
                if k < a.len() {
                    assert(all[k] == a[k]);
                } else {
                    assert(all[k] == b[k - a.len()]);
                }
            }
        },
        StmtKind::If { condition, then_branch, else_branch } => {
            let a = sites_expr(package, statics, scopes, None, condition);
            let b = sites_block(package, statics, scopes, None, then_branch);
            let c = match else_branch {
                Some(ElseBranch::Block(bl)) => sites_block(package, statics, scopes, None, bl),
                Some(ElseBranch::If(s)) => sites_stmt(package, statics, scopes, None, *s),
                None => seq![],
            };
            assert(all == a + b + c);
            lemma_fill_expr(package, statics, scopes, None, condition);
            lemma_fill_block(package, statics, scopes, None, then_branch);
            match else_branch {
                Some(ElseBranch::Block(bl)) => lemma_fill_block(package, statics, scopes, None, bl),
                Some(ElseBranch::If(s)) => lemma_fill_stmt(package, statics, scopes, None, *s),
                None => {},
            }
            assert forall|k: int| #![trigger all[k]] 0 <= k < all.len() implies site_stmt(statement, all[k].1) by {
                if k < a.len() {
                    assert(all[k] == a[k]);
                } else if k < a.len() + b.len() {
                    assert(all[k] == b[k - a.len()]);
                } else {
                    assert(all[k] == c[k - a.len() - b.len()]);
                    assert(site_else(else_branch, all[k].1));
                }
            }
        },
        StmtKind::While { condition, body } => {
            let a = sites_expr(package, statics, scopes, None, condition);
            let b = sites_block(package, statics, scopes, None, body);
            lemma_fill_expr(package, statics, scopes, None, condition);
            lemma_fill_block(package, statics, scopes, None, body);
            assert forall|k: int| #![trigger all[k]] 0 <= k < all.len() implies site_stmt(statement, all[k].1) by {
                if k < a.len() {
                    assert(all[k] == a[k]);
                } else {
                    assert(all[k] == b[k - a.len()]);
                }
            }
        },
        StmtKind::For { name, iterable, body } => {
            let a = sites_expr(package, statics, scopes, None, iterable);
            let b = sites_block(package, statics, scopes.push(seq![name@]), None, body);
            lemma_fill_expr(package, statics, scopes, None, iterable);
            lemma_fill_block(package, statics, scopes.push(seq![name@]), None, body);
            assert forall|k: int| #![trigger all[k]] 0 <= k < all.len() implies site_stmt(statement, all[k].1) by {
                if k < a.len() {
                    assert(all[k] == a[k]);
                } else {
                    assert(all[k] == b[k - a.len()]);
                }
            }
        },
        StmtKind::Expr(e) => {
            lemma_fill_expr(package, statics, scopes, direct, e);
            assert(all == sites_expr(package, statics, scopes, direct, e));
        },
        _ => {},
    }
}

} // verus!
