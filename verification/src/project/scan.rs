use vstd::prelude::*;

use crate::ast::{
    Block, ElseBranch, Expr, ExprKind, FunctionBody, MatchBranch, MatchBranchBody, Stmt, StmtKind,
};

verus! {

/// The expression holds a `comptime` expression somewhere inside it.
pub open spec fn spec_expr_has_comptime(expr: Expr) -> bool
    decreases expr, 0nat,
{
    match expr.kind {
        ExprKind::Comptime(_) => true,
        ExprKind::Array(items) => exists|i: int|
            #![trigger items@[i]]
            0 <= i < items@.len() && spec_expr_has_comptime(items@[i]),
        ExprKind::CollectionLiteral { items, .. } => exists|i: int|
            #![trigger items@[i]]
            0 <= i < items@.len() && spec_expr_has_comptime(items@[i]),
        ExprKind::Call { callee, args } => spec_expr_has_comptime(*callee) || exists|i: int|
            #![trigger args@[i]]
            0 <= i < args@.len() && spec_expr_has_comptime(args@[i]),
        ExprKind::Member { object, .. } => spec_expr_has_comptime(*object),
        ExprKind::GenericMember { object, .. } => spec_expr_has_comptime(*object),
        ExprKind::StructInit { fields, .. } => exists|i: int|
            #![trigger fields@[i]]
            0 <= i < fields@.len() && spec_expr_has_comptime(fields@[i].value),
        ExprKind::Range { start, end, .. } => spec_expr_has_comptime(*start)
            || spec_expr_has_comptime(*end),
        ExprKind::Binary { left, right, .. } => spec_expr_has_comptime(*left)
            || spec_expr_has_comptime(*right),
        ExprKind::Unary { operand, .. } => spec_expr_has_comptime(*operand),
        ExprKind::PostfixIncrement(operand) => spec_expr_has_comptime(*operand),
        ExprKind::Match { value, branches } => spec_expr_has_comptime(*value) || exists|i: int|
            #![trigger branches@[i]]
            0 <= i < branches@.len() && spec_branch_has_comptime(branches@[i]),
        ExprKind::Lambda(function) => spec_body_has_comptime(function.body),
        ExprKind::Block(block) => spec_block_has_comptime(block),
        _ => false,
    }
}

pub open spec fn spec_branch_has_comptime(branch: MatchBranch) -> bool
    decreases branch, 0nat,
{
    (branch.guard matches Some(g) && spec_expr_has_comptime(g)) || match branch.body {
        MatchBranchBody::Expr(expr) => spec_expr_has_comptime(*expr),
        MatchBranchBody::Block(block) => spec_block_has_comptime(block),
    }
}

pub open spec fn spec_body_has_comptime(body: FunctionBody) -> bool
    decreases body, 0nat,
{
    match body {
        FunctionBody::Block(block) => spec_block_has_comptime(block),
        FunctionBody::Expr(expr) => spec_expr_has_comptime(*expr),
    }
}

pub open spec fn spec_block_has_comptime(block: Block) -> bool
    decreases block, 0nat,
{
    exists|i: int|
        #![trigger block.statements@[i]]
        0 <= i < block.statements@.len() && spec_stmt_has_comptime(block.statements@[i])
}

pub open spec fn spec_stmt_has_comptime(statement: Stmt) -> bool
    decreases statement, 0nat,
{
    match statement.kind {
        StmtKind::Let { value, .. } => value matches Some(v) && spec_expr_has_comptime(v),
        StmtKind::Return { value } => value matches Some(v) && spec_expr_has_comptime(v),
        StmtKind::Assign { target, value, .. } => spec_expr_has_comptime(target)
            || spec_expr_has_comptime(value),
        StmtKind::If { condition, then_branch, else_branch } => spec_expr_has_comptime(condition)
            || spec_block_has_comptime(then_branch) || match else_branch {
            Some(ElseBranch::Block(block)) => spec_block_has_comptime(block),
            Some(ElseBranch::If(statement)) => spec_stmt_has_comptime(*statement),
            None => false,
        },
        StmtKind::While { condition, body } => spec_expr_has_comptime(condition)
            || spec_block_has_comptime(body),
        StmtKind::For { iterable, body, .. } => spec_expr_has_comptime(iterable)
            || spec_block_has_comptime(body),
        StmtKind::Expr(expr) => spec_expr_has_comptime(expr),
        StmtKind::Break | StmtKind::Continue => false,
    }
}

/// The statement holds a `return`, outside of nested lambdas.
pub open spec fn spec_stmt_contains_return(statement: Stmt) -> bool
    decreases statement,
{
    match statement.kind {
        StmtKind::Return { .. } => true,
        StmtKind::If { then_branch, else_branch, .. } => spec_block_contains_return(then_branch)
            || match else_branch {
            Some(ElseBranch::Block(block)) => spec_block_contains_return(block),
            Some(ElseBranch::If(statement)) => spec_stmt_contains_return(*statement),
            None => false,
        },
        StmtKind::While { body, .. } => spec_block_contains_return(body),
        StmtKind::For { body, .. } => spec_block_contains_return(body),
        _ => false,
    }
}

pub open spec fn spec_block_contains_return(block: Block) -> bool
    decreases block,
{
    exists|i: int|
        #![trigger block.statements@[i]]
        0 <= i < block.statements@.len() && spec_stmt_contains_return(block.statements@[i])
}

/// A lambda body needs an immediately invoked wrapper unless it is a list of
/// statements without `return` that ends in `return value`.
pub open spec fn spec_block_uses_iife(block: Block) -> bool {
    let statements = block.statements@;
    statements.len() > 0 && ((exists|i: int|
        #![trigger statements[i]]
        0 <= i < statements.len() - 1 && spec_stmt_contains_return(statements[i])) || !(
    statements.last().kind matches StmtKind::Return { value: Some(_) }))
}

/// Whether a lambda's block body must be wrapped to run as an expression.
pub fn lambda_source_block_uses_iife(block: &Block) -> (uses: bool)
    ensures
        uses == spec_block_uses_iife(*block),
{
    let count = block.statements.len();
    if count == 0 {
        return false;
    }
    let mut i: usize = 0;
    while i < count - 1
        invariant
            count == block.statements@.len(),
            count > 0,
            i <= count - 1,
            forall|j: int|
                #![trigger block.statements@[j]]
                0 <= j < i ==> !spec_stmt_contains_return(block.statements@[j]),
        decreases count - 1 - i,
    {
        if lambda_source_statement_contains_return(&block.statements[i]) {
            assert(spec_stmt_contains_return(block.statements@[i as int]));
            return true;
        }
        i = i + 1;
    }
    let last = &block.statements[count - 1];
    !matches!(last.kind, StmtKind::Return { value: Some(_) })
}

pub fn lambda_source_statement_contains_return(statement: &Stmt) -> (found: bool)
    ensures
        found == spec_stmt_contains_return(*statement),
    decreases statement,
{
    match &statement.kind {
        StmtKind::Return { .. } => true,
        StmtKind::If { then_branch, else_branch, .. } => {
            lambda_source_block_contains_return(then_branch) || match else_branch {
                Some(ElseBranch::Block(block)) => lambda_source_block_contains_return(block),
                Some(ElseBranch::If(statement)) => lambda_source_statement_contains_return(statement),
                None => false,
            }
        },
        StmtKind::While { body, .. } => lambda_source_block_contains_return(body),
        StmtKind::For { body, .. } => lambda_source_block_contains_return(body),
        _ => false,
    }
}

#[verifier::loop_isolation(false)]
pub fn lambda_source_block_contains_return(block: &Block) -> (found: bool)
    ensures
        found == spec_block_contains_return(*block),
    decreases block,
{
    let mut i: usize = 0;
    while i < block.statements.len()
        invariant
            i <= block.statements.len(),
            forall|j: int|
                #![trigger block.statements@[j]]
                0 <= j < i ==> !spec_stmt_contains_return(block.statements@[j]),
        decreases block.statements.len() - i,
    {
        if lambda_source_statement_contains_return(&block.statements[i]) {
            assert(spec_stmt_contains_return(block.statements@[i as int]));
            return true;
        }
        i = i + 1;
    }
    false
}

/// Whether any expression of `items` holds a `comptime` expression.
#[verifier::loop_isolation(false)]
fn any_expr_contains_comptime(items: &Vec<Expr>) -> (found: bool)
    ensures
        found == exists|i: int| #![trigger items@[i]] 0 <= i < items@.len() && spec_expr_has_comptime(items@[i]),
    decreases items, 1nat,
{
    let mut i: usize = 0;
    while i < items.len()
        invariant
            i <= items.len(),
            forall|j: int| #![trigger items@[j]] 0 <= j < i ==> !spec_expr_has_comptime(items@[j]),
        decreases items.len() - i,
    {
        if expr_contains_comptime(&items[i]) {
            return true;
        }
        i = i + 1;
    }
    false
}

/// Whether an expression holds a `comptime` expression anywhere inside it.
#[verifier::loop_isolation(false)]
pub fn expr_contains_comptime(expr: &Expr) -> (found: bool)
    ensures
        found == spec_expr_has_comptime(*expr),
    decreases expr, 0nat,
{
    match &expr.kind {
        ExprKind::Comptime(_) => true,
        ExprKind::Array(items) => any_expr_contains_comptime(items),
        ExprKind::CollectionLiteral { items, .. } => any_expr_contains_comptime(items),
        ExprKind::Call { callee, args } => expr_contains_comptime(callee)
            || any_expr_contains_comptime(args),
        ExprKind::Member { object, .. } => expr_contains_comptime(object),
        ExprKind::GenericMember { object, .. } => expr_contains_comptime(object),
        ExprKind::StructInit { fields, .. } => {
            let mut i: usize = 0;
            while i < fields.len()
                invariant
                    i <= fields.len(),
                    forall|j: int| #![trigger fields@[j]] 0 <= j < i ==> !spec_expr_has_comptime(fields@[j].value),
                decreases fields.len() - i,
            {
                if expr_contains_comptime(&fields[i].value) {
                    assert(spec_expr_has_comptime(fields@[i as int].value));
                    return true;
                }
                i = i + 1;
            }
            false
        },
        ExprKind::Range { start, end, .. } => expr_contains_comptime(start)
            || expr_contains_comptime(end),
        ExprKind::Binary { left, right, .. } => expr_contains_comptime(left)
            || expr_contains_comptime(right),
        ExprKind::Unary { operand, .. } => expr_contains_comptime(operand),
        ExprKind::PostfixIncrement(operand) => expr_contains_comptime(operand),
        ExprKind::Match { value, branches } => {
            if expr_contains_comptime(value) {
                return true;
            }
            let mut i: usize = 0;
            while i < branches.len()
                invariant
                    i <= branches.len(),
                    forall|j: int| #![trigger branches@[j]] 0 <= j < i ==> !spec_branch_has_comptime(branches@[j]),
                decreases branches.len() - i,
            {
                if branch_contains_comptime(&branches[i]) {
                    assert(spec_branch_has_comptime(branches@[i as int]));
                    return true;
                }
                i = i + 1;
            }
            false
        },
        ExprKind::Lambda(function) => body_contains_comptime(&function.body),
        ExprKind::Block(block) => block_contains_comptime(block),
        _ => false,
    }
}

/// Whether a match branch's guard or body holds a `comptime` expression.
pub fn branch_contains_comptime(branch: &MatchBranch) -> (found: bool)
    ensures
        found == spec_branch_has_comptime(*branch),
    decreases branch, 0nat,
{
    let in_guard = match &branch.guard {
        Some(guard) => expr_contains_comptime(guard),
        None => false,
    };
    in_guard || match &branch.body {
        MatchBranchBody::Expr(expr) => expr_contains_comptime(expr),
        MatchBranchBody::Block(block) => block_contains_comptime(block),
    }
}

pub fn body_contains_comptime(body: &FunctionBody) -> (found: bool)
    ensures
        found == spec_body_has_comptime(*body),
    decreases body, 0nat,
{
    match body {
        FunctionBody::Block(block) => block_contains_comptime(block),
        FunctionBody::Expr(expr) => expr_contains_comptime(expr),
    }
}

#[verifier::loop_isolation(false)]
pub fn block_contains_comptime(block: &Block) -> (found: bool)
    ensures
        found == spec_block_has_comptime(*block),
    decreases block, 0nat,
{
    let mut i: usize = 0;
    while i < block.statements.len()
        invariant
            i <= block.statements.len(),
            forall|j: int|
                #![trigger block.statements@[j]]
                0 <= j < i ==> !spec_stmt_has_comptime(block.statements@[j]),
        decreases block.statements.len() - i,
    {
        if statement_contains_comptime(&block.statements[i]) {
            assert(spec_stmt_has_comptime(block.statements@[i as int]));
            return true;
        }
        i = i + 1;
    }
    false
}

pub fn statement_contains_comptime(statement: &Stmt) -> (found: bool)
    ensures
        found == spec_stmt_has_comptime(*statement),
    decreases statement, 0nat,
{
    match &statement.kind {
        StmtKind::Let { value, .. } => match value {
            Some(value) => expr_contains_comptime(value),
            None => false,
        },
        StmtKind::Return { value } => match value {
            Some(value) => expr_contains_comptime(value),
            None => false,
        },
        StmtKind::Assign { target, value, .. } => expr_contains_comptime(target)
            || expr_contains_comptime(value),
        StmtKind::If { condition, then_branch, else_branch } => {
            expr_contains_comptime(condition) || block_contains_comptime(then_branch) || match else_branch {
                Some(ElseBranch::Block(block)) => block_contains_comptime(block),
                Some(ElseBranch::If(statement)) => statement_contains_comptime(statement),
                None => false,
            }
        },
        StmtKind::While { condition, body } => expr_contains_comptime(condition)
            || block_contains_comptime(body),
        StmtKind::For { iterable, body, .. } => expr_contains_comptime(iterable)
            || block_contains_comptime(body),
        StmtKind::Expr(expr) => expr_contains_comptime(expr),
        StmtKind::Break | StmtKind::Continue => false,
    }
}

} // verus!
