use vstd::prelude::*;

use crate::ast::{
    Block, ElseBranch, Expr, ExprKind, FunctionBody, FunctionDecl, MatchBranch, MatchBranchBody, Param, Pattern, Stmt,
    StmtKind, StructInitField, TypeParamBound, TypeRef,
};
use crate::monomorphize::substitute::{copy_type, type_copied};

verus! {

/// Two types are the same, part for part.
pub open spec fn same_type(a: TypeRef, b: TypeRef) -> bool {
    type_copied(a, b, a.span)
}

pub open spec fn same_types(a: Seq<TypeRef>, b: Seq<TypeRef>) -> bool {
    a.len() == b.len() && forall|i: int| 0 <= i < a.len() ==> #[trigger] same_type(a[i], b[i])
}

pub open spec fn same_opt_type(a: Option<TypeRef>, b: Option<TypeRef>) -> bool {
    match a {
        Some(t) => b matches Some(u) && same_type(t, u),
        None => b is None,
    }
}

pub open spec fn same_bounds(a: Seq<TypeParamBound>, b: Seq<TypeParamBound>) -> bool {
    a.len() == b.len() && forall|i: int|
        #![trigger a[i]]
        0 <= i < a.len() ==> a[i].param == b[i].param && a[i].span == b[i].span && same_type(a[i].trait_ref, b[i].trait_ref)
}

pub open spec fn same_params(a: Seq<Param>, b: Seq<Param>) -> bool {
    a.len() == b.len() && forall|i: int|
        #![trigger a[i]]
        0 <= i < a.len() ==> a[i].name == b[i].name && a[i].mutable == b[i].mutable && a[i].span == b[i].span
            && same_opt_type(a[i].type_ref, b[i].type_ref)
}

/// Two expressions are the same, part for part.
pub open spec fn same_expr(a: Expr, b: Expr) -> bool
    decreases a, 0nat,
{
    a.span == b.span && match a.kind {
        ExprKind::Array(items) => b.kind matches ExprKind::Array(items2) && same_exprs(items@, items2@),
        ExprKind::CollectionLiteral { collection, items } => b.kind matches ExprKind::CollectionLiteral {
            collection: c2,
            items: items2,
        } && same_type(collection, c2) && same_exprs(items@, items2@),
        ExprKind::Call { callee, args } => b.kind matches ExprKind::Call { callee: c2, args: a2 } && same_expr(
            *callee,
            *c2,
        ) && same_exprs(args@, a2@),
        ExprKind::Member { object, name } => b.kind matches ExprKind::Member { object: o2, name: n2 } && n2 == name
            && same_expr(*object, *o2),
        ExprKind::GenericMember { object, name, args } => b.kind matches ExprKind::GenericMember {
            object: o2,
            name: n2,
            args: a2,
        } && n2 == name && same_expr(*object, *o2) && same_types(args@, a2@),
        ExprKind::GenericType { name, args } => b.kind matches ExprKind::GenericType { name: n2, args: a2 } && n2
            == name && same_types(args@, a2@),
        ExprKind::StructInit { name, args, fields } => b.kind matches ExprKind::StructInit {
            name: n2,
            args: a2,
            fields: f2,
        } && n2 == name && same_types(args@, a2@) && same_fields(fields@, f2@),
        ExprKind::Range { start, end, inclusive } => b.kind matches ExprKind::Range {
            start: s2,
            end: e2,
            inclusive: i2,
        } && i2 == inclusive && same_expr(*start, *s2) && same_expr(*end, *e2),
        ExprKind::Binary { left, op, right } => b.kind matches ExprKind::Binary { left: l2, op: o2, right: r2 } && o2
            == op && same_expr(*left, *l2) && same_expr(*right, *r2),
        ExprKind::Unary { op, operand } => b.kind matches ExprKind::Unary { op: o2, operand: x2 } && o2 == op
            && same_expr(*operand, *x2),
        ExprKind::PostfixIncrement(operand) => b.kind matches ExprKind::PostfixIncrement(x2) && same_expr(
            *operand,
            *x2,
        ),
        ExprKind::Match { value, branches } => b.kind matches ExprKind::Match { value: v2, branches: b2 } && same_expr(
            *value,
            *v2,
        ) && same_branches(branches@, b2@),
        ExprKind::Lambda(function) => b.kind matches ExprKind::Lambda(f2) && same_function(function, f2),
        ExprKind::Block(block) => b.kind matches ExprKind::Block(b2) && same_block(block, b2),
        ExprKind::Comptime(inner) => b.kind matches ExprKind::Comptime(i2) && same_expr(*inner, *i2),
        _ => b.kind == a.kind,
    }
}

pub open spec fn same_exprs(a: Seq<Expr>, b: Seq<Expr>) -> bool
    decreases a, 1nat,
{
    a.len() == b.len() && forall|i: int| #![trigger a[i]] 0 <= i < a.len() ==> same_expr(a[i], b[i])
}

pub open spec fn same_fields(a: Seq<StructInitField>, b: Seq<StructInitField>) -> bool
    decreases a, 1nat,
{
    a.len() == b.len() && forall|i: int|
        #![trigger a[i]]
        0 <= i < a.len() ==> a[i].name == b[i].name && a[i].span == b[i].span && same_expr(a[i].value, b[i].value)
}

pub open spec fn same_branches(a: Seq<MatchBranch>, b: Seq<MatchBranch>) -> bool
    decreases a, 1nat,
{
    a.len() == b.len() && forall|i: int| #![trigger a[i]] 0 <= i < a.len() ==> same_branch(a[i], b[i])
}

pub open spec fn same_branch(a: MatchBranch, b: MatchBranch) -> bool
    decreases a, 0nat,
{
    &&& a.pattern == b.pattern
    &&& a.span == b.span
    &&& match a.guard {
        Some(g) => b.guard matches Some(g2) && same_expr(g, g2),
        None => b.guard is None,
    }
    &&& match a.body {
        MatchBranchBody::Expr(e) => b.body matches MatchBranchBody::Expr(e2) && same_expr(*e, *e2),
        MatchBranchBody::Block(bl) => b.body matches MatchBranchBody::Block(bl2) && same_block(bl, bl2),
    }
}

/// Two functions are the same, part for part.
pub open spec fn same_function(a: FunctionDecl, b: FunctionDecl) -> bool
    decreases a, 0nat,
{
    &&& a.name == b.name
    &&& a.exported == b.exported
    &&& a.type_params@ == b.type_params@
    &&& same_bounds(a.type_param_bounds@, b.type_param_bounds@)
    &&& same_params(a.params@, b.params@)
    &&& same_opt_type(a.return_type, b.return_type)
    &&& a.span == b.span
    &&& same_body(a.body, b.body)
}

pub open spec fn same_body(a: FunctionBody, b: FunctionBody) -> bool
    decreases a, 0nat,
{
    match a {
        FunctionBody::Block(bl) => b matches FunctionBody::Block(bl2) && same_block(bl, bl2),
        FunctionBody::Expr(e) => b matches FunctionBody::Expr(e2) && same_expr(*e, *e2),
    }
}

pub open spec fn same_block(a: Block, b: Block) -> bool
    decreases a, 0nat,
{
    a.span == b.span && same_stmts(a.statements@, b.statements@)
}

pub open spec fn same_stmts(a: Seq<Stmt>, b: Seq<Stmt>) -> bool
    decreases a, 1nat,
{
    a.len() == b.len() && forall|i: int| #![trigger a[i]] 0 <= i < a.len() ==> same_stmt(a[i], b[i])
}

pub open spec fn same_opt_expr(a: Option<Expr>, b: Option<Expr>) -> bool
    decreases a, 0nat,
{
    match a {
        Some(e) => b matches Some(e2) && same_expr(e, e2),
        None => b is None,
    }
}

/// Two statements are the same, part for part.
pub open spec fn same_stmt(a: Stmt, b: Stmt) -> bool
    decreases a, 0nat,
{
    a.span == b.span && match a.kind {
        StmtKind::Let { name, mutable, type_annotation, value } => b.kind matches StmtKind::Let {
            name: n2,
            mutable: m2,
            type_annotation: t2,
            value: v2,
        } && n2 == name && m2 == mutable && same_opt_type(type_annotation, t2) && same_opt_expr(value, v2),
        StmtKind::Assign { target, op, value } => b.kind matches StmtKind::Assign { target: t2, op: o2, value: v2 } && o2
            == op && same_expr(target, t2) && same_expr(value, v2),
        StmtKind::Return { value } => b.kind matches StmtKind::Return { value: v2 } && same_opt_expr(value, v2),
        StmtKind::If { condition, then_branch, else_branch } => b.kind matches StmtKind::If {
            condition: c2,
            then_branch: t2,
            else_branch: e2,
        } && same_expr(condition, c2) && same_block(then_branch, t2) && match else_branch {
            Some(ElseBranch::Block(bl)) => e2 matches Some(ElseBranch::Block(bl2)) && same_block(bl, bl2),
            Some(ElseBranch::If(s)) => e2 matches Some(ElseBranch::If(s2)) && same_stmt(*s, *s2),
            None => e2 is None,
        },
        StmtKind::While { condition, body } => b.kind matches StmtKind::While { condition: c2, body: b2 } && same_expr(
            condition,
            c2,
        ) && same_block(body, b2),
        StmtKind::For { name, iterable, body } => b.kind matches StmtKind::For { name: n2, iterable: i2, body: b2 } && n2
            == name && same_expr(iterable, i2) && same_block(body, b2),
        StmtKind::Expr(e) => b.kind matches StmtKind::Expr(e2) && same_expr(e, e2),
        _ => b.kind == a.kind,
    }
}

pub fn copy_types(types: &Vec<TypeRef>) -> (copy: Vec<TypeRef>)
    ensures
        same_types(types@, copy@),
{
    let mut copy: Vec<TypeRef> = Vec::new();
    let mut i: usize = 0;
    while i < types.len()
        invariant
            i <= types@.len(),
            copy@.len() == i,
            forall|j: int| 0 <= j < i ==> #[trigger] same_type(types@[j], copy@[j]),
        decreases types.len() - i,
    {
        copy.push(copy_type(&types[i], types[i].span));
        i = i + 1;
    }
    copy
}

pub fn copy_opt_type(type_ref: &Option<TypeRef>) -> (copy: Option<TypeRef>)
    ensures
        same_opt_type(*type_ref, copy),
{
    match type_ref {
        Some(t) => Some(copy_type(t, t.span)),
        None => None,
    }
}

pub fn copy_bounds(bounds: &Vec<TypeParamBound>) -> (copy: Vec<TypeParamBound>)
    ensures
        same_bounds(bounds@, copy@),
{
    let mut copy: Vec<TypeParamBound> = Vec::new();
    let mut i: usize = 0;
    while i < bounds.len()
        invariant
            i <= bounds@.len(),
            copy@.len() == i,
            forall|j: int|
                #![trigger bounds@[j]]
                0 <= j < i ==> bounds@[j].param == copy@[j].param && bounds@[j].span == copy@[j].span && same_type(
                    bounds@[j].trait_ref,
                    copy@[j].trait_ref,
                ),
        decreases bounds.len() - i,
    {
        let bound = &bounds[i];
        copy.push(
            TypeParamBound {
                param: bound.param.clone(),
                trait_ref: copy_type(&bound.trait_ref, bound.trait_ref.span),
                span: bound.span,
            },
        );
        i = i + 1;
    }
    copy
}

pub fn copy_params(params: &Vec<Param>) -> (copy: Vec<Param>)
    ensures
        same_params(params@, copy@),
{
    let mut copy: Vec<Param> = Vec::new();
    let mut i: usize = 0;
    while i < params.len()
        invariant
            i <= params@.len(),
            copy@.len() == i,
            forall|j: int|
                #![trigger params@[j]]
                0 <= j < i ==> params@[j].name == copy@[j].name && params@[j].mutable == copy@[j].mutable
                    && params@[j].span == copy@[j].span && same_opt_type(params@[j].type_ref, copy@[j].type_ref),
        decreases params.len() - i,
    {
        let param = &params[i];
        copy.push(
            Param {
                name: param.name.clone(),
                mutable: param.mutable,
                type_ref: copy_opt_type(&param.type_ref),
                span: param.span,
            },
        );
        i = i + 1;
    }
    copy
}

pub fn copy_strings(names: &Vec<String>) -> (copy: Vec<String>)
    ensures
        copy@ == names@,
{
    let mut copy: Vec<String> = Vec::new();
    let mut i: usize = 0;
    while i < names.len()
        invariant
            i <= names@.len(),
            copy@ == names@.take(i as int),
        decreases names.len() - i,
    {
        copy.push(names[i].clone());
        assert(names@.take(i + 1) =~= names@.take(i as int).push(names@[i as int]));
        i = i + 1;
    }
    assert(names@.take(names@.len() as int) =~= names@);
    copy
}

pub fn copy_pattern(pattern: &Pattern) -> (copy: Pattern)
    ensures
        copy == *pattern,
{
    match pattern {
        Pattern::Variant { enum_name, variant, binding, binding_mutable, span } => Pattern::Variant {
            enum_name: enum_name.clone(),
            variant: variant.clone(),
            binding: match binding {
                Some(b) => Some(b.clone()),
                None => None,
            },
            binding_mutable: *binding_mutable,
            span: *span,
        },
        Pattern::String { value, span } => Pattern::String { value: value.clone(), span: *span },
        Pattern::Number { value, span } => Pattern::Number { value: value.clone(), span: *span },
        Pattern::Range { start, end, inclusive, span } => Pattern::Range {
            start: start.clone(),
            end: end.clone(),
            inclusive: *inclusive,
            span: *span,
        },
        Pattern::Wildcard { span } => Pattern::Wildcard { span: *span },
    }
}

/// A copy of an expression, part for part.
pub fn copy_expr(expr: &Expr) -> (copy: Expr)
    ensures
        same_expr(*expr, copy),
    decreases expr, 0nat,
{
    let kind = match &expr.kind {
        ExprKind::Identifier(name) => ExprKind::Identifier(name.clone()),
        ExprKind::Number(value) => ExprKind::Number(value.clone()),
        ExprKind::String(value) => ExprKind::String(value.clone()),
        ExprKind::Char(value) => ExprKind::Char(*value),
        ExprKind::Bool(value) => ExprKind::Bool(*value),
        ExprKind::Array(items) => ExprKind::Array(copy_exprs(items)),
        ExprKind::CollectionLiteral { collection, items } => ExprKind::CollectionLiteral {
            collection: copy_type(collection, collection.span),
            items: copy_exprs(items),
        },
        ExprKind::Call { callee, args } => ExprKind::Call { callee: Box::new(copy_expr(callee)), args: copy_exprs(args) },
        ExprKind::Member { object, name } => ExprKind::Member { object: Box::new(copy_expr(object)), name: name.clone() },
        ExprKind::GenericMember { object, name, args } => ExprKind::GenericMember {
            object: Box::new(copy_expr(object)),
            name: name.clone(),
            args: copy_types(args),
        },
        ExprKind::GenericType { name, args } => ExprKind::GenericType { name: name.clone(), args: copy_types(args) },
        ExprKind::StructInit { name, args, fields } => ExprKind::StructInit {
            name: name.clone(),
            args: copy_types(args),
            fields: copy_fields(fields),
        },
        ExprKind::Range { start, end, inclusive } => ExprKind::Range {
            start: Box::new(copy_expr(start)),
            end: Box::new(copy_expr(end)),
            inclusive: *inclusive,
        },
        ExprKind::Binary { left, op, right } => ExprKind::Binary {
            left: Box::new(copy_expr(left)),
            op: *op,
            right: Box::new(copy_expr(right)),
        },
        ExprKind::Unary { op, operand } => ExprKind::Unary { op: *op, operand: Box::new(copy_expr(operand)) },
        ExprKind::PostfixIncrement(operand) => ExprKind::PostfixIncrement(Box::new(copy_expr(operand))),
        ExprKind::Match { value, branches } => ExprKind::Match {
            value: Box::new(copy_expr(value)),
            branches: copy_branches(branches),
        },
        ExprKind::Lambda(function) => ExprKind::Lambda(copy_function(function)),
        ExprKind::Block(block) => ExprKind::Block(copy_block(block)),
        ExprKind::Comptime(inner) => ExprKind::Comptime(Box::new(copy_expr(inner))),
        ExprKind::Missing => ExprKind::Missing,
    };
    Expr { kind, span: expr.span }
}

pub fn copy_exprs(items: &Vec<Expr>) -> (copy: Vec<Expr>)
    ensures
        same_exprs(items@, copy@),
    decreases items, 1nat,
{
    let mut copy: Vec<Expr> = Vec::new();
    let mut i: usize = 0;
    while i < items.len()
        invariant
            i <= items@.len(),
            copy@.len() == i,
            forall|j: int| #![trigger items@[j]] 0 <= j < i ==> same_expr(items@[j], copy@[j]),
        decreases items.len() - i,
    {
        copy.push(copy_expr(&items[i]));
        i = i + 1;
    }
    copy
}

fn copy_fields(fields: &Vec<StructInitField>) -> (copy: Vec<StructInitField>)
    ensures
        same_fields(fields@, copy@),
    decreases fields, 1nat,
{
    let mut copy: Vec<StructInitField> = Vec::new();
    let mut i: usize = 0;
    while i < fields.len()
        invariant
            i <= fields@.len(),
            copy@.len() == i,
            forall|j: int|
                #![trigger fields@[j]]
                0 <= j < i ==> fields@[j].name == copy@[j].name && fields@[j].span == copy@[j].span && same_expr(
                    fields@[j].value,
                    copy@[j].value,
                ),
        decreases fields.len() - i,
    {
        let field = &fields[i];
        copy.push(StructInitField { name: field.name.clone(), value: copy_expr(&field.value), span: field.span });
        i = i + 1;
    }
    copy
}

fn copy_branches(branches: &Vec<MatchBranch>) -> (copy: Vec<MatchBranch>)
    ensures
        same_branches(branches@, copy@),
    decreases branches, 1nat,
{
    let mut copy: Vec<MatchBranch> = Vec::new();
    let mut i: usize = 0;
    while i < branches.len()
        invariant
            i <= branches@.len(),
            copy@.len() == i,
            forall|j: int| #![trigger branches@[j]] 0 <= j < i ==> same_branch(branches@[j], copy@[j]),
        decreases branches.len() - i,
    {
        copy.push(copy_branch(&branches[i]));
        i = i + 1;
    }
    copy
}

fn copy_branch(branch: &MatchBranch) -> (copy: MatchBranch)
    ensures
        same_branch(*branch, copy),
    decreases branch, 0nat,
{
    let guard = match &branch.guard {
        Some(g) => Some(copy_expr(g)),
        None => None,
    };
    let body = match &branch.body {
        MatchBranchBody::Expr(e) => MatchBranchBody::Expr(Box::new(copy_expr(e))),
        MatchBranchBody::Block(block) => MatchBranchBody::Block(copy_block(block)),
    };
    MatchBranch { pattern: copy_pattern(&branch.pattern), guard, body, span: branch.span }
}

/// A copy of a function, part for part.
pub fn copy_function(function: &FunctionDecl) -> (copy: FunctionDecl)
    ensures
        same_function(*function, copy),
    decreases function, 0nat,
{
    FunctionDecl {
        name: match &function.name {
            Some(n) => Some(n.clone()),
            None => None,
        },
        exported: function.exported,
        type_params: copy_strings(&function.type_params),
        type_param_bounds: copy_bounds(&function.type_param_bounds),
        params: copy_params(&function.params),
        return_type: copy_opt_type(&function.return_type),
        body: copy_body(&function.body),
        span: function.span,
    }
}

/// A copy of a function body, part for part.
pub fn copy_body(body: &FunctionBody) -> (copy: FunctionBody)
    ensures
        same_body(*body, copy),
    decreases body, 0nat,
{
    match body {
        FunctionBody::Block(block) => FunctionBody::Block(copy_block(block)),
        FunctionBody::Expr(e) => FunctionBody::Expr(Box::new(copy_expr(e))),
    }
}

pub fn copy_block(block: &Block) -> (copy: Block)
    ensures
        same_block(*block, copy),
    decreases block, 0nat,
{
    Block { statements: copy_stmts(&block.statements), span: block.span }
}

fn copy_stmts(statements: &Vec<Stmt>) -> (copy: Vec<Stmt>)
    ensures
        same_stmts(statements@, copy@),
    decreases statements, 1nat,
{
    let mut copy: Vec<Stmt> = Vec::new();
    let mut i: usize = 0;
    while i < statements.len()
        invariant
            i <= statements@.len(),
            copy@.len() == i,
            forall|j: int| #![trigger statements@[j]] 0 <= j < i ==> same_stmt(statements@[j], copy@[j]),
        decreases statements.len() - i,
    {
        copy.push(copy_stmt(&statements[i]));
        i = i + 1;
    }
    copy
}

fn copy_opt_expr(value: &Option<Expr>) -> (copy: Option<Expr>)
    ensures
        same_opt_expr(*value, copy),
    decreases value, 0nat,
{
    match value {
        Some(e) => Some(copy_expr(e)),
        None => None,
    }
}

pub fn copy_stmt(statement: &Stmt) -> (copy: Stmt)
    ensures
        same_stmt(*statement, copy),
    decreases statement, 0nat,
{
    let kind = match &statement.kind {
        StmtKind::Let { name, mutable, type_annotation, value } => StmtKind::Let {
            name: name.clone(),
            mutable: *mutable,
            type_annotation: copy_opt_type(type_annotation),
            value: copy_opt_expr(value),
        },
        StmtKind::Assign { target, op, value } => StmtKind::Assign {
            target: copy_expr(target),
            op: *op,
            value: copy_expr(value),
        },
        StmtKind::Return { value } => StmtKind::Return { value: copy_opt_expr(value) },
        StmtKind::If { condition, then_branch, else_branch } => StmtKind::If {
            condition: copy_expr(condition),
            then_branch: copy_block(then_branch),
            else_branch: match else_branch {
                Some(ElseBranch::Block(block)) => Some(ElseBranch::Block(copy_block(block))),
                Some(ElseBranch::If(inner)) => Some(ElseBranch::If(Box::new(copy_stmt(inner)))),
                None => None,
            },
        },
        StmtKind::While { condition, body } => StmtKind::While { condition: copy_expr(condition), body: copy_block(body) },
        StmtKind::For { name, iterable, body } => StmtKind::For {
            name: name.clone(),
            iterable: copy_expr(iterable),
            body: copy_block(body),
        },
        StmtKind::Break => StmtKind::Break,
        StmtKind::Continue => StmtKind::Continue,
        StmtKind::Expr(e) => StmtKind::Expr(copy_expr(e)),
    };
    Stmt { kind, span: statement.span }
}

} // verus!
