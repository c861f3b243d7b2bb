use vstd::prelude::*;

use crate::ast::{
    Block, ElseBranch, EnumVariant, Expr, ExprKind, FunctionBody, FunctionDecl, ImplMember, Item,
    MatchBranch, MatchBranchBody, Param, Pattern, Stmt, StmtKind, StructInitField, StructMember,
    TraitMethodDecl, TypeParamBound, TypeRef,
};
use crate::diagnostic::{Diagnostic, Severity};
use crate::project::rewrite::{
    diagnostic_views, global_name, in_scopes, lookup_pair, member_errors, member_target, scope_views,
    split_at_dot, type_rewritten, with_local, DiagnosticView, LinkNames, ModuleRewriter, ScopeViews,
};
use crate::span::Span;

verus! {

/// The scopes that follow a statement: a `let` binds its name in the
/// innermost scope, and an `else if` passes on what its statement binds.
pub open spec fn stmt_scopes(scopes: ScopeViews, statement: Stmt) -> ScopeViews
    decreases statement,
{
    match statement.kind {
        StmtKind::Let { name, .. } => with_local(scopes, name@),
        StmtKind::If { else_branch, .. } => match else_branch {
            Some(ElseBranch::If(inner)) => stmt_scopes(scopes, *inner),
            _ => scopes,
        },
        _ => scopes,
    }
}

/// The scopes after a sequence of statements.
pub open spec fn stmts_scopes(scopes: ScopeViews, statements: Seq<Stmt>) -> ScopeViews
    decreases statements.len(),
{
    if statements.len() == 0 {
        scopes
    } else {
        stmt_scopes(stmts_scopes(scopes, statements.drop_last()), statements.last())
    }
}

/// The names of a list of strings.
pub open spec fn names_of(names: Seq<String>) -> Seq<Seq<char>> {
    names.map_values(|name: String| name@)
}

/// The names of a list of parameters.
pub open spec fn param_names(params: Seq<Param>) -> Seq<Seq<char>> {
    params.map_values(|param: Param| param.name@)
}

/// The name that a match pattern binds for its branch.
pub open spec fn pattern_bindings(pattern: Pattern) -> Seq<Seq<char>> {
    match pattern {
        Pattern::Variant { binding, .. } => match binding {
            Some(name) => if name@ != "_"@ { seq![name@] } else { seq![] },
            None => seq![],
        },
        _ => seq![],
    }
}

/// What resolving a dotted `name` at `span` reports.
pub open spec fn qualified_errors(names: LinkNames, name: Seq<char>, span: Span) -> Seq<DiagnosticView> {
    match split_at_dot(name) {
        Some((namespace, member)) => member_errors(names, namespace, member, span),
        None => seq![],
    }
}

/// The name that an identifier refers to: itself when it is local, else
/// the visible name it stands for.
pub open spec fn identifier_name(names: LinkNames, scopes: ScopeViews, name: String) -> String {
    if !in_scopes(scopes, name@) && lookup_pair(names.0, name@) is Some {
        lookup_pair(names.0, name@).unwrap()
    } else {
        name
    }
}

/// The name of a called method after linking: the extension it stands for, if any.
pub open spec fn method_name(names: LinkNames, name: String) -> String {
    match lookup_pair(names.1, name@) {
        Some(internal) => internal,
        None => name,
    }
}

/// The internal name that replaces the whole access `object.name`, when
/// `object` names a namespace that exports `name`.
pub open spec fn member_shortcut(names: LinkNames, object: Expr, name: String) -> Option<String> {
    match object.kind {
        ExprKind::Identifier(namespace) => member_target(names, namespace@, name@),
        _ => None,
    }
}

pub open spec fn member_shortcut_errors(names: LinkNames, object: Expr, name: String, span: Span) -> Seq<DiagnosticView> {
    match object.kind {
        ExprKind::Identifier(namespace) => member_errors(names, namespace@, name@, span),
        _ => seq![],
    }
}

pub open spec fn types_rewritten(names: LinkNames, scopes: ScopeViews, before: Seq<TypeRef>, after: Seq<TypeRef>) -> bool {
    &&& after.len() == before.len()
    &&& forall|i: int| 0 <= i < before.len() ==> #[trigger] type_rewritten(names, scopes, before[i], after[i])
}

pub open spec fn opt_type_rewritten(names: LinkNames, scopes: ScopeViews, before: Option<TypeRef>, after: Option<TypeRef>) -> bool {
    match before {
        Some(t) => after matches Some(u) && type_rewritten(names, scopes, t, u),
        None => after is None,
    }
}

pub open spec fn pattern_rewritten(names: LinkNames, before: Pattern, after: Pattern) -> bool {
    match before {
        Pattern::Variant { enum_name, variant, binding, binding_mutable, span } => after == Pattern::Variant {
            enum_name: global_name(names, enum_name),
            variant,
            binding,
            binding_mutable,
            span,
        },
        _ => after == before,
    }
}

pub open spec fn pattern_errors(names: LinkNames, pattern: Pattern, span: Span) -> Seq<DiagnosticView> {
    match pattern {
        Pattern::Variant { enum_name, .. } => qualified_errors(names, enum_name@, span),
        _ => seq![],
    }
}

/// `after` is the expression `before` with its names resolved under
/// `scopes`: identifiers outside every scope become the visible names they
/// stand for, `namespace.member` becomes the member's internal name, called
/// methods become the extensions they stand for, struct literals and generic
/// types get their global names, types are resolved, and lambdas, blocks and
/// match branches are resolved in scopes of their own.
pub open spec fn expr_rewritten(names: LinkNames, scopes: ScopeViews, before: Expr, after: Expr) -> bool
    decreases before, 0nat,
{
    &&& after.span == before.span
    &&& match before.kind {
        ExprKind::Identifier(name) => after.kind == ExprKind::Identifier(identifier_name(names, scopes, name)),
        ExprKind::Array(items) => after.kind matches ExprKind::Array(items2)
            && exprs_rewritten(names, scopes, items@, items2@),
        ExprKind::CollectionLiteral { collection, items } => after.kind matches ExprKind::CollectionLiteral {
            collection: collection2,
            items: items2,
        } && type_rewritten(names, scopes, collection, collection2) && exprs_rewritten(names, scopes, items@, items2@),
        ExprKind::Call { callee, args } => after.kind matches ExprKind::Call { callee: callee2, args: args2 }
            && callee_rewritten(names, scopes, *callee, *callee2) && exprs_rewritten(names, scopes, args@, args2@),
        ExprKind::Member { object, name } => member_rewritten(names, scopes, *object, name, after.kind),
        ExprKind::GenericMember { object, name, args } => after.kind matches ExprKind::GenericMember {
            object: object2,
            name: name2,
            args: args2,
        } && name2 == name && expr_rewritten(names, scopes, *object, *object2) && types_rewritten(names, 
            scopes,
            args@,
            args2@,
        ),
        ExprKind::GenericType { name, args } => after.kind matches ExprKind::GenericType { name: name2, args: args2 }
            && name2 == global_name(names, name) && types_rewritten(names, scopes, args@, args2@),
        ExprKind::StructInit { name, args, fields } => after.kind matches ExprKind::StructInit {
            name: name2,
            args: args2,
            fields: fields2,
        } && name2 == global_name(names, name) && types_rewritten(names, scopes, args@, args2@)
            && fields2@.len() == fields@.len() && forall|i: int|
            #![trigger fields@[i]]
            0 <= i < fields@.len() ==> field_rewritten(names, scopes, fields@[i], fields2@[i]),
        ExprKind::Range { start, end, inclusive } => after.kind matches ExprKind::Range {
            start: start2,
            end: end2,
            inclusive: inclusive2,
        } && inclusive2 == inclusive && expr_rewritten(names, scopes, *start, *start2) && expr_rewritten(names, 
            scopes,
            *end,
            *end2,
        ),
        ExprKind::Binary { left, op, right } => after.kind matches ExprKind::Binary {
            left: left2,
            op: op2,
            right: right2,
        } && op2 == op && expr_rewritten(names, scopes, *left, *left2) && expr_rewritten(names, scopes, *right, *right2),
        ExprKind::Unary { op, operand } => after.kind matches ExprKind::Unary { op: op2, operand: operand2 }
            && op2 == op && expr_rewritten(names, scopes, *operand, *operand2),
        ExprKind::PostfixIncrement(operand) => after.kind matches ExprKind::PostfixIncrement(operand2)
            && expr_rewritten(names, scopes, *operand, *operand2),
        ExprKind::Match { value, branches } => after.kind matches ExprKind::Match { value: value2, branches: branches2 }
            && expr_rewritten(names, scopes, *value, *value2) && branches2@.len() == branches@.len()
            && forall|i: int|
            #![trigger branches@[i]]
            0 <= i < branches@.len() ==> branch_rewritten(names, scopes, branches@[i], branches2@[i]),
        ExprKind::Lambda(function) => after.kind matches ExprKind::Lambda(function2)
            && function_rewritten(names, scopes, function, function2),
        ExprKind::Block(block) => after.kind matches ExprKind::Block(block2)
            && block_rewritten(names, scopes, block, block2),
        ExprKind::Comptime(inner) => after.kind matches ExprKind::Comptime(inner2)
            && expr_rewritten(names, scopes, *inner, *inner2),
        _ => after.kind == before.kind,
    }
}

/// The kind of the access `object.name` after resolving: the member's
/// internal name through a namespace, else the access with `object` resolved.
pub open spec fn member_rewritten(names: LinkNames, scopes: ScopeViews, object: Expr, name: String, after: ExprKind) -> bool
    decreases object, 1nat,
{
    match member_shortcut(names, object, name) {
        Some(internal) => after == ExprKind::Identifier(internal),
        None => after matches ExprKind::Member { object: object2, name: name2 } && name2 == name
            && expr_rewritten(names, scopes, object, *object2),
    }
}

/// A callee: a called method first takes the name of the extension it stands for.
pub open spec fn callee_rewritten(names: LinkNames, scopes: ScopeViews, before: Expr, after: Expr) -> bool
    decreases before, 1nat,
{
    match before.kind {
        ExprKind::Member { object, name } => after.span == before.span && member_rewritten(names, 
            scopes,
            *object,
            method_name(names, name),
            after.kind,
        ),
        _ => expr_rewritten(names, scopes, before, after),
    }
}

pub open spec fn exprs_rewritten(names: LinkNames, scopes: ScopeViews, before: Seq<Expr>, after: Seq<Expr>) -> bool
    decreases before, 1nat,
{
    &&& after.len() == before.len()
    &&& forall|i: int| #![trigger before[i]] 0 <= i < before.len() ==> expr_rewritten(names, scopes, before[i], after[i])
}

pub open spec fn field_rewritten(names: LinkNames, scopes: ScopeViews, before: StructInitField, after: StructInitField) -> bool
    decreases before, 0nat,
{
    &&& after.name == before.name
    &&& after.span == before.span
    &&& expr_rewritten(names, scopes, before.value, after.value)
}

/// A match branch: its pattern's enum name is resolved, and its body is
/// resolved in a scope that holds what the pattern binds. Its guard stays.
pub open spec fn branch_rewritten(names: LinkNames, scopes: ScopeViews, before: MatchBranch, after: MatchBranch) -> bool
    decreases before, 0nat,
{
    let inner = scopes.push(pattern_bindings(before.pattern));
    &&& after.span == before.span
    &&& after.guard == before.guard
    &&& pattern_rewritten(names, before.pattern, after.pattern)
    &&& match before.body {
        MatchBranchBody::Expr(e) => after.body matches MatchBranchBody::Expr(e2) && expr_rewritten(names, inner, *e, *e2),
        MatchBranchBody::Block(b) => after.body matches MatchBranchBody::Block(b2) && block_rewritten(names, inner, b, b2),
    }
}

/// A function: its types are resolved in a scope of its type parameters,
/// and its body in a further scope of its parameters. Names stay.
pub open spec fn function_rewritten(names: LinkNames, scopes: ScopeViews, before: FunctionDecl, after: FunctionDecl) -> bool
    decreases before, 0nat,
{
    let typed = scopes.push(names_of(before.type_params@));
    let inner = typed.push(param_names(before.params@));
    &&& after.name == before.name
    &&& after.exported == before.exported
    &&& after.type_params == before.type_params
    &&& after.span == before.span
    &&& after.type_param_bounds@.len() == before.type_param_bounds@.len()
    &&& (forall|i: int|
        #![trigger before.type_param_bounds@[i]]
        0 <= i < before.type_param_bounds@.len() ==> {
            &&& after.type_param_bounds@[i].param == before.type_param_bounds@[i].param
            &&& after.type_param_bounds@[i].span == before.type_param_bounds@[i].span
            &&& type_rewritten(names, typed, before.type_param_bounds@[i].trait_ref, after.type_param_bounds@[i].trait_ref)
        })
    &&& after.params@.len() == before.params@.len()
    &&& (forall|i: int|
        #![trigger before.params@[i]]
        0 <= i < before.params@.len() ==> {
            &&& after.params@[i].name == before.params@[i].name
            &&& after.params@[i].mutable == before.params@[i].mutable
            &&& after.params@[i].span == before.params@[i].span
            &&& opt_type_rewritten(names, typed, before.params@[i].type_ref, after.params@[i].type_ref)
        })
    &&& opt_type_rewritten(names, typed, before.return_type, after.return_type)
    &&& match before.body {
        FunctionBody::Block(b) => after.body matches FunctionBody::Block(b2) && block_rewritten(names, inner, b, b2),
        FunctionBody::Expr(e) => after.body matches FunctionBody::Expr(e2) && expr_rewritten(names, inner, *e, *e2),
    }
}

/// A block: its statements in order, in a scope of its own.
pub open spec fn block_rewritten(names: LinkNames, scopes: ScopeViews, before: Block, after: Block) -> bool
    decreases before, 0nat,
{
    &&& after.span == before.span
    &&& stmts_rewritten(names, scopes.push(seq![]), before.statements@, after.statements@)
}

/// Statements in order, each in the scopes that the ones before it leave.
pub open spec fn stmts_rewritten(names: LinkNames, scopes: ScopeViews, before: Seq<Stmt>, after: Seq<Stmt>) -> bool
    decreases before, 1nat,
{
    &&& after.len() == before.len()
    &&& forall|i: int|
        #![trigger before[i]]
        0 <= i < before.len() ==> stmt_rewritten(names, stmts_scopes(scopes, before.take(i)), before[i], after[i])
}

pub open spec fn stmt_rewritten(names: LinkNames, scopes: ScopeViews, before: Stmt, after: Stmt) -> bool
    decreases before, 0nat,
{
    &&& after.span == before.span
    &&& match before.kind {
        StmtKind::Let { name, mutable, type_annotation, value } => after.kind matches StmtKind::Let {
            name: name2,
            mutable: mutable2,
            type_annotation: type_annotation2,
            value: value2,
        } && name2 == name && mutable2 == mutable && opt_type_rewritten(names, scopes, type_annotation, type_annotation2)
            && (match value {
            Some(v) => value2 matches Some(v2) && expr_rewritten(names, scopes, v, v2),
            None => value2 is None,
        }),
        StmtKind::Assign { target, op, value } => after.kind matches StmtKind::Assign {
            target: target2,
            op: op2,
            value: value2,
        } && op2 == op && expr_rewritten(names, scopes, target, target2) && expr_rewritten(names, scopes, value, value2),
        StmtKind::Return { value } => after.kind matches StmtKind::Return { value: value2 } && (match value {
            Some(v) => value2 matches Some(v2) && expr_rewritten(names, scopes, v, v2),
            None => value2 is None,
        }),
        StmtKind::If { condition, then_branch, else_branch } => after.kind matches StmtKind::If {
            condition: condition2,
            then_branch: then_branch2,
            else_branch: else_branch2,
        } && expr_rewritten(names, scopes, condition, condition2) && block_rewritten(names, 
            scopes,
            then_branch,
            then_branch2,
        ) && (match else_branch {
            Some(ElseBranch::Block(b)) => else_branch2 matches Some(ElseBranch::Block(b2))
                && block_rewritten(names, scopes, b, b2),
            Some(ElseBranch::If(s)) => else_branch2 matches Some(ElseBranch::If(s2)) && stmt_rewritten(names, 
                scopes,
                *s,
                *s2,
            ),
            None => else_branch2 is None,
        }),
        StmtKind::While { condition, body } => after.kind matches StmtKind::While { condition: condition2, body: body2 }
            && expr_rewritten(names, scopes, condition, condition2) && block_rewritten(names, scopes, body, body2),
        StmtKind::For { name, iterable, body } => after.kind matches StmtKind::For {
            name: name2,
            iterable: iterable2,
            body: body2,
        } && name2 == name && expr_rewritten(names, scopes, iterable, iterable2) && body2.span == body.span
            && stmts_rewritten(names, scopes.push(seq![name@]), body.statements@, body2.statements@),
        StmtKind::Expr(e) => after.kind matches StmtKind::Expr(e2) && expr_rewritten(names, scopes, e, e2),
        _ => after.kind == before.kind,
    }
}

/// What resolving an expression under `scopes` reports, in order.
pub open spec fn expr_errors(names: LinkNames, scopes: ScopeViews, expr: Expr) -> Seq<DiagnosticView>
    decreases expr, 0nat,
{
    match expr.kind {
        ExprKind::Array(items) => exprs_errors(names, scopes, items@),
        ExprKind::CollectionLiteral { items, .. } => exprs_errors(names, scopes, items@),
        ExprKind::Call { callee, args } => callee_errors(names, scopes, *callee) + exprs_errors(names, scopes, args@),
        ExprKind::Member { object, name } => member_expr_errors(names, scopes, *object, name, expr.span),
        ExprKind::GenericMember { object, .. } => expr_errors(names, scopes, *object),
        ExprKind::GenericType { name, .. } => qualified_errors(names, name@, expr.span),
        ExprKind::StructInit { name, fields, .. } => qualified_errors(names, name@, expr.span) + fields_errors(names, 
            scopes,
            fields@,
        ),
        ExprKind::Range { start, end, .. } => expr_errors(names, scopes, *start) + expr_errors(names, scopes, *end),
        ExprKind::Binary { left, right, .. } => expr_errors(names, scopes, *left) + expr_errors(names, scopes, *right),
        ExprKind::Unary { operand, .. } => expr_errors(names, scopes, *operand),
        ExprKind::PostfixIncrement(operand) => expr_errors(names, scopes, *operand),
        ExprKind::Match { value, branches } => expr_errors(names, scopes, *value) + branches_errors(names, 
            scopes,
            branches@,
        ),
        ExprKind::Lambda(function) => function_errors(names, scopes, function),
        ExprKind::Block(block) => block_errors(names, scopes, block),
        ExprKind::Comptime(inner) => expr_errors(names, scopes, *inner),
        _ => seq![],
    }
}

pub open spec fn member_expr_errors(names: LinkNames, scopes: ScopeViews, object: Expr, name: String, span: Span) -> Seq<
    DiagnosticView,
>
    decreases object, 1nat,
{
    member_shortcut_errors(names, object, name, span) + if member_shortcut(names, object, name) is Some {
        seq![]
    } else {
        expr_errors(names, scopes, object)
    }
}

pub open spec fn callee_errors(names: LinkNames, scopes: ScopeViews, callee: Expr) -> Seq<DiagnosticView>
    decreases callee, 1nat,
{
    match callee.kind {
        ExprKind::Member { object, name } => member_expr_errors(names, scopes, *object, method_name(names, name), callee.span),
        _ => expr_errors(names, scopes, callee),
    }
}

pub open spec fn exprs_errors(names: LinkNames, scopes: ScopeViews, items: Seq<Expr>) -> Seq<DiagnosticView>
    decreases items, 1nat,
{
    if items.len() == 0 {
        seq![]
    } else {
        exprs_errors(names, scopes, items.subrange(0, items.len() - 1)) + expr_errors(names, 
            scopes,
            items[items.len() - 1],
        )
    }
}

pub open spec fn fields_errors(names: LinkNames, scopes: ScopeViews, fields: Seq<StructInitField>) -> Seq<DiagnosticView>
    decreases fields, 1nat,
{
    if fields.len() == 0 {
        seq![]
    } else {
        fields_errors(names, scopes, fields.subrange(0, fields.len() - 1)) + expr_errors(names, 
            scopes,
            fields[fields.len() - 1].value,
        )
    }
}

pub open spec fn branches_errors(names: LinkNames, scopes: ScopeViews, branches: Seq<MatchBranch>) -> Seq<DiagnosticView>
    decreases branches, 1nat,
{
    if branches.len() == 0 {
        seq![]
    } else {
        branches_errors(names, scopes, branches.subrange(0, branches.len() - 1)) + branch_errors(names, 
            scopes,
            branches[branches.len() - 1],
        )
    }
}

pub open spec fn branch_errors(names: LinkNames, scopes: ScopeViews, branch: MatchBranch) -> Seq<DiagnosticView>
    decreases branch, 0nat,
{
    let inner = scopes.push(pattern_bindings(branch.pattern));
    pattern_errors(names, branch.pattern, branch.span) + match branch.body {
        MatchBranchBody::Expr(e) => expr_errors(names, inner, *e),
        MatchBranchBody::Block(b) => block_errors(names, inner, b),
    }
}

pub open spec fn function_errors(names: LinkNames, scopes: ScopeViews, function: FunctionDecl) -> Seq<DiagnosticView>
    decreases function, 0nat,
{
    let inner = scopes.push(names_of(function.type_params@)).push(param_names(function.params@));
    match function.body {
        FunctionBody::Block(b) => block_errors(names, inner, b),
        FunctionBody::Expr(e) => expr_errors(names, inner, *e),
    }
}

pub open spec fn block_errors(names: LinkNames, scopes: ScopeViews, block: Block) -> Seq<DiagnosticView>
    decreases block, 0nat,
{
    stmts_errors(names, scopes.push(seq![]), block.statements@)
}

pub open spec fn stmts_errors(names: LinkNames, scopes: ScopeViews, statements: Seq<Stmt>) -> Seq<DiagnosticView>
    decreases statements, 1nat,
{
    if statements.len() == 0 {
        seq![]
    } else {
        let earlier = statements.subrange(0, statements.len() - 1);
        stmts_errors(names, scopes, earlier) + stmt_errors(names, 
            stmts_scopes(scopes, earlier),
            statements[statements.len() - 1],
        )
    }
}

pub open spec fn stmt_errors(names: LinkNames, scopes: ScopeViews, statement: Stmt) -> Seq<DiagnosticView>
    decreases statement, 0nat,
{
    match statement.kind {
        StmtKind::Let { value, .. } => match value {
            Some(v) => expr_errors(names, scopes, v),
            None => seq![],
        },
        StmtKind::Assign { target, value, .. } => expr_errors(names, scopes, target) + expr_errors(names, scopes, value),
        StmtKind::Return { value } => match value {
            Some(v) => expr_errors(names, scopes, v),
            None => seq![],
        },
        StmtKind::If { condition, then_branch, else_branch } => expr_errors(names, scopes, condition)
            + block_errors(names, scopes, then_branch) + match else_branch {
            Some(ElseBranch::Block(b)) => block_errors(names, scopes, b),
            Some(ElseBranch::If(s)) => stmt_errors(names, scopes, *s),
            None => seq![],
        },
        StmtKind::While { condition, body } => expr_errors(names, scopes, condition) + block_errors(names, scopes, body),
        StmtKind::For { name, iterable, body } => expr_errors(names, scopes, iterable) + stmts_errors(names, 
            scopes.push(seq![name@]),
            body.statements@,
        ),
        StmtKind::Expr(e) => expr_errors(names, scopes, e),
        _ => seq![],
    }
}

/// The names of a list of strings, as a new scope.
fn names_scope(names: &Vec<String>) -> (scope: Vec<String>)
    ensures
        names_of(scope@) == names_of(names@),
{
    let mut scope: Vec<String> = Vec::new();
    let mut i: usize = 0;
    while i < names.len()
        invariant
            i <= names@.len(),
            names_of(scope@) == names_of(names@.take(i as int)),
        decreases names.len() - i,
    {
        let ghost before = scope@;
        let name = names[i].clone();
        scope.push(name);
        assert(names_of(scope@) =~= names_of(before).push(name@));
        assert(names_of(names@.take(i + 1)) =~= names_of(names@.take(i as int)).push(names@[i as int]@));
        i = i + 1;
    }
    assert(names@.take(names@.len() as int) =~= names@);
    scope
}

/// The names of a list of parameters, as a new scope.
pub fn params_scope(params: &Vec<Param>) -> (scope: Vec<String>)
    ensures
        names_of(scope@) == param_names(params@),
{
    let mut scope: Vec<String> = Vec::new();
    let mut i: usize = 0;
    while i < params.len()
        invariant
            i <= params@.len(),
            names_of(scope@) == param_names(params@.take(i as int)),
        decreases params.len() - i,
    {
        let ghost before = scope@;
        let name = params[i].name.clone();
        scope.push(name);
        assert(names_of(scope@) =~= names_of(before).push(name@));
        assert(param_names(params@.take(i + 1)) =~= param_names(params@.take(i as int)).push(params@[i as int].name@));
        i = i + 1;
    }
    assert(params@.take(params@.len() as int) =~= params@);
    scope
}

/// The names that a match pattern binds, as a new scope.
pub fn pattern_scope(pattern: &Pattern) -> (scope: Vec<String>)
    ensures
        names_of(scope@) == pattern_bindings(*pattern),
{
    let mut scope: Vec<String> = Vec::new();
    if let Pattern::Variant { binding: Some(name), .. } = pattern {
        proof {
            reveal_strlit("_");
        }
        if !crate::text::string_is(name, "_") {
            scope.push(name.clone());
        }
    }
    assert(names_of(scope@) =~= pattern_bindings(*pattern));
    scope
}

proof fn lemma_views_push(scopes: Seq<Vec<String>>, scope: Vec<String>)
    ensures
        scope_views(scopes.push(scope)) == scope_views(scopes).push(names_of(scope@)),
{
    assert(scope_views(scopes.push(scope)) =~= scope_views(scopes).push(names_of(scope@)));
}

impl<'names> ModuleRewriter<'names> {
    fn push_scope(&mut self, scope: Vec<String>)
        ensures
            final(self).same_names(old(self)),
            final(self).diagnostics == old(self).diagnostics,
            final(self).scopes@ == old(self).scopes@.push(scope),
            scope_views(final(self).scopes@) == scope_views(old(self).scopes@).push(names_of(scope@)),
    {
        proof {
            lemma_views_push(self.scopes@, scope);
        }
        self.scopes.push(scope);
    }

    fn pop_scope(&mut self)
        requires
            old(self).scopes@.len() > 0,
        ensures
            final(self).same_names(old(self)),
            final(self).diagnostics == old(self).diagnostics,
            final(self).scopes@ == old(self).scopes@.drop_last(),
    {
        let _ = self.scopes.pop();
    }

    /// Resolves a dotted name as `namespace.member`, reporting what goes wrong at `span`.
    pub fn resolve_qualified_name(&mut self, name: &str, span: Span) -> (resolved: Option<String>)
        requires
            old(self).wf(),
        ensures
            final(self).same_context(old(self)),
            resolved == crate::project::rewrite::qualified_target(old(self).visible_namespaces@, old(self).exports@, name@),
            diagnostic_views(final(self).diagnostics@) == diagnostic_views(old(self).diagnostics@) + qualified_errors(
                old(self).link_names(),
                name@,
                span,
            ),
    {
        let parts = crate::project::rewrite::split_once_dot(name);
        match parts {
            Some((namespace, member)) => self.resolve_namespace_member(namespace.as_str(), member.as_str(), span),
            None => None,
        }
    }

    /// Gives a struct, enum or generic type name its global name.
    fn rewrite_path_name(&mut self, name: &mut String, span: Span)
        requires
            old(self).wf(),
        ensures
            final(self).same_context(old(self)),
            *final(name) == global_name(old(self).link_names(), *old(name)),
            diagnostic_views(final(self).diagnostics@) == diagnostic_views(old(self).diagnostics@) + qualified_errors(
                old(self).link_names(),
                old(name)@,
                span,
            ),
    {
        if let Some(internal_name) = self.resolve_qualified_name(name.as_str(), span) {
            *name = internal_name;
        } else if let Some(internal_name) = crate::project::rewrite::find_pair(self.visible_names, name.as_str()) {
            *name = internal_name.clone();
        }
    }

    /// Resolves the enum name of a match pattern.
    pub fn rewrite_pattern(&mut self, pattern: &mut Pattern, branch_span: Span)
        requires
            old(self).wf(),
        ensures
            final(self).same_context(old(self)),
            pattern_rewritten(old(self).link_names(), *old(pattern), *final(pattern)),
            diagnostic_views(final(self).diagnostics@) == diagnostic_views(old(self).diagnostics@) + pattern_errors(
                old(self).link_names(),
                *old(pattern),
                branch_span,
            ),
    {
        match pattern {
            Pattern::Variant { enum_name, .. } => self.rewrite_path_name(enum_name, branch_span),
            _ => {},
        }
    }

    fn rewrite_types(&self, types: &mut Vec<TypeRef>)
        requires
            self.wf(),
        ensures
            types_rewritten(self.link_names(), scope_views(self.scopes@), old(types)@, final(types)@),
    {
        let ghost before = types@;
        let mut i: usize = 0;
        while i < types.len()
            invariant
                self.wf(),
                before == old(types)@,
                types@.len() == before.len(),
                i <= types@.len(),
                forall|j: int|
                    0 <= j < i ==> #[trigger] type_rewritten(self.link_names(), scope_views(self.scopes@), before[j], types@[j]),
                forall|j: int| i <= j < types@.len() ==> #[trigger] types@[j] == before[j],
            decreases types.len() - i,
        {
            assert(types@[i as int] == before[i as int]);
            self.rewrite_type(&mut types[i]);
            i = i + 1;
        }
    }
}


proof fn lemma_stmts_step(names: LinkNames, scopes: ScopeViews, statements: Seq<Stmt>, i: int)
    requires
        0 <= i < statements.len(),
    ensures
        stmts_scopes(scopes, statements.take(i + 1)) == stmt_scopes(stmts_scopes(scopes, statements.take(i)), statements[i]),
        stmts_errors(names, scopes, statements.take(i + 1)) == stmts_errors(names, scopes, statements.take(i)) + stmt_errors(
            names,
            stmts_scopes(scopes, statements.take(i)),
            statements[i],
        ),
{
    let longer = statements.take(i + 1);
    assert(longer.subrange(0, i) =~= statements.take(i));
    assert(longer.drop_last() =~= statements.take(i));
    assert(longer[i] == statements[i]);
}

impl<'names> ModuleRewriter<'names> {
    fn rewrite_exprs(&mut self, items: &mut Vec<Expr>)
        requires
            old(self).wf(),
        ensures
            final(self).same_names(old(self)),
            final(self).scopes@ == old(self).scopes@,
            diagnostic_views(final(self).diagnostics@) == diagnostic_views(old(self).diagnostics@) + exprs_errors(
                old(self).link_names(),
                scope_views(old(self).scopes@),
                old(items)@,
            ),
            exprs_rewritten(old(self).link_names(), scope_views(old(self).scopes@), old(items)@, final(items)@),
        decreases *old(items), 1nat,
    {
        let ghost names = self.link_names();
        let ghost scopes = scope_views(self.scopes@);
        let ghost before = items@;
        let ghost start = diagnostic_views(self.diagnostics@);
        let mut i: usize = 0;
        while i < items.len()
            invariant
                old(self).wf(),
                self.same_names(old(self)),
                self.scopes@ == old(self).scopes@,
                names == old(self).link_names(),
                scopes == scope_views(old(self).scopes@),
                before == old(items)@,
                start == diagnostic_views(old(self).diagnostics@),
                items@.len() == before.len(),
                i <= items@.len(),
                diagnostic_views(self.diagnostics@) == start + exprs_errors(names, scopes, before.take(i as int)),
                forall|j: int| #![trigger before[j]] 0 <= j < i ==> expr_rewritten(names, scopes, before[j], items@[j]),
                forall|j: int| #![trigger items@[j]] i <= j < items@.len() ==> items@[j] == before[j],
            decreases items.len() - i,
        {
            assert(items@[i as int] == before[i as int]);
            assert(before.take(i + 1).subrange(0, i as int) =~= before.take(i as int));
            assert(before.take(i + 1)[i as int] == before[i as int]);
            self.rewrite_expr(&mut items[i]);
            i = i + 1;
        }
        assert(before.take(before.len() as int) =~= before);
    }

    fn rewrite_fields(&mut self, fields: &mut Vec<StructInitField>)
        requires
            old(self).wf(),
        ensures
            final(self).same_names(old(self)),
            final(self).scopes@ == old(self).scopes@,
            diagnostic_views(final(self).diagnostics@) == diagnostic_views(old(self).diagnostics@) + fields_errors(
                old(self).link_names(),
                scope_views(old(self).scopes@),
                old(fields)@,
            ),
            final(fields)@.len() == old(fields)@.len(),
            forall|j: int|
                #![trigger old(fields)@[j]]
                0 <= j < old(fields)@.len() ==> field_rewritten(
                    old(self).link_names(),
                    scope_views(old(self).scopes@),
                    old(fields)@[j],
                    final(fields)@[j],
                ),
        decreases *old(fields), 1nat,
    {
        let ghost names = self.link_names();
        let ghost scopes = scope_views(self.scopes@);
        let ghost before = fields@;
        let ghost start = diagnostic_views(self.diagnostics@);
        let mut i: usize = 0;
        while i < fields.len()
            invariant
                old(self).wf(),
                self.same_names(old(self)),
                self.scopes@ == old(self).scopes@,
                names == old(self).link_names(),
                scopes == scope_views(old(self).scopes@),
                before == old(fields)@,
                start == diagnostic_views(old(self).diagnostics@),
                fields@.len() == before.len(),
                i <= fields@.len(),
                diagnostic_views(self.diagnostics@) == start + fields_errors(names, scopes, before.take(i as int)),
                forall|j: int| #![trigger before[j]] 0 <= j < i ==> field_rewritten(names, scopes, before[j], fields@[j]),
                forall|j: int| #![trigger fields@[j]] i <= j < fields@.len() ==> fields@[j] == before[j],
            decreases fields.len() - i,
        {
            assert(fields@[i as int] == before[i as int]);
            assert(before.take(i + 1).subrange(0, i as int) =~= before.take(i as int));
            assert(before.take(i + 1)[i as int] == before[i as int]);
            self.rewrite_expr(&mut fields[i].value);
            i = i + 1;
        }
        assert(before.take(before.len() as int) =~= before);
    }

    fn rewrite_branches(&mut self, branches: &mut Vec<MatchBranch>)
        requires
            old(self).wf(),
        ensures
            final(self).same_names(old(self)),
            final(self).scopes@ == old(self).scopes@,
            diagnostic_views(final(self).diagnostics@) == diagnostic_views(old(self).diagnostics@) + branches_errors(
                old(self).link_names(),
                scope_views(old(self).scopes@),
                old(branches)@,
            ),
            final(branches)@.len() == old(branches)@.len(),
            forall|j: int|
                #![trigger old(branches)@[j]]
                0 <= j < old(branches)@.len() ==> branch_rewritten(
                    old(self).link_names(),
                    scope_views(old(self).scopes@),
                    old(branches)@[j],
                    final(branches)@[j],
                ),
        decreases *old(branches), 1nat,
    {
        let ghost names = self.link_names();
        let ghost scopes = scope_views(self.scopes@);
        let ghost before = branches@;
        let ghost start = diagnostic_views(self.diagnostics@);
        let mut i: usize = 0;
        while i < branches.len()
            invariant
                old(self).wf(),
                self.same_names(old(self)),
                self.scopes@ == old(self).scopes@,
                names == old(self).link_names(),
                scopes == scope_views(old(self).scopes@),
                before == old(branches)@,
                start == diagnostic_views(old(self).diagnostics@),
                branches@.len() == before.len(),
                i <= branches@.len(),
                diagnostic_views(self.diagnostics@) == start + branches_errors(names, scopes, before.take(i as int)),
                forall|j: int| #![trigger before[j]] 0 <= j < i ==> branch_rewritten(names, scopes, before[j], branches@[j]),
                forall|j: int| #![trigger branches@[j]] i <= j < branches@.len() ==> branches@[j] == before[j],
            decreases branches.len() - i,
        {
            assert(branches@[i as int] == before[i as int]);
            assert(before.take(i + 1).subrange(0, i as int) =~= before.take(i as int));
            assert(before.take(i + 1)[i as int] == before[i as int]);
            self.rewrite_match_branch(&mut branches[i]);
            i = i + 1;
        }
        assert(before.take(before.len() as int) =~= before);
    }

    /// Resolves a match branch: its pattern, then its body in a scope of what the pattern binds.
    pub fn rewrite_match_branch(&mut self, branch: &mut MatchBranch)
        requires
            old(self).wf(),
        ensures
            final(self).same_names(old(self)),
            final(self).scopes@ == old(self).scopes@,
            diagnostic_views(final(self).diagnostics@) == diagnostic_views(old(self).diagnostics@) + branch_errors(
                old(self).link_names(),
                scope_views(old(self).scopes@),
                *old(branch),
            ),
            branch_rewritten(old(self).link_names(), scope_views(old(self).scopes@), *old(branch), *final(branch)),
        decreases *old(branch), 0nat,
    {
        let bindings = pattern_scope(&branch.pattern);
        let span = branch.span;
        self.rewrite_pattern(&mut branch.pattern, span);
        self.push_scope(bindings);
        match &mut branch.body {
            MatchBranchBody::Expr(expr) => self.rewrite_expr(expr),
            MatchBranchBody::Block(block) => self.rewrite_block(block),
        }
        self.pop_scope();
    }

    /// Resolves `object.name` at `span`: gives the internal name that replaces
    /// the whole access when `object` names a namespace, else resolves `object`.
    fn rewrite_member(&mut self, object: &mut Expr, name: &String, span: Span) -> (replacement: Option<String>)
        requires
            old(self).wf(),
        ensures
            final(self).same_names(old(self)),
            final(self).scopes@ == old(self).scopes@,
            diagnostic_views(final(self).diagnostics@) == diagnostic_views(old(self).diagnostics@) + member_expr_errors(
                old(self).link_names(),
                scope_views(old(self).scopes@),
                *old(object),
                *name,
                span,
            ),
            match member_shortcut(old(self).link_names(), *old(object), *name) {
                Some(internal) => replacement == Some(internal),
                None => replacement is None && expr_rewritten(
                    old(self).link_names(),
                    scope_views(old(self).scopes@),
                    *old(object),
                    *final(object),
                ),
            },
        decreases *old(object), 1nat,
    {
        if let ExprKind::Identifier(namespace) = &object.kind {
            let resolved = self.resolve_namespace_member(namespace.as_str(), name.as_str(), span);
            if resolved.is_some() {
                return resolved;
            }
        }
        self.rewrite_expr(object);
        None
    }

    /// Resolves a callee: a called method first takes the name of the extension it stands for.
    fn rewrite_callee(&mut self, callee: &mut Expr)
        requires
            old(self).wf(),
        ensures
            final(self).same_names(old(self)),
            final(self).scopes@ == old(self).scopes@,
            diagnostic_views(final(self).diagnostics@) == diagnostic_views(old(self).diagnostics@) + callee_errors(
                old(self).link_names(),
                scope_views(old(self).scopes@),
                *old(callee),
            ),
            callee_rewritten(old(self).link_names(), scope_views(old(self).scopes@), *old(callee), *final(callee)),
        decreases *old(callee), 1nat,
    {
        let is_member = matches!(callee.kind, ExprKind::Member { .. });
        if !is_member {
            self.rewrite_expr(callee);
            return;
        }
        let span = callee.span;
        let mut replacement: Option<String> = None;
        match &mut callee.kind {
            ExprKind::Member { object, name } => {
                if let Some(internal_name) = crate::project::rewrite::find_pair(self.visible_extensions, name.as_str()) {
                    *name = internal_name.clone();
                }
                replacement = self.rewrite_member(object, name, span);
            },
            _ => {},
        }
        if let Some(internal_name) = replacement {
            callee.kind = ExprKind::Identifier(internal_name);
        }
    }

    /// Resolves the names in an expression (see `expr_rewritten`), reporting
    /// what cannot be resolved (see `expr_errors`).
    #[verifier::spinoff_prover]
    #[verifier::rlimit(60)]
    pub fn rewrite_expr(&mut self, expr: &mut Expr)
        requires
            old(self).wf(),
        ensures
            final(self).same_names(old(self)),
            final(self).scopes@ == old(self).scopes@,
            diagnostic_views(final(self).diagnostics@) == diagnostic_views(old(self).diagnostics@) + expr_errors(
                old(self).link_names(),
                scope_views(old(self).scopes@),
                *old(expr),
            ),
            expr_rewritten(old(self).link_names(), scope_views(old(self).scopes@), *old(expr), *final(expr)),
        decreases *old(expr), 0nat,
    {
        let span = expr.span;
        if matches!(expr.kind, ExprKind::Member { .. }) {
            let ghost names = self.link_names();
            let ghost scopes = scope_views(self.scopes@);
            let ghost start = diagnostic_views(self.diagnostics@);
            let ghost object0 = *expr.kind->Member_object;
            let ghost name0 = expr.kind->Member_name;
            let ghost e0 = *expr;
            assert(expr_errors(names, scopes, e0) == member_expr_errors(names, scopes, object0, name0, span));
            let resolved = match &expr.kind {
                ExprKind::Member { object, name } => match &object.kind {
                    ExprKind::Identifier(namespace) => self.resolve_namespace_member(
                        namespace.as_str(),
                        name.as_str(),
                        span,
                    ),
                    _ => None,
                },
                _ => None,
            };
            assert(resolved == member_shortcut(names, object0, name0));
            assert(diagnostic_views(self.diagnostics@) == start + member_shortcut_errors(names, object0, name0, span));
            if let Some(internal_name) = resolved {
                expr.kind = ExprKind::Identifier(internal_name);
                assert(member_rewritten(names, scopes, object0, name0, expr.kind));
                assert(member_expr_errors(names, scopes, object0, name0, span) =~= member_shortcut_errors(
                    names,
                    object0,
                    name0,
                    span,
                ));
                return;
            }
            assert(member_expr_errors(names, scopes, object0, name0, span) == member_shortcut_errors(
                names,
                object0,
                name0,
                span,
            ) + expr_errors(names, scopes, object0));
            match &mut expr.kind {
                ExprKind::Member { object, .. } => {
                    self.rewrite_expr(object);
                },
                _ => {},
            }
            assert(expr.kind is Member);
            assert(expr.kind->Member_name == name0);
            assert(expr_rewritten(names, scopes, object0, *expr.kind->Member_object));
            assert(member_rewritten(names, scopes, object0, name0, expr.kind));
            return;
        }
        match &mut expr.kind {
            ExprKind::Identifier(name) => {
                if !self.is_local(name.as_str()) {
                    if let Some(internal_name) = crate::project::rewrite::find_pair(self.visible_names, name.as_str()) {
                        *name = internal_name.clone();
                    }
                }
            },
            ExprKind::Array(items) => self.rewrite_exprs(items),
            ExprKind::CollectionLiteral { collection, items } => {
                self.rewrite_type(collection);
                self.rewrite_exprs(items);
            },
            ExprKind::Call { callee, args } => {
                self.rewrite_callee(callee);
                self.rewrite_exprs(args);
            },
            ExprKind::GenericMember { object, args, .. } => {
                self.rewrite_expr(object);
                self.rewrite_types(args);
            },
            ExprKind::GenericType { name, args } => {
                self.rewrite_path_name(name, span);
                self.rewrite_types(args);
            },
            ExprKind::StructInit { name, args, fields } => {
                self.rewrite_path_name(name, span);
                self.rewrite_types(args);
                self.rewrite_fields(fields);
            },
            ExprKind::Range { start, end, .. } => {
                self.rewrite_expr(start);
                self.rewrite_expr(end);
            },
            ExprKind::Binary { left, right, .. } => {
                self.rewrite_expr(left);
                self.rewrite_expr(right);
            },
            ExprKind::Unary { operand, .. } => self.rewrite_expr(operand),
            ExprKind::PostfixIncrement(operand) => self.rewrite_expr(operand),
            ExprKind::Match { value, branches } => {
                self.rewrite_expr(value);
                self.rewrite_branches(branches);
            },
            ExprKind::Lambda(function) => self.rewrite_function(function),
            ExprKind::Block(block) => self.rewrite_block(block),
            ExprKind::Comptime(inner) => self.rewrite_expr(inner),
            _ => {},
        }
    }

    /// Resolves a function: its types in a scope of its type parameters, its
    /// body in a further scope of its parameters.
    pub fn rewrite_function(&mut self, function: &mut FunctionDecl)
        requires
            old(self).wf(),
        ensures
            final(self).same_names(old(self)),
            final(self).scopes@ == old(self).scopes@,
            diagnostic_views(final(self).diagnostics@) == diagnostic_views(old(self).diagnostics@) + function_errors(
                old(self).link_names(),
                scope_views(old(self).scopes@),
                *old(function),
            ),
            function_rewritten(old(self).link_names(), scope_views(old(self).scopes@), *old(function), *final(function)),
        decreases *old(function), 0nat,
    {
        let ghost names = self.link_names();
        let ghost scopes = scope_views(self.scopes@);
        let ghost before = *function;
        let type_scope = names_scope(&function.type_params);
        self.push_scope(type_scope);
        let ghost typed = scope_views(self.scopes@);
        assert(typed == scopes.push(names_of(before.type_params@)));
        let mut i: usize = 0;
        while i < function.type_param_bounds.len()
            invariant
                old(self).wf(),
                self.same_names(old(self)),
                self.diagnostics == old(self).diagnostics,
                names == old(self).link_names(),
                typed == scope_views(self.scopes@),
                before == *old(function),
                function.type_params == before.type_params,
                function.params == before.params,
                function.return_type == before.return_type,
                function.body == before.body,
                function.name == before.name,
                function.exported == before.exported,
                function.span == before.span,
                i <= function.type_param_bounds@.len(),
                function.type_param_bounds@.len() == before.type_param_bounds@.len(),
                forall|j: int|
                    #![trigger before.type_param_bounds@[j]]
                    0 <= j < i ==> {
                        &&& function.type_param_bounds@[j].param == before.type_param_bounds@[j].param
                        &&& function.type_param_bounds@[j].span == before.type_param_bounds@[j].span
                        &&& type_rewritten(names, typed, before.type_param_bounds@[j].trait_ref, function.type_param_bounds@[j].trait_ref)
                    },
                forall|j: int|
                    #![trigger function.type_param_bounds@[j]]
                    i <= j < function.type_param_bounds@.len() ==> function.type_param_bounds@[j] == before.type_param_bounds@[j],
            decreases function.type_param_bounds.len() - i,
        {
            assert(function.type_param_bounds@[i as int] == before.type_param_bounds@[i as int]);
            self.rewrite_type(&mut function.type_param_bounds[i].trait_ref);
            i = i + 1;
        }
        let mut i: usize = 0;
        while i < function.params.len()
            invariant
                old(self).wf(),
                self.same_names(old(self)),
                self.diagnostics == old(self).diagnostics,
                names == old(self).link_names(),
                typed == scope_views(self.scopes@),
                before == *old(function),
                function.type_params == before.type_params,
                function.return_type == before.return_type,
                function.body == before.body,
                function.name == before.name,
                function.exported == before.exported,
                function.span == before.span,
                function.type_param_bounds@.len() == before.type_param_bounds@.len(),
                forall|j: int|
                    #![trigger before.type_param_bounds@[j]]
                    0 <= j < before.type_param_bounds@.len() ==> {
                        &&& function.type_param_bounds@[j].param == before.type_param_bounds@[j].param
                        &&& function.type_param_bounds@[j].span == before.type_param_bounds@[j].span
                        &&& type_rewritten(names, typed, before.type_param_bounds@[j].trait_ref, function.type_param_bounds@[j].trait_ref)
                    },
                i <= function.params@.len(),
                function.params@.len() == before.params@.len(),
                forall|j: int|
                    #![trigger before.params@[j]]
                    0 <= j < i ==> {
                        &&& function.params@[j].name == before.params@[j].name
                        &&& function.params@[j].mutable == before.params@[j].mutable
                        &&& function.params@[j].span == before.params@[j].span
                        &&& opt_type_rewritten(names, typed, before.params@[j].type_ref, function.params@[j].type_ref)
                    },
                forall|j: int| #![trigger function.params@[j]] i <= j < function.params@.len() ==> function.params@[j] == before.params@[j],
            decreases function.params.len() - i,
        {
            assert(function.params@[i as int] == before.params@[i as int]);
            if let Some(type_ref) = &mut function.params[i].type_ref {
                self.rewrite_type(type_ref);
            }
            i = i + 1;
        }
        if let Some(return_type) = &mut function.return_type {
            self.rewrite_type(return_type);
        }
        assert(param_names(function.params@) =~= param_names(before.params@)) by {
            assert forall|j: int| 0 <= j < before.params@.len() implies param_names(function.params@)[j] == param_names(before.params@)[j] by {
                assert(function.params@[j].name == before.params@[j].name);
            }
        }
        let param_scope = params_scope(&function.params);
        self.push_scope(param_scope);
        match &mut function.body {
            FunctionBody::Block(block) => self.rewrite_block(block),
            FunctionBody::Expr(expr) => self.rewrite_expr(expr),
        }
        self.pop_scope();
        self.pop_scope();
    }

    /// Resolves a block's statements in a scope of its own.
    pub fn rewrite_block(&mut self, block: &mut Block)
        requires
            old(self).wf(),
        ensures
            final(self).same_names(old(self)),
            final(self).scopes@ == old(self).scopes@,
            diagnostic_views(final(self).diagnostics@) == diagnostic_views(old(self).diagnostics@) + block_errors(
                old(self).link_names(),
                scope_views(old(self).scopes@),
                *old(block),
            ),
            block_rewritten(old(self).link_names(), scope_views(old(self).scopes@), *old(block), *final(block)),
        decreases *old(block), 0nat,
    {
        self.push_scope(Vec::new());
        proof {
            assert(names_of(Seq::<String>::empty()) =~= seq![]);
        }
        self.rewrite_statements(&mut block.statements);
        self.pop_scope();
        assert(self.scopes@ =~= old(self).scopes@);
    }

    /// Resolves statements in order; what a `let` binds goes to the innermost scope.
    #[verifier::spinoff_prover]
    #[verifier::rlimit(40)]
    fn rewrite_statements(&mut self, statements: &mut Vec<Stmt>)
        requires
            old(self).wf(),
        ensures
            final(self).same_names(old(self)),
            final(self).scopes@.len() == old(self).scopes@.len(),
            forall|j: int| 0 <= j < old(self).scopes@.len() - 1 ==> #[trigger] final(self).scopes@[j] == old(self).scopes@[j],
            scope_views(final(self).scopes@) == stmts_scopes(scope_views(old(self).scopes@), old(statements)@),
            diagnostic_views(final(self).diagnostics@) == diagnostic_views(old(self).diagnostics@) + stmts_errors(
                old(self).link_names(),
                scope_views(old(self).scopes@),
                old(statements)@,
            ),
            stmts_rewritten(old(self).link_names(), scope_views(old(self).scopes@), old(statements)@, final(statements)@),
        decreases *old(statements), 1nat,
    {
        let ghost names = self.link_names();
        let ghost scopes = scope_views(self.scopes@);
        let ghost before = statements@;
        let ghost start = diagnostic_views(self.diagnostics@);
        let mut i: usize = 0;
        assert(before.take(0) =~= Seq::<Stmt>::empty());
        while i < statements.len()
            invariant
                old(self).wf(),
                self.same_names(old(self)),
                names == old(self).link_names(),
                scopes == scope_views(old(self).scopes@),
                before == old(statements)@,
                start == diagnostic_views(old(self).diagnostics@),
                self.scopes@.len() == old(self).scopes@.len(),
                forall|j: int| 0 <= j < old(self).scopes@.len() - 1 ==> #[trigger] self.scopes@[j] == old(self).scopes@[j],
                scope_views(self.scopes@) == stmts_scopes(scopes, before.take(i as int)),
                statements@.len() == before.len(),
                i <= statements@.len(),
                diagnostic_views(self.diagnostics@) == start + stmts_errors(names, scopes, before.take(i as int)),
                forall|j: int|
                    #![trigger before[j]]
                    0 <= j < i ==> stmt_rewritten(names, stmts_scopes(scopes, before.take(j)), before[j], statements@[j]),
                forall|j: int| #![trigger statements@[j]] i <= j < statements@.len() ==> statements@[j] == before[j],
            decreases statements.len() - i,
        {
            assert(statements@[i as int] == before[i as int]);
            proof {
                lemma_stmts_step(names, scopes, before, i as int);
            }
            self.rewrite_statement(&mut statements[i]);
            i = i + 1;
        }
        assert(before.take(before.len() as int) =~= before);
    }

    /// Resolves a statement (see `stmt_rewritten`); a `let` binds its name in
    /// the innermost scope (see `stmt_scopes`).
    pub fn rewrite_statement(&mut self, statement: &mut Stmt)
        requires
            old(self).wf(),
        ensures
            final(self).same_names(old(self)),
            final(self).scopes@.len() == old(self).scopes@.len(),
            forall|j: int| 0 <= j < old(self).scopes@.len() - 1 ==> #[trigger] final(self).scopes@[j] == old(self).scopes@[j],
            scope_views(final(self).scopes@) == stmt_scopes(scope_views(old(self).scopes@), *old(statement)),
            diagnostic_views(final(self).diagnostics@) == diagnostic_views(old(self).diagnostics@) + stmt_errors(
                old(self).link_names(),
                scope_views(old(self).scopes@),
                *old(statement),
            ),
            stmt_rewritten(old(self).link_names(), scope_views(old(self).scopes@), *old(statement), *final(statement)),
        decreases *old(statement), 0nat,
    {
        match &mut statement.kind {
            StmtKind::Let { name, type_annotation, value, .. } => {
                if let Some(type_ref) = type_annotation {
                    self.rewrite_type(type_ref);
                }
                if let Some(value) = value {
                    self.rewrite_expr(value);
                }
                self.define_local(name.as_str());
            },
            StmtKind::Assign { target, value, .. } => {
                self.rewrite_expr(target);
                self.rewrite_expr(value);
            },
            StmtKind::Return { value } => {
                if let Some(value) = value {
                    self.rewrite_expr(value);
                }
            },
            StmtKind::If { condition, then_branch, else_branch } => {
                self.rewrite_expr(condition);
                self.rewrite_block(then_branch);
                if let Some(else_branch) = else_branch {
                    match else_branch {
                        ElseBranch::Block(block) => self.rewrite_block(block),
                        ElseBranch::If(inner) => self.rewrite_statement(inner),
                    }
                }
            },
            StmtKind::While { condition, body } => {
                self.rewrite_expr(condition);
                self.rewrite_block(body);
            },
            StmtKind::For { name, iterable, body } => {
                self.rewrite_expr(iterable);
                let mut scope: Vec<String> = Vec::new();
                scope.push(name.clone());
                assert(names_of(scope@) =~= seq![name@]);
                let ghost outer = self.scopes@;
                self.push_scope(scope);
                self.rewrite_statements(&mut body.statements);
                self.pop_scope();
                assert(self.scopes@ =~= outer);
            },
            StmtKind::Expr(expr) => self.rewrite_expr(expr),
            _ => {},
        }
    }
}

/// What a module declares under its own names, and whether it is the entry module:
/// the declared names, the extension functions, and the entry flag.
pub type OwnNames = (Seq<(String, String)>, Seq<(String, String)>, bool);

/// The internal name of a declaration of the module.
pub open spec fn declared_name(own: OwnNames, name: String) -> String {
    match lookup_pair(own.0, name@) {
        Some(internal) => internal,
        None => name,
    }
}

/// The name of a top-level function: the entry module's `main` keeps its name.
pub open spec fn function_item_name(own: OwnNames, name: Option<String>) -> Option<String> {
    match name {
        Some(n) => if own.2 && n@ == "main"@ { Some(n) } else { Some(declared_name(own, n)) },
        None => None,
    }
}

/// The name of an extension function of the module.
pub open spec fn extension_name(own: OwnNames, name: Option<String>) -> Option<String> {
    match name {
        Some(n) => match lookup_pair(own.1, n@) {
            Some(internal) => Some(internal),
            None => Some(n),
        },
        None => None,
    }
}

pub open spec fn bounds_rewritten(names: LinkNames, scopes: ScopeViews, before: Seq<TypeParamBound>, after: Seq<TypeParamBound>) -> bool {
    &&& after.len() == before.len()
    &&& forall|i: int|
        #![trigger before[i]]
        0 <= i < before.len() ==> {
            &&& after[i].param == before[i].param
            &&& after[i].span == before[i].span
            &&& type_rewritten(names, scopes, before[i].trait_ref, after[i].trait_ref)
        }
}

pub open spec fn params_rewritten(names: LinkNames, scopes: ScopeViews, before: Seq<Param>, after: Seq<Param>) -> bool {
    &&& after.len() == before.len()
    &&& forall|i: int|
        #![trigger before[i]]
        0 <= i < before.len() ==> {
            &&& after[i].name == before[i].name
            &&& after[i].mutable == before[i].mutable
            &&& after[i].span == before[i].span
            &&& opt_type_rewritten(names, scopes, before[i].type_ref, after[i].type_ref)
        }
}

pub open spec fn member_rewritten_in(names: LinkNames, scopes: ScopeViews, before: StructMember, after: StructMember) -> bool {
    match before {
        StructMember::Field(f) => after matches StructMember::Field(g) && g.name == f.name && g.internal == f.internal
            && g.span == f.span && type_rewritten(names, scopes, f.type_ref, g.type_ref),
        StructMember::Method(f) => after matches StructMember::Method(g) && function_rewritten(names, scopes, f, g),
        StructMember::StaticMethod(f) => after matches StructMember::StaticMethod(g) && function_rewritten(names, scopes, f, g),
    }
}

pub open spec fn members_rewritten(names: LinkNames, scopes: ScopeViews, before: Seq<StructMember>, after: Seq<StructMember>) -> bool {
    &&& after.len() == before.len()
    &&& forall|i: int| 0 <= i < before.len() ==> #[trigger] member_rewritten_in(names, scopes, before[i], after[i])
}

pub open spec fn member_errors_in(names: LinkNames, scopes: ScopeViews, member: StructMember) -> Seq<DiagnosticView> {
    match member {
        StructMember::Field(_) => seq![],
        StructMember::Method(f) => function_errors(names, scopes, f),
        StructMember::StaticMethod(f) => function_errors(names, scopes, f),
    }
}

pub open spec fn members_errors(names: LinkNames, scopes: ScopeViews, members: Seq<StructMember>) -> Seq<DiagnosticView>
    decreases members.len(),
{
    if members.len() == 0 {
        seq![]
    } else {
        members_errors(names, scopes, members.drop_last()) + member_errors_in(names, scopes, members.last())
    }
}

pub open spec fn impl_members_errors(names: LinkNames, scopes: ScopeViews, members: Seq<ImplMember>) -> Seq<DiagnosticView>
    decreases members.len(),
{
    if members.len() == 0 {
        seq![]
    } else {
        impl_members_errors(names, scopes, members.drop_last()) + function_errors(names, scopes, members.last().function)
    }
}

pub open spec fn variant_rewritten(names: LinkNames, scopes: ScopeViews, before: EnumVariant, after: EnumVariant) -> bool {
    &&& after.name == before.name
    &&& after.span == before.span
    &&& opt_type_rewritten(names, scopes, before.payload, after.payload)
}

pub open spec fn trait_method_rewritten(names: LinkNames, scopes: ScopeViews, before: TraitMethodDecl, after: TraitMethodDecl) -> bool {
    &&& after.name == before.name
    &&& after.static_ == before.static_
    &&& after.type_params == before.type_params
    &&& after.type_param_bounds == before.type_param_bounds
    &&& after.body == before.body
    &&& after.span == before.span
    &&& params_rewritten(names, scopes, before.params@, after.params@)
    &&& opt_type_rewritten(names, scopes, before.return_type, after.return_type)
}

/// `after` is the item `before` with its names resolved for linking: the
/// module's own declarations take their internal names, and types and code
/// are resolved with the item's type parameters in scope. A trait's default
/// method bodies, and an extension's receiver type parameters, are left as
/// they are.
pub open spec fn item_rewritten(names: LinkNames, own: OwnNames, scopes: ScopeViews, before: Item, after: Item) -> bool {
    match before {
        Item::Enum(e) => after matches Item::Enum(f) && {
            let inner = scopes.push(names_of(e.type_params@));
            &&& f.name == declared_name(own, e.name)
            &&& f.exported == e.exported
            &&& f.type_params == e.type_params
            &&& f.span == e.span
            &&& bounds_rewritten(names, inner, e.type_param_bounds@, f.type_param_bounds@)
            &&& f.variants@.len() == e.variants@.len()
            &&& (forall|i: int| 0 <= i < e.variants@.len() ==> #[trigger] variant_rewritten(names, inner, e.variants@[i], f.variants@[i]))
            &&& members_rewritten(names, inner, e.members@, f.members@)
        },
        Item::Struct(s) => after matches Item::Struct(t) && {
            let inner = scopes.push(names_of(s.type_params@));
            &&& t.name == declared_name(own, s.name)
            &&& t.exported == s.exported
            &&& t.type_params == s.type_params
            &&& t.span == s.span
            &&& bounds_rewritten(names, inner, s.type_param_bounds@, t.type_param_bounds@)
            &&& members_rewritten(names, inner, s.members@, t.members@)
        },
        Item::Trait(t) => after matches Item::Trait(u) && {
            let inner = scopes.push(names_of(t.type_params@));
            &&& u.name == declared_name(own, t.name)
            &&& u.exported == t.exported
            &&& u.type_params == t.type_params
            &&& u.associated_types == t.associated_types
            &&& u.span == t.span
            &&& bounds_rewritten(names, inner, t.type_param_bounds@, u.type_param_bounds@)
            &&& u.methods@.len() == t.methods@.len()
            &&& forall|i: int| 0 <= i < t.methods@.len() ==> #[trigger] trait_method_rewritten(names, inner, t.methods@[i], u.methods@[i])
        },
        Item::Impl(i) => after matches Item::Impl(j) && {
            let inner = scopes.push(names_of(i.type_params@));
            &&& j.type_params == i.type_params
            &&& j.associated_types == i.associated_types
            &&& j.span == i.span
            &&& bounds_rewritten(names, inner, i.type_param_bounds@, j.type_param_bounds@)
            &&& type_rewritten(names, inner, i.trait_ref, j.trait_ref)
            &&& type_rewritten(names, inner, i.type_ref, j.type_ref)
            &&& j.methods@.len() == i.methods@.len()
            &&& forall|k: int|
                #![trigger i.methods@[k]]
                0 <= k < i.methods@.len() ==> j.methods@[k].static_ == i.methods@[k].static_ && j.methods@[k].span
                    == i.methods@[k].span && function_rewritten(names, inner, i.methods@[k].function, j.methods@[k].function)
        },
        Item::Function(f) => after matches Item::Function(g) && function_rewritten(
            names,
            scopes,
            FunctionDecl { name: function_item_name(own, f.name), ..f },
            g,
        ),
        Item::Extension(x) => after matches Item::Extension(y) && {
            &&& y.exported == x.exported
            &&& y.type_params == x.type_params
            &&& y.type_param_bounds == x.type_param_bounds
            &&& y.static_ == x.static_
            &&& y.span == x.span
            &&& type_rewritten(names, scopes, x.type_ref, y.type_ref)
            &&& function_rewritten(
                names,
                scopes,
                FunctionDecl { name: extension_name(own, x.function.name), ..x.function },
                y.function,
            )
        },
        Item::Import(_) => after == before,
    }
}

/// What resolving an item reports: what the code of its functions reports, in order.
pub open spec fn item_errors(names: LinkNames, scopes: ScopeViews, item: Item) -> Seq<DiagnosticView> {
    match item {
        Item::Enum(e) => members_errors(names, scopes.push(names_of(e.type_params@)), e.members@),
        Item::Struct(s) => members_errors(names, scopes.push(names_of(s.type_params@)), s.members@),
        Item::Impl(i) => impl_members_errors(names, scopes.push(names_of(i.type_params@)), i.methods@),
        Item::Function(f) => function_errors(names, scopes, f),
        Item::Extension(x) => function_errors(names, scopes, x.function),
        _ => seq![],
    }
}

impl<'names> ModuleRewriter<'names> {
    pub open spec fn own_names(&self) -> OwnNames {
        (self.local_names@, self.local_extensions@, self.entry)
    }

    fn rewrite_bounds(&self, bounds: &mut Vec<TypeParamBound>)
        requires
            self.wf(),
        ensures
            bounds_rewritten(self.link_names(), scope_views(self.scopes@), old(bounds)@, final(bounds)@),
    {
        let ghost before = bounds@;
        let mut i: usize = 0;
        while i < bounds.len()
            invariant
                self.wf(),
                before == old(bounds)@,
                bounds@.len() == before.len(),
                i <= bounds@.len(),
                forall|j: int|
                    #![trigger before[j]]
                    0 <= j < i ==> {
                        &&& bounds@[j].param == before[j].param
                        &&& bounds@[j].span == before[j].span
                        &&& type_rewritten(self.link_names(), scope_views(self.scopes@), before[j].trait_ref, bounds@[j].trait_ref)
                    },
                forall|j: int| #![trigger bounds@[j]] i <= j < bounds@.len() ==> bounds@[j] == before[j],
            decreases bounds.len() - i,
        {
            assert(bounds@[i as int] == before[i as int]);
            self.rewrite_type(&mut bounds[i].trait_ref);
            i = i + 1;
        }
    }

    fn rewrite_param_types(&self, params: &mut Vec<Param>)
        requires
            self.wf(),
        ensures
            params_rewritten(self.link_names(), scope_views(self.scopes@), old(params)@, final(params)@),
    {
        let ghost before = params@;
        let mut i: usize = 0;
        while i < params.len()
            invariant
                self.wf(),
                before == old(params)@,
                params@.len() == before.len(),
                i <= params@.len(),
                forall|j: int|
                    #![trigger before[j]]
                    0 <= j < i ==> {
                        &&& params@[j].name == before[j].name
                        &&& params@[j].mutable == before[j].mutable
                        &&& params@[j].span == before[j].span
                        &&& opt_type_rewritten(self.link_names(), scope_views(self.scopes@), before[j].type_ref, params@[j].type_ref)
                    },
                forall|j: int| #![trigger params@[j]] i <= j < params@.len() ==> params@[j] == before[j],
            decreases params.len() - i,
        {
            assert(params@[i as int] == before[i as int]);
            if let Some(type_ref) = &mut params[i].type_ref {
                self.rewrite_type(type_ref);
            }
            i = i + 1;
        }
    }

    fn rewrite_variants(&self, variants: &mut Vec<EnumVariant>)
        requires
            self.wf(),
        ensures
            final(variants)@.len() == old(variants)@.len(),
            forall|j: int|
                0 <= j < old(variants)@.len() ==> #[trigger] variant_rewritten(
                    self.link_names(),
                    scope_views(self.scopes@),
                    old(variants)@[j],
                    final(variants)@[j],
                ),
    {
        let ghost before = variants@;
        let mut i: usize = 0;
        while i < variants.len()
            invariant
                self.wf(),
                before == old(variants)@,
                variants@.len() == before.len(),
                i <= variants@.len(),
                forall|j: int| 0 <= j < i ==> #[trigger] variant_rewritten(self.link_names(), scope_views(self.scopes@), before[j], variants@[j]),
                forall|j: int| #![trigger variants@[j]] i <= j < variants@.len() ==> variants@[j] == before[j],
            decreases variants.len() - i,
        {
            assert(variants@[i as int] == before[i as int]);
            if let Some(type_ref) = &mut variants[i].payload {
                self.rewrite_type(type_ref);
            }
            i = i + 1;
        }
    }

    fn rewrite_trait_methods(&self, methods: &mut Vec<TraitMethodDecl>)
        requires
            self.wf(),
        ensures
            final(methods)@.len() == old(methods)@.len(),
            forall|j: int|
                0 <= j < old(methods)@.len() ==> #[trigger] trait_method_rewritten(
                    self.link_names(),
                    scope_views(self.scopes@),
                    old(methods)@[j],
                    final(methods)@[j],
                ),
    {
        let ghost before = methods@;
        let mut i: usize = 0;
        while i < methods.len()
            invariant
                self.wf(),
                before == old(methods)@,
                methods@.len() == before.len(),
                i <= methods@.len(),
                forall|j: int| 0 <= j < i ==> #[trigger] trait_method_rewritten(self.link_names(), scope_views(self.scopes@), before[j], methods@[j]),
                forall|j: int| #![trigger methods@[j]] i <= j < methods@.len() ==> methods@[j] == before[j],
            decreases methods.len() - i,
        {
            assert(methods@[i as int] == before[i as int]);
            self.rewrite_param_types(&mut methods[i].params);
            if let Some(return_type) = &mut methods[i].return_type {
                self.rewrite_type(return_type);
            }
            i = i + 1;
        }
    }

    fn rewrite_members(&mut self, members: &mut Vec<StructMember>)
        requires
            old(self).wf(),
        ensures
            final(self).same_names(old(self)),
            final(self).scopes@ == old(self).scopes@,
            diagnostic_views(final(self).diagnostics@) == diagnostic_views(old(self).diagnostics@) + members_errors(
                old(self).link_names(),
                scope_views(old(self).scopes@),
                old(members)@,
            ),
            members_rewritten(old(self).link_names(), scope_views(old(self).scopes@), old(members)@, final(members)@),
    {
        let ghost names = self.link_names();
        let ghost scopes = scope_views(self.scopes@);
        let ghost before = members@;
        let ghost start = diagnostic_views(self.diagnostics@);
        let mut i: usize = 0;
        while i < members.len()
            invariant
                old(self).wf(),
                self.same_names(old(self)),
                self.scopes@ == old(self).scopes@,
                names == old(self).link_names(),
                scopes == scope_views(old(self).scopes@),
                before == old(members)@,
                start == diagnostic_views(old(self).diagnostics@),
                members@.len() == before.len(),
                i <= members@.len(),
                diagnostic_views(self.diagnostics@) == start + members_errors(names, scopes, before.take(i as int)),
                forall|j: int| 0 <= j < i ==> #[trigger] member_rewritten_in(names, scopes, before[j], members@[j]),
                forall|j: int| #![trigger members@[j]] i <= j < members@.len() ==> members@[j] == before[j],
            decreases members.len() - i,
        {
            assert(members@[i as int] == before[i as int]);
            assert(before.take(i + 1).drop_last() =~= before.take(i as int));
            assert(before.take(i + 1).last() == before[i as int]);
            match &mut members[i] {
                StructMember::Field(field) => self.rewrite_type(&mut field.type_ref),
                StructMember::Method(function) => self.rewrite_function(function),
                StructMember::StaticMethod(function) => self.rewrite_function(function),
            }
            i = i + 1;
        }
        assert(before.take(before.len() as int) =~= before);
    }

    fn rewrite_impl_members(&mut self, members: &mut Vec<ImplMember>)
        requires
            old(self).wf(),
        ensures
            final(self).same_names(old(self)),
            final(self).scopes@ == old(self).scopes@,
            diagnostic_views(final(self).diagnostics@) == diagnostic_views(old(self).diagnostics@) + impl_members_errors(
                old(self).link_names(),
                scope_views(old(self).scopes@),
                old(members)@,
            ),
            final(members)@.len() == old(members)@.len(),
            forall|k: int|
                #![trigger old(members)@[k]]
                0 <= k < old(members)@.len() ==> final(members)@[k].static_ == old(members)@[k].static_
                    && final(members)@[k].span == old(members)@[k].span && function_rewritten(
                    old(self).link_names(),
                    scope_views(old(self).scopes@),
                    old(members)@[k].function,
                    final(members)@[k].function,
                ),
    {
        let ghost names = self.link_names();
        let ghost scopes = scope_views(self.scopes@);
        let ghost before = members@;
        let ghost start = diagnostic_views(self.diagnostics@);
        let mut i: usize = 0;
        while i < members.len()
            invariant
                old(self).wf(),
                self.same_names(old(self)),
                self.scopes@ == old(self).scopes@,
                names == old(self).link_names(),
                scopes == scope_views(old(self).scopes@),
                before == old(members)@,
                start == diagnostic_views(old(self).diagnostics@),
                members@.len() == before.len(),
                i <= members@.len(),
                diagnostic_views(self.diagnostics@) == start + impl_members_errors(names, scopes, before.take(i as int)),
                forall|k: int|
                    #![trigger before[k]]
                    0 <= k < i ==> members@[k].static_ == before[k].static_ && members@[k].span == before[k].span
                        && function_rewritten(names, scopes, before[k].function, members@[k].function),
                forall|j: int| #![trigger members@[j]] i <= j < members@.len() ==> members@[j] == before[j],
            decreases members.len() - i,
        {
            assert(members@[i as int] == before[i as int]);
            assert(before.take(i + 1).drop_last() =~= before.take(i as int));
            assert(before.take(i + 1).last() == before[i as int]);
            self.rewrite_function(&mut members[i].function);
            i = i + 1;
        }
        assert(before.take(before.len() as int) =~= before);
    }

    /// Resolves an item for linking (see `item_rewritten`), reporting what its
    /// code cannot resolve (see `item_errors`).
    pub fn rewrite_item(&mut self, item: &mut Item)
        requires
            old(self).wf(),
        ensures
            final(self).same_names(old(self)),
            final(self).scopes@ == old(self).scopes@,
            diagnostic_views(final(self).diagnostics@) == diagnostic_views(old(self).diagnostics@) + item_errors(
                old(self).link_names(),
                scope_views(old(self).scopes@),
                *old(item),
            ),
            item_rewritten(
                old(self).link_names(),
                old(self).own_names(),
                scope_views(old(self).scopes@),
                *old(item),
                *final(item),
            ),
    {
        match item {
            Item::Enum(decl) => {
                self.rewrite_declared_name(&mut decl.name);
                let scope = names_scope(&decl.type_params);
                self.push_scope(scope);
                self.rewrite_bounds(&mut decl.type_param_bounds);
                self.rewrite_variants(&mut decl.variants);
                self.rewrite_members(&mut decl.members);
                self.pop_scope();
            },
            Item::Struct(decl) => {
                self.rewrite_declared_name(&mut decl.name);
                let scope = names_scope(&decl.type_params);
                self.push_scope(scope);
                self.rewrite_bounds(&mut decl.type_param_bounds);
                self.rewrite_members(&mut decl.members);
                self.pop_scope();
            },
            Item::Trait(decl) => {
                self.rewrite_declared_name(&mut decl.name);
                let scope = names_scope(&decl.type_params);
                self.push_scope(scope);
                self.rewrite_bounds(&mut decl.type_param_bounds);
                self.rewrite_trait_methods(&mut decl.methods);
                self.pop_scope();
            },
            Item::Impl(decl) => {
                let scope = names_scope(&decl.type_params);
                self.push_scope(scope);
                self.rewrite_bounds(&mut decl.type_param_bounds);
                self.rewrite_type(&mut decl.trait_ref);
                self.rewrite_type(&mut decl.type_ref);
                self.rewrite_impl_members(&mut decl.methods);
                self.pop_scope();
            },
            Item::Function(function) => {
                if let Some(name) = &mut function.name {
                    proof {
                        reveal_strlit("main");
                    }
                    let is_main = self.entry && crate::text::string_is(name, "main");
                    if !is_main {
                        self.rewrite_declared_name(name);
                    }
                }
                self.rewrite_function(function);
            },
            Item::Extension(extension) => {
                self.rewrite_type(&mut extension.type_ref);
                if let Some(name) = &mut extension.function.name {
                    if let Some(internal_name) = crate::project::rewrite::find_pair(self.local_extensions, name.as_str()) {
                        *name = internal_name.clone();
                    }
                }
                self.rewrite_function(&mut extension.function);
            },
            Item::Import(_) => {},
        }
    }
}

} // verus!
