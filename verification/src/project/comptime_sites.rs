use vstd::prelude::*;

use crate::ast::{
    Block, ElseBranch, Expr, ExprKind, FunctionBody, FunctionDecl, ImplMember, Item, MatchBranch, MatchBranchBody,
    Program, Stmt, StmtKind, StructInitField, StructMember, TraitMethodDecl,
};
use crate::project::comptime_reads::{
    reads_expr, runtime_local_uses_in_comptime, runtime_static_uses_in_comptime, use_views, RuntimeLocalUse,
};
use crate::project::rewrite::{scope_views, with_local, ScopeViews};
use crate::project::scan::{
    spec_block_has_comptime, spec_body_has_comptime, spec_branch_has_comptime, spec_expr_has_comptime,
    spec_stmt_has_comptime,
};
use crate::project::rewrite_code::{names_of, param_names, params_scope, pattern_bindings, pattern_scope};
use crate::span::Span;

verus! {

/// A `comptime` expression found in the program: its number, the package of
/// its item, where it is, the expression to evaluate, the static that it
/// initialises directly (if any), and the runtime locals and statics that it
/// reads (see `runtime_local_uses_in_comptime`).
#[derive(Debug)]
pub struct ComptimeSite<'a> {
    pub id: usize,
    pub package: usize,
    pub span: Span,
    pub expr: &'a Expr,
    pub direct_static_name: Option<String>,
    pub runtime_local_uses: Vec<RuntimeLocalUse>,
    pub runtime_static_uses: Vec<RuntimeLocalUse>,
}

/// A site by its package, span, expression, direct static and reads. The
/// number is left out: a site's number is its place in the list (see
/// `numbered`), which contracts state beside the list of views.
pub type SiteView = (usize, Span, Expr, Option<Seq<char>>, Seq<(Seq<char>, Span)>, Seq<(Seq<char>, Span)>);

/// A site's view: every field but its number, with strings by their characters.
pub open spec fn site_view(site: ComptimeSite) -> SiteView {
    (
        site.package,
        site.span,
        *site.expr,
        match site.direct_static_name {
            Some(n) => Some(n@),
            None => None,
        },
        use_views(site.runtime_local_uses@),
        use_views(site.runtime_static_uses@),
    )
}

pub open spec fn site_views(sites: Seq<ComptimeSite>) -> Seq<SiteView> {
    sites.map_values(|site: ComptimeSite| site_view(site))
}

/// Each site is numbered by its place in the list.
pub open spec fn numbered(sites: Seq<ComptimeSite>) -> bool {
    forall|i: int| 0 <= i < sites.len() ==> (#[trigger] sites[i]).id == i
}

/// The site that a `comptime` expression with body `inner` at `span` makes.
pub open spec fn make_site(
    package: usize,
    statics: Seq<Seq<char>>,
    scopes: ScopeViews,
    direct: Option<Seq<char>>,
    span: Span,
    inner: Expr,
) -> SiteView {
    (
        package,
        span,
        inner,
        direct,
        reads_expr(scopes, None, seq![], inner),
        reads_expr(scopes, Some(statics), seq![], inner),
    )
}

/// The runtime scopes after a statement: a `let` binds its name in the
/// innermost scope, and so does one in an `else if` chain.
pub open spec fn site_scopes(scopes: ScopeViews, statement: Stmt) -> ScopeViews
    decreases statement,
{
    match statement.kind {
        StmtKind::Let { name, .. } => with_local(scopes, name@),
        StmtKind::If { else_branch, .. } => match else_branch {
            Some(ElseBranch::If(s)) => site_scopes(scopes, *s),
            _ => scopes,
        },
        _ => scopes,
    }
}

pub open spec fn sites_scopes(scopes: ScopeViews, statements: Seq<Stmt>) -> ScopeViews
    decreases statements.len(),
{
    if statements.len() == 0 {
        scopes
    } else {
        site_scopes(
            sites_scopes(scopes, statements.subrange(0, statements.len() - 1)),
            statements[statements.len() - 1],
        )
    }
}

/// The comptime sites of an expression, in source order. A `comptime`
/// expression is one site; what it contains is not searched further.
pub open spec fn sites_expr(
    package: usize,
    statics: Seq<Seq<char>>,
    scopes: ScopeViews,
    direct: Option<Seq<char>>,
    expr: Expr,
) -> Seq<SiteView>
    decreases expr, 0nat,
{
    match expr.kind {
        ExprKind::Comptime(inner) => seq![make_site(package, statics, scopes, direct, expr.span, *inner)],
        ExprKind::Array(items) => sites_exprs(package, statics, scopes, items@),
        ExprKind::CollectionLiteral { items, .. } => sites_exprs(package, statics, scopes, items@),
        ExprKind::Call { callee, args } => sites_expr(package, statics, scopes, None, *callee) + sites_exprs(
            package,
            statics,
            scopes,
            args@,
        ),
        ExprKind::Member { object, .. } => sites_expr(package, statics, scopes, None, *object),
        ExprKind::GenericMember { object, .. } => sites_expr(package, statics, scopes, None, *object),
        ExprKind::StructInit { fields, .. } => sites_fields(package, statics, scopes, fields@),
        ExprKind::Range { start, end, .. } => sites_expr(package, statics, scopes, None, *start) + sites_expr(
            package,
            statics,
            scopes,
            None,
            *end,
        ),
        ExprKind::Binary { left, right, .. } => sites_expr(package, statics, scopes, None, *left) + sites_expr(
            package,
            statics,
            scopes,
            None,
            *right,
        ),
        ExprKind::Unary { operand, .. } => sites_expr(package, statics, scopes, None, *operand),
        ExprKind::PostfixIncrement(operand) => sites_expr(package, statics, scopes, None, *operand),
        ExprKind::Match { value, branches } => sites_expr(package, statics, scopes, None, *value) + sites_branches(
            package,
            statics,
            scopes,
            branches@,
        ),
        ExprKind::Lambda(function) => sites_function(package, statics, scopes, function),
        ExprKind::Block(block) => sites_block(package, statics, scopes, None, block),
        _ => seq![],
    }
}

pub open spec fn sites_exprs(package: usize, statics: Seq<Seq<char>>, scopes: ScopeViews, items: Seq<Expr>) -> Seq<SiteView>
    decreases items, 1nat,
{
    if items.len() == 0 {
        seq![]
    } else {
        sites_exprs(package, statics, scopes, items.subrange(0, items.len() - 1)) + sites_expr(
            package,
            statics,
            scopes,
            None,
            items[items.len() - 1],
        )
    }
}

pub open spec fn sites_fields(package: usize, statics: Seq<Seq<char>>, scopes: ScopeViews, fields: Seq<StructInitField>) -> Seq<
    SiteView,
>
    decreases fields, 1nat,
{
    if fields.len() == 0 {
        seq![]
    } else {
        sites_fields(package, statics, scopes, fields.subrange(0, fields.len() - 1)) + sites_expr(
            package,
            statics,
            scopes,
            None,
            fields[fields.len() - 1].value,
        )
    }
}

pub open spec fn sites_branches(package: usize, statics: Seq<Seq<char>>, scopes: ScopeViews, branches: Seq<MatchBranch>) -> Seq<
    SiteView,
>
    decreases branches, 1nat,
{
    if branches.len() == 0 {
        seq![]
    } else {
        sites_branches(package, statics, scopes, branches.subrange(0, branches.len() - 1)) + sites_branch(
            package,
            statics,
            scopes,
            branches[branches.len() - 1],
        )
    }
}

/// A branch is searched in a scope of what its pattern binds.
pub open spec fn sites_branch(package: usize, statics: Seq<Seq<char>>, scopes: ScopeViews, branch: MatchBranch) -> Seq<
    SiteView,
>
    decreases branch, 0nat,
{
    let inner = scopes.push(pattern_bindings(branch.pattern));
    let guard = match branch.guard {
        Some(g) => sites_expr(package, statics, inner, None, g),
        None => seq![],
    };
    guard + match branch.body {
        MatchBranchBody::Expr(e) => sites_expr(package, statics, inner, None, *e),
        MatchBranchBody::Block(b) => sites_block(package, statics, inner, None, b),
    }
}

/// A lambda is searched in a scope of its parameters.
pub open spec fn sites_function(package: usize, statics: Seq<Seq<char>>, scopes: ScopeViews, function: FunctionDecl) -> Seq<
    SiteView,
>
    decreases function, 0nat,
{
    let inner = scopes.push(param_names(function.params@));
    match function.body {
        FunctionBody::Block(b) => sites_block(package, statics, inner, None, b),
        FunctionBody::Expr(e) => sites_expr(package, statics, inner, None, *e),
    }
}

/// A block is searched in a scope of its own; only its first statement can
/// initialise a static directly.
pub open spec fn sites_block(
    package: usize,
    statics: Seq<Seq<char>>,
    scopes: ScopeViews,
    direct: Option<Seq<char>>,
    block: Block,
) -> Seq<SiteView>
    decreases block, 0nat,
{
    sites_stmts(package, statics, scopes.push(seq![]), direct, block.statements@)
}

pub open spec fn sites_stmts(
    package: usize,
    statics: Seq<Seq<char>>,
    scopes: ScopeViews,
    direct: Option<Seq<char>>,
    statements: Seq<Stmt>,
) -> Seq<SiteView>
    decreases statements, 1nat,
{
    if statements.len() == 0 {
        seq![]
    } else {
        let earlier = statements.subrange(0, statements.len() - 1);
        sites_stmts(package, statics, scopes, direct, earlier) + sites_stmt(
            package,
            statics,
            sites_scopes(scopes, earlier),
            if earlier.len() == 0 {
                direct
            } else {
                None
            },
            statements[statements.len() - 1],
        )
    }
}

pub open spec fn sites_stmt(
    package: usize,
    statics: Seq<Seq<char>>,
    scopes: ScopeViews,
    direct: Option<Seq<char>>,
    statement: Stmt,
) -> Seq<SiteView>
    decreases statement, 0nat,
{
    match statement.kind {
        StmtKind::Let { value, .. } => match value {
            Some(v) => sites_expr(package, statics, scopes, direct, v),
            None => seq![],
        },
        StmtKind::Return { value } => match value {
            Some(v) => sites_expr(package, statics, scopes, direct, v),
            None => seq![],
        },
        StmtKind::Assign { target, value, .. } => sites_expr(package, statics, scopes, None, target) + sites_expr(
            package,
            statics,
            scopes,
            direct,
            value,
        ),
        StmtKind::If { condition, then_branch, else_branch } => sites_expr(package, statics, scopes, None, condition)
            + sites_block(package, statics, scopes, None, then_branch) + match else_branch {
            Some(ElseBranch::Block(b)) => sites_block(package, statics, scopes, None, b),
            Some(ElseBranch::If(s)) => sites_stmt(package, statics, scopes, None, *s),
            None => seq![],
        },
        StmtKind::While { condition, body } => sites_expr(package, statics, scopes, None, condition) + sites_block(
            package,
            statics,
            scopes,
            None,
            body,
        ),
        StmtKind::For { name, iterable, body } => sites_expr(package, statics, scopes, None, iterable) + sites_block(
            package,
            statics,
            scopes.push(seq![name@]),
            None,
            body,
        ),
        StmtKind::Expr(e) => sites_expr(package, statics, scopes, direct, e),
        _ => seq![],
    }
}

pub open spec fn opt_view(name: Option<&String>) -> Option<Seq<char>> {
    match name {
        Some(n) => Some(n@),
        None => None,
    }
}

proof fn lemma_scope_views_push(scopes: Seq<Vec<String>>, scope: Vec<String>)
    ensures
        scope_views(scopes.push(scope)) == scope_views(scopes).push(names_of(scope@)),
{
    assert(scope_views(scopes.push(scope)) =~= scope_views(scopes).push(names_of(scope@)));
}

proof fn lemma_scope_views_pop(scopes: Seq<Vec<String>>)
    requires
        scopes.len() > 0,
    ensures
        scope_views(scopes.drop_last()) == scope_views(scopes).drop_last(),
{
    assert(scope_views(scopes.drop_last()) =~= scope_views(scopes).drop_last());
}

/// Opens a scope that binds `names`.
fn open_scope(runtime: &mut Vec<Vec<String>>, names: Vec<String>)
    ensures
        scope_views(final(runtime)@) == scope_views(old(runtime)@).push(names_of(names@)),
{
    proof {
        lemma_scope_views_push(runtime@, names);
    }
    runtime.push(names);
}

/// Closes the innermost scope.
fn close_scope(runtime: &mut Vec<Vec<String>>)
    requires
        scope_views(old(runtime)@).len() > 0,
    ensures
        scope_views(final(runtime)@) == scope_views(old(runtime)@).drop_last(),
{
    assert(scope_views(runtime@).len() == runtime@.len());
    proof {
        lemma_scope_views_pop(runtime@);
    }
    let _ = runtime.pop();
}

/// Binds `name` in the innermost scope.
fn bind_local(runtime: &mut Vec<Vec<String>>, name: &String)
    ensures
        scope_views(final(runtime)@) == with_local(scope_views(old(runtime)@), name@),
{
    let count = runtime.len();
    if count > 0 {
        let ghost before = runtime@;
        runtime[count - 1].push(name.clone());
        assert(scope_views(runtime@) =~= with_local(scope_views(before), name@)) by {
            let last = count - 1;
            assert(runtime@[last as int]@.map_values(|n: String| n@) =~= before[last as int]@.map_values(
                |n: String| n@,
            ).push(name@));
        }
    } else {
        assert(scope_views(runtime@) =~= scope_views(old(runtime)@));
    }
}

proof fn lemma_site_push<'a>(sites: Seq<ComptimeSite<'a>>, site: ComptimeSite<'a>)
    ensures
        site_views(sites.push(site)) == site_views(sites) + seq![site_view(site)],
{
    assert(site_views(sites.push(site)) =~= site_views(sites) + seq![site_view(site)]);
}

/// Records the comptime sites of an expression (see `sites_expr`).
#[verifier::spinoff_prover]
#[verifier::rlimit(40)]
pub fn collect_comptime_sites_in_expr<'a>(
    expr: &'a Expr,
    package: usize,
    static_names: &Vec<String>,
    runtime: &mut Vec<Vec<String>>,
    direct: Option<&String>,
    sites: &mut Vec<ComptimeSite<'a>>,
)
    requires
        numbered(old(sites)@),
    ensures
        numbered(final(sites)@),
        scope_views(final(runtime)@) == scope_views(old(runtime)@),
        site_views(final(sites)@) == site_views(old(sites)@) + sites_expr(
            package,
            names_of(static_names@),
            scope_views(old(runtime)@),
            opt_view(direct),
            *expr,
        ),
    decreases expr, 0nat,
{
    let ghost st = names_of(static_names@);
    let ghost sc = scope_views(runtime@);
    let ghost start = site_views(sites@);
    match &expr.kind {
        ExprKind::Comptime(inner) => {
            let id = sites.len();
            let site = ComptimeSite {
                id,
                package,
                span: expr.span,
                expr: &**inner,
                direct_static_name: match direct {
                    Some(name) => Some(name.clone()),
                    None => None,
                },
                runtime_local_uses: runtime_local_uses_in_comptime(inner, runtime),
                runtime_static_uses: runtime_static_uses_in_comptime(inner, runtime, static_names),
            };
            assert(site_view(site) == make_site(package, st, sc, opt_view(direct), expr.span, **inner));
            proof {
                lemma_site_push(sites@, site);
            }
            sites.push(site);
        },
        ExprKind::Array(items) => collect_comptime_sites_in_exprs(items, package, static_names, runtime, sites),
        ExprKind::CollectionLiteral { items, .. } => collect_comptime_sites_in_exprs(
            items,
            package,
            static_names,
            runtime,
            sites,
        ),
        ExprKind::Call { callee, args } => {
            collect_comptime_sites_in_expr(callee, package, static_names, runtime, None, sites);
            collect_comptime_sites_in_exprs(args, package, static_names, runtime, sites);
            assert(site_views(sites@) =~= start + (sites_expr(package, st, sc, None, **callee) + sites_exprs(
                package,
                st,
                sc,
                args@,
            )));
        },
        ExprKind::Member { object, .. } => collect_comptime_sites_in_expr(object, package, static_names, runtime, None, sites),
        ExprKind::GenericMember { object, .. } => collect_comptime_sites_in_expr(
            object,
            package,
            static_names,
            runtime,
            None,
            sites,
        ),
        ExprKind::StructInit { fields, .. } => collect_comptime_sites_in_fields(fields, package, static_names, runtime, sites),
        ExprKind::Range { start: first, end, .. } => {
            collect_comptime_sites_in_expr(first, package, static_names, runtime, None, sites);
            collect_comptime_sites_in_expr(end, package, static_names, runtime, None, sites);
            assert(site_views(sites@) =~= start + (sites_expr(package, st, sc, None, **first) + sites_expr(
                package,
                st,
                sc,
                None,
                **end,
            )));
        },
        ExprKind::Binary { left, right, .. } => {
            collect_comptime_sites_in_expr(left, package, static_names, runtime, None, sites);
            collect_comptime_sites_in_expr(right, package, static_names, runtime, None, sites);
            assert(site_views(sites@) =~= start + (sites_expr(package, st, sc, None, **left) + sites_expr(
                package,
                st,
                sc,
                None,
                **right,
            )));
        },
        ExprKind::Unary { operand, .. } => collect_comptime_sites_in_expr(operand, package, static_names, runtime, None, sites),
        ExprKind::PostfixIncrement(operand) => collect_comptime_sites_in_expr(
            operand,
            package,
            static_names,
            runtime,
            None,
            sites,
        ),
        ExprKind::Match { value, branches } => {
            collect_comptime_sites_in_expr(value, package, static_names, runtime, None, sites);
            collect_comptime_sites_in_branches(branches, package, static_names, runtime, sites);
            assert(site_views(sites@) =~= start + (sites_expr(package, st, sc, None, **value) + sites_branches(
                package,
                st,
                sc,
                branches@,
            )));
        },
        ExprKind::Lambda(function) => collect_comptime_sites_in_lambda(function, package, static_names, runtime, sites),
        ExprKind::Block(block) => collect_comptime_sites_in_block(block, package, static_names, runtime, None, sites),
        _ => {
            assert(site_views(sites@) =~= start + seq![]);
        },
    }
}

fn collect_comptime_sites_in_exprs<'a>(
    items: &'a Vec<Expr>,
    package: usize,
    static_names: &Vec<String>,
    runtime: &mut Vec<Vec<String>>,
    sites: &mut Vec<ComptimeSite<'a>>,
)
    requires
        numbered(old(sites)@),
    ensures
        numbered(final(sites)@),
        scope_views(final(runtime)@) == scope_views(old(runtime)@),
        site_views(final(sites)@) == site_views(old(sites)@) + sites_exprs(
            package,
            names_of(static_names@),
            scope_views(old(runtime)@),
            items@,
        ),
    decreases items, 1nat,
{
    let ghost st = names_of(static_names@);
    let ghost sc = scope_views(runtime@);
    let ghost start = site_views(sites@);
    assert(start + sites_exprs(package, st, sc, items@.take(0)) =~= start);
    let mut i: usize = 0;
    while i < items.len()
        invariant
            i <= items@.len(),
            st == names_of(static_names@),
            sc == scope_views(old(runtime)@),
            scope_views(runtime@) == sc,
            start == site_views(old(sites)@),
            numbered(sites@),
            site_views(sites@) == start + sites_exprs(package, st, sc, items@.take(i as int)),
        decreases items.len() - i,
    {
        collect_comptime_sites_in_expr(&items[i], package, static_names, runtime, None, sites);
        assert(items@.take(i + 1).subrange(0, i as int) =~= items@.take(i as int));
        assert(items@.take(i + 1)[i as int] == items@[i as int]);
        assert(site_views(sites@) =~= start + sites_exprs(package, st, sc, items@.take(i + 1)));
        i = i + 1;
    }
    assert(items@.take(items@.len() as int) =~= items@);
}

fn collect_comptime_sites_in_fields<'a>(
    fields: &'a Vec<StructInitField>,
    package: usize,
    static_names: &Vec<String>,
    runtime: &mut Vec<Vec<String>>,
    sites: &mut Vec<ComptimeSite<'a>>,
)
    requires
        numbered(old(sites)@),
    ensures
        numbered(final(sites)@),
        scope_views(final(runtime)@) == scope_views(old(runtime)@),
        site_views(final(sites)@) == site_views(old(sites)@) + sites_fields(
            package,
            names_of(static_names@),
            scope_views(old(runtime)@),
            fields@,
        ),
    decreases fields, 1nat,
{
    let ghost st = names_of(static_names@);
    let ghost sc = scope_views(runtime@);
    let ghost start = site_views(sites@);
    assert(start + sites_fields(package, st, sc, fields@.take(0)) =~= start);
    let mut i: usize = 0;
    while i < fields.len()
        invariant
            i <= fields@.len(),
            st == names_of(static_names@),
            sc == scope_views(old(runtime)@),
            scope_views(runtime@) == sc,
            start == site_views(old(sites)@),
            numbered(sites@),
            site_views(sites@) == start + sites_fields(package, st, sc, fields@.take(i as int)),
        decreases fields.len() - i,
    {
        collect_comptime_sites_in_expr(&fields[i].value, package, static_names, runtime, None, sites);
        assert(fields@.take(i + 1).subrange(0, i as int) =~= fields@.take(i as int));
        assert(fields@.take(i + 1)[i as int] == fields@[i as int]);
        assert(site_views(sites@) =~= start + sites_fields(package, st, sc, fields@.take(i + 1)));
        i = i + 1;
    }
    assert(fields@.take(fields@.len() as int) =~= fields@);
}

fn collect_comptime_sites_in_branches<'a>(
    branches: &'a Vec<MatchBranch>,
    package: usize,
    static_names: &Vec<String>,
    runtime: &mut Vec<Vec<String>>,
    sites: &mut Vec<ComptimeSite<'a>>,
)
    requires
        numbered(old(sites)@),
    ensures
        numbered(final(sites)@),
        scope_views(final(runtime)@) == scope_views(old(runtime)@),
        site_views(final(sites)@) == site_views(old(sites)@) + sites_branches(
            package,
            names_of(static_names@),
            scope_views(old(runtime)@),
            branches@,
        ),
    decreases branches, 1nat,
{
    let ghost st = names_of(static_names@);
    let ghost sc = scope_views(runtime@);
    let ghost start = site_views(sites@);
    assert(start + sites_branches(package, st, sc, branches@.take(0)) =~= start);
    let mut i: usize = 0;
    while i < branches.len()
        invariant
            i <= branches@.len(),
            st == names_of(static_names@),
            sc == scope_views(old(runtime)@),
            scope_views(runtime@) == sc,
            start == site_views(old(sites)@),
            numbered(sites@),
            site_views(sites@) == start + sites_branches(package, st, sc, branches@.take(i as int)),
        decreases branches.len() - i,
    {
        collect_comptime_sites_in_branch(&branches[i], package, static_names, runtime, sites);
        assert(branches@.take(i + 1).subrange(0, i as int) =~= branches@.take(i as int));
        assert(branches@.take(i + 1)[i as int] == branches@[i as int]);
        assert(site_views(sites@) =~= start + sites_branches(package, st, sc, branches@.take(i + 1)));
        i = i + 1;
    }
    assert(branches@.take(branches@.len() as int) =~= branches@);
}

fn collect_comptime_sites_in_branch<'a>(
    branch: &'a MatchBranch,
    package: usize,
    static_names: &Vec<String>,
    runtime: &mut Vec<Vec<String>>,
    sites: &mut Vec<ComptimeSite<'a>>,
)
    requires
        numbered(old(sites)@),
    ensures
        numbered(final(sites)@),
        scope_views(final(runtime)@) == scope_views(old(runtime)@),
        site_views(final(sites)@) == site_views(old(sites)@) + sites_branch(
            package,
            names_of(static_names@),
            scope_views(old(runtime)@),
            *branch,
        ),
    decreases branch, 0nat,
{
    let ghost st = names_of(static_names@);
    let ghost sc = scope_views(runtime@);
    let ghost start = site_views(sites@);
    open_scope(runtime, pattern_scope(&branch.pattern));
    if let Some(guard) = &branch.guard {
        collect_comptime_sites_in_expr(guard, package, static_names, runtime, None, sites);
    }
    match &branch.body {
        MatchBranchBody::Expr(e) => collect_comptime_sites_in_expr(e, package, static_names, runtime, None, sites),
        MatchBranchBody::Block(block) => collect_comptime_sites_in_block(block, package, static_names, runtime, None, sites),
    }
    close_scope(runtime);
    assert(scope_views(runtime@) =~= sc);
    assert(site_views(sites@) =~= start + sites_branch(package, st, sc, *branch));
}

fn collect_comptime_sites_in_lambda<'a>(
    function: &'a FunctionDecl,
    package: usize,
    static_names: &Vec<String>,
    runtime: &mut Vec<Vec<String>>,
    sites: &mut Vec<ComptimeSite<'a>>,
)
    requires
        numbered(old(sites)@),
    ensures
        numbered(final(sites)@),
        scope_views(final(runtime)@) == scope_views(old(runtime)@),
        site_views(final(sites)@) == site_views(old(sites)@) + sites_function(
            package,
            names_of(static_names@),
            scope_views(old(runtime)@),
            *function,
        ),
    decreases function, 0nat,
{
    let ghost sc = scope_views(runtime@);
    open_scope(runtime, params_scope(&function.params));
    match &function.body {
        FunctionBody::Block(block) => collect_comptime_sites_in_block(block, package, static_names, runtime, None, sites),
        FunctionBody::Expr(e) => collect_comptime_sites_in_expr(e, package, static_names, runtime, None, sites),
    }
    close_scope(runtime);
    assert(scope_views(runtime@) =~= sc);
}

/// Records the comptime sites of a block, in a scope of its own.
pub fn collect_comptime_sites_in_block<'a>(
    block: &'a Block,
    package: usize,
    static_names: &Vec<String>,
    runtime: &mut Vec<Vec<String>>,
    direct: Option<&String>,
    sites: &mut Vec<ComptimeSite<'a>>,
)
    requires
        numbered(old(sites)@),
    ensures
        numbered(final(sites)@),
        scope_views(final(runtime)@) == scope_views(old(runtime)@),
        site_views(final(sites)@) == site_views(old(sites)@) + sites_block(
            package,
            names_of(static_names@),
            scope_views(old(runtime)@),
            opt_view(direct),
            *block,
        ),
    decreases block, 0nat,
{
    let ghost sc = scope_views(runtime@);
    open_scope(runtime, Vec::new());
    assert(names_of(Seq::<String>::empty()) =~= seq![]);
    collect_comptime_sites_in_statements(&block.statements, package, static_names, runtime, direct, sites);
    assert(scope_views(runtime@).len() == sc.len() + 1) by {
        lemma_sites_scopes_len(sc.push(seq![]), block.statements@);
    }
    close_scope(runtime);
    assert(scope_views(runtime@) =~= sc) by {
        lemma_sites_scopes_prefix(sc.push(seq![]), block.statements@);
    }
}

proof fn lemma_with_local_shape(scopes: ScopeViews, name: Seq<char>)
    ensures
        with_local(scopes, name).len() == scopes.len(),
        forall|j: int| 0 <= j < scopes.len() - 1 ==> #[trigger] with_local(scopes, name)[j] == scopes[j],
{
}

proof fn lemma_site_scopes_shape(scopes: ScopeViews, statement: Stmt)
    ensures
        site_scopes(scopes, statement).len() == scopes.len(),
        forall|j: int| 0 <= j < scopes.len() - 1 ==> #[trigger] site_scopes(scopes, statement)[j] == scopes[j],
    decreases statement,
{
    match statement.kind {
        StmtKind::Let { name, .. } => lemma_with_local_shape(scopes, name@),
        StmtKind::If { else_branch, .. } => match else_branch {
            Some(ElseBranch::If(s)) => lemma_site_scopes_shape(scopes, *s),
            _ => {},
        },
        _ => {},
    }
}

proof fn lemma_sites_scopes_len(scopes: ScopeViews, statements: Seq<Stmt>)
    ensures
        sites_scopes(scopes, statements).len() == scopes.len(),
        forall|j: int| 0 <= j < scopes.len() - 1 ==> #[trigger] sites_scopes(scopes, statements)[j] == scopes[j],
    decreases statements.len(),
{
    if statements.len() > 0 {
        let earlier = statements.subrange(0, statements.len() - 1);
        lemma_sites_scopes_len(scopes, earlier);
        lemma_site_scopes_shape(sites_scopes(scopes, earlier), statements[statements.len() - 1]);
    }
}

proof fn lemma_sites_scopes_prefix(scopes: ScopeViews, statements: Seq<Stmt>)
    requires
        scopes.len() > 0,
    ensures
        sites_scopes(scopes, statements).drop_last() == scopes.drop_last(),
{
    lemma_sites_scopes_len(scopes, statements);
    assert(sites_scopes(scopes, statements).drop_last() =~= scopes.drop_last());
}

/// Records the comptime sites of statements in order; each `let` binds its
/// name in the innermost scope.
fn collect_comptime_sites_in_statements<'a>(
    statements: &'a Vec<Stmt>,
    package: usize,
    static_names: &Vec<String>,
    runtime: &mut Vec<Vec<String>>,
    direct: Option<&String>,
    sites: &mut Vec<ComptimeSite<'a>>,
)
    requires
        numbered(old(sites)@),
    ensures
        numbered(final(sites)@),
        scope_views(final(runtime)@) == sites_scopes(scope_views(old(runtime)@), statements@),
        site_views(final(sites)@) == site_views(old(sites)@) + sites_stmts(
            package,
            names_of(static_names@),
            scope_views(old(runtime)@),
            opt_view(direct),
            statements@,
        ),
    decreases statements, 1nat,
{
    let ghost st = names_of(static_names@);
    let ghost sc = scope_views(runtime@);
    let ghost start = site_views(sites@);
    let ghost first = opt_view(direct);
    assert(start + sites_stmts(package, st, sc, first, statements@.take(0)) =~= start);
    assert(sites_scopes(sc, statements@.take(0)) == sc);
    let mut i: usize = 0;
    while i < statements.len()
        invariant
            i <= statements@.len(),
            st == names_of(static_names@),
            sc == scope_views(old(runtime)@),
            first == opt_view(direct),
            scope_views(runtime@) == sites_scopes(sc, statements@.take(i as int)),
            start == site_views(old(sites)@),
            numbered(sites@),
            site_views(sites@) == start + sites_stmts(package, st, sc, first, statements@.take(i as int)),
        decreases statements.len() - i,
    {
        if i == 0 {
            collect_comptime_sites_in_statement(&statements[i], package, static_names, runtime, direct, sites);
        } else {
            collect_comptime_sites_in_statement(&statements[i], package, static_names, runtime, None, sites);
        }
        assert(statements@.take(i + 1).subrange(0, i as int) =~= statements@.take(i as int));
        assert(statements@.take(i + 1)[i as int] == statements@[i as int]);
        assert(site_views(sites@) =~= start + sites_stmts(package, st, sc, first, statements@.take(i + 1)));
        i = i + 1;
    }
    assert(statements@.take(statements@.len() as int) =~= statements@);
}

/// Records the comptime sites of a statement (see `sites_stmt`); a `let`
/// binds its name in the innermost scope (see `site_scopes`).
#[verifier::spinoff_prover]
#[verifier::rlimit(40)]
pub fn collect_comptime_sites_in_statement<'a>(
    statement: &'a Stmt,
    package: usize,
    static_names: &Vec<String>,
    runtime: &mut Vec<Vec<String>>,
    direct: Option<&String>,
    sites: &mut Vec<ComptimeSite<'a>>,
)
    requires
        numbered(old(sites)@),
    ensures
        numbered(final(sites)@),
        scope_views(final(runtime)@) == site_scopes(scope_views(old(runtime)@), *statement),
        site_views(final(sites)@) == site_views(old(sites)@) + sites_stmt(
            package,
            names_of(static_names@),
            scope_views(old(runtime)@),
            opt_view(direct),
            *statement,
        ),
    decreases statement, 0nat,
{
    let ghost st = names_of(static_names@);
    let ghost sc = scope_views(runtime@);
    let ghost start = site_views(sites@);
    match &statement.kind {
        StmtKind::Let { name, value, .. } => {
            if let Some(v) = value {
                collect_comptime_sites_in_expr(v, package, static_names, runtime, direct, sites);
            } else {
                assert(site_views(sites@) =~= start + seq![]);
            }
            bind_local(runtime, name);
        },
        StmtKind::Return { value } => {
            if let Some(v) = value {
                collect_comptime_sites_in_expr(v, package, static_names, runtime, direct, sites);
            } else {
                assert(site_views(sites@) =~= start + seq![]);
            }
        },
        StmtKind::Assign { target, value, .. } => {
            collect_comptime_sites_in_expr(target, package, static_names, runtime, None, sites);
            collect_comptime_sites_in_expr(value, package, static_names, runtime, direct, sites);
            assert(site_views(sites@) =~= start + (sites_expr(package, st, sc, None, *target) + sites_expr(
                package,
                st,
                sc,
                opt_view(direct),
                *value,
            )));
        },
        StmtKind::If { condition, then_branch, else_branch } => {
            collect_comptime_sites_in_expr(condition, package, static_names, runtime, None, sites);
            collect_comptime_sites_in_block(then_branch, package, static_names, runtime, None, sites);
            match else_branch {
                Some(ElseBranch::Block(block)) => {
                    collect_comptime_sites_in_block(block, package, static_names, runtime, None, sites);
                },
                Some(ElseBranch::If(inner)) => {
                    collect_comptime_sites_in_statement(inner, package, static_names, runtime, None, sites);
                },
                None => {},
            }
            assert(site_views(sites@) =~= start + sites_stmt(package, st, sc, opt_view(direct), *statement));
        },
        StmtKind::While { condition, body } => {
            collect_comptime_sites_in_expr(condition, package, static_names, runtime, None, sites);
            collect_comptime_sites_in_block(body, package, static_names, runtime, None, sites);
            assert(site_views(sites@) =~= start + (sites_expr(package, st, sc, None, *condition) + sites_block(
                package,
                st,
                sc,
                None,
                *body,
            )));
        },
        StmtKind::For { name, iterable, body } => {
            collect_comptime_sites_in_expr(iterable, package, static_names, runtime, None, sites);
            let mut scope: Vec<String> = Vec::new();
            scope.push(name.clone());
            assert(names_of(scope@) =~= seq![name@]);
            open_scope(runtime, scope);
            collect_comptime_sites_in_block(body, package, static_names, runtime, None, sites);
            close_scope(runtime);
            assert(scope_views(runtime@) =~= sc);
            assert(site_views(sites@) =~= start + (sites_expr(package, st, sc, None, *iterable) + sites_block(
                package,
                st,
                sc.push(seq![name@]),
                None,
                *body,
            )));
        },
        StmtKind::Expr(e) => collect_comptime_sites_in_expr(e, package, static_names, runtime, direct, sites),
        StmtKind::Break => {
            assert(site_views(sites@) =~= start + seq![]);
        },
        StmtKind::Continue => {
            assert(site_views(sites@) =~= start + seq![]);
        },
    }
}

/// The comptime sites of a function declared at the top of an item: its body
/// is searched in a scope of its parameters.
pub open spec fn sites_declared_function(package: usize, statics: Seq<Seq<char>>, function: FunctionDecl) -> Seq<SiteView> {
    let scopes = seq![param_names(function.params@)];
    match function.body {
        FunctionBody::Block(b) => sites_block(package, statics, scopes, None, b),
        FunctionBody::Expr(e) => sites_expr(package, statics, scopes, None, *e),
    }
}

pub open spec fn sites_members(package: usize, statics: Seq<Seq<char>>, members: Seq<StructMember>) -> Seq<SiteView>
    decreases members.len(),
{
    if members.len() == 0 {
        seq![]
    } else {
        let earlier = sites_members(package, statics, members.drop_last());
        match members.last() {
            StructMember::Method(f) => earlier + sites_declared_function(package, statics, f),
            StructMember::StaticMethod(f) => earlier + sites_declared_function(package, statics, f),
            StructMember::Field(_) => earlier,
        }
    }
}

pub open spec fn sites_trait_methods(package: usize, statics: Seq<Seq<char>>, methods: Seq<TraitMethodDecl>) -> Seq<SiteView>
    decreases methods.len(),
{
    if methods.len() == 0 {
        seq![]
    } else {
        let earlier = sites_trait_methods(package, statics, methods.drop_last());
        let m = methods.last();
        let scopes = seq![param_names(m.params@)];
        match m.body {
            Some(FunctionBody::Block(b)) => earlier + sites_block(package, statics, scopes, None, b),
            Some(FunctionBody::Expr(e)) => earlier + sites_expr(package, statics, scopes, None, *e),
            None => earlier,
        }
    }
}

pub open spec fn sites_impl_members(package: usize, statics: Seq<Seq<char>>, members: Seq<ImplMember>) -> Seq<SiteView>
    decreases members.len(),
{
    if members.len() == 0 {
        seq![]
    } else {
        sites_impl_members(package, statics, members.drop_last()) + sites_declared_function(
            package,
            statics,
            members.last().function,
        )
    }
}

/// The comptime sites of a top-level item, in source order.
pub open spec fn sites_item(package: usize, statics: Seq<Seq<char>>, item: Item) -> Seq<SiteView> {
    match item {
        Item::Enum(d) => sites_members(package, statics, d.members@),
        Item::Struct(d) => sites_members(package, statics, d.members@),
        Item::Trait(d) => sites_trait_methods(package, statics, d.methods@),
        Item::Impl(d) => sites_impl_members(package, statics, d.methods@),
        Item::Extension(d) => sites_declared_function(package, statics, d.function),
        Item::Function(f) => sites_declared_function(package, statics, f),
        Item::Import(_) => seq![],
    }
}

/// The package of item `index`: as listed, else the root package.
pub open spec fn item_package(item_packages: Seq<usize>, root_package: usize, index: int) -> usize {
    if 0 <= index < item_packages.len() {
        item_packages[index]
    } else {
        root_package
    }
}

/// The comptime sites of the first `n` items, in source order.
pub open spec fn sites_items(items: Seq<Item>, item_packages: Seq<usize>, root_package: usize, n: int) -> Seq<SiteView>
    decreases n,
{
    if n <= 0 || n > items.len() {
        seq![]
    } else {
        sites_items(items, item_packages, root_package, n - 1) + sites_item(
            item_package(item_packages, root_package, n - 1),
            seq![],
            items[n - 1],
        )
    }
}

/// Records the comptime sites of a function declared at the top of an item.
fn collect_comptime_sites_in_function<'a>(
    function: &'a FunctionDecl,
    package: usize,
    static_names: &Vec<String>,
    sites: &mut Vec<ComptimeSite<'a>>,
)
    requires
        numbered(old(sites)@),
    ensures
        numbered(final(sites)@),
        site_views(final(sites)@) == site_views(old(sites)@) + sites_declared_function(
            package,
            names_of(static_names@),
            *function,
        ),
{
    let mut runtime: Vec<Vec<String>> = Vec::new();
    runtime.push(params_scope(&function.params));
    assert(scope_views(runtime@) =~= seq![param_names(function.params@)]);
    match &function.body {
        FunctionBody::Block(block) => collect_comptime_sites_in_block(block, package, static_names, &mut runtime, None, sites),
        FunctionBody::Expr(e) => collect_comptime_sites_in_expr(e, package, static_names, &mut runtime, None, sites),
    }
}

/// Records the comptime sites of a top-level item (see `sites_item`).
pub fn collect_comptime_sites_in_item<'a>(
    item: &'a Item,
    package: usize,
    static_names: &Vec<String>,
    sites: &mut Vec<ComptimeSite<'a>>,
)
    requires
        numbered(old(sites)@),
    ensures
        numbered(final(sites)@),
        site_views(final(sites)@) == site_views(old(sites)@) + sites_item(package, names_of(static_names@), *item),
{
    let ghost st = names_of(static_names@);
    let ghost start = site_views(sites@);
    match item {
        Item::Enum(decl) => collect_comptime_sites_in_members(&decl.members, package, static_names, sites),
        Item::Struct(decl) => collect_comptime_sites_in_members(&decl.members, package, static_names, sites),
        Item::Trait(decl) => {
            assert(start + sites_trait_methods(package, st, decl.methods@.take(0)) =~= start);
            let mut i: usize = 0;
            while i < decl.methods.len()
                invariant
                    i <= decl.methods@.len(),
                    st == names_of(static_names@),
                    start == site_views(old(sites)@),
                    numbered(sites@),
                    site_views(sites@) == start + sites_trait_methods(package, st, decl.methods@.take(i as int)),
                decreases decl.methods.len() - i,
            {
                let method = &decl.methods[i];
                assert(decl.methods@.take(i + 1).drop_last() =~= decl.methods@.take(i as int));
                assert(decl.methods@.take(i + 1).last() == decl.methods@[i as int]);
                let ghost before = site_views(sites@);
                if let Some(body) = &method.body {
                    let mut runtime: Vec<Vec<String>> = Vec::new();
                    runtime.push(params_scope(&method.params));
                    assert(scope_views(runtime@) =~= seq![param_names(method.params@)]);
                    match body {
                        FunctionBody::Block(block) => collect_comptime_sites_in_block(
                            block,
                            package,
                            static_names,
                            &mut runtime,
                            None,
                            sites,
                        ),
                        FunctionBody::Expr(e) => collect_comptime_sites_in_expr(
                            e,
                            package,
                            static_names,
                            &mut runtime,
                            None,
                            sites,
                        ),
                    }
                }
                assert(site_views(sites@) =~= start + sites_trait_methods(package, st, decl.methods@.take(i + 1)));
                i = i + 1;
            }
            assert(decl.methods@.take(decl.methods@.len() as int) =~= decl.methods@);
        },
        Item::Impl(decl) => {
            assert(start + sites_impl_members(package, st, decl.methods@.take(0)) =~= start);
            let mut i: usize = 0;
            while i < decl.methods.len()
                invariant
                    i <= decl.methods@.len(),
                    st == names_of(static_names@),
                    start == site_views(old(sites)@),
                    numbered(sites@),
                    site_views(sites@) == start + sites_impl_members(package, st, decl.methods@.take(i as int)),
                decreases decl.methods.len() - i,
            {
                assert(decl.methods@.take(i + 1).drop_last() =~= decl.methods@.take(i as int));
                assert(decl.methods@.take(i + 1).last() == decl.methods@[i as int]);
                collect_comptime_sites_in_function(&decl.methods[i].function, package, static_names, sites);
                assert(site_views(sites@) =~= start + sites_impl_members(package, st, decl.methods@.take(i + 1)));
                i = i + 1;
            }
            assert(decl.methods@.take(decl.methods@.len() as int) =~= decl.methods@);
        },
        Item::Extension(decl) => collect_comptime_sites_in_function(&decl.function, package, static_names, sites),
        Item::Function(function) => collect_comptime_sites_in_function(function, package, static_names, sites),
        Item::Import(_) => {
            assert(site_views(sites@) =~= start + seq![]);
        },
    }
}

fn collect_comptime_sites_in_members<'a>(
    members: &'a Vec<StructMember>,
    package: usize,
    static_names: &Vec<String>,
    sites: &mut Vec<ComptimeSite<'a>>,
)
    requires
        numbered(old(sites)@),
    ensures
        numbered(final(sites)@),
        site_views(final(sites)@) == site_views(old(sites)@) + sites_members(package, names_of(static_names@), members@),
{
    let ghost st = names_of(static_names@);
    let ghost start = site_views(sites@);
    assert(start + sites_members(package, st, members@.take(0)) =~= start);
    let mut i: usize = 0;
    while i < members.len()
        invariant
            i <= members@.len(),
            st == names_of(static_names@),
            start == site_views(old(sites)@),
            numbered(sites@),
            site_views(sites@) == start + sites_members(package, st, members@.take(i as int)),
        decreases members.len() - i,
    {
        assert(members@.take(i + 1).drop_last() =~= members@.take(i as int));
        assert(members@.take(i + 1).last() == members@[i as int]);
        match &members[i] {
            StructMember::Method(function) => collect_comptime_sites_in_function(function, package, static_names, sites),
            StructMember::StaticMethod(function) => collect_comptime_sites_in_function(function, package, static_names, sites),
            StructMember::Field(_) => {},
        }
        assert(site_views(sites@) =~= start + sites_members(package, st, members@.take(i + 1)));
        i = i + 1;
    }
    assert(members@.take(members@.len() as int) =~= members@);
}

/// Every comptime site of a program, numbered in source order; item `i`
/// belongs to package `item_packages[i]` (the root package where that is
/// missing). The items of this syntax declare no statics, so no site reads one.
pub fn collect_comptime_sites<'a>(program: &'a Program, item_packages: &Vec<usize>, root_package: usize) -> (sites: Vec<
    ComptimeSite<'a>,
>)
    ensures
        numbered(sites@),
        site_views(sites@) == sites_items(program.items@, item_packages@, root_package, program.items@.len() as int),
{
    let static_names: Vec<String> = Vec::new();
    assert(names_of(static_names@) =~= Seq::<Seq<char>>::empty());
    let mut sites: Vec<ComptimeSite<'a>> = Vec::new();
    assert(site_views(sites@) =~= Seq::<SiteView>::empty());
    let mut index: usize = 0;
    while index < program.items.len()
        invariant
            index <= program.items@.len(),
            names_of(static_names@) == Seq::<Seq<char>>::empty(),
            numbered(sites@),
            site_views(sites@) == sites_items(program.items@, item_packages@, root_package, index as int),
        decreases program.items.len() - index,
    {
        let package = if index < item_packages.len() {
            item_packages[index]
        } else {
            root_package
        };
        collect_comptime_sites_in_item(&program.items[index], package, &static_names, &mut sites);
        index = index + 1;
    }
    sites
}

proof fn lemma_sites_expr(package: usize, statics: Seq<Seq<char>>, scopes: ScopeViews, direct: Option<Seq<char>>, expr: Expr)
    ensures
        (sites_expr(package, statics, scopes, direct, expr).len() > 0) == spec_expr_has_comptime(expr),
    decreases expr, 0nat,
{
    match expr.kind {
        ExprKind::Comptime(inner) => {
            let site = make_site(package, statics, scopes, direct, expr.span, *inner);
            assert(sites_expr(package, statics, scopes, direct, expr) == seq![site]);
            assert(seq![site].len() == 1);
            assert(spec_expr_has_comptime(expr));
        },
        ExprKind::Array(items) => {
            lemma_sites_exprs(package, statics, scopes, items@);
            lemma_exists_bridge(items@);
            lemma_exists_bridge_back(items@);
        },
        ExprKind::CollectionLiteral { items, .. } => {
            lemma_sites_exprs(package, statics, scopes, items@);
            lemma_exists_bridge(items@);
            lemma_exists_bridge_back(items@);
        },
        ExprKind::Call { callee, args } => {
            lemma_sites_expr(package, statics, scopes, None, *callee);
            lemma_sites_exprs(package, statics, scopes, args@);
            lemma_exists_bridge(args@);
            lemma_exists_bridge_back(args@);
        },
        ExprKind::Member { object, .. } => lemma_sites_expr(package, statics, scopes, None, *object),
        ExprKind::GenericMember { object, .. } => lemma_sites_expr(package, statics, scopes, None, *object),
        ExprKind::StructInit { fields, .. } => {
            lemma_sites_fields(package, statics, scopes, fields@);
            if exists|i: int| 0 <= i < fields@.len() && #[trigger] spec_expr_has_comptime(fields@[i].value) {
                let i = choose|i: int| 0 <= i < fields@.len() && #[trigger] spec_expr_has_comptime(fields@[i].value);
                assert(spec_expr_has_comptime(fields@[i].value));
            }
            if exists|i: int| #![trigger fields@[i]] 0 <= i < fields@.len() && spec_expr_has_comptime(fields@[i].value) {
                let i = choose|i: int| #![trigger fields@[i]] 0 <= i < fields@.len() && spec_expr_has_comptime(fields@[i].value);
                assert(spec_expr_has_comptime(fields@[i].value));
            }
        },
        ExprKind::Range { start, end, .. } => {
            lemma_sites_expr(package, statics, scopes, None, *start);
            lemma_sites_expr(package, statics, scopes, None, *end);
        },
        ExprKind::Binary { left, right, .. } => {
            lemma_sites_expr(package, statics, scopes, None, *left);
            lemma_sites_expr(package, statics, scopes, None, *right);
        },
        ExprKind::Unary { operand, .. } => lemma_sites_expr(package, statics, scopes, None, *operand),
        ExprKind::PostfixIncrement(operand) => lemma_sites_expr(package, statics, scopes, None, *operand),
        ExprKind::Match { value, branches } => {
            lemma_sites_expr(package, statics, scopes, None, *value);
            lemma_sites_branches(package, statics, scopes, branches@);
            if exists|i: int| 0 <= i < branches@.len() && #[trigger] spec_branch_has_comptime(branches@[i]) {
                let i = choose|i: int| 0 <= i < branches@.len() && #[trigger] spec_branch_has_comptime(branches@[i]);
                assert(spec_branch_has_comptime(branches@[i]));
            }
            if exists|i: int| #![trigger branches@[i]] 0 <= i < branches@.len() && spec_branch_has_comptime(branches@[i]) {
                let i = choose|i: int| #![trigger branches@[i]] 0 <= i < branches@.len() && spec_branch_has_comptime(branches@[i]);
                assert(spec_branch_has_comptime(branches@[i]));
            }
        },
        ExprKind::Lambda(function) => {
            let inner = scopes.push(param_names(function.params@));
            assert(sites_expr(package, statics, scopes, direct, expr) == sites_function(package, statics, scopes, function));
            match function.body {
                FunctionBody::Block(b) => {
                    lemma_sites_block(package, statics, inner, None, b);
                    assert(spec_body_has_comptime(function.body) == spec_block_has_comptime(b));
                    assert(sites_function(package, statics, scopes, function) == sites_block(package, statics, inner, None, b));
                },
                FunctionBody::Expr(e) => {
                    lemma_sites_expr(package, statics, inner, None, *e);
                    assert(spec_body_has_comptime(function.body) == spec_expr_has_comptime(*e));
                    assert(sites_function(package, statics, scopes, function) == sites_expr(package, statics, inner, None, *e));
                },
            }
        },
        ExprKind::Block(block) => lemma_sites_block(package, statics, scopes, None, block),
        _ => {},
    }
}

proof fn lemma_exists_bridge(items: Seq<Expr>)
    ensures
        (exists|i: int| 0 <= i < items.len() && #[trigger] spec_expr_has_comptime(items[i])) ==> exists|i: int|
            #![trigger items[i]]
            0 <= i < items.len() && spec_expr_has_comptime(items[i]),
{
    if exists|i: int| 0 <= i < items.len() && #[trigger] spec_expr_has_comptime(items[i]) {
        let i = choose|i: int| 0 <= i < items.len() && #[trigger] spec_expr_has_comptime(items[i]);
        assert(spec_expr_has_comptime(items[i]));
    }
}

proof fn lemma_exists_bridge_back(items: Seq<Expr>)
    ensures
        (exists|i: int| #![trigger items[i]] 0 <= i < items.len() && spec_expr_has_comptime(items[i])) ==> exists|i: int|
            0 <= i < items.len() && #[trigger] spec_expr_has_comptime(items[i]),
{
    if exists|i: int| #![trigger items[i]] 0 <= i < items.len() && spec_expr_has_comptime(items[i]) {
        let i = choose|i: int| #![trigger items[i]] 0 <= i < items.len() && spec_expr_has_comptime(items[i]);
        assert(spec_expr_has_comptime(items[i]));
    }
}

proof fn lemma_sites_exprs(package: usize, statics: Seq<Seq<char>>, scopes: ScopeViews, items: Seq<Expr>)
    ensures
        (sites_exprs(package, statics, scopes, items).len() > 0) == exists|i: int|
            0 <= i < items.len() && #[trigger] spec_expr_has_comptime(items[i]),
    decreases items, 1nat,
{
    if items.len() > 0 {
        let earlier = items.subrange(0, items.len() - 1);
        lemma_sites_exprs(package, statics, scopes, earlier);
        lemma_sites_expr(package, statics, scopes, None, items[items.len() - 1]);
        if exists|i: int| 0 <= i < items.len() && #[trigger] spec_expr_has_comptime(items[i]) {
            let i = choose|i: int| 0 <= i < items.len() && #[trigger] spec_expr_has_comptime(items[i]);
            if i < items.len() - 1 {
                assert(earlier[i] == items[i]);
            }
        }
        if exists|i: int| 0 <= i < earlier.len() && #[trigger] spec_expr_has_comptime(earlier[i]) {
            let i = choose|i: int| 0 <= i < earlier.len() && #[trigger] spec_expr_has_comptime(earlier[i]);
            assert(items[i] == earlier[i]);
        }
    }
}

proof fn lemma_sites_fields(package: usize, statics: Seq<Seq<char>>, scopes: ScopeViews, fields: Seq<StructInitField>)
    ensures
        (sites_fields(package, statics, scopes, fields).len() > 0) == exists|i: int|
            0 <= i < fields.len() && #[trigger] spec_expr_has_comptime(fields[i].value),
    decreases fields, 1nat,
{
    if fields.len() > 0 {
        let earlier = fields.subrange(0, fields.len() - 1);
        lemma_sites_fields(package, statics, scopes, earlier);
        lemma_sites_expr(package, statics, scopes, None, fields[fields.len() - 1].value);
        if exists|i: int| 0 <= i < fields.len() && #[trigger] spec_expr_has_comptime(fields[i].value) {
            let i = choose|i: int| 0 <= i < fields.len() && #[trigger] spec_expr_has_comptime(fields[i].value);
            if i < fields.len() - 1 {
                assert(earlier[i] == fields[i]);
            }
        }
        if exists|i: int| 0 <= i < earlier.len() && #[trigger] spec_expr_has_comptime(earlier[i].value) {
            let i = choose|i: int| 0 <= i < earlier.len() && #[trigger] spec_expr_has_comptime(earlier[i].value);
            assert(fields[i] == earlier[i]);
        }
    }
}

proof fn lemma_sites_branches(package: usize, statics: Seq<Seq<char>>, scopes: ScopeViews, branches: Seq<MatchBranch>)
    ensures
        (sites_branches(package, statics, scopes, branches).len() > 0) == exists|i: int|
            0 <= i < branches.len() && #[trigger] spec_branch_has_comptime(branches[i]),
    decreases branches, 1nat,
{
    if branches.len() > 0 {
        let earlier = branches.subrange(0, branches.len() - 1);
        lemma_sites_branches(package, statics, scopes, earlier);
        lemma_sites_branch(package, statics, scopes, branches[branches.len() - 1]);
        if exists|i: int| 0 <= i < branches.len() && #[trigger] spec_branch_has_comptime(branches[i]) {
            let i = choose|i: int| 0 <= i < branches.len() && #[trigger] spec_branch_has_comptime(branches[i]);
            if i < branches.len() - 1 {
                assert(earlier[i] == branches[i]);
            }
        }
        if exists|i: int| 0 <= i < earlier.len() && #[trigger] spec_branch_has_comptime(earlier[i]) {
            let i = choose|i: int| 0 <= i < earlier.len() && #[trigger] spec_branch_has_comptime(earlier[i]);
            assert(branches[i] == earlier[i]);
        }
    }
}

proof fn lemma_sites_branch(package: usize, statics: Seq<Seq<char>>, scopes: ScopeViews, branch: MatchBranch)
    ensures
        (sites_branch(package, statics, scopes, branch).len() > 0) == spec_branch_has_comptime(branch),
    decreases branch, 0nat,
{
    let inner = scopes.push(pattern_bindings(branch.pattern));
    match branch.guard {
        Some(g) => lemma_sites_expr(package, statics, inner, None, g),
        None => {},
    }
    match branch.body {
        MatchBranchBody::Expr(e) => lemma_sites_expr(package, statics, inner, None, *e),
        MatchBranchBody::Block(b) => lemma_sites_block(package, statics, inner, None, b),
    }
}

proof fn lemma_sites_block(package: usize, statics: Seq<Seq<char>>, scopes: ScopeViews, direct: Option<Seq<char>>, block: Block)
    ensures
        (sites_block(package, statics, scopes, direct, block).len() > 0) == spec_block_has_comptime(block),
    decreases block, 0nat,
{
    let statements = block.statements@;
    lemma_sites_stmts(package, statics, scopes.push(seq![]), direct, statements);
    if spec_block_has_comptime(block) {
        let i = choose|i: int| #![trigger block.statements@[i]] 0 <= i < statements.len() && spec_stmt_has_comptime(statements[i]);
        assert(spec_stmt_has_comptime(statements[i]));
    }
    if exists|i: int| 0 <= i < statements.len() && #[trigger] spec_stmt_has_comptime(statements[i]) {
        let i = choose|i: int| 0 <= i < statements.len() && #[trigger] spec_stmt_has_comptime(statements[i]);
        assert(spec_stmt_has_comptime(block.statements@[i]));
    }
}

proof fn lemma_sites_stmts(
    package: usize,
    statics: Seq<Seq<char>>,
    scopes: ScopeViews,
    direct: Option<Seq<char>>,
    statements: Seq<Stmt>,
)
    ensures
        (sites_stmts(package, statics, scopes, direct, statements).len() > 0) == exists|i: int|
            0 <= i < statements.len() && #[trigger] spec_stmt_has_comptime(statements[i]),
    decreases statements, 1nat,
{
    if statements.len() > 0 {
        let earlier = statements.subrange(0, statements.len() - 1);
        lemma_sites_stmts(package, statics, scopes, direct, earlier);
        lemma_sites_stmt(
            package,
            statics,
            sites_scopes(scopes, earlier),
            if earlier.len() == 0 {
                direct
            } else {
                None
            },
            statements[statements.len() - 1],
        );
        if exists|i: int| 0 <= i < statements.len() && #[trigger] spec_stmt_has_comptime(statements[i]) {
            let i = choose|i: int| 0 <= i < statements.len() && #[trigger] spec_stmt_has_comptime(statements[i]);
            if i < statements.len() - 1 {
                assert(earlier[i] == statements[i]);
            }
        }
        if exists|i: int| 0 <= i < earlier.len() && #[trigger] spec_stmt_has_comptime(earlier[i]) {
            let i = choose|i: int| 0 <= i < earlier.len() && #[trigger] spec_stmt_has_comptime(earlier[i]);
            assert(statements[i] == earlier[i]);
        }
    }
}

proof fn lemma_sites_stmt(package: usize, statics: Seq<Seq<char>>, scopes: ScopeViews, direct: Option<Seq<char>>, statement: Stmt)
    ensures
        (sites_stmt(package, statics, scopes, direct, statement).len() > 0) == spec_stmt_has_comptime(statement),
    decreases statement, 0nat,
{
    match statement.kind {
        StmtKind::Let { value, .. } => match value {
            Some(v) => lemma_sites_expr(package, statics, scopes, direct, v),
            None => {},
        },
        StmtKind::Return { value } => match value {
            Some(v) => lemma_sites_expr(package, statics, scopes, direct, v),
            None => {},
        },
        StmtKind::Assign { target, value, .. } => {
            lemma_sites_expr(package, statics, scopes, None, target);
            lemma_sites_expr(package, statics, scopes, direct, value);
        },
        StmtKind::If { condition, then_branch, else_branch } => {
            lemma_sites_expr(package, statics, scopes, None, condition);
            lemma_sites_block(package, statics, scopes, None, then_branch);
            match else_branch {
                Some(ElseBranch::Block(b)) => lemma_sites_block(package, statics, scopes, None, b),
                Some(ElseBranch::If(s)) => lemma_sites_stmt(package, statics, scopes, None, *s),
                None => {},
            }
        },
        StmtKind::While { condition, body } => {
            lemma_sites_expr(package, statics, scopes, None, condition);
            lemma_sites_block(package, statics, scopes, None, body);
        },
        StmtKind::For { name, iterable, body } => {
            lemma_sites_expr(package, statics, scopes, None, iterable);
            lemma_sites_block(package, statics, scopes.push(seq![name@]), None, body);
        },
        StmtKind::Expr(e) => lemma_sites_expr(package, statics, scopes, direct, e),
        _ => {},
    }
}

/// An expression yields comptime sites exactly when it holds a `comptime`
/// expression (see `expr_contains_comptime`), whatever scopes it is searched in.
pub proof fn law_sites_exactly_where_comptime(
    package: usize,
    statics: Seq<Seq<char>>,
    scopes: ScopeViews,
    direct: Option<Seq<char>>,
    expr: Expr,
)
    ensures
        (sites_expr(package, statics, scopes, direct, expr).len() > 0) == spec_expr_has_comptime(expr),
{
    lemma_sites_expr(package, statics, scopes, direct, expr);
}

/// A block yields comptime sites exactly when it holds a `comptime` expression.
pub proof fn law_block_sites_exactly_where_comptime(
    package: usize,
    statics: Seq<Seq<char>>,
    scopes: ScopeViews,
    direct: Option<Seq<char>>,
    block: Block,
)
    ensures
        (sites_block(package, statics, scopes, direct, block).len() > 0) == spec_block_has_comptime(block),
{
    lemma_sites_block(package, statics, scopes, direct, block);
}

} // verus!
