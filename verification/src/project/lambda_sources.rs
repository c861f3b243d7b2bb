use vstd::prelude::*;

use crate::ast::{
    Block, ElseBranch, Expr, ExprKind, FunctionBody, FunctionDecl, Item, MatchBranch, MatchBranchBody, Program, Stmt,
    StmtKind, StructInitField, StructMember,
};
use crate::ast_copy::{copy_function, same_function};
use crate::project::scan::{lambda_source_block_uses_iife, spec_block_uses_iife};
use crate::text::{decimal, decimal_string};

verus! {

/// What numbering the lambdas of code meets, in order: a lambda (which takes
/// the next number and is recorded) or a block that runs as a wrapped
/// function (which takes a number of its own).
pub open spec fn lambda_events(expr: Expr) -> Seq<Option<FunctionDecl>>
    decreases expr, 0nat,
{
    match expr.kind {
        ExprKind::Lambda(function) => seq![Some(function)] + lambda_events_body(function.body),
        ExprKind::Block(block) => (if spec_block_uses_iife(block) {
            seq![None]
        } else {
            seq![]
        }) + lambda_events_block(block),
        ExprKind::Comptime(inner) => lambda_events(*inner),
        ExprKind::Array(items) => lambda_events_exprs(items@),
        ExprKind::CollectionLiteral { items, .. } => lambda_events_exprs(items@),
        ExprKind::Call { callee, args } => lambda_events(*callee) + lambda_events_exprs(args@),
        ExprKind::Member { object, .. } => lambda_events(*object),
        ExprKind::GenericMember { object, .. } => lambda_events(*object),
        ExprKind::StructInit { fields, .. } => lambda_events_fields(fields@),
        ExprKind::Range { start, end, .. } => lambda_events(*start) + lambda_events(*end),
        ExprKind::Binary { left, right, .. } => lambda_events(*left) + lambda_events(*right),
        ExprKind::Unary { operand, .. } => lambda_events(*operand),
        ExprKind::PostfixIncrement(operand) => lambda_events(*operand),
        ExprKind::Match { value, branches } => lambda_events(*value) + lambda_events_branches(branches@),
        _ => seq![],
    }
}

pub open spec fn lambda_events_exprs(items: Seq<Expr>) -> Seq<Option<FunctionDecl>>
    decreases items, 1nat,
{
    if items.len() == 0 {
        seq![]
    } else {
        lambda_events_exprs(items.subrange(0, items.len() - 1)) + lambda_events(items[items.len() - 1])
    }
}

pub open spec fn lambda_events_fields(fields: Seq<StructInitField>) -> Seq<Option<FunctionDecl>>
    decreases fields, 1nat,
{
    if fields.len() == 0 {
        seq![]
    } else {
        lambda_events_fields(fields.subrange(0, fields.len() - 1)) + lambda_events(fields[fields.len() - 1].value)
    }
}

pub open spec fn lambda_events_branches(branches: Seq<MatchBranch>) -> Seq<Option<FunctionDecl>>
    decreases branches, 1nat,
{
    if branches.len() == 0 {
        seq![]
    } else {
        lambda_events_branches(branches.subrange(0, branches.len() - 1)) + lambda_events_branch(
            branches[branches.len() - 1],
        )
    }
}

pub open spec fn lambda_events_branch(branch: MatchBranch) -> Seq<Option<FunctionDecl>>
    decreases branch, 0nat,
{
    (match branch.guard {
        Some(g) => lambda_events(g),
        None => seq![],
    }) + match branch.body {
        MatchBranchBody::Expr(e) => lambda_events(*e),
        MatchBranchBody::Block(b) => lambda_events_block(b),
    }
}

pub open spec fn lambda_events_body(body: FunctionBody) -> Seq<Option<FunctionDecl>>
    decreases body, 0nat,
{
    match body {
        FunctionBody::Block(b) => lambda_events_block(b),
        FunctionBody::Expr(e) => lambda_events(*e),
    }
}

pub open spec fn lambda_events_block(block: Block) -> Seq<Option<FunctionDecl>>
    decreases block, 0nat,
{
    lambda_events_stmts(block.statements@)
}

pub open spec fn lambda_events_stmts(statements: Seq<Stmt>) -> Seq<Option<FunctionDecl>>
    decreases statements, 1nat,
{
    if statements.len() == 0 {
        seq![]
    } else {
        lambda_events_stmts(statements.subrange(0, statements.len() - 1)) + lambda_events_stmt(
            statements[statements.len() - 1],
        )
    }
}

pub open spec fn lambda_events_stmt(statement: Stmt) -> Seq<Option<FunctionDecl>>
    decreases statement, 0nat,
{
    match statement.kind {
        StmtKind::Let { value, .. } => match value {
            Some(v) => lambda_events(v),
            None => seq![],
        },
        StmtKind::Return { value } => match value {
            Some(v) => lambda_events(v),
            None => seq![],
        },
        StmtKind::Assign { target, value, .. } => lambda_events(target) + lambda_events(value),
        StmtKind::If { condition, then_branch, else_branch } => lambda_events(condition) + lambda_events_block(
            then_branch,
        ) + match else_branch {
            Some(ElseBranch::Block(b)) => lambda_events_block(b),
            Some(ElseBranch::If(s)) => lambda_events_stmt(*s),
            None => seq![],
        },
        StmtKind::While { condition, body } => lambda_events(condition) + lambda_events_block(body),
        StmtKind::For { iterable, body, .. } => lambda_events(iterable) + lambda_events_block(body),
        StmtKind::Expr(e) => lambda_events(e),
        _ => seq![],
    }
}

pub open spec fn lambda_events_members(members: Seq<StructMember>) -> Seq<Option<FunctionDecl>>
    decreases members.len(),
{
    if members.len() == 0 {
        seq![]
    } else {
        let earlier = lambda_events_members(members.drop_last());
        match members.last() {
            StructMember::Method(f) => earlier + lambda_events_body(f.body),
            StructMember::StaticMethod(f) => earlier + lambda_events_body(f.body),
            StructMember::Field(_) => earlier,
        }
    }
}

/// What numbering the lambdas of an item meets, in source order.
pub open spec fn lambda_events_item(item: Item) -> Seq<Option<FunctionDecl>> {
    match item {
        Item::Enum(d) => lambda_events_members(d.members@),
        Item::Struct(d) => lambda_events_members(d.members@),
        Item::Trait(d) => lambda_events_trait_methods(d.methods@),
        Item::Impl(d) => lambda_events_impl_members(d.methods@),
        Item::Extension(d) => lambda_events_body(d.function.body),
        Item::Function(f) => lambda_events_body(f.body),
        Item::Import(_) => seq![],
    }
}

pub open spec fn lambda_events_trait_methods(methods: Seq<crate::ast::TraitMethodDecl>) -> Seq<Option<FunctionDecl>>
    decreases methods.len(),
{
    if methods.len() == 0 {
        seq![]
    } else {
        lambda_events_trait_methods(methods.drop_last()) + match methods.last().body {
            Some(b) => lambda_events_body(b),
            None => seq![],
        }
    }
}

pub open spec fn lambda_events_impl_members(members: Seq<crate::ast::ImplMember>) -> Seq<Option<FunctionDecl>>
    decreases members.len(),
{
    if members.len() == 0 {
        seq![]
    } else {
        lambda_events_impl_members(members.drop_last()) + lambda_events_body(members.last().function.body)
    }
}

pub open spec fn lambda_events_items(items: Seq<Item>) -> Seq<Option<FunctionDecl>>
    decreases items.len(),
{
    if items.len() == 0 {
        seq![]
    } else {
        lambda_events_items(items.drop_last()) + lambda_events_item(items.last())
    }
}

/// The name of the lambda numbered `id`.
pub open spec fn lambda_name(id: nat) -> Seq<char> {
    "lambda"@ + decimal(id)
}

/// The lambdas recorded for `events` numbered from `start`, in order.
pub open spec fn lambda_entries(events: Seq<Option<FunctionDecl>>, start: nat) -> Seq<(Seq<char>, FunctionDecl)>
    decreases events.len(),
{
    if events.len() == 0 {
        seq![]
    } else {
        (match events[0] {
            Some(f) => seq![(lambda_name(start), f)],
            None => seq![],
        }) + lambda_entries(events.drop_first(), start + 1)
    }
}

/// Each recorded lambda has the wanted name and is a copy of the wanted function.
pub open spec fn entries_match(entries: Seq<(String, FunctionDecl)>, wanted: Seq<(Seq<char>, FunctionDecl)>) -> bool {
    entries.len() == wanted.len() && forall|k: int|
        #![trigger entries[k]]
        0 <= k < entries.len() ==> entries[k].0@ == wanted[k].0 && same_function(wanted[k].1, entries[k].1)
}

/// What recording the lambdas of `events` numbered from `start` does to the
/// counter and the list of lambdas.
pub open spec fn recorded(
    before_id: usize,
    after_id: usize,
    before: Seq<(String, FunctionDecl)>,
    after: Seq<(String, FunctionDecl)>,
    events: Seq<Option<FunctionDecl>>,
) -> bool {
    &&& after_id == before_id + events.len()
    &&& after.len() >= before.len()
    &&& after.subrange(0, before.len() as int) == before
    &&& entries_match(after.skip(before.len() as int), lambda_entries(events, before_id as nat))
}

proof fn lemma_entries_concat(a: Seq<Option<FunctionDecl>>, b: Seq<Option<FunctionDecl>>, start: nat)
    ensures
        lambda_entries(a + b, start) == lambda_entries(a, start) + lambda_entries(b, start + a.len()),
    decreases a.len(),
{
    if a.len() == 0 {
        assert(a + b =~= b);
        assert(lambda_entries(a, start) + lambda_entries(b, start) =~= lambda_entries(b, start));
    } else {
        assert((a + b).drop_first() =~= a.drop_first() + b);
        assert((a + b)[0] == a[0]);
        lemma_entries_concat(a.drop_first(), b, start + 1);
        assert(start + 1 + a.drop_first().len() == start + a.len());
        let head = match a[0] {
            Some(f) => seq![(lambda_name(start), f)],
            None => Seq::<(Seq<char>, FunctionDecl)>::empty(),
        };
        assert(head + (lambda_entries(a.drop_first(), start + 1) + lambda_entries(b, start + a.len())) =~= (head
            + lambda_entries(a.drop_first(), start + 1)) + lambda_entries(b, start + a.len()));
    }
}

proof fn lemma_recorded_refl(id: usize, entries: Seq<(String, FunctionDecl)>)
    ensures
        recorded(id, id, entries, entries, seq![]),
{
    assert(entries.subrange(0, entries.len() as int) =~= entries);
    assert(entries.skip(entries.len() as int) =~= Seq::<(String, FunctionDecl)>::empty());
}

proof fn lemma_recorded_chain(
    a_id: usize,
    b_id: usize,
    c_id: usize,
    a: Seq<(String, FunctionDecl)>,
    b: Seq<(String, FunctionDecl)>,
    c: Seq<(String, FunctionDecl)>,
    first: Seq<Option<FunctionDecl>>,
    second: Seq<Option<FunctionDecl>>,
)
    requires
        recorded(a_id, b_id, a, b, first),
        recorded(b_id, c_id, b, c, second),
    ensures
        recorded(a_id, c_id, a, c, first + second),
{
    lemma_entries_concat(first, second, a_id as nat);
    assert(c.subrange(0, a.len() as int) =~= c.subrange(0, b.len() as int).subrange(0, a.len() as int));
    let wanted = lambda_entries(first, a_id as nat) + lambda_entries(second, b_id as nat);
    let got = c.skip(a.len() as int);
    assert(got =~= b.skip(a.len() as int) + c.skip(b.len() as int));
    assert forall|k: int| #![trigger got[k]] 0 <= k < got.len() implies got[k].0@ == wanted[k].0 && same_function(
        wanted[k].1,
        got[k].1,
    ) by {
        if k < b.skip(a.len() as int).len() {
            assert(got[k] == b.skip(a.len() as int)[k]);
        } else {
            let m = k - b.skip(a.len() as int).len();
            assert(got[k] == c.skip(b.len() as int)[m]);
        }
    }
}

/// Records the lambdas of an expression (see `lambda_events`).
#[verifier::spinoff_prover]
#[verifier::rlimit(40)]
fn lambdas_in_expr(expr: &Expr, next_id: &mut usize, lambdas: &mut Vec<(String, FunctionDecl)>)
    requires
        *old(next_id) + lambda_events(*expr).len() <= usize::MAX,
    ensures
        recorded(*old(next_id), *final(next_id), old(lambdas)@, final(lambdas)@, lambda_events(*expr)),
    decreases expr, 0nat,
{
    let ghost id0 = *next_id;
    let ghost l0 = lambdas@;
    proof {
        lemma_recorded_refl(id0, l0);
    }
    match &expr.kind {
        ExprKind::Lambda(function) => {
            let mut name = String::from_str("lambda");
            name.append(decimal_string(*next_id as u64).as_str());
            let copy = copy_function(function);
            proof {
                reveal_strlit("lambda");
            }
            lambdas.push((name, copy));
            *next_id = *next_id + 1;
            let ghost id1 = *next_id;
            let ghost l1 = lambdas@;
            proof {
                assert(l1.subrange(0, l0.len() as int) =~= l0);
                assert(l1.skip(l0.len() as int) =~= seq![(name, copy)]);
                assert(lambda_entries(seq![Some(*function)], id0 as nat) =~= seq![(lambda_name(id0 as nat), *function)]) by {
                    let single = seq![Some(*function)];
                    assert(single.drop_first() =~= Seq::<Option<FunctionDecl>>::empty());
                    assert(single[0] == Some(*function));
                    assert(lambda_entries(single.drop_first(), id0 as nat + 1) =~= Seq::<(Seq<char>, FunctionDecl)>::empty());
                }
            }
            lambdas_in_body(&function.body, next_id, lambdas);
            proof {
                lemma_recorded_chain(id0, id1, *next_id, l0, l1, lambdas@, seq![Some(*function)], lambda_events_body(
                    function.body,
                ));
            }
        },
        ExprKind::Block(block) => {
            let ghost head = if spec_block_uses_iife(*block) {
                seq![None]
            } else {
                Seq::<Option<FunctionDecl>>::empty()
            };
            if lambda_source_block_uses_iife(block) {
                *next_id = *next_id + 1;
                proof {
                    assert(lambdas@.subrange(0, l0.len() as int) =~= l0);
                    assert(lambdas@.skip(l0.len() as int) =~= Seq::<(String, FunctionDecl)>::empty());
                    assert(lambda_entries(seq![None], id0 as nat) =~= Seq::<(Seq<char>, FunctionDecl)>::empty()) by {
                        let single = seq![None::<FunctionDecl>];
                        assert(single.drop_first() =~= Seq::<Option<FunctionDecl>>::empty());
                        assert(single[0] is None);
                        assert(lambda_entries(single.drop_first(), id0 as nat + 1) =~= Seq::<(Seq<char>, FunctionDecl)>::empty());
                    }
                }
            }
            let ghost id1 = *next_id;
            let ghost l1 = lambdas@;
            lambdas_in_block(block, next_id, lambdas);
            proof {
                lemma_recorded_chain(id0, id1, *next_id, l0, l1, lambdas@, head, lambda_events_block(*block));
            }
        },
        ExprKind::Comptime(inner) => lambdas_in_expr(inner, next_id, lambdas),
        ExprKind::Array(items) => lambdas_in_exprs(items, next_id, lambdas),
        ExprKind::CollectionLiteral { items, .. } => lambdas_in_exprs(items, next_id, lambdas),
        ExprKind::Call { callee, args } => {
            lambdas_in_expr(callee, next_id, lambdas);
            let ghost id1 = *next_id;
            let ghost l1 = lambdas@;
            lambdas_in_exprs(args, next_id, lambdas);
            proof {
                lemma_recorded_chain(id0, id1, *next_id, l0, l1, lambdas@, lambda_events(**callee), lambda_events_exprs(
                    args@,
                ));
            }
        },
        ExprKind::Member { object, .. } => lambdas_in_expr(object, next_id, lambdas),
        ExprKind::GenericMember { object, .. } => lambdas_in_expr(object, next_id, lambdas),
        ExprKind::StructInit { fields, .. } => lambdas_in_fields(fields, next_id, lambdas),
        ExprKind::Range { start, end, .. } => {
            lambdas_in_expr(start, next_id, lambdas);
            let ghost id1 = *next_id;
            let ghost l1 = lambdas@;
            lambdas_in_expr(end, next_id, lambdas);
            proof {
                lemma_recorded_chain(id0, id1, *next_id, l0, l1, lambdas@, lambda_events(**start), lambda_events(**end));
            }
        },
        ExprKind::Binary { left, right, .. } => {
            lambdas_in_expr(left, next_id, lambdas);
            let ghost id1 = *next_id;
            let ghost l1 = lambdas@;
            lambdas_in_expr(right, next_id, lambdas);
            proof {
                lemma_recorded_chain(id0, id1, *next_id, l0, l1, lambdas@, lambda_events(**left), lambda_events(**right));
            }
        },
        ExprKind::Unary { operand, .. } => lambdas_in_expr(operand, next_id, lambdas),
        ExprKind::PostfixIncrement(operand) => lambdas_in_expr(operand, next_id, lambdas),
        ExprKind::Match { value, branches } => {
            lambdas_in_expr(value, next_id, lambdas);
            let ghost id1 = *next_id;
            let ghost l1 = lambdas@;
            lambdas_in_branches(branches, next_id, lambdas);
            proof {
                lemma_recorded_chain(id0, id1, *next_id, l0, l1, lambdas@, lambda_events(**value), lambda_events_branches(
                    branches@,
                ));
            }
        },
        _ => {},
    }
}

fn lambdas_in_exprs(items: &Vec<Expr>, next_id: &mut usize, lambdas: &mut Vec<(String, FunctionDecl)>)
    requires
        *old(next_id) + lambda_events_exprs(items@).len() <= usize::MAX,
    ensures
        recorded(*old(next_id), *final(next_id), old(lambdas)@, final(lambdas)@, lambda_events_exprs(items@)),
    decreases items, 1nat,
{
    let ghost id0 = *next_id;
    let ghost l0 = lambdas@;
    proof {
        lemma_recorded_refl(id0, l0);
        assert(items@.take(0) =~= Seq::<Expr>::empty());
        lemma_events_exprs_prefix(items@, items@.len() as int);
        assert(items@.take(items@.len() as int) =~= items@);
    }
    let mut i: usize = 0;
    while i < items.len()
        invariant
            i <= items@.len(),
            id0 + lambda_events_exprs(items@).len() <= usize::MAX,
            forall|j: int| 0 <= j <= items@.len() ==> #[trigger] lambda_events_exprs(items@.take(j)).len() <= lambda_events_exprs(
                items@,
            ).len(),
            recorded(id0, *next_id, l0, lambdas@, lambda_events_exprs(items@.take(i as int))),
        decreases items.len() - i,
    {
        let ghost id1 = *next_id;
        let ghost l1 = lambdas@;
        assert(items@.take(i + 1).subrange(0, i as int) =~= items@.take(i as int));
        assert(items@.take(i + 1)[i as int] == items@[i as int]);
        assert(lambda_events_exprs(items@.take(i + 1)).len() <= lambda_events_exprs(items@).len());
        lambdas_in_expr(&items[i], next_id, lambdas);
        proof {
            lemma_recorded_chain(id0, id1, *next_id, l0, l1, lambdas@, lambda_events_exprs(items@.take(i as int)), lambda_events(
                items@[i as int],
            ));
        }
        i = i + 1;
    }
    assert(items@.take(items@.len() as int) =~= items@);
}

proof fn lemma_events_exprs_prefix(items: Seq<Expr>, n: int)
    requires
        0 <= n <= items.len(),
    ensures
        forall|j: int| 0 <= j <= n ==> #[trigger] lambda_events_exprs(items.take(j)).len() <= lambda_events_exprs(
            items.take(n),
        ).len(),
    decreases n,
{
    if n > 0 {
        lemma_events_exprs_prefix(items, n - 1);
        assert(items.take(n).subrange(0, n - 1) =~= items.take(n - 1));
    }
    assert(items.take(n) =~= items.take(n).take(n));
    if n == items.len() {
        assert(items.take(n) =~= items);
    }
}

fn lambdas_in_fields(fields: &Vec<StructInitField>, next_id: &mut usize, lambdas: &mut Vec<(String, FunctionDecl)>)
    requires
        *old(next_id) + lambda_events_fields(fields@).len() <= usize::MAX,
    ensures
        recorded(*old(next_id), *final(next_id), old(lambdas)@, final(lambdas)@, lambda_events_fields(fields@)),
    decreases fields, 1nat,
{
    let ghost id0 = *next_id;
    let ghost l0 = lambdas@;
    proof {
        lemma_recorded_refl(id0, l0);
        assert(fields@.take(0) =~= Seq::<StructInitField>::empty());
        lemma_events_fields_prefix(fields@, fields@.len() as int);
        assert(fields@.take(fields@.len() as int) =~= fields@);
    }
    let mut i: usize = 0;
    while i < fields.len()
        invariant
            i <= fields@.len(),
            id0 + lambda_events_fields(fields@).len() <= usize::MAX,
            forall|j: int| 0 <= j <= fields@.len() ==> #[trigger] lambda_events_fields(fields@.take(j)).len() <= lambda_events_fields(
                fields@,
            ).len(),
            recorded(id0, *next_id, l0, lambdas@, lambda_events_fields(fields@.take(i as int))),
        decreases fields.len() - i,
    {
        let ghost id1 = *next_id;
        let ghost l1 = lambdas@;
        assert(fields@.take(i + 1).subrange(0, i as int) =~= fields@.take(i as int));
        assert(fields@.take(i + 1)[i as int] == fields@[i as int]);
        assert(lambda_events_fields(fields@.take(i + 1)).len() <= lambda_events_fields(fields@).len());
        lambdas_in_expr(&fields[i].value, next_id, lambdas);
        proof {
            lemma_recorded_chain(id0, id1, *next_id, l0, l1, lambdas@, lambda_events_fields(fields@.take(i as int)), lambda_events(
                fields@[i as int].value,
            ));
        }
        i = i + 1;
    }
    assert(fields@.take(fields@.len() as int) =~= fields@);
}

proof fn lemma_events_fields_prefix(fields: Seq<StructInitField>, n: int)
    requires
        0 <= n <= fields.len(),
    ensures
        forall|j: int| 0 <= j <= n ==> #[trigger] lambda_events_fields(fields.take(j)).len() <= lambda_events_fields(
            fields.take(n),
        ).len(),
    decreases n,
{
    if n > 0 {
        lemma_events_fields_prefix(fields, n - 1);
        assert(fields.take(n).subrange(0, n - 1) =~= fields.take(n - 1));
    }
    assert(fields.take(n) =~= fields.take(n).take(n));
}

fn lambdas_in_branches(branches: &Vec<MatchBranch>, next_id: &mut usize, lambdas: &mut Vec<(String, FunctionDecl)>)
    requires
        *old(next_id) + lambda_events_branches(branches@).len() <= usize::MAX,
    ensures
        recorded(*old(next_id), *final(next_id), old(lambdas)@, final(lambdas)@, lambda_events_branches(branches@)),
    decreases branches, 1nat,
{
    let ghost id0 = *next_id;
    let ghost l0 = lambdas@;
    proof {
        lemma_recorded_refl(id0, l0);
        assert(branches@.take(0) =~= Seq::<MatchBranch>::empty());
        lemma_events_branches_prefix(branches@, branches@.len() as int);
        assert(branches@.take(branches@.len() as int) =~= branches@);
    }
    let mut i: usize = 0;
    while i < branches.len()
        invariant
            i <= branches@.len(),
            id0 + lambda_events_branches(branches@).len() <= usize::MAX,
            forall|j: int|
                0 <= j <= branches@.len() ==> #[trigger] lambda_events_branches(branches@.take(j)).len()
                    <= lambda_events_branches(branches@).len(),
            recorded(id0, *next_id, l0, lambdas@, lambda_events_branches(branches@.take(i as int))),
        decreases branches.len() - i,
    {
        let ghost id1 = *next_id;
        let ghost l1 = lambdas@;
        assert(branches@.take(i + 1).subrange(0, i as int) =~= branches@.take(i as int));
        assert(branches@.take(i + 1)[i as int] == branches@[i as int]);
        assert(lambda_events_branches(branches@.take(i + 1)).len() <= lambda_events_branches(branches@).len());
        lambdas_in_branch(&branches[i], next_id, lambdas);
        proof {
            lemma_recorded_chain(
                id0,
                id1,
                *next_id,
                l0,
                l1,
                lambdas@,
                lambda_events_branches(branches@.take(i as int)),
                lambda_events_branch(branches@[i as int]),
            );
        }
        i = i + 1;
    }
    assert(branches@.take(branches@.len() as int) =~= branches@);
}

proof fn lemma_events_branches_prefix(branches: Seq<MatchBranch>, n: int)
    requires
        0 <= n <= branches.len(),
    ensures
        forall|j: int| 0 <= j <= n ==> #[trigger] lambda_events_branches(branches.take(j)).len() <= lambda_events_branches(
            branches.take(n),
        ).len(),
    decreases n,
{
    if n > 0 {
        lemma_events_branches_prefix(branches, n - 1);
        assert(branches.take(n).subrange(0, n - 1) =~= branches.take(n - 1));
    }
    assert(branches.take(n) =~= branches.take(n).take(n));
}

fn lambdas_in_branch(branch: &MatchBranch, next_id: &mut usize, lambdas: &mut Vec<(String, FunctionDecl)>)
    requires
        *old(next_id) + lambda_events_branch(*branch).len() <= usize::MAX,
    ensures
        recorded(*old(next_id), *final(next_id), old(lambdas)@, final(lambdas)@, lambda_events_branch(*branch)),
    decreases branch, 0nat,
{
    let ghost id0 = *next_id;
    let ghost l0 = lambdas@;
    let ghost guard = match &branch.guard {
        Some(g) => lambda_events(*g),
        None => Seq::<Option<FunctionDecl>>::empty(),
    };
    proof {
        lemma_recorded_refl(id0, l0);
    }
    if let Some(g) = &branch.guard {
        lambdas_in_expr(g, next_id, lambdas);
    }
    let ghost id1 = *next_id;
    let ghost l1 = lambdas@;
    match &branch.body {
        MatchBranchBody::Expr(e) => lambdas_in_expr(e, next_id, lambdas),
        MatchBranchBody::Block(block) => lambdas_in_block(block, next_id, lambdas),
    }
    proof {
        lemma_recorded_chain(id0, id1, *next_id, l0, l1, lambdas@, guard, match &branch.body {
            MatchBranchBody::Expr(e) => lambda_events(**e),
            MatchBranchBody::Block(b) => lambda_events_block(*b),
        });
    }
}

fn lambdas_in_body(body: &FunctionBody, next_id: &mut usize, lambdas: &mut Vec<(String, FunctionDecl)>)
    requires
        *old(next_id) + lambda_events_body(*body).len() <= usize::MAX,
    ensures
        recorded(*old(next_id), *final(next_id), old(lambdas)@, final(lambdas)@, lambda_events_body(*body)),
    decreases body, 0nat,
{
    match body {
        FunctionBody::Block(block) => lambdas_in_block(block, next_id, lambdas),
        FunctionBody::Expr(e) => lambdas_in_expr(e, next_id, lambdas),
    }
}

fn lambdas_in_block(block: &Block, next_id: &mut usize, lambdas: &mut Vec<(String, FunctionDecl)>)
    requires
        *old(next_id) + lambda_events_block(*block).len() <= usize::MAX,
    ensures
        recorded(*old(next_id), *final(next_id), old(lambdas)@, final(lambdas)@, lambda_events_block(*block)),
    decreases block, 0nat,
{
    lambdas_in_stmts(&block.statements, next_id, lambdas);
}

proof fn lemma_events_stmts_prefix(statements: Seq<Stmt>, n: int)
    requires
        0 <= n <= statements.len(),
    ensures
        forall|j: int| 0 <= j <= n ==> #[trigger] lambda_events_stmts(statements.take(j)).len() <= lambda_events_stmts(
            statements.take(n),
        ).len(),
    decreases n,
{
    if n > 0 {
        lemma_events_stmts_prefix(statements, n - 1);
        assert(statements.take(n).subrange(0, n - 1) =~= statements.take(n - 1));
    }
    assert(statements.take(n) =~= statements.take(n).take(n));
}

fn lambdas_in_stmts(statements: &Vec<Stmt>, next_id: &mut usize, lambdas: &mut Vec<(String, FunctionDecl)>)
    requires
        *old(next_id) + lambda_events_stmts(statements@).len() <= usize::MAX,
    ensures
        recorded(*old(next_id), *final(next_id), old(lambdas)@, final(lambdas)@, lambda_events_stmts(statements@)),
    decreases statements, 1nat,
{
    let ghost id0 = *next_id;
    let ghost l0 = lambdas@;
    proof {
        lemma_recorded_refl(id0, l0);
        assert(statements@.take(0) =~= Seq::<Stmt>::empty());
        lemma_events_stmts_prefix(statements@, statements@.len() as int);
        assert(statements@.take(statements@.len() as int) =~= statements@);
    }
    let mut i: usize = 0;
    while i < statements.len()
        invariant
            i <= statements@.len(),
            id0 + lambda_events_stmts(statements@).len() <= usize::MAX,
            forall|j: int|
                0 <= j <= statements@.len() ==> #[trigger] lambda_events_stmts(statements@.take(j)).len()
                    <= lambda_events_stmts(statements@).len(),
            recorded(id0, *next_id, l0, lambdas@, lambda_events_stmts(statements@.take(i as int))),
        decreases statements.len() - i,
    {
        let ghost id1 = *next_id;
        let ghost l1 = lambdas@;
        assert(statements@.take(i + 1).subrange(0, i as int) =~= statements@.take(i as int));
        assert(statements@.take(i + 1)[i as int] == statements@[i as int]);
        assert(lambda_events_stmts(statements@.take(i + 1)).len() <= lambda_events_stmts(statements@).len());
        lambdas_in_stmt(&statements[i], next_id, lambdas);
        proof {
            lemma_recorded_chain(
                id0,
                id1,
                *next_id,
                l0,
                l1,
                lambdas@,
                lambda_events_stmts(statements@.take(i as int)),
                lambda_events_stmt(statements@[i as int]),
            );
        }
        i = i + 1;
    }
    assert(statements@.take(statements@.len() as int) =~= statements@);
}

#[verifier::spinoff_prover]
#[verifier::rlimit(40)]
fn lambdas_in_stmt(statement: &Stmt, next_id: &mut usize, lambdas: &mut Vec<(String, FunctionDecl)>)
    requires
        *old(next_id) + lambda_events_stmt(*statement).len() <= usize::MAX,
    ensures
        recorded(*old(next_id), *final(next_id), old(lambdas)@, final(lambdas)@, lambda_events_stmt(*statement)),
    decreases statement, 0nat,
{
    let ghost id0 = *next_id;
    let ghost l0 = lambdas@;
    proof {
        lemma_recorded_refl(id0, l0);
    }
    match &statement.kind {
        StmtKind::Let { value, .. } => {
            if let Some(v) = value {
                lambdas_in_expr(v, next_id, lambdas);
            }
        },
        StmtKind::Return { value } => {
            if let Some(v) = value {
                lambdas_in_expr(v, next_id, lambdas);
            }
        },
        StmtKind::Assign { target, value, .. } => {
            lambdas_in_expr(target, next_id, lambdas);
            let ghost id1 = *next_id;
            let ghost l1 = lambdas@;
            lambdas_in_expr(value, next_id, lambdas);
            proof {
                lemma_recorded_chain(id0, id1, *next_id, l0, l1, lambdas@, lambda_events(*target), lambda_events(*value));
            }
        },
        StmtKind::If { condition, then_branch, else_branch } => {
            lambdas_in_expr(condition, next_id, lambdas);
            let ghost id1 = *next_id;
            let ghost l1 = lambdas@;
            lambdas_in_block(then_branch, next_id, lambdas);
            let ghost id2 = *next_id;
            let ghost l2 = lambdas@;
            proof {
                lemma_recorded_chain(id0, id1, id2, l0, l1, l2, lambda_events(*condition), lambda_events_block(
                    *then_branch,
                ));
                lemma_recorded_refl(id2, l2);
            }
            match else_branch {
                Some(ElseBranch::Block(block)) => lambdas_in_block(block, next_id, lambdas),
                Some(ElseBranch::If(inner)) => lambdas_in_stmt(inner, next_id, lambdas),
                None => {},
            }
            proof {
                lemma_recorded_chain(
                    id0,
                    id2,
                    *next_id,
                    l0,
                    l2,
                    lambdas@,
                    lambda_events(*condition) + lambda_events_block(*then_branch),
                    match else_branch {
                        Some(ElseBranch::Block(b)) => lambda_events_block(*b),
                        Some(ElseBranch::If(s)) => lambda_events_stmt(**s),
                        None => Seq::<Option<FunctionDecl>>::empty(),
                    },
                );
            }
        },
        StmtKind::While { condition, body } => {
            lambdas_in_expr(condition, next_id, lambdas);
            let ghost id1 = *next_id;
            let ghost l1 = lambdas@;
            lambdas_in_block(body, next_id, lambdas);
            proof {
                lemma_recorded_chain(id0, id1, *next_id, l0, l1, lambdas@, lambda_events(*condition), lambda_events_block(
                    *body,
                ));
            }
        },
        StmtKind::For { iterable, body, .. } => {
            lambdas_in_expr(iterable, next_id, lambdas);
            let ghost id1 = *next_id;
            let ghost l1 = lambdas@;
            lambdas_in_block(body, next_id, lambdas);
            proof {
                lemma_recorded_chain(id0, id1, *next_id, l0, l1, lambdas@, lambda_events(*iterable), lambda_events_block(
                    *body,
                ));
            }
        },
        StmtKind::Expr(e) => lambdas_in_expr(e, next_id, lambdas),
        _ => {},
    }
}

/// Records the lambdas of an item (see `lambda_events_item`).
fn lambdas_in_item(item: &Item, next_id: &mut usize, lambdas: &mut Vec<(String, FunctionDecl)>)
    requires
        *old(next_id) + lambda_events_item(*item).len() <= usize::MAX,
    ensures
        recorded(*old(next_id), *final(next_id), old(lambdas)@, final(lambdas)@, lambda_events_item(*item)),
{
    let ghost id0 = *next_id;
    let ghost l0 = lambdas@;
    proof {
        lemma_recorded_refl(id0, l0);
    }
    match item {
        Item::Enum(decl) => lambdas_in_members(&decl.members, next_id, lambdas),
        Item::Struct(decl) => lambdas_in_members(&decl.members, next_id, lambdas),
        Item::Trait(decl) => {
            let methods = &decl.methods;
            proof {
                lemma_trait_events_prefix(methods@, methods@.len() as int);
                assert(methods@.take(methods@.len() as int) =~= methods@);
                assert(methods@.take(0) =~= Seq::<crate::ast::TraitMethodDecl>::empty());
            }
            let mut i: usize = 0;
            while i < methods.len()
                invariant
                    i <= methods@.len(),
                    id0 + lambda_events_trait_methods(methods@).len() <= usize::MAX,
                    forall|j: int|
                        0 <= j <= methods@.len() ==> #[trigger] lambda_events_trait_methods(methods@.take(j)).len()
                            <= lambda_events_trait_methods(methods@).len(),
                    recorded(id0, *next_id, l0, lambdas@, lambda_events_trait_methods(methods@.take(i as int))),
                decreases methods.len() - i,
            {
                let ghost id1 = *next_id;
                let ghost l1 = lambdas@;
                assert(methods@.take(i + 1).drop_last() =~= methods@.take(i as int));
                assert(methods@.take(i + 1).last() == methods@[i as int]);
                assert(lambda_events_trait_methods(methods@.take(i + 1)).len() <= lambda_events_trait_methods(methods@).len());
                let ghost part = match methods@[i as int].body {
                    Some(b) => lambda_events_body(b),
                    None => Seq::<Option<FunctionDecl>>::empty(),
                };
                if let Some(body) = &methods[i].body {
                    lambdas_in_body(body, next_id, lambdas);
                } else {
                    proof {
                        lemma_recorded_refl(id1, l1);
                    }
                }
                proof {
                    lemma_recorded_chain(id0, id1, *next_id, l0, l1, lambdas@, lambda_events_trait_methods(methods@.take(i as int)), part);
                }
                i = i + 1;
            }
        },
        Item::Impl(decl) => {
            let members = &decl.methods;
            proof {
                lemma_impl_events_prefix(members@, members@.len() as int);
                assert(members@.take(members@.len() as int) =~= members@);
                assert(members@.take(0) =~= Seq::<crate::ast::ImplMember>::empty());
            }
            let mut i: usize = 0;
            while i < members.len()
                invariant
                    i <= members@.len(),
                    id0 + lambda_events_impl_members(members@).len() <= usize::MAX,
                    forall|j: int|
                        0 <= j <= members@.len() ==> #[trigger] lambda_events_impl_members(members@.take(j)).len()
                            <= lambda_events_impl_members(members@).len(),
                    recorded(id0, *next_id, l0, lambdas@, lambda_events_impl_members(members@.take(i as int))),
                decreases members.len() - i,
            {
                let ghost id1 = *next_id;
                let ghost l1 = lambdas@;
                assert(members@.take(i + 1).drop_last() =~= members@.take(i as int));
                assert(members@.take(i + 1).last() == members@[i as int]);
                assert(lambda_events_impl_members(members@.take(i + 1)).len() <= lambda_events_impl_members(members@).len());
                lambdas_in_body(&members[i].function.body, next_id, lambdas);
                proof {
                    lemma_recorded_chain(
                        id0,
                        id1,
                        *next_id,
                        l0,
                        l1,
                        lambdas@,
                        lambda_events_impl_members(members@.take(i as int)),
                        lambda_events_body(members@[i as int].function.body),
                    );
                }
                i = i + 1;
            }
        },
        Item::Extension(decl) => lambdas_in_body(&decl.function.body, next_id, lambdas),
        Item::Function(function) => lambdas_in_body(&function.body, next_id, lambdas),
        Item::Import(_) => {},
    }
}

proof fn lemma_trait_events_prefix(methods: Seq<crate::ast::TraitMethodDecl>, n: int)
    requires
        0 <= n <= methods.len(),
    ensures
        forall|j: int| 0 <= j <= n ==> #[trigger] lambda_events_trait_methods(methods.take(j)).len()
            <= lambda_events_trait_methods(methods.take(n)).len(),
    decreases n,
{
    if n > 0 {
        lemma_trait_events_prefix(methods, n - 1);
        assert(methods.take(n).drop_last() =~= methods.take(n - 1));
    }
    assert(methods.take(n) =~= methods.take(n).take(n));
}

proof fn lemma_impl_events_prefix(members: Seq<crate::ast::ImplMember>, n: int)
    requires
        0 <= n <= members.len(),
    ensures
        forall|j: int| 0 <= j <= n ==> #[trigger] lambda_events_impl_members(members.take(j)).len()
            <= lambda_events_impl_members(members.take(n)).len(),
    decreases n,
{
    if n > 0 {
        lemma_impl_events_prefix(members, n - 1);
        assert(members.take(n).drop_last() =~= members.take(n - 1));
    }
    assert(members.take(n) =~= members.take(n).take(n));
}

proof fn lemma_member_events_prefix(members: Seq<StructMember>, n: int)
    requires
        0 <= n <= members.len(),
    ensures
        forall|j: int| 0 <= j <= n ==> #[trigger] lambda_events_members(members.take(j)).len() <= lambda_events_members(
            members.take(n),
        ).len(),
    decreases n,
{
    if n > 0 {
        lemma_member_events_prefix(members, n - 1);
        assert(members.take(n).drop_last() =~= members.take(n - 1));
    }
    assert(members.take(n) =~= members.take(n).take(n));
}

fn lambdas_in_members(members: &Vec<StructMember>, next_id: &mut usize, lambdas: &mut Vec<(String, FunctionDecl)>)
    requires
        *old(next_id) + lambda_events_members(members@).len() <= usize::MAX,
    ensures
        recorded(*old(next_id), *final(next_id), old(lambdas)@, final(lambdas)@, lambda_events_members(members@)),
{
    let ghost id0 = *next_id;
    let ghost l0 = lambdas@;
    proof {
        lemma_recorded_refl(id0, l0);
        lemma_member_events_prefix(members@, members@.len() as int);
        assert(members@.take(members@.len() as int) =~= members@);
        assert(members@.take(0) =~= Seq::<StructMember>::empty());
    }
    let mut i: usize = 0;
    while i < members.len()
        invariant
            i <= members@.len(),
            id0 + lambda_events_members(members@).len() <= usize::MAX,
            forall|j: int|
                0 <= j <= members@.len() ==> #[trigger] lambda_events_members(members@.take(j)).len()
                    <= lambda_events_members(members@).len(),
            recorded(id0, *next_id, l0, lambdas@, lambda_events_members(members@.take(i as int))),
        decreases members.len() - i,
    {
        let ghost id1 = *next_id;
        let ghost l1 = lambdas@;
        assert(members@.take(i + 1).drop_last() =~= members@.take(i as int));
        assert(members@.take(i + 1).last() == members@[i as int]);
        assert(lambda_events_members(members@.take(i + 1)).len() <= lambda_events_members(members@).len());
        let ghost part = match members@[i as int] {
            StructMember::Method(f) => lambda_events_body(f.body),
            StructMember::StaticMethod(f) => lambda_events_body(f.body),
            StructMember::Field(_) => Seq::<Option<FunctionDecl>>::empty(),
        };
        match &members[i] {
            StructMember::Method(function) => lambdas_in_body(&function.body, next_id, lambdas),
            StructMember::StaticMethod(function) => lambdas_in_body(&function.body, next_id, lambdas),
            StructMember::Field(_) => {
                proof {
                    lemma_recorded_refl(id1, l1);
                }
            },
        }
        proof {
            assert(lambda_events_members(members@.take(i + 1)) =~= lambda_events_members(members@.take(i as int)) + part);
            lemma_recorded_chain(id0, id1, *next_id, l0, l1, lambdas@, lambda_events_members(members@.take(i as int)), part);
        }
        i = i + 1;
    }
}

proof fn lemma_item_events_prefix(items: Seq<Item>, n: int)
    requires
        0 <= n <= items.len(),
    ensures
        forall|j: int| 0 <= j <= n ==> #[trigger] lambda_events_items(items.take(j)).len() <= lambda_events_items(
            items.take(n),
        ).len(),
    decreases n,
{
    if n > 0 {
        lemma_item_events_prefix(items, n - 1);
        assert(items.take(n).drop_last() =~= items.take(n - 1));
    }
    assert(items.take(n) =~= items.take(n).take(n));
}

/// The lambdas of a program, each under the name `lambda<n>` where `n` counts
/// the lambdas and wrapped blocks met before it in source order, as copies
/// (see `lambda_entries`).
pub fn collect_lambda_sources(program: &Program) -> (lambdas: Vec<(String, FunctionDecl)>)
    requires
        lambda_events_items(program.items@).len() <= usize::MAX,
    ensures
        entries_match(lambdas@, lambda_entries(lambda_events_items(program.items@), 0)),
{
    let mut lambdas: Vec<(String, FunctionDecl)> = Vec::new();
    let mut next_id: usize = 0;
    let items = &program.items;
    proof {
        lemma_recorded_refl(0, lambdas@);
        lemma_item_events_prefix(items@, items@.len() as int);
        assert(items@.take(items@.len() as int) =~= items@);
        assert(items@.take(0) =~= Seq::<Item>::empty());
    }
    let mut i: usize = 0;
    while i < items.len()
        invariant
            i <= items@.len(),
            lambda_events_items(items@).len() <= usize::MAX,
            forall|j: int|
                0 <= j <= items@.len() ==> #[trigger] lambda_events_items(items@.take(j)).len() <= lambda_events_items(
                    items@,
                ).len(),
            recorded(0, next_id, Seq::empty(), lambdas@, lambda_events_items(items@.take(i as int))),
        decreases items.len() - i,
    {
        let ghost id1 = next_id;
        let ghost l1 = lambdas@;
        assert(items@.take(i + 1).drop_last() =~= items@.take(i as int));
        assert(items@.take(i + 1).last() == items@[i as int]);
        assert(lambda_events_items(items@.take(i + 1)).len() <= lambda_events_items(items@).len());
        lambdas_in_item(&items[i], &mut next_id, &mut lambdas);
        proof {
            lemma_recorded_chain(0, id1, next_id, Seq::empty(), l1, lambdas@, lambda_events_items(items@.take(i as int)), lambda_events_item(
                items@[i as int],
            ));
        }
        i = i + 1;
    }
    assert(lambdas@.skip(0) =~= lambdas@);
    lambdas
}

} // verus!
