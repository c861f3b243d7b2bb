use vstd::prelude::*;

use crate::ast::{Item, TypeRef};
use crate::diagnostic::{Diagnostic, Severity};
use crate::monomorphize::coherence::diagnostic_views;
use crate::monomorphize::impls::{concrete_impl_exists, impl_matches};
use crate::monomorphize::templates::error_at;
use crate::monomorphize::types::{spec_type_name, type_ref_name};
use crate::span::Span;

verus! {

/// A trait bound that a type argument must satisfy: `type_ref` must
/// implement `trait_ref`, as `owner` (a description of what declared the
/// bound) requires at `span`.
#[derive(Debug)]
pub struct BoundCheck {
    pub owner: String,
    pub type_ref: TypeRef,
    pub trait_ref: TypeRef,
    pub span: Span,
}

/// What tells two bound checks apart in reports: owner, type, trait, span.
pub open spec fn check_key(c: BoundCheck) -> (Seq<char>, Seq<char>, Seq<char>, Span) {
    (c.owner@, spec_type_name(c.type_ref), spec_type_name(c.trait_ref), c.span)
}

/// Whether some impl among `items` implements the check's trait for its type.
pub open spec fn check_satisfied(items: Seq<Item>, c: BoundCheck) -> bool {
    exists|i: int|
        0 <= i < items.len() && (#[trigger] items[i] matches Item::Impl(d) && impl_matches(
            d,
            spec_type_name(c.trait_ref),
            spec_type_name(c.type_ref),
        ))
}

/// Whether an unsatisfied check before `k` has the same key as check `k`.
pub open spec fn reported_before(items: Seq<Item>, checks: Seq<BoundCheck>, k: int) -> bool {
    exists|j: int| 0 <= j < k && !check_satisfied(items, checks[j]) && #[trigger] check_key(checks[j]) == check_key(checks[k])
}

pub open spec fn unsatisfied_bound_message(c: BoundCheck) -> Seq<char> {
    "type `"@ + spec_type_name(c.type_ref) + "` does not satisfy bound `"@ + spec_type_name(c.type_ref) + ": "@
        + spec_type_name(c.trait_ref) + "` required by "@ + c.owner@
}

/// The errors for the first `n` checks: one for each unsatisfied check
/// whose key no earlier unsatisfied check has.
pub open spec fn bound_errors(items: Seq<Item>, checks: Seq<BoundCheck>, n: int) -> Seq<(Severity, Span, Seq<char>)>
    decreases n,
{
    if n <= 0 || n > checks.len() {
        seq![]
    } else {
        bound_errors(items, checks, n - 1) + if !check_satisfied(items, checks[n - 1]) && !reported_before(
            items,
            checks,
            n - 1,
        ) {
            seq![error_at(checks[n - 1].span, unsatisfied_bound_message(checks[n - 1]))]
        } else {
            seq![]
        }
    }
}

pub open spec fn key_view(key: (String, String, String, Span)) -> (Seq<char>, Seq<char>, Seq<char>, Span) {
    (key.0@, key.1@, key.2@, key.3)
}

fn key_listed(keys: &Vec<(String, String, String, Span)>, key: &(String, String, String, Span)) -> (found: bool)
    ensures
        found == exists|i: int| 0 <= i < keys@.len() && #[trigger] key_view(keys@[i]) == key_view(*key),
{
    let mut i: usize = 0;
    while i < keys.len()
        invariant
            i <= keys@.len(),
            forall|j: int| 0 <= j < i ==> #[trigger] key_view(keys@[j]) != key_view(*key),
        decreases keys.len() - i,
    {
        let k = &keys[i];
        if k.0.eq(&key.0) && k.1.eq(&key.1) && k.2.eq(&key.2) && k.3 == key.3 {
            assert(key_view(keys@[i as int]) == key_view(*key));
            return true;
        }
        i = i + 1;
    }
    false
}

/// Reports each bound check that no impl among `items` satisfies
/// (`bound_errors`), in order, once per owner, type, trait and span:
/// "type `T` does not satisfy bound `T: Trait` required by owner".
pub fn validate_bound_checks(checks: &Vec<BoundCheck>, items: &Vec<Item>, diagnostics: &mut Vec<Diagnostic>)
    ensures
        diagnostic_views(final(diagnostics)@) == diagnostic_views(old(diagnostics)@) + bound_errors(
            items@,
            checks@,
            checks@.len() as int,
        ),
{
    let mut reported: Vec<(String, String, String, Span)> = Vec::new();
    let mut k: usize = 0;
    while k < checks.len()
        invariant
            k <= checks@.len(),
            forall|i: int|
                0 <= i < reported@.len() ==> exists|j: int|
                    0 <= j < k && !check_satisfied(items@, checks@[j]) && #[trigger] check_key(checks@[j]) == key_view(
                        #[trigger] reported@[i],
                    ),
            forall|j: int|
                0 <= j < k && !check_satisfied(items@, #[trigger] checks@[j]) ==> exists|i: int|
                    0 <= i < reported@.len() && #[trigger] key_view(reported@[i]) == check_key(checks@[j]),
            diagnostic_views(diagnostics@) == diagnostic_views(old(diagnostics)@) + bound_errors(items@, checks@, k as int),
        decreases checks.len() - k,
    {
        let ghost before_reported = reported@;
        let check = &checks[k];
        if concrete_impl_exists(items, &check.trait_ref, &check.type_ref) {
            proof {
                assert(check_satisfied(items@, checks@[k as int]));
                assert(diagnostic_views(diagnostics@) =~= diagnostic_views(old(diagnostics)@) + bound_errors(items@, checks@, k + 1));
            }
            k = k + 1;
            continue;
        }
        let type_name_text = type_ref_name(&check.type_ref);
        let trait_name_text = type_ref_name(&check.trait_ref);
        let key = (check.owner.clone(), type_name_text, trait_name_text, check.span);
        assert(key_view(key) == check_key(*check));
        if key_listed(&reported, &key) {
            proof {
                let i = choose|i: int| 0 <= i < reported@.len() && #[trigger] key_view(reported@[i]) == key_view(key);
                assert(key_view(reported@[i]) == key_view(key));
                let j = choose|j: int|
                    0 <= j < k && !check_satisfied(items@, checks@[j]) && #[trigger] check_key(checks@[j]) == key_view(
                        reported@[i],
                    );
                assert(check_key(checks@[j]) == check_key(checks@[k as int]));
                assert(reported_before(items@, checks@, k as int));
                assert(diagnostic_views(diagnostics@) =~= diagnostic_views(old(diagnostics)@) + bound_errors(items@, checks@, k + 1));
            }
            k = k + 1;
            continue;
        }
        let ghost before = diagnostics@;
        let mut message = String::from_str("type `");
        message.append(key.1.as_str());
        message.append("` does not satisfy bound `");
        message.append(key.1.as_str());
        message.append(": ");
        message.append(key.2.as_str());
        message.append("` required by ");
        message.append(check.owner.as_str());
        assert(message@ =~= unsatisfied_bound_message(*check));
        diagnostics.push(Diagnostic::error(check.span, message));
        reported.push(key);
        proof {
            assert(!check_satisfied(items@, checks@[k as int]));
            assert(diagnostic_views(diagnostics@) =~= diagnostic_views(before) + seq![
                error_at(checks@[k as int].span, unsatisfied_bound_message(checks@[k as int])),
            ]);
            assert(!reported_before(items@, checks@, k as int)) by {
                if reported_before(items@, checks@, k as int) {
                    let j = choose|j: int|
                        0 <= j < k && !check_satisfied(items@, checks@[j]) && #[trigger] check_key(checks@[j]) == check_key(
                            checks@[k as int],
                        );
                    let i = choose|i: int|
                        0 <= i < before_reported.len() && #[trigger] key_view(before_reported[i]) == check_key(checks@[j]);
                    assert(key_view(before_reported[i]) == key_view(key));
                }
            }
            assert forall|i: int| 0 <= i < reported@.len() implies exists|j: int|
                0 <= j < k + 1 && !check_satisfied(items@, checks@[j]) && #[trigger] check_key(checks@[j]) == key_view(
                    #[trigger] reported@[i],
                ) by {
                if i == before_reported.len() {
                    assert(check_key(checks@[k as int]) == key_view(reported@[i]));
                } else {
                    assert(reported@[i] == before_reported[i]);
                    let j = choose|j: int|
                        0 <= j < k && !check_satisfied(items@, checks@[j]) && #[trigger] check_key(checks@[j]) == key_view(
                            before_reported[i],
                        );
                    assert(check_key(checks@[j]) == key_view(reported@[i]));
                }
            }
            assert forall|j: int| 0 <= j < k + 1 && !check_satisfied(items@, #[trigger] checks@[j]) implies exists|i: int|
                0 <= i < reported@.len() && #[trigger] key_view(reported@[i]) == check_key(checks@[j]) by {
                if j == k {
                    assert(key_view(reported@[before_reported.len() as int]) == check_key(checks@[j]));
                } else {
                    let i = choose|i: int|
                        0 <= i < before_reported.len() && #[trigger] key_view(before_reported[i]) == check_key(checks@[j]);
                    assert(reported@[i] == before_reported[i]);
                    assert(key_view(reported@[i]) == check_key(checks@[j]));
                }
            }
            assert(diagnostic_views(diagnostics@) =~= diagnostic_views(old(diagnostics)@) + bound_errors(items@, checks@, k + 1));
        }
        k = k + 1;
    }
}

} // verus!
