use vstd::prelude::*;

use crate::ast::{AssociatedTypeBinding, FunctionTypeParam, Item, TraitDecl, TypeParamBound, TypeRef};
use crate::diagnostic::{Diagnostic, Severity};
use crate::monomorphize::associated::{method_mentions, method_mentions_name};
use crate::monomorphize::associated_checks::{decl_names, find_trait, trait_named};
use crate::monomorphize::coherence::diagnostic_views;
use crate::monomorphize::templates::{concat4, error_at};
use crate::monomorphize::types::{spec_type_name, type_ref_name};
use crate::span::Span;
use crate::text::{join_seqs, join_strings, string_is, string_views};

verus! {

/// The associated type names that a type's bindings bind, in order.
pub open spec fn bound_names(bindings: Seq<AssociatedTypeBinding>) -> Seq<Seq<char>> {
    bindings.map_values(|b: AssociatedTypeBinding| b.name@)
}

/// The errors of the first `n` bindings against trait `t`: an associated
/// type bound before, or else one that the trait does not declare.
pub open spec fn binding_check_errors(t: TraitDecl, bindings: Seq<AssociatedTypeBinding>, n: int) -> Seq<
    (Severity, Span, Seq<char>),
>
    decreases n,
{
    if n <= 0 || n > bindings.len() {
        seq![]
    } else {
        let b = bindings[n - 1];
        binding_check_errors(t, bindings, n - 1) + if bound_names(bindings).take(n - 1).contains(b.name@) {
            seq![error_at(b.span, "duplicate binding for associated type `"@ + t.name@ + "."@ + b.name@ + "`"@)]
        } else if !decl_names(t.associated_types@).contains(b.name@) {
            seq![error_at(b.span, "trait `"@ + t.name@ + "` does not declare associated type `"@ + b.name@ + "`"@)]
        } else {
            seq![]
        }
    }
}

/// The errors of a type's associated type bindings: none without bindings;
/// where its name is no trait (the last of that name among `items`), one;
/// else those of `binding_check_errors`.
pub open spec fn associated_binding_errors(items: Seq<Item>, type_ref: TypeRef) -> Seq<(Severity, Span, Seq<char>)> {
    if type_ref.bindings@.len() == 0 {
        seq![]
    } else {
        match trait_named(items, type_ref.name@, items.len() as int) {
            None => seq![
                error_at(type_ref.span, "associated-type bindings are only allowed on traits, not `"@ + type_ref.name@ + "`"@),
            ],
            Some(t) => binding_check_errors(t, type_ref.bindings@, type_ref.bindings@.len() as int),
        }
    }
}

/// Whether a trait's methods need the associated type at `k` to be bound: it
/// has no type parameters and some method mentions `Self.` and its name.
pub open spec fn decl_required(t: TraitDecl, k: int) -> bool {
    &&& t.associated_types@[k].type_params@.len() == 0
    &&& exists|m: int|
        #![trigger t.methods@[m]]
        0 <= m < t.methods@.len() && method_mentions(t.methods@[m], "Self."@ + t.associated_types@[k].name@)
}

/// The first associated type from `k` on that is required and not in `bound`.
pub open spec fn first_missing(t: TraitDecl, bound: Seq<Seq<char>>, k: int) -> Option<Seq<char>>
    decreases t.associated_types@.len() - k,
{
    if k < 0 || k >= t.associated_types@.len() {
        None
    } else if decl_required(t, k) && !bound.contains(t.associated_types@[k].name@) {
        Some(t.associated_types@[k].name@)
    } else {
        first_missing(t, bound, k + 1)
    }
}

pub open spec fn unbound_message(type_ref: TypeRef, trait_name: Seq<char>, missing: Seq<char>) -> Seq<char> {
    "trait-typed value `"@ + spec_type_name(type_ref) + "` must bind associated type `"@ + trait_name + "."@ + missing
        + "` to determine its method signatures"@
}

/// The errors of a type used as a value's type, outermost first: its
/// bindings (`associated_binding_errors`); where it names a trait, the first
/// associated type that the trait's methods need and the type leaves
/// unbound; then the same for its arguments, bound types, and the parameter
/// and return types of a function type.
pub open spec fn trait_object_errors(items: Seq<Item>, type_ref: TypeRef) -> Seq<(Severity, Span, Seq<char>)>
    decreases type_ref, 0int,
{
    associated_binding_errors(items, type_ref) + (match trait_named(items, type_ref.name@, items.len() as int) {
        Some(t) => match first_missing(t, bound_names(type_ref.bindings@), 0) {
            Some(missing) => seq![error_at(type_ref.span, unbound_message(type_ref, t.name@, missing))],
            None => seq![],
        },
        None => seq![],
    }) + arg_object_errors(items, type_ref.args@, type_ref.args@.len() as int) + binding_object_errors(
        items,
        type_ref.bindings@,
        type_ref.bindings@.len() as int,
    ) + match type_ref.function {
        Some(f) => param_object_errors(items, f.params@, f.params@.len() as int) + trait_object_errors(
            items,
            *f.return_type,
        ),
        None => seq![],
    }
}

pub open spec fn arg_object_errors(items: Seq<Item>, args: Seq<TypeRef>, n: int) -> Seq<(Severity, Span, Seq<char>)>
    decreases args, n,
{
    if n <= 0 || n > args.len() {
        seq![]
    } else {
        arg_object_errors(items, args, n - 1) + trait_object_errors(items, args[n - 1])
    }
}

pub open spec fn binding_object_errors(items: Seq<Item>, bindings: Seq<AssociatedTypeBinding>, n: int) -> Seq<
    (Severity, Span, Seq<char>),
>
    decreases bindings, n,
{
    if n <= 0 || n > bindings.len() {
        seq![]
    } else {
        binding_object_errors(items, bindings, n - 1) + trait_object_errors(items, bindings[n - 1].type_ref)
    }
}

pub open spec fn param_object_errors(items: Seq<Item>, params: Seq<FunctionTypeParam>, n: int) -> Seq<
    (Severity, Span, Seq<char>),
>
    decreases params, n,
{
    if n <= 0 || n > params.len() {
        seq![]
    } else {
        param_object_errors(items, params, n - 1) + trait_object_errors(items, params[n - 1].type_ref)
    }
}

fn bound_listed(bindings: &Vec<AssociatedTypeBinding>, upto: usize, name: &String) -> (found: bool)
    requires
        upto <= bindings@.len(),
    ensures
        found == bound_names(bindings@).take(upto as int).contains(name@),
{
    let ghost views = bound_names(bindings@).take(upto as int);
    let mut j: usize = 0;
    while j < upto
        invariant
            j <= upto,
            upto <= bindings@.len(),
            views == bound_names(bindings@).take(upto as int),
            forall|k: int| 0 <= k < j ==> #[trigger] views[k] != name@,
        decreases upto - j,
    {
        if bindings[j].name.eq(name) {
            assert(views[j as int] == name@);
            return true;
        }
        j = j + 1;
    }
    false
}

fn declared_in(t: &TraitDecl, name: &String) -> (found: bool)
    ensures
        found == decl_names(t.associated_types@).contains(name@),
{
    let ghost views = decl_names(t.associated_types@);
    let mut j: usize = 0;
    while j < t.associated_types.len()
        invariant
            j <= t.associated_types@.len(),
            views == decl_names(t.associated_types@),
            forall|k: int| 0 <= k < j ==> #[trigger] views[k] != name@,
        decreases t.associated_types.len() - j,
    {
        if t.associated_types[j].name.eq(name) {
            assert(views[j as int] == name@);
            return true;
        }
        j = j + 1;
    }
    false
}

/// Reports `associated_binding_errors` for a type: bindings on a name that
/// is no trait, bindings repeated, and bindings of associated types that the
/// trait does not declare.
pub fn validate_associated_bindings(items: &Vec<Item>, type_ref: &TypeRef, diagnostics: &mut Vec<Diagnostic>)
    ensures
        diagnostic_views(final(diagnostics)@) == diagnostic_views(old(diagnostics)@) + associated_binding_errors(
            items@,
            *type_ref,
        ),
{
    if type_ref.bindings.len() == 0 {
        assert(diagnostic_views(diagnostics@) =~= diagnostic_views(old(diagnostics)@) + seq![]);
        return;
    }
    let t = match find_trait(items, &type_ref.name) {
        Some(t) => t,
        None => {
            let mut message = String::from_str("associated-type bindings are only allowed on traits, not `");
            message.append(type_ref.name.as_str());
            message.append("`");
            diagnostics.push(Diagnostic::error(type_ref.span, message));
            return;
        },
    };
    let bindings = &type_ref.bindings;
    let mut i: usize = 0;
    while i < bindings.len()
        invariant
            i <= bindings@.len(),
            bindings@ == type_ref.bindings@,
            diagnostic_views(diagnostics@) == diagnostic_views(old(diagnostics)@) + binding_check_errors(*t, bindings@, i as int),
        decreases bindings.len() - i,
    {
        let ghost before = diagnostics@;
        let b = &bindings[i];
        assert(bound_names(bindings@)[i as int] == b.name@);
        if bound_listed(bindings, i, &b.name) {
            let mut message = concat4("duplicate binding for associated type `", &t.name, ".", &b.name);
            message.append("`");
            assert(message@ =~= "duplicate binding for associated type `"@ + t.name@ + "."@ + b.name@ + "`"@);
            diagnostics.push(Diagnostic::error(b.span, message));
        } else if !declared_in(t, &b.name) {
            let mut message = concat4("trait `", &t.name, "` does not declare associated type `", &b.name);
            message.append("`");
            assert(message@ =~= "trait `"@ + t.name@ + "` does not declare associated type `"@ + b.name@ + "`"@);
            diagnostics.push(Diagnostic::error(b.span, message));
        }
        proof {
            assert(diagnostic_views(diagnostics@) =~= diagnostic_views(before) + if bound_names(bindings@).take(i as int).contains(b.name@) {
                seq![error_at(b.span, "duplicate binding for associated type `"@ + t.name@ + "."@ + b.name@ + "`"@)]
            } else if !decl_names(t.associated_types@).contains(b.name@) {
                seq![error_at(b.span, "trait `"@ + t.name@ + "` does not declare associated type `"@ + b.name@ + "`"@)]
            } else {
                seq![]
            });
            assert(diagnostic_views(diagnostics@) =~= diagnostic_views(old(diagnostics)@) + binding_check_errors(*t, bindings@, i + 1));
        }
        i = i + 1;
    }
}

fn is_required(t: &TraitDecl, k: usize) -> (required: bool)
    requires
        k < t.associated_types@.len(),
    ensures
        required == decl_required(*t, k as int),
{
    let decl = &t.associated_types[k];
    if decl.type_params.len() != 0 {
        return false;
    }
    let target = String::from_str("Self.").concat(decl.name.as_str());
    proof {
        reveal_strlit("Self.");
    }
    assert(target@ == "Self."@ + decl.name@);
    let mut m: usize = 0;
    while m < t.methods.len()
        invariant
            m <= t.methods@.len(),
            k < t.associated_types@.len(),
            t.associated_types@[k as int].type_params@.len() == 0,
            target@ == "Self."@ + t.associated_types@[k as int].name@,
            forall|x: int|
                #![trigger t.methods@[x]]
                0 <= x < m ==> !method_mentions(t.methods@[x], target@),
        decreases t.methods.len() - m,
    {
        if method_mentions_name(&t.methods[m], target.as_str()) {
            assert(method_mentions(t.methods@[m as int], target@));
            assert(method_mentions(t.methods@[m as int], "Self."@ + t.associated_types@[k as int].name@));
            assert(t.associated_types@[k as int].type_params@.len() == 0);
            assert(decl_required(*t, k as int));
            return true;
        }
        m = m + 1;
    }
    false
}

fn first_unbound<'a>(t: &'a TraitDecl, bindings: &Vec<AssociatedTypeBinding>) -> (missing: Option<&'a String>)
    ensures
        missing is Some <==> first_missing(*t, bound_names(bindings@), 0) is Some,
        missing matches Some(name) ==> first_missing(*t, bound_names(bindings@), 0) == Some(name@),
{
    let ghost bound = bound_names(bindings@);
    let mut k: usize = 0;
    while k < t.associated_types.len()
        invariant
            k <= t.associated_types@.len(),
            bound == bound_names(bindings@),
            first_missing(*t, bound, 0) == first_missing(*t, bound, k as int),
        decreases t.associated_types.len() - k,
    {
        let name = &t.associated_types[k].name;
        if is_required(t, k) && !bound_listed(bindings, bindings.len(), name) {
            proof {
                assert(bound.take(bindings@.len() as int) =~= bound);
            }
            return Some(name);
        }
        proof {
            assert(bound.take(bindings@.len() as int) =~= bound);
        }
        k = k + 1;
    }
    None
}

/// Reports `trait_object_errors` for a type used as a value's type: its
/// bindings, an associated type that a trait-typed value leaves unbound
/// although the trait's methods need it, and the same within the types it
/// is made of.
#[verifier::spinoff_prover]
#[verifier::rlimit(40)]
pub fn validate_trait_object_type(items: &Vec<Item>, type_ref: &TypeRef, diagnostics: &mut Vec<Diagnostic>)
    ensures
        diagnostic_views(final(diagnostics)@) == diagnostic_views(old(diagnostics)@) + trait_object_errors(items@, *type_ref),
    decreases type_ref,
{
    let ghost start = diagnostics@;
    validate_associated_bindings(items, type_ref, diagnostics);
    let ghost after_bindings = diagnostics@;
    match find_trait(items, &type_ref.name) {
        Some(t) => match first_unbound(t, &type_ref.bindings) {
            Some(missing) => {
                let shown = type_ref_name(type_ref);
                let mut message = concat4("trait-typed value `", &shown, "` must bind associated type `", &t.name);
                message.append(".");
                message.append(missing.as_str());
                message.append("` to determine its method signatures");
                assert(message@ =~= unbound_message(*type_ref, t.name@, missing@));
                diagnostics.push(Diagnostic::error(type_ref.span, message));
            },
            None => {},
        },
        None => {},
    }
    let ghost after_own = diagnostics@;
    assert(diagnostic_views(after_own) =~= diagnostic_views(after_bindings) + match trait_named(
        items@,
        type_ref.name@,
        items@.len() as int,
    ) {
        Some(t) => match first_missing(t, bound_names(type_ref.bindings@), 0) {
            Some(missing) => seq![error_at(type_ref.span, unbound_message(*type_ref, t.name@, missing))],
            None => seq![],
        },
        None => seq![],
    });
    let mut i: usize = 0;
    while i < type_ref.args.len()
        invariant
            i <= type_ref.args@.len(),
            diagnostic_views(diagnostics@) == diagnostic_views(after_own) + arg_object_errors(items@, type_ref.args@, i as int),
        decreases type_ref.args.len() - i,
    {
        validate_trait_object_type(items, &type_ref.args[i], diagnostics);
        proof {
            assert(diagnostic_views(diagnostics@) =~= diagnostic_views(after_own) + arg_object_errors(items@, type_ref.args@, i + 1));
        }
        i = i + 1;
    }
    let ghost after_args = diagnostics@;
    let mut j: usize = 0;
    while j < type_ref.bindings.len()
        invariant
            j <= type_ref.bindings@.len(),
            diagnostic_views(diagnostics@) == diagnostic_views(after_args) + binding_object_errors(
                items@,
                type_ref.bindings@,
                j as int,
            ),
        decreases type_ref.bindings.len() - j,
    {
        validate_trait_object_type(items, &type_ref.bindings[j].type_ref, diagnostics);
        proof {
            assert(diagnostic_views(diagnostics@) =~= diagnostic_views(after_args) + binding_object_errors(
                items@,
                type_ref.bindings@,
                j + 1,
            ));
        }
        j = j + 1;
    }
    let ghost after_bound = diagnostics@;
    if let Some(function) = &type_ref.function {
        let mut p: usize = 0;
        #[verifier::loop_isolation(false)]
        while p < function.params.len()
            invariant
                p <= function.params@.len(),
                type_ref.function == Some(*function),
                diagnostic_views(diagnostics@) == diagnostic_views(after_bound) + param_object_errors(
                    items@,
                    function.params@,
                    p as int,
                ),
            decreases function.params.len() - p,
        {
            validate_trait_object_type(items, &function.params[p].type_ref, diagnostics);
            proof {
                assert(diagnostic_views(diagnostics@) =~= diagnostic_views(after_bound) + param_object_errors(
                    items@,
                    function.params@,
                    p + 1,
                ));
            }
            p = p + 1;
        }
        validate_trait_object_type(items, &function.return_type, diagnostics);
        assert(diagnostic_views(diagnostics@) =~= diagnostic_views(after_bound) + param_object_errors(
            items@,
            function.params@,
            function.params@.len() as int,
        ) + trait_object_errors(items@, *function.return_type));
    } else {
        assert(diagnostic_views(diagnostics@) =~= diagnostic_views(after_bound) + seq![]);
    }
    proof {
        assert(diagnostic_views(diagnostics@) =~= diagnostic_views(start) + trait_object_errors(items@, *type_ref));
    }
}

/// The position of the last `.` among the first `n` characters.
pub open spec fn last_dot(name: Seq<char>, n: int) -> Option<int>
    decreases n,
{
    if n <= 0 || n > name.len() {
        None
    } else if name[n - 1] == '.' {
        Some(n - 1)
    } else {
        last_dot(name, n - 1)
    }
}

/// The names of the traits, among the bounds on `receiver` in the first `n`
/// bounds, that declare an associated type `associated`; a bound's trait is
/// the last trait of its name among `items`, and a bound naming no trait
/// counts for nothing.
pub open spec fn declaring_traits(
    items: Seq<Item>,
    bounds: Seq<TypeParamBound>,
    receiver: Seq<char>,
    associated: Seq<char>,
    n: int,
) -> Seq<Seq<char>>
    decreases n,
{
    if n <= 0 || n > bounds.len() {
        seq![]
    } else {
        declaring_traits(items, bounds, receiver, associated, n - 1) + if bounds[n - 1].param@ == receiver {
            match trait_named(items, bounds[n - 1].trait_ref.name@, items.len() as int) {
                Some(t) => if decl_names(t.associated_types@).contains(associated) {
                    seq![t.name@]
                } else {
                    seq![]
                },
                None => seq![],
            }
        } else {
            seq![]
        }
    }
}

/// The error for a projection `P.A` on a type parameter `P` of the
/// function (a name without bindings whose part before its last `.` is one
/// of `params`): no bound on `P` whose trait declares `A`, or more than one.
pub open spec fn projection_error(
    items: Seq<Item>,
    type_ref: TypeRef,
    params: Seq<Seq<char>>,
    bounds: Seq<TypeParamBound>,
) -> Seq<(Severity, Span, Seq<char>)> {
    let name = type_ref.name@;
    match last_dot(name, name.len() as int) {
        Some(i) => if type_ref.bindings@.len() == 0 && params.contains(name.take(i)) {
            let receiver = name.take(i);
            let associated = name.skip(i + 1);
            let traits = declaring_traits(items, bounds, receiver, associated, bounds.len() as int);
            if traits.len() == 0 {
                seq![
                    error_at(
                        type_ref.span,
                        "cannot resolve associated type projection `"@ + receiver + "."@ + associated + "`: type parameter `"@
                            + receiver + "` has no bound declaring `"@ + associated + "`"@,
                    ),
                ]
            } else if traits.len() > 1 {
                seq![
                    error_at(
                        type_ref.span,
                        "ambiguous associated type projection `"@ + receiver + "."@ + associated + "`: bounds `"@ + join_seqs(
                            traits,
                            "` and `"@,
                        ) + "` all declare `"@ + associated + "`"@,
                    ),
                ]
            } else {
                seq![]
            }
        } else {
            seq![]
        },
        None => seq![],
    }
}

/// `projection_error` for a type and, outermost first, for the types it is
/// made of.
pub open spec fn projection_errors(
    items: Seq<Item>,
    type_ref: TypeRef,
    params: Seq<Seq<char>>,
    bounds: Seq<TypeParamBound>,
) -> Seq<(Severity, Span, Seq<char>)>
    decreases type_ref, 0int,
{
    projection_error(items, type_ref, params, bounds) + arg_projection_errors(
        items,
        type_ref.args@,
        params,
        bounds,
        type_ref.args@.len() as int,
    ) + binding_projection_errors(items, type_ref.bindings@, params, bounds, type_ref.bindings@.len() as int)
        + match type_ref.function {
        Some(f) => param_projection_errors(items, f.params@, params, bounds, f.params@.len() as int) + projection_errors(
            items,
            *f.return_type,
            params,
            bounds,
        ),
        None => seq![],
    }
}

pub open spec fn arg_projection_errors(
    items: Seq<Item>,
    args: Seq<TypeRef>,
    params: Seq<Seq<char>>,
    bounds: Seq<TypeParamBound>,
    n: int,
) -> Seq<(Severity, Span, Seq<char>)>
    decreases args, n,
{
    if n <= 0 || n > args.len() {
        seq![]
    } else {
        arg_projection_errors(items, args, params, bounds, n - 1) + projection_errors(items, args[n - 1], params, bounds)
    }
}

pub open spec fn binding_projection_errors(
    items: Seq<Item>,
    bindings: Seq<AssociatedTypeBinding>,
    params: Seq<Seq<char>>,
    bounds: Seq<TypeParamBound>,
    n: int,
) -> Seq<(Severity, Span, Seq<char>)>
    decreases bindings, n,
{
    if n <= 0 || n > bindings.len() {
        seq![]
    } else {
        binding_projection_errors(items, bindings, params, bounds, n - 1) + projection_errors(
            items,
            bindings[n - 1].type_ref,
            params,
            bounds,
        )
    }
}

pub open spec fn param_projection_errors(
    items: Seq<Item>,
    fparams: Seq<FunctionTypeParam>,
    params: Seq<Seq<char>>,
    bounds: Seq<TypeParamBound>,
    n: int,
) -> Seq<(Severity, Span, Seq<char>)>
    decreases fparams, n,
{
    if n <= 0 || n > fparams.len() {
        seq![]
    } else {
        param_projection_errors(items, fparams, params, bounds, n - 1) + projection_errors(
            items,
            fparams[n - 1].type_ref,
            params,
            bounds,
        )
    }
}

proof fn lemma_last_dot_within(name: Seq<char>, n: int)
    ensures
        last_dot(name, n) matches Some(i) ==> 0 <= i < n && i < name.len(),
    decreases n,
{
    if n > 0 && n <= name.len() && name[n - 1] != '.' {
        lemma_last_dot_within(name, n - 1);
    }
}

fn find_last_dot(name: &str) -> (pos: Option<usize>)
    ensures
        match pos {
            Some(i) => last_dot(name@, name@.len() as int) == Some(i as int),
            None => last_dot(name@, name@.len() as int) is None,
        },
{
    let mut n: usize = name.unicode_len();
    while n > 0
        invariant
            n <= name@.len(),
            last_dot(name@, name@.len() as int) == last_dot(name@, n as int),
        decreases n,
    {
        if name.get_char(n - 1) == '.' {
            return Some(n - 1);
        }
        n = n - 1;
    }
    None
}

fn param_listed(params: &Vec<String>, name: &str) -> (found: bool)
    ensures
        found == string_views(params@).contains(name@),
{
    let ghost views = string_views(params@);
    let mut j: usize = 0;
    while j < params.len()
        invariant
            j <= params@.len(),
            views == string_views(params@),
            forall|k: int| 0 <= k < j ==> #[trigger] views[k] != name@,
        decreases params.len() - j,
    {
        if string_is(&params[j], name) {
            assert(views[j as int] == name@);
            return true;
        }
        j = j + 1;
    }
    false
}

fn projection_traits(items: &Vec<Item>, bounds: &Vec<TypeParamBound>, receiver: &str, associated: &String) -> (names: Vec<String>)
    ensures
        string_views(names@) == declaring_traits(items@, bounds@, receiver@, associated@, bounds@.len() as int),
{
    let mut names: Vec<String> = Vec::new();
    let mut k: usize = 0;
    while k < bounds.len()
        invariant
            k <= bounds@.len(),
            string_views(names@) == declaring_traits(items@, bounds@, receiver@, associated@, k as int),
        decreases bounds.len() - k,
    {
        let bound = &bounds[k];
        if string_is(&bound.param, receiver) {
            match find_trait(items, &bound.trait_ref.name) {
                Some(t) => if declared_in(t, associated) {
                    names.push(t.name.clone());
                },
                None => {},
            }
        }
        proof {
            assert(string_views(names@) =~= declaring_traits(items@, bounds@, receiver@, associated@, k + 1));
        }
        k = k + 1;
    }
    names
}

fn check_projection(
    items: &Vec<Item>,
    type_ref: &TypeRef,
    type_params: &Vec<String>,
    bounds: &Vec<TypeParamBound>,
    diagnostics: &mut Vec<Diagnostic>,
)
    ensures
        diagnostic_views(final(diagnostics)@) == diagnostic_views(old(diagnostics)@) + projection_error(
            items@,
            *type_ref,
            string_views(type_params@),
            bounds@,
        ),
{
    let name = type_ref.name.as_str();
    let i = match find_last_dot(name) {
        Some(i) => i,
        None => {
            assert(diagnostic_views(diagnostics@) =~= diagnostic_views(old(diagnostics)@) + seq![]);
            return;
        },
    };
    let n = name.unicode_len();
    proof {
        lemma_last_dot_within(type_ref.name@, type_ref.name@.len() as int);
    }
    let receiver = name.substring_char(0, i);
    assert(receiver@ =~= type_ref.name@.take(i as int));
    if type_ref.bindings.len() != 0 || !param_listed(type_params, receiver) {
        assert(diagnostic_views(diagnostics@) =~= diagnostic_views(old(diagnostics)@) + seq![]);
        return;
    }
    let associated = String::from_str(name.substring_char(i + 1, n));
    assert(associated@ =~= type_ref.name@.skip(i + 1));
    let traits = projection_traits(items, bounds, receiver, &associated);
    if traits.len() == 0 {
        let mut message = String::from_str("cannot resolve associated type projection `");
        message.append(receiver);
        message.append(".");
        message.append(associated.as_str());
        message.append("`: type parameter `");
        message.append(receiver);
        message.append("` has no bound declaring `");
        message.append(associated.as_str());
        message.append("`");
        assert(message@ =~= "cannot resolve associated type projection `"@ + receiver@ + "."@ + associated@ + "`: type parameter `"@
            + receiver@ + "` has no bound declaring `"@ + associated@ + "`"@);
        diagnostics.push(Diagnostic::error(type_ref.span, message));
    } else if traits.len() > 1 {
        let joined = join_strings(&traits, "` and `");
        let mut message = String::from_str("ambiguous associated type projection `");
        message.append(receiver);
        message.append(".");
        message.append(associated.as_str());
        message.append("`: bounds `");
        message.append(joined.as_str());
        message.append("` all declare `");
        message.append(associated.as_str());
        message.append("`");
        assert(message@ =~= "ambiguous associated type projection `"@ + receiver@ + "."@ + associated@ + "`: bounds `"@ + join_seqs(
            string_views(traits@),
            "` and `"@,
        ) + "` all declare `"@ + associated@ + "`"@);
        diagnostics.push(Diagnostic::error(type_ref.span, message));
    }
}

/// Reports `projection_errors` for a type in a function's signature: each
/// projection `P.A` on one of the function's type parameters `P` that no
/// bound on `P` declares, or that several do, throughout the type.
#[verifier::spinoff_prover]
#[verifier::rlimit(40)]
pub fn validate_bounded_projection(
    items: &Vec<Item>,
    type_ref: &TypeRef,
    type_params: &Vec<String>,
    bounds: &Vec<TypeParamBound>,
    diagnostics: &mut Vec<Diagnostic>,
)
    ensures
        diagnostic_views(final(diagnostics)@) == diagnostic_views(old(diagnostics)@) + projection_errors(
            items@,
            *type_ref,
            string_views(type_params@),
            bounds@,
        ),
    decreases type_ref,
{
    let ghost start = diagnostics@;
    let ghost params = string_views(type_params@);
    check_projection(items, type_ref, type_params, bounds, diagnostics);
    let ghost after_own = diagnostics@;
    let mut i: usize = 0;
    while i < type_ref.args.len()
        invariant
            i <= type_ref.args@.len(),
            params == string_views(type_params@),
            diagnostic_views(diagnostics@) == diagnostic_views(after_own) + arg_projection_errors(
                items@,
                type_ref.args@,
                params,
                bounds@,
                i as int,
            ),
        decreases type_ref.args.len() - i,
    {
        validate_bounded_projection(items, &type_ref.args[i], type_params, bounds, diagnostics);
        proof {
            assert(diagnostic_views(diagnostics@) =~= diagnostic_views(after_own) + arg_projection_errors(
                items@,
                type_ref.args@,
                params,
                bounds@,
                i + 1,
            ));
        }
        i = i + 1;
    }
    let ghost after_args = diagnostics@;
    let mut j: usize = 0;
    while j < type_ref.bindings.len()
        invariant
            j <= type_ref.bindings@.len(),
            params == string_views(type_params@),
            diagnostic_views(diagnostics@) == diagnostic_views(after_args) + binding_projection_errors(
                items@,
                type_ref.bindings@,
                params,
                bounds@,
                j as int,
            ),
        decreases type_ref.bindings.len() - j,
    {
        validate_bounded_projection(items, &type_ref.bindings[j].type_ref, type_params, bounds, diagnostics);
        proof {
            assert(diagnostic_views(diagnostics@) =~= diagnostic_views(after_args) + binding_projection_errors(
                items@,
                type_ref.bindings@,
                params,
                bounds@,
                j + 1,
            ));
        }
        j = j + 1;
    }
    let ghost after_bound = diagnostics@;
    if let Some(function) = &type_ref.function {
        let mut p: usize = 0;
        #[verifier::loop_isolation(false)]
        while p < function.params.len()
            invariant
                p <= function.params@.len(),
                type_ref.function == Some(*function),
                params == string_views(type_params@),
                diagnostic_views(diagnostics@) == diagnostic_views(after_bound) + param_projection_errors(
                    items@,
                    function.params@,
                    params,
                    bounds@,
                    p as int,
                ),
            decreases function.params.len() - p,
        {
            validate_bounded_projection(items, &function.params[p].type_ref, type_params, bounds, diagnostics);
            proof {
                assert(diagnostic_views(diagnostics@) =~= diagnostic_views(after_bound) + param_projection_errors(
                    items@,
                    function.params@,
                    params,
                    bounds@,
                    p + 1,
                ));
            }
            p = p + 1;
        }
        validate_bounded_projection(items, &function.return_type, type_params, bounds, diagnostics);
        assert(diagnostic_views(diagnostics@) =~= diagnostic_views(after_bound) + param_projection_errors(
            items@,
            function.params@,
            params,
            bounds@,
            function.params@.len() as int,
        ) + projection_errors(items@, *function.return_type, params, bounds@));
    } else {
        assert(diagnostic_views(diagnostics@) =~= diagnostic_views(after_bound) + seq![]);
    }
    proof {
        assert(diagnostic_views(diagnostics@) =~= diagnostic_views(start) + projection_errors(items@, *type_ref, params, bounds@));
    }
}

} // verus!
