use vstd::prelude::*;

use crate::ast::{TraitDecl, TraitMethodDecl, TypeRef};
use crate::text::{contains_string, string_is};

verus! {

/// `name` occurs somewhere in the type: as its own name, or inside its
/// arguments, bindings, parameter types or return type.
pub open spec fn spec_type_contains_name(type_ref: TypeRef, name: Seq<char>) -> bool
    decreases type_ref,
{
    ||| type_ref.name@ == name
    ||| exists|i: int|
        #![trigger type_ref.args@[i]]
        0 <= i < type_ref.args@.len() && spec_type_contains_name(type_ref.args@[i], name)
    ||| exists|i: int|
        #![trigger type_ref.bindings@[i]]
        0 <= i < type_ref.bindings@.len() && spec_type_contains_name(type_ref.bindings@[i].type_ref, name)
    ||| match type_ref.function {
        Some(f) => (exists|i: int|
            #![trigger f.params@[i]]
            0 <= i < f.params@.len() && spec_type_contains_name(f.params@[i].type_ref, name))
            || spec_type_contains_name(*f.return_type, name),
        None => false,
    }
}

/// Whether `name` occurs anywhere in the type.
#[verifier::loop_isolation(false)]
pub fn type_ref_contains_name(type_ref: &TypeRef, name: &str) -> (found: bool)
    ensures
        found == spec_type_contains_name(*type_ref, name@),
    decreases type_ref,
{
    if string_is(&type_ref.name, name) {
        return true;
    }
    let mut i: usize = 0;
    while i < type_ref.args.len()
        invariant
            i <= type_ref.args@.len(),
            forall|j: int| #![trigger type_ref.args@[j]] 0 <= j < i ==> !spec_type_contains_name(type_ref.args@[j], name@),
        decreases type_ref.args.len() - i,
    {
        if type_ref_contains_name(&type_ref.args[i], name) {
            assert(spec_type_contains_name(type_ref.args@[i as int], name@));
            return true;
        }
        i = i + 1;
    }
    let mut i: usize = 0;
    while i < type_ref.bindings.len()
        invariant
            i <= type_ref.bindings@.len(),
            forall|j: int|
                #![trigger type_ref.bindings@[j]]
                0 <= j < i ==> !spec_type_contains_name(type_ref.bindings@[j].type_ref, name@),
        decreases type_ref.bindings.len() - i,
    {
        if type_ref_contains_name(&type_ref.bindings[i].type_ref, name) {
            assert(spec_type_contains_name(type_ref.bindings@[i as int].type_ref, name@));
            return true;
        }
        i = i + 1;
    }
    match &type_ref.function {
        Some(function) => {
            let mut i: usize = 0;
            while i < function.params.len()
                invariant
                    i <= function.params@.len(),
                    forall|j: int|
                        #![trigger function.params@[j]]
                        0 <= j < i ==> !spec_type_contains_name(function.params@[j].type_ref, name@),
                decreases function.params.len() - i,
            {
                if type_ref_contains_name(&function.params[i].type_ref, name) {
                    assert(spec_type_contains_name(function.params@[i as int].type_ref, name@));
                    return true;
                }
                i = i + 1;
            }
            type_ref_contains_name(&function.return_type, name)
        },
        None => false,
    }
}

/// A parameter type or the return type of the method mentions `name`.
pub open spec fn method_mentions(method: TraitMethodDecl, name: Seq<char>) -> bool {
    ||| exists|i: int|
        #![trigger method.params@[i]]
        0 <= i < method.params@.len() && (method.params@[i].type_ref matches Some(t)
            && spec_type_contains_name(t, name))
    ||| method.return_type matches Some(t) && spec_type_contains_name(t, name)
}

/// An associated type of the trait, without type parameters, named `name`,
/// that some method of the trait uses as `Self.name`.
pub open spec fn associated_type_required(trait_: TraitDecl, name: Seq<char>) -> bool {
    required_among_first(trait_, name, trait_.associated_types@.len() as int)
}

/// `associated_type_required`, looking at the first `k` associated types only.
pub open spec fn required_among_first(trait_: TraitDecl, name: Seq<char>, k: int) -> bool {
    exists|i: int|
        #![trigger trait_.associated_types@[i]]
        0 <= i < k && i < trait_.associated_types@.len() && trait_.associated_types@[i].name@ == name
            && trait_.associated_types@[i].type_params@.len() == 0 && exists|m: int|
            #![trigger trait_.methods@[m]]
            0 <= m < trait_.methods@.len() && method_mentions(trait_.methods@[m], "Self."@ + name)
}

proof fn lemma_required_step(trait_: TraitDecl, name: Seq<char>, k: int)
    requires
        0 <= k < trait_.associated_types@.len(),
    ensures
        required_among_first(trait_, name, k + 1) <==> required_among_first(trait_, name, k) || (
        trait_.associated_types@[k].name@ == name && trait_.associated_types@[k].type_params@.len() == 0
            && exists|m: int|
            #![trigger trait_.methods@[m]]
            0 <= m < trait_.methods@.len() && method_mentions(trait_.methods@[m], "Self."@ + name)),
{
    if required_among_first(trait_, name, k + 1) {
        let i = choose|i: int|
            #![trigger trait_.associated_types@[i]]
            0 <= i < k + 1 && i < trait_.associated_types@.len() && trait_.associated_types@[i].name@ == name
                && trait_.associated_types@[i].type_params@.len() == 0 && exists|m: int|
                #![trigger trait_.methods@[m]]
                0 <= m < trait_.methods@.len() && method_mentions(trait_.methods@[m], "Self."@ + name);
        if i < k {
            assert(required_among_first(trait_, name, k));
        }
    }
}

pub(crate) fn method_mentions_name(method: &TraitMethodDecl, name: &str) -> (found: bool)
    ensures
        found == method_mentions(*method, name@),
{
    let mut i: usize = 0;
    while i < method.params.len()
        invariant
            i <= method.params@.len(),
            forall|j: int|
                #![trigger method.params@[j]]
                0 <= j < i ==> !(method.params@[j].type_ref matches Some(t) && spec_type_contains_name(t, name@)),
        decreases method.params.len() - i,
    {
        if let Some(type_ref) = &method.params[i].type_ref {
            if type_ref_contains_name(type_ref, name) {
                assert(method.params@[i as int].type_ref matches Some(t) && spec_type_contains_name(t, name@));
                return true;
            }
        }
        i = i + 1;
    }
    match &method.return_type {
        Some(type_ref) => type_ref_contains_name(type_ref, name),
        None => false,
    }
}

/// The associated types that a trait's methods use through `Self.`, and that
/// an implementation must therefore bind: each name once.
pub fn trait_required_associated_type_names(trait_: &TraitDecl) -> (names: Vec<String>)
    ensures
        forall|s: Seq<char>|
            (exists|i: int| 0 <= i < names@.len() && #[trigger] names@[i]@ == s) <==> associated_type_required(
                *trait_,
                s,
            ),
        forall|i: int, j: int| 0 <= i < j < names@.len() ==> #[trigger] names@[i]@ != #[trigger] names@[j]@,
{
    let mut names: Vec<String> = Vec::new();
    let mut k: usize = 0;
    while k < trait_.associated_types.len()
        invariant
            k <= trait_.associated_types@.len(),
            forall|s: Seq<char>|
                (exists|i: int| 0 <= i < names@.len() && #[trigger] names@[i]@ == s) <==> #[trigger] required_among_first(
                    *trait_,
                    s,
                    k as int,
                ),
            forall|i: int, j: int| 0 <= i < j < names@.len() ==> #[trigger] names@[i]@ != #[trigger] names@[j]@,
        decreases trait_.associated_types.len() - k,
    {
        let associated = &trait_.associated_types[k];
        let ghost name = associated.name@;
        let ghost old_names = names@;
        let mut needed = false;
        if associated.type_params.len() == 0 {
            let target = String::from_str("Self.").concat(associated.name.as_str());
            proof {
                reveal_strlit("Self.");
            }
            let mut used = false;
            let mut m: usize = 0;
            while m < trait_.methods.len()
                invariant
                    m <= trait_.methods@.len(),
                    !used ==> forall|x: int|
                        #![trigger trait_.methods@[x]]
                        0 <= x < m ==> !method_mentions(trait_.methods@[x], target@),
                    used ==> exists|x: int|
                        #![trigger trait_.methods@[x]]
                        0 <= x < trait_.methods@.len() && method_mentions(trait_.methods@[x], target@),
                decreases trait_.methods.len() - m,
            {
                if method_mentions_name(&trait_.methods[m], target.as_str()) {
                    used = true;
                }
                m = m + 1;
            }
            assert(target@ == "Self."@ + name);
            needed = used;
        }
        let ghost condition = associated.type_params@.len() == 0 && exists|x: int|
            #![trigger trait_.methods@[x]]
            0 <= x < trait_.methods@.len() && method_mentions(trait_.methods@[x], "Self."@ + name);
        assert(needed == condition);
        if needed && !contains_string(&names, &associated.name) {
            names.push(associated.name.clone());
        }
        proof {
            assert forall|s: Seq<char>|
                (exists|i: int| 0 <= i < names@.len() && #[trigger] names@[i]@ == s) <==> #[trigger] required_among_first(
                    *trait_,
                    s,
                    k + 1,
                ) by {
                lemma_required_step(*trait_, s, k as int);
                if s == name && condition {
                    if exists|i: int| 0 <= i < old_names.len() && #[trigger] old_names[i]@ == s {
                        let i = choose|i: int| 0 <= i < old_names.len() && #[trigger] old_names[i]@ == s;
                        assert(names@[i]@ == s);
                    } else {
                        assert(names@[old_names.len() as int]@ == s);
                    }
                }
                if exists|i: int| 0 <= i < names@.len() && #[trigger] names@[i]@ == s {
                    let i = choose|i: int| 0 <= i < names@.len() && #[trigger] names@[i]@ == s;
                    if i < old_names.len() {
                        assert(old_names[i]@ == s);
                    }
                }
                if exists|i: int| 0 <= i < old_names.len() && #[trigger] old_names[i]@ == s {
                    let i = choose|i: int| 0 <= i < old_names.len() && #[trigger] old_names[i]@ == s;
                    assert(names@[i]@ == s);
                }
            }
        }
        k = k + 1;
    }
    names
}

/// A trait whose methods use some associated type through `Self.`.
pub fn trait_requires_associated_bindings(trait_: &TraitDecl) -> (required: bool)
    ensures
        required == exists|s: Seq<char>| associated_type_required(*trait_, s),
{
    let names = trait_required_associated_type_names(trait_);
    proof {
        if names@.len() > 0 {
            assert(associated_type_required(*trait_, names@[0]@));
        }
    }
    names.len() > 0
}

} // verus!
