use vstd::prelude::*;

use crate::ast::{AssociatedTypeBinding, FunctionTypeParam, FunctionTypeRef, TypeRef};
use crate::span::Span;

verus! {

/// The replacement that `substitutions` give for a type parameter `name`:
/// the first entry under that name.
pub open spec fn lookup(substitutions: Seq<(String, TypeRef)>, name: Seq<char>) -> Option<TypeRef>
    decreases substitutions.len(),
{
    if substitutions.len() == 0 {
        None
    } else if substitutions[0].0@ == name {
        Some(substitutions[0].1)
    } else {
        lookup(substitutions.drop_first(), name)
    }
}

/// `after` is a copy of `before`, except that its own span is `span`.
pub open spec fn type_copied(before: TypeRef, after: TypeRef, span: Span) -> bool
    decreases before,
{
    &&& after.name == before.name
    &&& after.span == span
    &&& after.args@.len() == before.args@.len()
    &&& (forall|i: int|
        #![trigger before.args@[i]]
        0 <= i < before.args@.len() ==> type_copied(before.args@[i], after.args@[i], before.args@[i].span))
    &&& after.bindings@.len() == before.bindings@.len()
    &&& (forall|i: int|
        #![trigger before.bindings@[i]]
        0 <= i < before.bindings@.len() ==> {
            &&& after.bindings@[i].name == before.bindings@[i].name
            &&& after.bindings@[i].span == before.bindings@[i].span
            &&& type_copied(
                before.bindings@[i].type_ref,
                after.bindings@[i].type_ref,
                before.bindings@[i].type_ref.span,
            )
        })
    &&& match before.function {
        Some(f) => after.function matches Some(g) && {
            &&& g.params@.len() == f.params@.len()
            &&& (forall|i: int|
                #![trigger f.params@[i]]
                0 <= i < f.params@.len() ==> g.params@[i].mutable == f.params@[i].mutable && type_copied(
                    f.params@[i].type_ref,
                    g.params@[i].type_ref,
                    f.params@[i].type_ref.span,
                ))
            &&& type_copied(*f.return_type, *g.return_type, f.return_type.span)
        },
        None => after.function is None,
    }
}

/// `after` is `before` with every type parameter that `substitutions` name
/// replaced, where it stands without arguments, by a copy of its replacement
/// that keeps the span of the parameter it replaces.
pub open spec fn type_substituted(before: TypeRef, after: TypeRef, substitutions: Seq<(String, TypeRef)>) -> bool
    decreases before,
{
    if before.args@.len() == 0 && lookup(substitutions, before.name@) is Some {
        type_copied(lookup(substitutions, before.name@).unwrap(), after, before.span)
    } else {
        &&& after.name == before.name
        &&& after.span == before.span
        &&& after.args@.len() == before.args@.len()
        &&& (forall|i: int|
            #![trigger before.args@[i]]
            0 <= i < before.args@.len() ==> type_substituted(before.args@[i], after.args@[i], substitutions))
        &&& after.bindings@.len() == before.bindings@.len()
        &&& (forall|i: int|
            #![trigger before.bindings@[i]]
            0 <= i < before.bindings@.len() ==> {
                &&& after.bindings@[i].name == before.bindings@[i].name
                &&& after.bindings@[i].span == before.bindings@[i].span
                &&& type_substituted(before.bindings@[i].type_ref, after.bindings@[i].type_ref, substitutions)
            })
        &&& match before.function {
            Some(f) => after.function matches Some(g) && {
                &&& g.params@.len() == f.params@.len()
                &&& (forall|i: int|
                    #![trigger f.params@[i]]
                    0 <= i < f.params@.len() ==> g.params@[i].mutable == f.params@[i].mutable
                        && type_substituted(f.params@[i].type_ref, g.params@[i].type_ref, substitutions))
                &&& type_substituted(*f.return_type, *g.return_type, substitutions)
            },
            None => after.function is None,
        }
    }
}

/// A copy of `type_ref` whose own span is `span`.
#[verifier::loop_isolation(false)]
pub fn copy_type(type_ref: &TypeRef, span: Span) -> (copy: TypeRef)
    ensures
        type_copied(*type_ref, copy, span),
    decreases type_ref,
{
    let mut args: Vec<TypeRef> = Vec::new();
    let mut i: usize = 0;
    while i < type_ref.args.len()
        invariant
            i <= type_ref.args@.len(),
            args@.len() == i,
            forall|j: int|
                #![trigger type_ref.args@[j]]
                0 <= j < i ==> type_copied(type_ref.args@[j], args@[j], type_ref.args@[j].span),
        decreases type_ref.args.len() - i,
    {
        let arg = copy_type(&type_ref.args[i], type_ref.args[i].span);
        args.push(arg);
        i = i + 1;
    }
    let mut bindings: Vec<AssociatedTypeBinding> = Vec::new();
    let mut i: usize = 0;
    while i < type_ref.bindings.len()
        invariant
            i <= type_ref.bindings@.len(),
            bindings@.len() == i,
            forall|j: int|
                #![trigger type_ref.bindings@[j]]
                0 <= j < i ==> {
                    &&& bindings@[j].name == type_ref.bindings@[j].name
                    &&& bindings@[j].span == type_ref.bindings@[j].span
                    &&& type_copied(
                        type_ref.bindings@[j].type_ref,
                        bindings@[j].type_ref,
                        type_ref.bindings@[j].type_ref.span,
                    )
                },
        decreases type_ref.bindings.len() - i,
    {
        let binding = &type_ref.bindings[i];
        let copied = copy_type(&binding.type_ref, binding.type_ref.span);
        bindings.push(AssociatedTypeBinding { name: binding.name.clone(), type_ref: copied, span: binding.span });
        i = i + 1;
    }
    let function = match &type_ref.function {
        Some(function) => {
            let mut params: Vec<FunctionTypeParam> = Vec::new();
            let mut i: usize = 0;
            while i < function.params.len()
                invariant
                    i <= function.params@.len(),
                    params@.len() == i,
                    forall|j: int|
                        #![trigger function.params@[j]]
                        0 <= j < i ==> params@[j].mutable == function.params@[j].mutable && type_copied(
                            function.params@[j].type_ref,
                            params@[j].type_ref,
                            function.params@[j].type_ref.span,
                        ),
                decreases function.params.len() - i,
            {
                let param = &function.params[i];
                let copied = copy_type(&param.type_ref, param.type_ref.span);
                params.push(FunctionTypeParam { mutable: param.mutable, type_ref: copied });
                i = i + 1;
            }
            let return_type = copy_type(&function.return_type, function.return_type.span);
            Some(FunctionTypeRef { params, return_type: Box::new(return_type) })
        },
        None => None,
    };
    TypeRef { name: type_ref.name.clone(), args, bindings, function, span }
}

/// The replacement for `name`, if `substitutions` hold one.
fn lookup_substitution<'a>(substitutions: &'a Vec<(String, TypeRef)>, name: &String) -> (found: Option<&'a TypeRef>)
    ensures
        found is Some <==> lookup(substitutions@, name@) is Some,
        found matches Some(t) ==> *t == lookup(substitutions@, name@).unwrap(),
{
    assert(substitutions@.skip(0) =~= substitutions@);
    let mut i: usize = 0;
    while i < substitutions.len()
        invariant
            i <= substitutions@.len(),
            lookup(substitutions@, name@) == lookup(substitutions@.skip(i as int), name@),
        decreases substitutions.len() - i,
    {
        assert(substitutions@.skip(i as int).drop_first() =~= substitutions@.skip(i + 1));
        if substitutions[i].0.eq(name) {
            return Some(&substitutions[i].1);
        }
        i = i + 1;
    }
    None
}

/// Replaces the type parameters that `substitutions` name (see `type_substituted`).
#[verifier::loop_isolation(false)]
pub fn substitute_type(type_ref: &TypeRef, substitutions: &Vec<(String, TypeRef)>) -> (result: TypeRef)
    ensures
        type_substituted(*type_ref, result, substitutions@),
    decreases type_ref,
{
    proof {
        assert(substitutions@.skip(0) =~= substitutions@);
    }
    if type_ref.args.len() == 0 {
        if let Some(substitution) = lookup_substitution(substitutions, &type_ref.name) {
            return copy_type(substitution, type_ref.span);
        }
    }
    let mut args: Vec<TypeRef> = Vec::new();
    let mut i: usize = 0;
    while i < type_ref.args.len()
        invariant
            i <= type_ref.args@.len(),
            args@.len() == i,
            forall|j: int|
                #![trigger type_ref.args@[j]]
                0 <= j < i ==> type_substituted(type_ref.args@[j], args@[j], substitutions@),
        decreases type_ref.args.len() - i,
    {
        let arg = substitute_type(&type_ref.args[i], substitutions);
        args.push(arg);
        i = i + 1;
    }
    let mut bindings: Vec<AssociatedTypeBinding> = Vec::new();
    let mut i: usize = 0;
    while i < type_ref.bindings.len()
        invariant
            i <= type_ref.bindings@.len(),
            bindings@.len() == i,
            forall|j: int|
                #![trigger type_ref.bindings@[j]]
                0 <= j < i ==> {
                    &&& bindings@[j].name == type_ref.bindings@[j].name
                    &&& bindings@[j].span == type_ref.bindings@[j].span
                    &&& type_substituted(type_ref.bindings@[j].type_ref, bindings@[j].type_ref, substitutions@)
                },
        decreases type_ref.bindings.len() - i,
    {
        let binding = &type_ref.bindings[i];
        let substituted = substitute_type(&binding.type_ref, substitutions);
        bindings.push(AssociatedTypeBinding { name: binding.name.clone(), type_ref: substituted, span: binding.span });
        i = i + 1;
    }
    let function = match &type_ref.function {
        Some(function) => {
            let mut params: Vec<FunctionTypeParam> = Vec::new();
            let mut i: usize = 0;
            while i < function.params.len()
                invariant
                    i <= function.params@.len(),
                    params@.len() == i,
                    forall|j: int|
                        #![trigger function.params@[j]]
                        0 <= j < i ==> params@[j].mutable == function.params@[j].mutable && type_substituted(
                            function.params@[j].type_ref,
                            params@[j].type_ref,
                            substitutions@,
                        ),
                decreases function.params.len() - i,
            {
                let param = &function.params[i];
                let substituted = substitute_type(&param.type_ref, substitutions);
                params.push(FunctionTypeParam { mutable: param.mutable, type_ref: substituted });
                i = i + 1;
            }
            let return_type = substitute_type(&function.return_type, substitutions);
            Some(FunctionTypeRef { params, return_type: Box::new(return_type) })
        },
        None => None,
    };
    TypeRef { name: type_ref.name.clone(), args, bindings, function, span: type_ref.span }
}

} // verus!
