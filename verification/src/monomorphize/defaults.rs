use vstd::prelude::*;

use crate::ast::{
    AssociatedTypeBinding, AssociatedTypeDecl, ExtensionDecl, FunctionDecl, Item, Param, Program, TraitDecl,
    TraitMethodDecl, TypeParamBound, TypeRef,
};
use crate::ast_copy::{copy_body, copy_bounds, copy_strings, same_body, same_bounds};
use crate::monomorphize::substitute::{lookup, substitute_type, type_substituted};
use crate::project::linker::insert_pair;
use crate::project::rewrite::lookup_pair;
use crate::project::rewrite_code::names_of;
use crate::span::Span;

verus! {

/// A type without arguments, bindings or function part, named `name`, at `span`.
pub open spec fn plain_type(type_ref: TypeRef, name: Seq<char>, span: Span) -> bool {
    &&& type_ref.name@ == name
    &&& type_ref.args@.len() == 0
    &&& type_ref.bindings@.len() == 0
    &&& type_ref.function is None
    &&& type_ref.span == span
}

/// The type parameter that associated type `associated` of `trait_` becomes in
/// an extension made from a default method: the two names run together.
pub open spec fn associated_param(trait_: TraitDecl, associated: AssociatedTypeDecl) -> Seq<char> {
    trait_.name@ + associated.name@
}

pub open spec fn associated_params(trait_: TraitDecl, associated: Seq<AssociatedTypeDecl>) -> Seq<Seq<char>>
    decreases associated.len(),
{
    if associated.len() == 0 {
        seq![]
    } else {
        associated_params(trait_, associated.drop_last()).push(associated_param(trait_, associated.last()))
    }
}

/// What `Self.X` stands for in such an extension: the type parameter of the
/// last associated type named `X`, at that associated type.
pub open spec fn self_projection(trait_: TraitDecl, associated: Seq<AssociatedTypeDecl>, key: Seq<char>) -> Option<
    (Seq<char>, Span),
>
    decreases associated.len(),
{
    if associated.len() == 0 {
        None
    } else if "Self."@ + associated.last().name@ == key {
        Some((associated_param(trait_, associated.last()), associated.last().span))
    } else {
        self_projection(trait_, associated.drop_last(), key)
    }
}

/// `substitutions` replace exactly the projections `Self.X` (see `self_projection`).
pub open spec fn projection_substitutions(trait_: TraitDecl, substitutions: Seq<(String, TypeRef)>) -> bool {
    forall|key: Seq<char>|
        #![trigger lookup(substitutions, key)]
        match self_projection(trait_, trait_.associated_types@, key) {
            Some((name, span)) => lookup(substitutions, key) matches Some(t) && plain_type(t, name, span),
            None => lookup(substitutions, key) is None,
        }
}

/// The function of the extension made from default method `method`: the
/// method's name, type parameters, bounds, parameters, return type and body,
/// with each projection `Self.X` in the types replaced (see `substitutions`).
pub open spec fn default_function(method: TraitMethodDecl, function: FunctionDecl, substitutions: Seq<(String, TypeRef)>) -> bool {
    &&& function.name matches Some(n) && n == method.name
    &&& !function.exported
    &&& function.type_params@ == method.type_params@
    &&& function.span == method.span
    &&& function.type_param_bounds@.len() == method.type_param_bounds@.len()
    &&& forall|i: int|
        #![trigger method.type_param_bounds@[i]]
        0 <= i < method.type_param_bounds@.len() ==> {
            let before = method.type_param_bounds@[i];
            let after = function.type_param_bounds@[i];
            after.param == before.param && after.span == before.span && type_substituted(
                before.trait_ref,
                after.trait_ref,
                substitutions,
            )
        }
    &&& function.params@.len() == method.params@.len()
    &&& forall|i: int|
        #![trigger method.params@[i]]
        0 <= i < method.params@.len() ==> {
            let before = method.params@[i];
            let after = function.params@[i];
            &&& after.name == before.name
            &&& after.mutable == before.mutable
            &&& after.span == before.span
            &&& match before.type_ref {
                Some(t) => after.type_ref matches Some(u) && type_substituted(t, u, substitutions),
                None => after.type_ref is None,
            }
        }
    &&& match method.return_type {
        Some(t) => function.return_type matches Some(u) && type_substituted(t, u, substitutions),
        None => function.return_type is None,
    }
    &&& method.body matches Some(body) && same_body(body, function.body)
}

/// The extension made from default method `method` of `trait_`: a method of
/// the trait itself, generic over the trait's type parameters and one type
/// parameter per associated type.
pub open spec fn default_extension(trait_: TraitDecl, method: TraitMethodDecl, extension: ExtensionDecl) -> bool {
    let associated = trait_.associated_types@;
    &&& !extension.exported
    &&& !extension.static_
    &&& extension.span == method.span
    &&& names_of(extension.type_params@) == names_of(trait_.type_params@) + associated_params(trait_, associated)
    &&& same_bounds(trait_.type_param_bounds@, extension.type_param_bounds@)
    &&& extension.type_ref.name == trait_.name
    &&& extension.type_ref.span == trait_.span
    &&& extension.type_ref.function is None
    &&& extension.type_ref.args@.len() == trait_.type_params@.len()
    &&& forall|i: int|
        #![trigger extension.type_ref.args@[i]]
        0 <= i < trait_.type_params@.len() ==> plain_type(
            extension.type_ref.args@[i],
            trait_.type_params@[i]@,
            trait_.span,
        )
    &&& extension.type_ref.bindings@.len() == associated.len()
    &&& forall|i: int|
        #![trigger extension.type_ref.bindings@[i]]
        0 <= i < associated.len() ==> {
            let binding = extension.type_ref.bindings@[i];
            &&& binding.name == associated[i].name
            &&& binding.span == associated[i].span
            &&& plain_type(binding.type_ref, associated_param(trait_, associated[i]), associated[i].span)
        }
    &&& exists|substitutions: Seq<(String, TypeRef)>|
        #[trigger] projection_substitutions(trait_, substitutions) && default_function(
            method,
            extension.function,
            substitutions,
        )
}

proof fn lemma_lookup_same(map: Seq<(String, TypeRef)>, key: Seq<char>)
    ensures
        lookup(map, key) == lookup_pair(map, key),
    decreases map.len(),
{
    if map.len() > 0 {
        lemma_lookup_same(map.drop_first(), key);
    }
}

fn plain(name: String, span: Span) -> (type_ref: TypeRef)
    ensures
        plain_type(type_ref, name@, span),
{
    TypeRef { name, args: Vec::new(), bindings: Vec::new(), function: None, span }
}

/// The extension that a default (non-static) method of a trait gives, with
/// each `Self.X` in its types replaced by a type parameter (see
/// `default_extension`); none for a static method or one without a body.
pub fn trait_default_extension(trait_: &TraitDecl, method: &TraitMethodDecl) -> (extension: Option<ExtensionDecl>)
    ensures
        extension is Some <==> !method.static_ && method.body is Some,
        extension matches Some(e) ==> default_extension(*trait_, *method, e),
{
    if method.static_ {
        return None;
    }
    let body = match &method.body {
        Some(body) => copy_body(body),
        None => return None,
    };
    let associated = &trait_.associated_types;
    let mut type_params = copy_strings(&trait_.type_params);
    let mut substitutions: Vec<(String, TypeRef)> = Vec::new();
    let mut bindings: Vec<AssociatedTypeBinding> = Vec::new();
    assert(names_of(type_params@) == names_of(trait_.type_params@) + associated_params(*trait_, associated@.take(0))) by {
        assert(associated@.take(0) =~= Seq::<AssociatedTypeDecl>::empty());
        assert(names_of(trait_.type_params@) + seq![] =~= names_of(trait_.type_params@));
    }
    let mut i: usize = 0;
    while i < associated.len()
        invariant
            i <= associated@.len(),
            *associated == trait_.associated_types,
            names_of(type_params@) == names_of(trait_.type_params@) + associated_params(*trait_, associated@.take(i as int)),
            bindings@.len() == i,
            forall|j: int|
                #![trigger bindings@[j]]
                0 <= j < i ==> {
                    let binding = bindings@[j];
                    &&& binding.name == associated@[j].name
                    &&& binding.span == associated@[j].span
                    &&& plain_type(binding.type_ref, associated_param(*trait_, associated@[j]), associated@[j].span)
                },
            forall|key: Seq<char>|
                #![trigger lookup_pair(substitutions@, key)]
                match self_projection(*trait_, associated@.take(i as int), key) {
                    Some((name, span)) => lookup_pair(substitutions@, key) matches Some(t) && plain_type(t, name, span),
                    None => lookup_pair(substitutions@, key) is None,
                },
        decreases associated.len() - i,
    {
        let a = &associated[i];
        let mut name = trait_.name.clone();
        name.append(a.name.as_str());
        let ghost before_params = type_params@;
        type_params.push(name.clone());
        let mut key = String::from_str("Self.");
        key.append(a.name.as_str());
        let ghost before_subs = substitutions@;
        insert_pair(&mut substitutions, key.as_str(), plain(name.clone(), a.span));
        bindings.push(AssociatedTypeBinding { name: a.name.clone(), type_ref: plain(name, a.span), span: a.span });
        proof {
            reveal_strlit("Self.");
            let prefix = associated@.take(i as int);
            let next = associated@.take(i + 1);
            assert(next.drop_last() =~= prefix);
            assert(next.last() == associated@[i as int]);
            assert(names_of(type_params@) =~= names_of(before_params).push(name@));
            assert(names_of(type_params@) =~= names_of(trait_.type_params@) + associated_params(*trait_, next));
        }
        i = i + 1;
    }
    proof {
        assert(associated@.take(associated@.len() as int) =~= associated@);
        assert forall|key: Seq<char>| #[trigger] lookup(substitutions@, key) == lookup_pair(substitutions@, key) by {
            lemma_lookup_same(substitutions@, key);
        }
        assert(projection_substitutions(*trait_, substitutions@));
    }
    let mut bounds: Vec<TypeParamBound> = Vec::new();
    let mut i: usize = 0;
    while i < method.type_param_bounds.len()
        invariant
            i <= method.type_param_bounds@.len(),
            bounds@.len() == i,
            forall|j: int|
                #![trigger method.type_param_bounds@[j]]
                0 <= j < i ==> {
                    let before = method.type_param_bounds@[j];
                    let after = bounds@[j];
                    after.param == before.param && after.span == before.span && type_substituted(
                        before.trait_ref,
                        after.trait_ref,
                        substitutions@,
                    )
                },
        decreases method.type_param_bounds.len() - i,
    {
        let bound = &method.type_param_bounds[i];
        bounds.push(
            TypeParamBound {
                param: bound.param.clone(),
                trait_ref: substitute_type(&bound.trait_ref, &substitutions),
                span: bound.span,
            },
        );
        i = i + 1;
    }
    let mut params: Vec<Param> = Vec::new();
    let mut i: usize = 0;
    while i < method.params.len()
        invariant
            i <= method.params@.len(),
            params@.len() == i,
            forall|j: int|
                #![trigger method.params@[j]]
                0 <= j < i ==> {
                    let before = method.params@[j];
                    let after = params@[j];
                    &&& after.name == before.name
                    &&& after.mutable == before.mutable
                    &&& after.span == before.span
                    &&& match before.type_ref {
                        Some(t) => after.type_ref matches Some(u) && type_substituted(t, u, substitutions@),
                        None => after.type_ref is None,
                    }
                },
        decreases method.params.len() - i,
    {
        let param = &method.params[i];
        let type_ref = match &param.type_ref {
            Some(t) => Some(substitute_type(t, &substitutions)),
            None => None,
        };
        params.push(Param { name: param.name.clone(), mutable: param.mutable, type_ref, span: param.span });
        i = i + 1;
    }
    let return_type = match &method.return_type {
        Some(t) => Some(substitute_type(t, &substitutions)),
        None => None,
    };
    let function = FunctionDecl {
        name: Some(method.name.clone()),
        exported: false,
        type_params: copy_strings(&method.type_params),
        type_param_bounds: bounds,
        params,
        return_type,
        body,
        span: method.span,
    };
    let mut args: Vec<TypeRef> = Vec::new();
    let mut i: usize = 0;
    while i < trait_.type_params.len()
        invariant
            i <= trait_.type_params@.len(),
            args@.len() == i,
            forall|j: int| #![trigger args@[j]] 0 <= j < i ==> plain_type(args@[j], trait_.type_params@[j]@, trait_.span),
        decreases trait_.type_params.len() - i,
    {
        args.push(plain(trait_.type_params[i].clone(), trait_.span));
        i = i + 1;
    }
    let extension = ExtensionDecl {
        type_ref: TypeRef { name: trait_.name.clone(), args, bindings, function: None, span: trait_.span },
        exported: false,
        type_params,
        type_param_bounds: copy_bounds(&trait_.type_param_bounds),
        function,
        static_: false,
        span: method.span,
    };
    assert(default_function(*method, extension.function, substitutions@));
    Some(extension)
}

/// The default methods of the traits among `items`, trait by trait and
/// method by method, as the traits declare them.
pub open spec fn default_sources(items: Seq<Item>) -> Seq<(TraitDecl, TraitMethodDecl)>
    decreases items.len(),
{
    if items.len() == 0 {
        seq![]
    } else {
        let earlier = default_sources(items.drop_last());
        match items.last() {
            Item::Trait(t) => earlier + trait_default_methods(t, t.methods@),
            _ => earlier,
        }
    }
}

pub open spec fn trait_default_methods(trait_: TraitDecl, methods: Seq<TraitMethodDecl>) -> Seq<(TraitDecl, TraitMethodDecl)>
    decreases methods.len(),
{
    if methods.len() == 0 {
        seq![]
    } else {
        let earlier = trait_default_methods(trait_, methods.drop_last());
        let m = methods.last();
        if !m.static_ && m.body is Some {
            earlier.push((trait_, m))
        } else {
            earlier
        }
    }
}

/// The extensions that the default methods of every trait give, in order
/// (see `trait_default_extension`).
pub fn trait_default_extensions(program: &Program) -> (extensions: Vec<ExtensionDecl>)
    ensures
        extensions@.len() == default_sources(program.items@).len(),
        forall|k: int|
            0 <= k < extensions@.len() ==> default_extension(
                (#[trigger] default_sources(program.items@)[k]).0,
                default_sources(program.items@)[k].1,
                extensions@[k],
            ),
{
    let mut extensions: Vec<ExtensionDecl> = Vec::new();
    let mut i: usize = 0;
    while i < program.items.len()
        invariant
            i <= program.items@.len(),
            extensions@.len() == default_sources(program.items@.take(i as int)).len(),
            forall|k: int|
                0 <= k < extensions@.len() ==> default_extension(
                    (#[trigger] default_sources(program.items@.take(i as int))[k]).0,
                    default_sources(program.items@.take(i as int))[k].1,
                    extensions@[k],
                ),
        decreases program.items.len() - i,
    {
        let ghost before = default_sources(program.items@.take(i as int));
        assert(program.items@.take(i + 1).drop_last() =~= program.items@.take(i as int));
        assert(program.items@.take(i + 1).last() == program.items@[i as int]);
        if let Item::Trait(trait_) = &program.items[i] {
            let mut m: usize = 0;
            while m < trait_.methods.len()
                invariant
                    m <= trait_.methods@.len(),
                    before == default_sources(program.items@.take(i as int)),
                    extensions@.len() == before.len() + trait_default_methods(*trait_, trait_.methods@.take(m as int)).len(),
                    forall|k: int|
                        0 <= k < extensions@.len() ==> default_extension(
                            (#[trigger] (before + trait_default_methods(*trait_, trait_.methods@.take(m as int)))[k]).0,
                            (before + trait_default_methods(*trait_, trait_.methods@.take(m as int)))[k].1,
                            extensions@[k],
                        ),
                decreases trait_.methods.len() - m,
            {
                let ghost sources = before + trait_default_methods(*trait_, trait_.methods@.take(m as int));
                assert(trait_.methods@.take(m + 1).drop_last() =~= trait_.methods@.take(m as int));
                assert(trait_.methods@.take(m + 1).last() == trait_.methods@[m as int]);
                let ghost old_len = extensions@.len();
                if let Some(extension) = trait_default_extension(trait_, &trait_.methods[m]) {
                    extensions.push(extension);
                    proof {
                        let next = before + trait_default_methods(*trait_, trait_.methods@.take(m + 1));
                        assert(next =~= sources.push((*trait_, trait_.methods@[m as int])));
                        assert forall|k: int| 0 <= k < extensions@.len() implies default_extension(
                            (#[trigger] next[k]).0,
                            next[k].1,
                            extensions@[k],
                        ) by {
                            if k < old_len {
                                assert(next[k] == sources[k]);
                            }
                        }
                    }
                } else {
                    proof {
                        let next = before + trait_default_methods(*trait_, trait_.methods@.take(m + 1));
                        assert(next =~= sources);
                    }
                }
                m = m + 1;
            }
            proof {
                assert(trait_.methods@.take(trait_.methods@.len() as int) =~= trait_.methods@);
            }
        } else {
            assert(default_sources(program.items@.take(i + 1)) == before);
        }
        i = i + 1;
    }
    assert(program.items@.take(program.items@.len() as int) =~= program.items@);
    extensions
}

} // verus!
