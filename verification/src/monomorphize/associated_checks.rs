use vstd::prelude::*;

use crate::ast::{AssociatedTypeDecl, AssociatedTypeDef, ImplDecl, Item, Program, TraitDecl, TraitMethodDecl};
use crate::diagnostic::{Diagnostic, Severity};
use crate::monomorphize::coherence::diagnostic_views;
use crate::monomorphize::templates::{concat3, concat4, error_at, owner_of, push_repeat_errors, repeat_errors};
use crate::monomorphize::types::{spec_type_name, type_ref_name};
use crate::span::Span;
use crate::text::{decimal, decimal_string, string_views};

verus! {

pub open spec fn decl_names(decls: Seq<AssociatedTypeDecl>) -> Seq<Seq<char>> {
    decls.map_values(|d: AssociatedTypeDecl| d.name@)
}

pub open spec fn def_names(defs: Seq<AssociatedTypeDef>) -> Seq<Seq<char>> {
    defs.map_values(|d: AssociatedTypeDef| d.name@)
}

/// `Trait.Name`.
pub open spec fn member_path(trait_name: Seq<char>, name: Seq<char>) -> Seq<char> {
    trait_name + "."@ + name
}

/// Repeated type parameters of an associated type declared in a trait.
pub open spec fn decl_param_errors(trait_name: Seq<char>, d: AssociatedTypeDecl) -> Seq<(Severity, Span, Seq<char>)> {
    repeat_errors(
        string_views(d.type_params@),
        None,
        "associated type `"@ + member_path(trait_name, d.name@) + "`"@,
        d.span,
        d.type_params@.len() as int,
    )
}

/// Repeated type parameters of an associated type defined in an impl.
pub open spec fn def_param_errors(trait_name: Seq<char>, d: AssociatedTypeDef) -> Seq<(Severity, Span, Seq<char>)> {
    repeat_errors(
        string_views(d.type_params@),
        None,
        "associated type definition `"@ + member_path(trait_name, d.name@) + "`"@,
        d.span,
        d.type_params@.len() as int,
    )
}

/// The errors of the first `n` associated types that a trait declares: a
/// name declared before, then repeated type parameters.
pub open spec fn trait_decl_errors(t: TraitDecl, n: int) -> Seq<(Severity, Span, Seq<char>)>
    decreases n,
{
    let decls = t.associated_types@;
    if n <= 0 || n > decls.len() {
        seq![]
    } else {
        let d = decls[n - 1];
        trait_decl_errors(t, n - 1) + (if decl_names(decls).take(n - 1).contains(d.name@) {
            seq![error_at(d.span, "duplicate associated type `"@ + d.name@ + "` in trait `"@ + t.name@ + "`"@)]
        } else {
            seq![]
        }) + decl_param_errors(t.name@, d)
    }
}

pub open spec fn static_provided_message() -> Seq<char> {
    "provided trait methods must be instance methods"@
}

/// An error for each of the first `n` methods that is static and has a body.
pub open spec fn provided_static_errors(methods: Seq<TraitMethodDecl>, n: int) -> Seq<(Severity, Span, Seq<char>)>
    decreases n,
{
    if n <= 0 || n > methods.len() {
        seq![]
    } else {
        provided_static_errors(methods, n - 1) + if methods[n - 1].static_ && methods[n - 1].body is Some {
            seq![error_at(methods[n - 1].span, static_provided_message())]
        } else {
            seq![]
        }
    }
}

/// The errors of a trait's own associated types and methods.
pub open spec fn trait_associated_errors(t: TraitDecl) -> Seq<(Severity, Span, Seq<char>)> {
    trait_decl_errors(t, t.associated_types@.len() as int) + provided_static_errors(
        t.methods@,
        t.methods@.len() as int,
    )
}

/// The first declaration named `name`.
pub open spec fn first_decl(decls: Seq<AssociatedTypeDecl>, name: Seq<char>) -> Option<AssociatedTypeDecl>
    decreases decls.len(),
{
    if decls.len() == 0 {
        None
    } else if decls[0].name@ == name {
        Some(decls[0])
    } else {
        first_decl(decls.drop_first(), name)
    }
}

/// The errors of the first `n` associated types that an impl defines for
/// trait `t`: a name defined before, or else one that the trait does not
/// declare; a count of type parameters other than the declaration's; then
/// repeated type parameters.
pub open spec fn impl_def_errors(t: TraitDecl, d: ImplDecl, n: int) -> Seq<(Severity, Span, Seq<char>)>
    decreases n,
{
    let defs = d.associated_types@;
    if n <= 0 || n > defs.len() {
        seq![]
    } else {
        let def = defs[n - 1];
        let path = member_path(t.name@, def.name@);
        let self_name = spec_type_name(d.type_ref);
        impl_def_errors(t, d, n - 1) + (if def_names(defs).take(n - 1).contains(def.name@) {
            seq![error_at(def.span, "duplicate definition of associated type `"@ + path + "` for `"@ + self_name + "`"@)]
        } else if !decl_names(t.associated_types@).contains(def.name@) {
            seq![
                error_at(
                    def.span,
                    "trait `"@ + t.name@ + "` does not declare associated type `"@ + def.name@ + "` for impl on `"@ + self_name
                        + "`"@,
                ),
            ]
        } else {
            seq![]
        }) + (match first_decl(t.associated_types@, def.name@) {
            Some(decl) => if decl.type_params@.len() != def.type_params@.len() {
                seq![
                    error_at(
                        def.span,
                        "associated type `"@ + path + "` expects "@ + decimal(decl.type_params@.len()) + " type arguments, got "@
                            + decimal(def.type_params@.len()),
                    ),
                ]
            } else {
                seq![]
            },
            None => seq![],
        }) + def_param_errors(t.name@, def)
    }
}

/// An error at the impl for each of the first `n` associated types of `t`
/// that the impl does not define and that has no default.
pub open spec fn missing_def_errors(t: TraitDecl, d: ImplDecl, n: int) -> Seq<(Severity, Span, Seq<char>)>
    decreases n,
{
    let decls = t.associated_types@;
    if n <= 0 || n > decls.len() {
        seq![]
    } else {
        missing_def_errors(t, d, n - 1) + if !def_names(d.associated_types@).contains(decls[n - 1].name@)
            && decls[n - 1].default is None {
            seq![
                error_at(
                    d.span,
                    "missing definition of associated type `"@ + member_path(t.name@, decls[n - 1].name@) + "` for impl on `"@
                        + spec_type_name(d.type_ref) + "`"@,
                ),
            ]
        } else {
            seq![]
        }
    }
}

/// The errors of an impl's associated type definitions against trait `t`.
pub open spec fn impl_associated_errors(t: TraitDecl, d: ImplDecl) -> Seq<(Severity, Span, Seq<char>)> {
    impl_def_errors(t, d, d.associated_types@.len() as int) + missing_def_errors(
        t,
        d,
        t.associated_types@.len() as int,
    )
}

/// The last trait named `name` among the first `n` items.
pub open spec fn trait_named(items: Seq<Item>, name: Seq<char>, n: int) -> Option<TraitDecl>
    decreases n,
{
    if n <= 0 || n > items.len() {
        None
    } else if items[n - 1] matches Item::Trait(t) && t.name@ == name {
        Some(items[n - 1]->Trait_0)
    } else {
        trait_named(items, name, n - 1)
    }
}

/// Whether the item at `i` is a trait that no later trait of its name replaces.
pub open spec fn last_trait_at(items: Seq<Item>, i: int) -> bool {
    &&& items[i] is Trait
    &&& forall|j: int| i < j < items.len() ==> !(#[trigger] items[j] matches Item::Trait(u) && u.name@ == items[i]->Trait_0.name@)
}

/// The trait errors for the first `n` items.
pub open spec fn trait_phase_errors(items: Seq<Item>, n: int) -> Seq<(Severity, Span, Seq<char>)>
    decreases n,
{
    if n <= 0 || n > items.len() {
        seq![]
    } else {
        trait_phase_errors(items, n - 1) + if last_trait_at(items, n - 1) {
            trait_associated_errors(items[n - 1]->Trait_0)
        } else {
            seq![]
        }
    }
}

/// The impl errors for the first `n` items: each impl against the trait of
/// its trait reference's name, where there is one.
pub open spec fn impl_phase_errors(items: Seq<Item>, n: int) -> Seq<(Severity, Span, Seq<char>)>
    decreases n,
{
    if n <= 0 || n > items.len() {
        seq![]
    } else {
        impl_phase_errors(items, n - 1) + match items[n - 1] {
            Item::Impl(d) => match trait_named(items, d.trait_ref.name@, items.len() as int) {
                Some(t) => impl_associated_errors(t, d),
                None => seq![],
            },
            _ => seq![],
        }
    }
}

fn name_listed_decl(decls: &Vec<AssociatedTypeDecl>, upto: usize, name: &String) -> (found: bool)
    requires
        upto <= decls@.len(),
    ensures
        found == decl_names(decls@).take(upto as int).contains(name@),
{
    let ghost views = decl_names(decls@).take(upto as int);
    let mut j: usize = 0;
    while j < upto
        invariant
            j <= upto,
            upto <= decls@.len(),
            views == decl_names(decls@).take(upto as int),
            forall|k: int| 0 <= k < j ==> #[trigger] views[k] != name@,
        decreases upto - j,
    {
        if decls[j].name.eq(name) {
            assert(views[j as int] == name@);
            return true;
        }
        j = j + 1;
    }
    false
}

fn name_listed_def(defs: &Vec<AssociatedTypeDef>, upto: usize, name: &String) -> (found: bool)
    requires
        upto <= defs@.len(),
    ensures
        found == def_names(defs@).take(upto as int).contains(name@),
{
    let ghost views = def_names(defs@).take(upto as int);
    let mut j: usize = 0;
    while j < upto
        invariant
            j <= upto,
            upto <= defs@.len(),
            views == def_names(defs@).take(upto as int),
            forall|k: int| 0 <= k < j ==> #[trigger] views[k] != name@,
        decreases upto - j,
    {
        if defs[j].name.eq(name) {
            assert(views[j as int] == name@);
            return true;
        }
        j = j + 1;
    }
    false
}

fn find_decl<'a>(decls: &'a Vec<AssociatedTypeDecl>, name: &String) -> (found: Option<&'a AssociatedTypeDecl>)
    ensures
        found is Some <==> first_decl(decls@, name@) is Some,
        found matches Some(d) ==> *d == first_decl(decls@, name@).unwrap(),
{
    assert(decls@.skip(0) =~= decls@);
    let mut i: usize = 0;
    while i < decls.len()
        invariant
            i <= decls@.len(),
            first_decl(decls@, name@) == first_decl(decls@.skip(i as int), name@),
        decreases decls.len() - i,
    {
        assert(decls@.skip(i as int).drop_first() =~= decls@.skip(i + 1));
        if decls[i].name.eq(name) {
            return Some(&decls[i]);
        }
        i = i + 1;
    }
    None
}

fn no_owner() -> (owner: Vec<String>)
    ensures
        owner@.len() == 0,
{
    Vec::new()
}

/// Reports the errors of a trait's own associated types and methods
/// (`trait_associated_errors`): a repeated associated type name, repeated
/// type parameters of each, and static methods with a body.
pub fn validate_trait_associated_types(t: &TraitDecl, diagnostics: &mut Vec<Diagnostic>)
    ensures
        diagnostic_views(final(diagnostics)@) == diagnostic_views(old(diagnostics)@) + trait_associated_errors(*t),
{
    let none = no_owner();
    let empty = String::new();
    let decls = &t.associated_types;
    let mut i: usize = 0;
    while i < decls.len()
        invariant
            i <= decls@.len(),
            decls@ == t.associated_types@,
            diagnostic_views(diagnostics@) == diagnostic_views(old(diagnostics)@) + trait_decl_errors(*t, i as int),
        decreases decls.len() - i,
    {
        let ghost before = diagnostics@;
        let d = &decls[i];
        assert(decl_names(decls@)[i as int] == d.name@);
        if name_listed_decl(decls, i, &d.name) {
            let mut message = concat4("duplicate associated type `", &d.name, "` in trait `", &t.name);
            message.append("`");
            assert(message@ =~= "duplicate associated type `"@ + d.name@ + "` in trait `"@ + t.name@ + "`"@);
            diagnostics.push(Diagnostic::error(d.span, message));
        }
        let ghost middle = diagnostics@;
        let mut subject = concat4("associated type `", &t.name, ".", &d.name);
        subject.append("`");
        assert(subject@ =~= "associated type `"@ + member_path(t.name@, d.name@) + "`"@);
        push_repeat_errors(diagnostics, &d.type_params, false, &none, &empty, &subject, d.span);
        proof {
            assert(repeat_errors(string_views(d.type_params@), owner_of(false, none@, empty), subject@, d.span, d.type_params@.len() as int)
                == decl_param_errors(t.name@, *d));
            assert(diagnostic_views(middle) =~= diagnostic_views(before) + (if decl_names(decls@).take(i as int).contains(d.name@) {
                seq![error_at(d.span, "duplicate associated type `"@ + d.name@ + "` in trait `"@ + t.name@ + "`"@)]
            } else {
                seq![]
            }));
        }
        i = i + 1;
    }
    let ghost after_decls = diagnostics@;
    let mut m: usize = 0;
    while m < t.methods.len()
        invariant
            m <= t.methods@.len(),
            diagnostic_views(diagnostics@) == diagnostic_views(after_decls) + provided_static_errors(t.methods@, m as int),
        decreases t.methods.len() - m,
    {
        let ghost before = diagnostics@;
        let method = &t.methods[m];
        if method.static_ && method.body.is_some() {
            diagnostics.push(Diagnostic::error(method.span, String::from_str("provided trait methods must be instance methods")));
        }
        proof {
            assert(diagnostic_views(diagnostics@) =~= diagnostic_views(before) + (if method.static_ && method.body is Some {
                seq![error_at(method.span, static_provided_message())]
            } else {
                seq![]
            }));
        }
        m = m + 1;
    }
}

/// Reports the errors of an impl's associated type definitions against its
/// trait `t` (`impl_associated_errors`): per definition, a name defined
/// before or one the trait does not declare, a type parameter count other
/// than the declaration's, repeated type parameters; then, at the impl, each
/// declared associated type without a definition or a default.
pub fn validate_impl_associated_types(t: &TraitDecl, d: &ImplDecl, diagnostics: &mut Vec<Diagnostic>)
    ensures
        diagnostic_views(final(diagnostics)@) == diagnostic_views(old(diagnostics)@) + impl_associated_errors(*t, *d),
{
    let none = no_owner();
    let empty = String::new();
    let self_name = type_ref_name(&d.type_ref);
    let defs = &d.associated_types;
    let decls = &t.associated_types;
    let mut i: usize = 0;
    while i < defs.len()
        invariant
            i <= defs@.len(),
            defs@ == d.associated_types@,
            decls@ == t.associated_types@,
            self_name@ == spec_type_name(d.type_ref),
            diagnostic_views(diagnostics@) == diagnostic_views(old(diagnostics)@) + impl_def_errors(*t, *d, i as int),
        decreases defs.len() - i,
    {
        let ghost before = diagnostics@;
        let def = &defs[i];
        assert(def_names(defs@)[i as int] == def.name@);
        let mut path = t.name.clone();
        path.append(".");
        path.append(def.name.as_str());
        assert(path@ =~= member_path(t.name@, def.name@));
        if name_listed_def(defs, i, &def.name) {
            let mut message = concat4("duplicate definition of associated type `", &path, "` for `", &self_name);
            message.append("`");
            assert(message@ =~= "duplicate definition of associated type `"@ + member_path(t.name@, def.name@) + "` for `"@
                + spec_type_name(d.type_ref) + "`"@);
            diagnostics.push(Diagnostic::error(def.span, message));
        } else if !name_listed_decl(decls, decls.len(), &def.name) {
            let mut message = concat4("trait `", &t.name, "` does not declare associated type `", &def.name);
            message.append("` for impl on `");
            message.append(self_name.as_str());
            message.append("`");
            assert(message@ =~= "trait `"@ + t.name@ + "` does not declare associated type `"@ + def.name@ + "` for impl on `"@
                + spec_type_name(d.type_ref) + "`"@);
            diagnostics.push(Diagnostic::error(def.span, message));
        }
        let ghost first = diagnostics@;
        proof {
            assert(decl_names(decls@).take(decls@.len() as int) =~= decl_names(decls@));
            assert(diagnostic_views(first) =~= diagnostic_views(before) + (if def_names(defs@).take(i as int).contains(def.name@) {
                seq![error_at(def.span, "duplicate definition of associated type `"@ + member_path(t.name@, def.name@) + "` for `"@ + spec_type_name(d.type_ref) + "`"@)]
            } else if !decl_names(t.associated_types@).contains(def.name@) {
                seq![
                    error_at(
                        def.span,
                        "trait `"@ + t.name@ + "` does not declare associated type `"@ + def.name@ + "` for impl on `"@ + spec_type_name(d.type_ref)
                            + "`"@,
                    ),
                ]
            } else {
                seq![]
            }));
        }
        match find_decl(decls, &def.name) {
            Some(decl) => if decl.type_params.len() != def.type_params.len() {
                let expected = decimal_string(decl.type_params.len() as u64);
                let got = decimal_string(def.type_params.len() as u64);
                let mut message = concat4("associated type `", &path, "` expects ", &expected);
                message.append(" type arguments, got ");
                message.append(got.as_str());
                assert(message@ =~= "associated type `"@ + member_path(t.name@, def.name@) + "` expects "@ + decimal(
                    decl.type_params@.len(),
                ) + " type arguments, got "@ + decimal(def.type_params@.len()));
                diagnostics.push(Diagnostic::error(def.span, message));
            },
            None => {},
        }
        let ghost second = diagnostics@;
        proof {
            assert(diagnostic_views(second) =~= diagnostic_views(first) + match first_decl(t.associated_types@, def.name@) {
                Some(decl) => if decl.type_params@.len() != def.type_params@.len() {
                    seq![
                        error_at(
                            def.span,
                            "associated type `"@ + member_path(t.name@, def.name@) + "` expects "@ + decimal(decl.type_params@.len()) + " type arguments, got "@
                                + decimal(def.type_params@.len()),
                        ),
                    ]
                } else {
                    seq![]
                },
                None => seq![],
            });
        }
        let subject = concat3("associated type definition `", &path, "`");
        assert(subject@ =~= "associated type definition `"@ + member_path(t.name@, def.name@) + "`"@);
        push_repeat_errors(diagnostics, &def.type_params, false, &none, &empty, &subject, def.span);
        proof {
            assert(decl_names(decls@).take(decls@.len() as int) =~= decl_names(decls@));
            assert(repeat_errors(string_views(def.type_params@), owner_of(false, none@, empty), subject@, def.span, def.type_params@.len() as int)
                == def_param_errors(t.name@, *def));
            assert(diagnostic_views(diagnostics@) =~= diagnostic_views(old(diagnostics)@) + impl_def_errors(*t, *d, i + 1));
        }
        i = i + 1;
    }
    let ghost after_defs = diagnostics@;
    let mut k: usize = 0;
    while k < decls.len()
        invariant
            k <= decls@.len(),
            defs@ == d.associated_types@,
            decls@ == t.associated_types@,
            self_name@ == spec_type_name(d.type_ref),
            diagnostic_views(diagnostics@) == diagnostic_views(after_defs) + missing_def_errors(*t, *d, k as int),
        decreases decls.len() - k,
    {
        let ghost before = diagnostics@;
        let decl = &decls[k];
        proof {
            assert(def_names(defs@).take(defs@.len() as int) =~= def_names(defs@));
        }
        if !name_listed_def(defs, defs.len(), &decl.name) && decl.default.is_none() {
            let mut message = concat4("missing definition of associated type `", &t.name, ".", &decl.name);
            message.append("` for impl on `");
            message.append(self_name.as_str());
            message.append("`");
            assert(message@ =~= "missing definition of associated type `"@ + member_path(t.name@, decl.name@) + "` for impl on `"@
                + spec_type_name(d.type_ref) + "`"@);
            diagnostics.push(Diagnostic::error(d.span, message));
        }
        proof {
            assert(def_names(defs@).take(defs@.len() as int) =~= def_names(defs@));
            assert(diagnostic_views(diagnostics@) =~= diagnostic_views(before) + if !def_names(d.associated_types@).contains(decl.name@)
                && decl.default is None {
                seq![
                    error_at(
                        d.span,
                        "missing definition of associated type `"@ + member_path(t.name@, decl.name@) + "` for impl on `"@
                            + spec_type_name(d.type_ref) + "`"@,
                    ),
                ]
            } else {
                seq![]
            });
            assert(diagnostic_views(diagnostics@) =~= diagnostic_views(after_defs) + missing_def_errors(*t, *d, k + 1));
        }
        k = k + 1;
    }
}

fn is_last_trait(items: &Vec<Item>, i: usize) -> (last: bool)
    requires
        i < items@.len(),
    ensures
        last == last_trait_at(items@, i as int),
{
    let name = match &items[i] {
        Item::Trait(t) => &t.name,
        _ => return false,
    };
    let len = items.len();
    let mut j: usize = i + 1;
    while j < len
        invariant
            i < j <= len,
            len == items@.len(),
            items@[i as int] is Trait,
            items@[i as int]->Trait_0.name@ == name@,
            forall|k: int| i < k < j ==> !(#[trigger] items@[k] matches Item::Trait(u) && u.name@ == name@),
        decreases len - j,
    {
        match &items[j] {
            Item::Trait(u) => if u.name.eq(name) {
                return false;
            },
            _ => {},
        }
        j = j + 1;
    }
    true
}

pub(crate) fn find_trait<'a>(items: &'a Vec<Item>, name: &String) -> (found: Option<&'a TraitDecl>)
    ensures
        found is Some <==> trait_named(items@, name@, items@.len() as int) is Some,
        found matches Some(t) ==> *t == trait_named(items@, name@, items@.len() as int).unwrap(),
{
    let mut n: usize = items.len();
    while n > 0
        invariant
            n <= items@.len(),
            trait_named(items@, name@, items@.len() as int) == trait_named(items@, name@, n as int),
        decreases n,
    {
        match &items[n - 1] {
            Item::Trait(t) => if t.name.eq(name) {
                return Some(t);
            },
            _ => {},
        }
        n = n - 1;
    }
    None
}

/// Checks the associated types of the program's traits and impls and
/// reports, first, `trait_associated_errors` for each trait that no later
/// trait of the same name replaces, in program order, then
/// `impl_associated_errors` for each impl against the last trait named by
/// its trait reference, where there is one.
pub fn validate_associated_type_declarations(program: &Program, diagnostics: &mut Vec<Diagnostic>)
    ensures
        diagnostic_views(final(diagnostics)@) == diagnostic_views(old(diagnostics)@) + trait_phase_errors(
            program.items@,
            program.items@.len() as int,
        ) + impl_phase_errors(program.items@, program.items@.len() as int),
{
    let items = &program.items;
    let mut i: usize = 0;
    while i < items.len()
        invariant
            i <= items@.len(),
            diagnostic_views(diagnostics@) == diagnostic_views(old(diagnostics)@) + trait_phase_errors(items@, i as int),
        decreases items.len() - i,
    {
        let ghost before = diagnostics@;
        if is_last_trait(items, i) {
            match &items[i] {
                Item::Trait(t) => validate_trait_associated_types(t, diagnostics),
                _ => {},
            }
        }
        proof {
            assert(diagnostic_views(diagnostics@) =~= diagnostic_views(old(diagnostics)@) + trait_phase_errors(items@, i + 1));
        }
        i = i + 1;
    }
    let ghost after_traits = diagnostics@;
    let mut i: usize = 0;
    while i < items.len()
        invariant
            i <= items@.len(),
            diagnostic_views(diagnostics@) == diagnostic_views(after_traits) + impl_phase_errors(items@, i as int),
        decreases items.len() - i,
    {
        let ghost before = diagnostics@;
        match &items[i] {
            Item::Impl(d) => match find_trait(items, &d.trait_ref.name) {
                Some(t) => validate_impl_associated_types(t, d, diagnostics),
                None => {},
            },
            _ => {},
        }
        proof {
            assert(diagnostic_views(diagnostics@) =~= diagnostic_views(after_traits) + impl_phase_errors(items@, i + 1));
        }
        i = i + 1;
    }
}

} // verus!
