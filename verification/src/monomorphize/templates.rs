use vstd::prelude::*;

use crate::ast::{FunctionDecl, ImplDecl, Item, Param, Program, StructMember, TraitDecl, TraitMethodDecl, TypeRef};
use crate::diagnostic::{Diagnostic, Severity};
use crate::monomorphize::coherence::diagnostic_views;
use crate::monomorphize::types::{extend_names, spec_type_name, spec_type_names, str_views, type_names, type_ref_name};
use crate::project::rewrite::{find_pair, lookup_pair};
use crate::span::Span;
use crate::text::{string_is, string_views};

verus! {

/// An error at `span` with `message`, by its parts.
pub open spec fn error_at(span: Span, message: Seq<char>) -> (Severity, Span, Seq<char>) {
    (Severity::Error, span, message)
}

pub open spec fn duplicate_param_message(name: Seq<char>, subject: Seq<char>) -> Seq<char> {
    "duplicate type parameter `"@ + name + "` in "@ + subject
}

pub open spec fn conflicting_param_message(name: Seq<char>, subject: Seq<char>, owner: Seq<char>) -> Seq<char> {
    "type parameter `"@ + name + "` in "@ + subject + " conflicts with "@ + owner
}

pub open spec fn unused_param_message(name: Seq<char>, subject: Seq<char>) -> Seq<char> {
    "unused type parameter `"@ + name + "` in "@ + subject
}

/// The errors of a pass over the first `n` type parameters of `subject`:
/// one for each parameter that repeats an earlier one, and, where an owner
/// (its parameters and its description) is given, one for each parameter
/// that the owner declares as well.
pub open spec fn repeat_errors(
    params: Seq<Seq<char>>,
    owner: Option<(Seq<Seq<char>>, Seq<char>)>,
    subject: Seq<char>,
    span: Span,
    n: int,
) -> Seq<(Severity, Span, Seq<char>)>
    decreases n,
{
    if n <= 0 || n > params.len() {
        seq![]
    } else {
        let p = params[n - 1];
        repeat_errors(params, owner, subject, span, n - 1) + (if params.take(n - 1).contains(p) {
            seq![error_at(span, duplicate_param_message(p, subject))]
        } else {
            seq![]
        }) + match owner {
            Some((owner_params, description)) => if owner_params.contains(p) {
                seq![error_at(span, conflicting_param_message(p, subject, description))]
            } else {
                seq![]
            },
            None => seq![],
        }
    }
}

/// The errors for the type parameters among the first `n` that no name in
/// `used` mentions.
pub open spec fn unused_errors(
    params: Seq<Seq<char>>,
    used: Seq<Seq<char>>,
    subject: Seq<char>,
    span: Span,
    n: int,
) -> Seq<(Severity, Span, Seq<char>)>
    decreases n,
{
    if n <= 0 || n > params.len() {
        seq![]
    } else {
        unused_errors(params, used, subject, span, n - 1) + (if used.contains(params[n - 1]) {
            seq![]
        } else {
            seq![error_at(span, unused_param_message(params[n - 1], subject))]
        })
    }
}

/// Whether `name` is among the first `upto` of `names`.
fn listed_in(names: &Vec<String>, upto: usize, name: &String) -> (found: bool)
    requires
        upto <= names@.len(),
    ensures
        found == string_views(names@).take(upto as int).contains(name@),
{
    let ghost views = string_views(names@).take(upto as int);
    let mut j: usize = 0;
    while j < upto
        invariant
            j <= upto,
            upto <= names@.len(),
            views == string_views(names@).take(upto as int),
            forall|k: int| 0 <= k < j ==> #[trigger] views[k] != name@,
        decreases upto - j,
    {
        if names[j].eq(name) {
            assert(views[j as int] == name@);
            return true;
        }
        j = j + 1;
    }
    false
}

/// Whether `name` is one of `names`.
fn listed_str(names: &Vec<&str>, name: &String) -> (found: bool)
    ensures
        found == str_views(names@).contains(name@),
{
    let ghost views = str_views(names@);
    let mut j: usize = 0;
    while j < names.len()
        invariant
            j <= names@.len(),
            views == str_views(names@),
            forall|k: int| 0 <= k < j ==> #[trigger] views[k] != name@,
        decreases names.len() - j,
    {
        if string_is(name, names[j]) {
            assert(views[j as int] == name@);
            return true;
        }
        j = j + 1;
    }
    false
}

pub(crate) fn concat3(a: &str, b: &String, c: &str) -> (text: String)
    ensures
        text@ == a@ + b@ + c@,
{
    let mut text = String::from_str(a);
    text.append(b.as_str());
    text.append(c);
    text
}

pub(crate) fn concat4(a: &str, b: &String, c: &str, d: &String) -> (text: String)
    ensures
        text@ == a@ + b@ + c@ + d@,
{
    let mut text = concat3(a, b, c);
    text.append(d.as_str());
    text
}

/// The owner of a method's type parameters, as `repeat_errors` takes it.
pub open spec fn owner_of(check: bool, owner_params: Seq<String>, description: String) -> Option<(Seq<Seq<char>>, Seq<char>)> {
    if check {
        Some((string_views(owner_params), description@))
    } else {
        None
    }
}

/// Reports `repeat_errors` for all of `params` (see there).
pub(crate) fn push_repeat_errors(
    diagnostics: &mut Vec<Diagnostic>,
    params: &Vec<String>,
    check_owner: bool,
    owner_params: &Vec<String>,
    description: &String,
    subject: &String,
    span: Span,
)
    ensures
        diagnostic_views(final(diagnostics)@) == diagnostic_views(old(diagnostics)@) + repeat_errors(
            string_views(params@),
            owner_of(check_owner, owner_params@, *description),
            subject@,
            span,
            params@.len() as int,
        ),
{
    let ghost views = string_views(params@);
    let ghost owner = owner_of(check_owner, owner_params@, *description);
    let mut i: usize = 0;
    while i < params.len()
        invariant
            i <= params@.len(),
            views == string_views(params@),
            owner == owner_of(check_owner, owner_params@, *description),
            diagnostic_views(diagnostics@) == diagnostic_views(old(diagnostics)@) + repeat_errors(views, owner, subject@, span, i as int),
        decreases params.len() - i,
    {
        let ghost before = diagnostics@;
        let name = &params[i];
        assert(views[i as int] == name@);
        if listed_in(params, i, name) {
            let message = concat4("duplicate type parameter `", name, "` in ", subject);
            diagnostics.push(Diagnostic::error(span, message));
        }
        let ghost middle = diagnostics@;
        if check_owner && listed_in(owner_params, owner_params.len(), name) {
            let mut message = concat4("type parameter `", name, "` in ", subject);
            message.append(" conflicts with ");
            message.append(description.as_str());
            diagnostics.push(Diagnostic::error(span, message));
        }
        proof {
            assert(string_views(owner_params@).take(owner_params@.len() as int) =~= string_views(owner_params@));
            assert(diagnostic_views(middle) =~= diagnostic_views(before) + (if views.take(i as int).contains(views[i as int]) {
                seq![error_at(span, duplicate_param_message(views[i as int], subject@))]
            } else {
                seq![]
            }));
            assert(diagnostic_views(diagnostics@) =~= diagnostic_views(middle) + match owner {
                Some((o, d)) => if o.contains(views[i as int]) {
                    seq![error_at(span, conflicting_param_message(views[i as int], subject@, d))]
                } else {
                    seq![]
                },
                None => seq![],
            });
        }
        i = i + 1;
    }
}

/// Reports `unused_errors` for all of `params` (see there).
fn push_unused_errors(
    diagnostics: &mut Vec<Diagnostic>,
    params: &Vec<String>,
    used: &Vec<&str>,
    subject: &String,
    span: Span,
)
    ensures
        diagnostic_views(final(diagnostics)@) == diagnostic_views(old(diagnostics)@) + unused_errors(
            string_views(params@),
            str_views(used@),
            subject@,
            span,
            params@.len() as int,
        ),
{
    let ghost views = string_views(params@);
    let mut i: usize = 0;
    while i < params.len()
        invariant
            i <= params@.len(),
            views == string_views(params@),
            diagnostic_views(diagnostics@) == diagnostic_views(old(diagnostics)@) + unused_errors(
                views,
                str_views(used@),
                subject@,
                span,
                i as int,
            ),
        decreases params.len() - i,
    {
        let ghost before = diagnostics@;
        let name = &params[i];
        assert(views[i as int] == name@);
        if !listed_str(used, name) {
            let message = concat4("unused type parameter `", name, "` in ", subject);
            diagnostics.push(Diagnostic::error(span, message));
        }
        proof {
            assert(diagnostic_views(diagnostics@) =~= diagnostic_views(before) + (if str_views(used@).contains(views[i as int]) {
                seq![]
            } else {
                seq![error_at(span, unused_param_message(views[i as int], subject@))]
            }));
        }
        i = i + 1;
    }
}

/// The type names that the declared types of the first `n` parameters mention.
pub open spec fn declared_param_names(params: Seq<Param>, n: int) -> Seq<Seq<char>>
    decreases n,
{
    if n <= 0 || n > params.len() {
        seq![]
    } else {
        declared_param_names(params, n - 1) + match params[n - 1].type_ref {
            Some(t) => spec_type_names(t),
            None => seq![],
        }
    }
}

/// A function's name, or `<anonymous>`.
pub open spec fn display_name(name: Option<String>) -> Seq<char> {
    match name {
        Some(n) => n@,
        None => "<anonymous>"@,
    }
}

/// The return type inferred for a method (by owner, name and whether it is
/// static), the first entry that matches.
pub open spec fn inferred_method_return(
    inferred: Seq<(String, String, bool, TypeRef)>,
    owner: Seq<char>,
    name: Seq<char>,
    static_: bool,
) -> Option<TypeRef>
    decreases inferred.len(),
{
    if inferred.len() == 0 {
        None
    } else if inferred[0].0@ == owner && inferred[0].1@ == name && inferred[0].2 == static_ {
        Some(inferred[0].3)
    } else {
        inferred_method_return(inferred.drop_first(), owner, name, static_)
    }
}

/// The type names that a method's signature mentions: its parameters'
/// declared types and its return type, or the inferred one where it declares
/// none.
pub open spec fn method_used_names(
    owner: Seq<char>,
    function: FunctionDecl,
    static_: bool,
    inferred: Seq<(String, String, bool, TypeRef)>,
) -> Seq<Seq<char>> {
    declared_param_names(function.params@, function.params@.len() as int) + match function.return_type {
        Some(t) => spec_type_names(t),
        None => match inferred_method_return(inferred, owner, display_name(function.name), static_) {
            Some(t) => spec_type_names(t),
            None => seq![],
        },
    }
}

pub open spec fn method_subject(function: FunctionDecl) -> Seq<char> {
    "method `"@ + display_name(function.name) + "`"@
}

/// The errors for the type parameters of one generic method of an owner
/// (`owner_kind` `owner_name` with `owner_params`): duplicates and clashes
/// with the owner's parameters, then parameters that the signature does not
/// mention. A method without type parameters has none.
pub open spec fn method_param_errors(
    owner_name: Seq<char>,
    owner_kind: Seq<char>,
    owner_params: Seq<Seq<char>>,
    function: FunctionDecl,
    static_: bool,
    inferred: Seq<(String, String, bool, TypeRef)>,
) -> Seq<(Severity, Span, Seq<char>)> {
    let params = string_views(function.type_params@);
    if params.len() == 0 {
        seq![]
    } else {
        repeat_errors(
            params,
            Some((owner_params, owner_kind + " `"@ + owner_name + "`"@)),
            method_subject(function),
            function.span,
            params.len() as int,
        ) + unused_errors(
            params,
            method_used_names(owner_name, function, static_, inferred),
            method_subject(function),
            function.span,
            params.len() as int,
        )
    }
}

/// `method_param_errors` for the methods among the first `n` members.
pub open spec fn member_param_errors(
    owner_name: Seq<char>,
    owner_kind: Seq<char>,
    owner_params: Seq<Seq<char>>,
    members: Seq<StructMember>,
    inferred: Seq<(String, String, bool, TypeRef)>,
    n: int,
) -> Seq<(Severity, Span, Seq<char>)>
    decreases n,
{
    if n <= 0 || n > members.len() {
        seq![]
    } else {
        member_param_errors(owner_name, owner_kind, owner_params, members, inferred, n - 1) + match members[n - 1] {
            StructMember::Method(f) => method_param_errors(owner_name, owner_kind, owner_params, f, false, inferred),
            StructMember::StaticMethod(f) => method_param_errors(owner_name, owner_kind, owner_params, f, true, inferred),
            StructMember::Field(_) => seq![],
        }
    }
}

fn find_method_return<'a>(
    inferred: &'a Vec<(String, String, bool, TypeRef)>,
    owner: &str,
    name: &String,
    static_: bool,
) -> (found: Option<&'a TypeRef>)
    ensures
        found is Some <==> inferred_method_return(inferred@, owner@, name@, static_) is Some,
        found matches Some(t) ==> *t == inferred_method_return(inferred@, owner@, name@, static_).unwrap(),
{
    assert(inferred@.skip(0) =~= inferred@);
    let mut i: usize = 0;
    while i < inferred.len()
        invariant
            i <= inferred@.len(),
            inferred_method_return(inferred@, owner@, name@, static_) == inferred_method_return(
                inferred@.skip(i as int),
                owner@,
                name@,
                static_,
            ),
        decreases inferred.len() - i,
    {
        assert(inferred@.skip(i as int).drop_first() =~= inferred@.skip(i + 1));
        if string_is(&inferred[i].0, owner) && inferred[i].1.eq(name) && inferred[i].2 == static_ {
            return Some(&inferred[i].3);
        }
        i = i + 1;
    }
    None
}

/// The type names of the declared parameter types.
fn param_type_names(params: &Vec<Param>) -> (names: Vec<&str>)
    ensures
        str_views(names@) == declared_param_names(params@, params@.len() as int),
{
    let mut names: Vec<&str> = Vec::new();
    let mut i: usize = 0;
    while i < params.len()
        invariant
            i <= params@.len(),
            str_views(names@) == declared_param_names(params@, i as int),
        decreases params.len() - i,
    {
        if let Some(t) = &params[i].type_ref {
            extend_names(&mut names, type_names(t));
        } else {
            assert(str_views(names@) =~= declared_param_names(params@, i + 1));
        }
        i = i + 1;
    }
    names
}

fn function_display_name(function: &FunctionDecl) -> (name: String)
    ensures
        name@ == display_name(function.name),
{
    match &function.name {
        Some(n) => n.clone(),
        None => String::from_str("<anonymous>"),
    }
}

/// Checks the type parameters of the generic methods among `members` of an
/// owner (`owner_kind` `owner_name`, with type parameters `owner_type_params`)
/// and reports `member_param_errors`: for each generic method in order, each
/// repeated parameter and each parameter that the owner declares too, then
/// each parameter that the method's signature does not mention. Where a
/// method declares no return type, the one inferred for it in
/// `generic_method_returns` counts.
pub fn validate_method_type_params(
    owner_name: &str,
    owner_kind: &str,
    owner_type_params: &Vec<String>,
    members: &Vec<StructMember>,
    generic_method_returns: &Vec<(String, String, bool, TypeRef)>,
    diagnostics: &mut Vec<Diagnostic>,
)
    ensures
        diagnostic_views(final(diagnostics)@) == diagnostic_views(old(diagnostics)@) + member_param_errors(
            owner_name@,
            owner_kind@,
            string_views(owner_type_params@),
            members@,
            generic_method_returns@,
            members@.len() as int,
        ),
{
    let mut description = String::from_str(owner_kind);
    description.append(" `");
    description.append(owner_name);
    description.append("`");
    let mut k: usize = 0;
    while k < members.len()
        invariant
            k <= members@.len(),
            description@ == owner_kind@ + " `"@ + owner_name@ + "`"@,
            diagnostic_views(diagnostics@) == diagnostic_views(old(diagnostics)@) + member_param_errors(
                owner_name@,
                owner_kind@,
                string_views(owner_type_params@),
                members@,
                generic_method_returns@,
                k as int,
            ),
        decreases members.len() - k,
    {
        let ghost before = diagnostics@;
        let (function, static_) = match &members[k] {
            StructMember::Method(f) => (f, false),
            StructMember::StaticMethod(f) => (f, true),
            StructMember::Field(_) => {
                k = k + 1;
                continue;
            },
        };
        if function.type_params.len() > 0 {
            let name = function_display_name(function);
            let subject = concat3("method `", &name, "`");
            push_repeat_errors(diagnostics, &function.type_params, true, owner_type_params, &description, &subject, function.span);
            let mut used = param_type_names(&function.params);
            match &function.return_type {
                Some(t) => extend_names(&mut used, type_names(t)),
                None => match find_method_return(generic_method_returns, owner_name, &name, static_) {
                    Some(t) => extend_names(&mut used, type_names(t)),
                    None => {},
                },
            }
            push_unused_errors(diagnostics, &function.type_params, &used, &subject, function.span);
            proof {
                assert(str_views(used@) =~= method_used_names(owner_name@, *function, static_, generic_method_returns@));
                assert(diagnostic_views(diagnostics@) =~= diagnostic_views(before) + method_param_errors(
                    owner_name@,
                    owner_kind@,
                    string_views(owner_type_params@),
                    *function,
                    static_,
                    generic_method_returns@,
                ));
            }
        }
        k = k + 1;
    }
}

/// The type names that the signatures of the first `n` trait methods
/// mention: each method's declared parameter types, then its return type.
pub open spec fn trait_used_names(methods: Seq<TraitMethodDecl>, n: int) -> Seq<Seq<char>>
    decreases n,
{
    if n <= 0 || n > methods.len() {
        seq![]
    } else {
        trait_used_names(methods, n - 1) + declared_param_names(
            methods[n - 1].params@,
            methods[n - 1].params@.len() as int,
        ) + match methods[n - 1].return_type {
            Some(t) => spec_type_names(t),
            None => seq![],
        }
    }
}

pub open spec fn impl_subject(d: ImplDecl) -> Seq<char> {
    "impl `"@ + spec_type_name(d.trait_ref) + " for "@ + spec_type_name(d.type_ref) + "`"@
}

/// The errors for the type parameters of one declaration: repeated
/// parameters everywhere; clashes and unused parameters of generic methods
/// of structs and enums; parameters that a generic trait's method
/// signatures, a generic function's parameters and inferred return type, or
/// a generic impl's trait and type do not mention.
pub open spec fn item_template_errors(
    item: Item,
    function_inferred: Seq<(String, TypeRef)>,
    method_inferred: Seq<(String, String, bool, TypeRef)>,
) -> Seq<(Severity, Span, Seq<char>)> {
    match item {
        Item::Struct(d) => repeat_errors(
            string_views(d.type_params@),
            None,
            "struct `"@ + d.name@ + "`"@,
            d.span,
            d.type_params@.len() as int,
        ) + member_param_errors(d.name@, "struct"@, string_views(d.type_params@), d.members@, method_inferred, d.members@.len() as int),
        Item::Enum(d) => repeat_errors(
            string_views(d.type_params@),
            None,
            "enum `"@ + d.name@ + "`"@,
            d.span,
            d.type_params@.len() as int,
        ) + member_param_errors(d.name@, "enum"@, string_views(d.type_params@), d.members@, method_inferred, d.members@.len() as int),
        Item::Trait(d) => repeat_errors(
            string_views(d.type_params@),
            None,
            "trait `"@ + d.name@ + "`"@,
            d.span,
            d.type_params@.len() as int,
        ) + unused_errors(
            string_views(d.type_params@),
            trait_used_names(d.methods@, d.methods@.len() as int),
            "trait `"@ + d.name@ + "`"@,
            d.span,
            d.type_params@.len() as int,
        ),
        Item::Function(d) => repeat_errors(
            string_views(d.type_params@),
            None,
            "function `"@ + display_name(d.name) + "`"@,
            d.span,
            d.type_params@.len() as int,
        ) + unused_errors(
            string_views(d.type_params@),
            declared_param_names(d.params@, d.params@.len() as int) + match lookup_pair(function_inferred, display_name(d.name)) {
                Some(t) => spec_type_names(t),
                None => seq![],
            },
            "function `"@ + display_name(d.name) + "`"@,
            d.span,
            d.type_params@.len() as int,
        ),
        Item::Impl(d) => repeat_errors(
            string_views(d.type_params@),
            None,
            impl_subject(d),
            d.span,
            d.type_params@.len() as int,
        ) + unused_errors(
            string_views(d.type_params@),
            spec_type_names(d.trait_ref) + spec_type_names(d.type_ref),
            impl_subject(d),
            d.span,
            d.type_params@.len() as int,
        ),
        _ => seq![],
    }
}

/// The name under which a declaration is kept in a group of templates:
/// generic structs (0), plain structs (1), generic enums (2), plain enums
/// (3), traits (4), named generic functions (5).
pub open spec fn group_key(item: Item, group: int) -> Option<Seq<char>> {
    match item {
        Item::Struct(d) => if (group == 0 && d.type_params@.len() > 0) || (group == 1 && d.type_params@.len() == 0) {
            Some(d.name@)
        } else {
            None
        },
        Item::Enum(d) => if (group == 2 && d.type_params@.len() > 0) || (group == 3 && d.type_params@.len() == 0) {
            Some(d.name@)
        } else {
            None
        },
        Item::Trait(d) => if group == 4 {
            Some(d.name@)
        } else {
            None
        },
        Item::Function(d) => if group == 5 && d.type_params@.len() > 0 && d.name is Some {
            Some(display_name(d.name))
        } else {
            None
        },
        _ => None,
    }
}

/// Whether the declaration at `i` is checked with group `group`: the last
/// declaration of its name in the group (a later one replaces it), and for
/// traits only a generic one; in group 6, every generic impl.
pub open spec fn selected(items: Seq<Item>, i: int, group: int) -> bool {
    if group == 6 {
        items[i] matches Item::Impl(d) && d.type_params@.len() > 0
    } else {
        &&& group_key(items[i], group) is Some
        &&& forall|j: int| i < j < items.len() ==> #[trigger] group_key(items[j], group) != group_key(items[i], group)
        &&& group == 4 ==> (items[i] matches Item::Trait(d) && d.type_params@.len() > 0)
    }
}

/// The errors of group `group` for the first `n` declarations.
pub open spec fn group_errors(
    items: Seq<Item>,
    group: int,
    function_inferred: Seq<(String, TypeRef)>,
    method_inferred: Seq<(String, String, bool, TypeRef)>,
    n: int,
) -> Seq<(Severity, Span, Seq<char>)>
    decreases n,
{
    if n <= 0 || n > items.len() {
        seq![]
    } else {
        group_errors(items, group, function_inferred, method_inferred, n - 1) + if selected(items, n - 1, group) {
            item_template_errors(items[n - 1], function_inferred, method_inferred)
        } else {
            seq![]
        }
    }
}

/// The errors of the first `g` groups, group by group.
pub open spec fn template_errors(
    items: Seq<Item>,
    function_inferred: Seq<(String, TypeRef)>,
    method_inferred: Seq<(String, String, bool, TypeRef)>,
    g: int,
) -> Seq<(Severity, Span, Seq<char>)>
    decreases g,
{
    if g <= 0 {
        seq![]
    } else {
        template_errors(items, function_inferred, method_inferred, g - 1) + group_errors(
            items,
            g - 1,
            function_inferred,
            method_inferred,
            items.len() as int,
        )
    }
}

fn group_key_of(item: &Item, group: u8) -> (key: Option<&String>)
    ensures
        key is None <==> group_key(*item, group as int) is None,
        key matches Some(k) ==> group_key(*item, group as int) == Some(k@),
{
    match item {
        Item::Struct(d) => if (group == 0 && d.type_params.len() > 0) || (group == 1 && d.type_params.len() == 0) {
            Some(&d.name)
        } else {
            None
        },
        Item::Enum(d) => if (group == 2 && d.type_params.len() > 0) || (group == 3 && d.type_params.len() == 0) {
            Some(&d.name)
        } else {
            None
        },
        Item::Trait(d) => if group == 4 {
            Some(&d.name)
        } else {
            None
        },
        Item::Function(d) => if group == 5 && d.type_params.len() > 0 {
            match &d.name {
                Some(n) => Some(n),
                None => None,
            }
        } else {
            None
        },
        _ => None,
    }
}

fn is_selected(items: &Vec<Item>, i: usize, group: u8) -> (chosen: bool)
    requires
        i < items@.len(),
        group <= 6,
    ensures
        chosen == selected(items@, i as int, group as int),
{
    if group == 6 {
        return match &items[i] {
            Item::Impl(d) => d.type_params.len() > 0,
            _ => false,
        };
    }
    let key = match group_key_of(&items[i], group) {
        Some(k) => k,
        None => return false,
    };
    if group == 4 {
        match &items[i] {
            Item::Trait(d) => if d.type_params.len() == 0 {
                return false;
            },
            _ => return false,
        }
    }
    let len = items.len();
    let mut j: usize = i + 1;
    while j < items.len()
        invariant
            i < j <= items@.len(),
            group_key(items@[i as int], group as int) == Some(key@),
            forall|k: int| i < k < j ==> #[trigger] group_key(items@[k], group as int) != group_key(items@[i as int], group as int),
        decreases items.len() - j,
    {
        match group_key_of(&items[j], group) {
            Some(other) => if other.eq(key) {
                return false;
            },
            None => {},
        }
        j = j + 1;
    }
    true
}

fn push_method_checks(
    owner_name: &String,
    owner_kind: &str,
    owner_type_params: &Vec<String>,
    members: &Vec<StructMember>,
    method_inferred: &Vec<(String, String, bool, TypeRef)>,
    diagnostics: &mut Vec<Diagnostic>,
)
    ensures
        diagnostic_views(final(diagnostics)@) == diagnostic_views(old(diagnostics)@) + member_param_errors(
            owner_name@,
            owner_kind@,
            string_views(owner_type_params@),
            members@,
            method_inferred@,
            members@.len() as int,
        ),
{
    validate_method_type_params(owner_name.as_str(), owner_kind, owner_type_params, members, method_inferred, diagnostics);
}

/// Reports `item_template_errors` for one declaration.
fn check_item_template(
    item: &Item,
    function_inferred: &Vec<(String, TypeRef)>,
    method_inferred: &Vec<(String, String, bool, TypeRef)>,
    diagnostics: &mut Vec<Diagnostic>,
)
    ensures
        diagnostic_views(final(diagnostics)@) == diagnostic_views(old(diagnostics)@) + item_template_errors(
            *item,
            function_inferred@,
            method_inferred@,
        ),
{
    let none: Vec<String> = Vec::new();
    let empty = String::new();
    match item {
        Item::Struct(d) => {
            let subject = concat3("struct `", &d.name, "`");
            push_repeat_errors(diagnostics, &d.type_params, false, &none, &empty, &subject, d.span);
            push_method_checks(&d.name, "struct", &d.type_params, &d.members, method_inferred, diagnostics);
        },
        Item::Enum(d) => {
            let subject = concat3("enum `", &d.name, "`");
            push_repeat_errors(diagnostics, &d.type_params, false, &none, &empty, &subject, d.span);
            push_method_checks(&d.name, "enum", &d.type_params, &d.members, method_inferred, diagnostics);
        },
        Item::Trait(d) => {
            let subject = concat3("trait `", &d.name, "`");
            push_repeat_errors(diagnostics, &d.type_params, false, &none, &empty, &subject, d.span);
            let mut used: Vec<&str> = Vec::new();
            let mut m: usize = 0;
            while m < d.methods.len()
                invariant
                    m <= d.methods@.len(),
                    str_views(used@) == trait_used_names(d.methods@, m as int),
                decreases d.methods.len() - m,
            {
                extend_names(&mut used, param_type_names(&d.methods[m].params));
                match &d.methods[m].return_type {
                    Some(t) => extend_names(&mut used, type_names(t)),
                    None => {},
                }
                proof {
                    assert(str_views(used@) =~= trait_used_names(d.methods@, m + 1));
                }
                m = m + 1;
            }
            push_unused_errors(diagnostics, &d.type_params, &used, &subject, d.span);
        },
        Item::Function(d) => {
            let name = function_display_name(d);
            let subject = concat3("function `", &name, "`");
            push_repeat_errors(diagnostics, &d.type_params, false, &none, &empty, &subject, d.span);
            let mut used = param_type_names(&d.params);
            match find_pair(function_inferred, name.as_str()) {
                Some(t) => extend_names(&mut used, type_names(t)),
                None => {},
            }
            push_unused_errors(diagnostics, &d.type_params, &used, &subject, d.span);
        },
        Item::Impl(d) => {
            let trait_name = type_ref_name(&d.trait_ref);
            let receiver_name = type_ref_name(&d.type_ref);
            let mut subject = concat4("impl `", &trait_name, " for ", &receiver_name);
            subject.append("`");
            push_repeat_errors(diagnostics, &d.type_params, false, &none, &empty, &subject, d.span);
            let mut used = type_names(&d.trait_ref);
            extend_names(&mut used, type_names(&d.type_ref));
            push_unused_errors(diagnostics, &d.type_params, &used, &subject, d.span);
        },
        _ => {},
    }
}

/// Checks the type parameters of the program's declarations and reports
/// `template_errors`, group by group: generic structs, plain structs,
/// generic enums, plain enums, generic traits, named generic functions and
/// generic impls (see `group_key` and `selected`), each group in program
/// order. `generic_function_returns` holds the return types inferred for
/// generic functions by name, `generic_method_returns` those of generic
/// methods by owner, name and whether they are static.
pub fn validate_templates(
    program: &Program,
    generic_function_returns: &Vec<(String, TypeRef)>,
    generic_method_returns: &Vec<(String, String, bool, TypeRef)>,
    diagnostics: &mut Vec<Diagnostic>,
)
    ensures
        diagnostic_views(final(diagnostics)@) == diagnostic_views(old(diagnostics)@) + template_errors(
            program.items@,
            generic_function_returns@,
            generic_method_returns@,
            7,
        ),
{
    let items = &program.items;
    let mut group: u8 = 0;
    while group < 7
        invariant
            group <= 7,
            diagnostic_views(diagnostics@) == diagnostic_views(old(diagnostics)@) + template_errors(
                items@,
                generic_function_returns@,
                generic_method_returns@,
                group as int,
            ),
        decreases 7 - group,
    {
        let ghost group_start = diagnostics@;
        let mut i: usize = 0;
        while i < items.len()
            invariant
                i <= items@.len(),
                group < 7,
                diagnostic_views(diagnostics@) == diagnostic_views(group_start) + group_errors(
                    items@,
                    group as int,
                    generic_function_returns@,
                    generic_method_returns@,
                    i as int,
                ),
            decreases items.len() - i,
        {
            if is_selected(items, i, group) {
                check_item_template(&items[i], generic_function_returns, generic_method_returns, diagnostics);
            }
            proof {
                assert(diagnostic_views(diagnostics@) =~= diagnostic_views(group_start) + group_errors(
                    items@,
                    group as int,
                    generic_function_returns@,
                    generic_method_returns@,
                    i + 1,
                ));
            }
            i = i + 1;
        }
        proof {
            assert(diagnostic_views(diagnostics@) =~= diagnostic_views(old(diagnostics)@) + template_errors(
                items@,
                generic_function_returns@,
                generic_method_returns@,
                group + 1,
            ));
        }
        group = group + 1;
    }
}

} // verus!
