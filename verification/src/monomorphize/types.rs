use vstd::prelude::*;

use crate::ast::{AssociatedTypeBinding, FunctionDecl, FunctionTypeParam, Item, StructMember, TypeRef};
use crate::span::Span;
use crate::text::{join_seqs, join_strings, string_is, string_views};

verus! {

/// The canonical text of a type: `Name`, `Name<A, B, type X: C>` or `fn(mut A, B): R`.
pub open spec fn spec_type_name(type_ref: TypeRef) -> Seq<char>
    decreases type_ref, 0int,
{
    match type_ref.function {
        Some(function) => "fn("@ + join_seqs(
            param_parts(function.params@, function.params@.len() as int),
            ", "@,
        ) + "): "@ + spec_type_name(*function.return_type),
        None => if type_ref.args@.len() == 0 && type_ref.bindings@.len() == 0 {
            type_ref.name@
        } else {
            type_ref.name@ + "<"@ + join_seqs(
                arg_parts(type_ref.args@, type_ref.args@.len() as int) + binding_parts(
                    type_ref.bindings@,
                    type_ref.bindings@.len() as int,
                ),
                ", "@,
            ) + ">"@
        },
    }
}

/// The names of the first `n` types.
pub open spec fn arg_parts(args: Seq<TypeRef>, n: int) -> Seq<Seq<char>>
    decreases args, n,
{
    if n <= 0 || n > args.len() {
        seq![]
    } else {
        arg_parts(args, n - 1).push(spec_type_name(args[n - 1]))
    }
}

/// `type X: T` for the first `n` bindings.
pub open spec fn binding_parts(bindings: Seq<AssociatedTypeBinding>, n: int) -> Seq<Seq<char>>
    decreases bindings, n,
{
    if n <= 0 || n > bindings.len() {
        seq![]
    } else {
        binding_parts(bindings, n - 1).push(
            "type "@ + bindings[n - 1].name@ + ": "@ + spec_type_name(bindings[n - 1].type_ref),
        )
    }
}

/// `mut T` or `T` for the first `n` function parameters.
pub open spec fn param_parts(params: Seq<FunctionTypeParam>, n: int) -> Seq<Seq<char>>
    decreases params, n,
{
    if n <= 0 || n > params.len() {
        seq![]
    } else {
        param_parts(params, n - 1).push(
            if params[n - 1].mutable {
                "mut "@ + spec_type_name(params[n - 1].type_ref)
            } else {
                spec_type_name(params[n - 1].type_ref)
            },
        )
    }
}

/// The canonical text of a type.
#[verifier::loop_isolation(false)]
pub fn type_ref_name(type_ref: &TypeRef) -> (name: String)
    ensures
        name@ == spec_type_name(*type_ref),
    decreases type_ref,
{
    if let Some(function) = &type_ref.function {
        let mut parts: Vec<String> = Vec::new();
        let mut i: usize = 0;
        while i < function.params.len()
            invariant
                i <= function.params@.len(),
                string_views(parts@) == param_parts(function.params@, i as int),
            decreases function.params.len() - i,
        {
            let param = &function.params[i];
            let inner = type_ref_name(&param.type_ref);
            let part = if param.mutable {
                String::from_str("mut ").concat(inner.as_str())
            } else {
                inner
            };
            let ghost previous = parts@;
            parts.push(part);
            assert(string_views(parts@) =~= string_views(previous).push(part@));
            i = i + 1;
        }
        let mut name = String::from_str("fn(");
        name.append(join_strings(&parts, ", ").as_str());
        name.append("): ");
        name.append(type_ref_name(&function.return_type).as_str());
        return name;
    }
    if type_ref.args.len() == 0 && type_ref.bindings.len() == 0 {
        return type_ref.name.clone();
    }
    let mut parts: Vec<String> = Vec::new();
    let mut i: usize = 0;
    while i < type_ref.args.len()
        invariant
            i <= type_ref.args@.len(),
            string_views(parts@) == arg_parts(type_ref.args@, i as int),
        decreases type_ref.args.len() - i,
    {
        let part = type_ref_name(&type_ref.args[i]);
        let ghost previous = parts@;
        parts.push(part);
        assert(string_views(parts@) =~= string_views(previous).push(part@));
        i = i + 1;
    }
    let ghost arg_count = parts@.len();
    let mut j: usize = 0;
    while j < type_ref.bindings.len()
        invariant
            j <= type_ref.bindings@.len(),
            string_views(parts@) == arg_parts(type_ref.args@, type_ref.args@.len() as int) + binding_parts(
                type_ref.bindings@,
                j as int,
            ),
        decreases type_ref.bindings.len() - j,
    {
        let binding = &type_ref.bindings[j];
        let mut part = String::from_str("type ");
        part.append(binding.name.as_str());
        part.append(": ");
        part.append(type_ref_name(&binding.type_ref).as_str());
        let ghost previous = parts@;
        parts.push(part);
        assert(string_views(parts@) =~= string_views(previous).push(part@));
        j = j + 1;
    }
    let mut name = type_ref.name.clone();
    name.append("<");
    name.append(join_strings(&parts, ", ").as_str());
    name.append(">");
    name
}

/// `name<A, B>`: a generic name applied to `args`.
pub fn specialized_name(name: &str, args: &Vec<TypeRef>) -> (specialized: String)
    ensures
        specialized@ == name@ + "<"@ + join_seqs(arg_parts(args@, args@.len() as int), ", "@) + ">"@,
{
    let empty: Vec<AssociatedTypeBinding> = Vec::new();
    let specialized = specialized_trait_name(name, args, &empty);
    assert(binding_parts(empty@, 0) =~= Seq::<Seq<char>>::empty());
    assert(arg_parts(args@, args@.len() as int) + binding_parts(empty@, 0) =~= arg_parts(
        args@,
        args@.len() as int,
    ));
    specialized
}

/// `name<A, B, type X: C>`: a generic trait name applied to `args` and to
/// associated-type `bindings`.
#[verifier::loop_isolation(false)]
pub fn specialized_trait_name(name: &str, args: &Vec<TypeRef>, bindings: &Vec<AssociatedTypeBinding>) -> (specialized: String)
    ensures
        specialized@ == name@ + "<"@ + join_seqs(
            arg_parts(args@, args@.len() as int) + binding_parts(bindings@, bindings@.len() as int),
            ", "@,
        ) + ">"@,
{
    let mut parts: Vec<String> = Vec::new();
    let mut i: usize = 0;
    while i < args.len()
        invariant
            i <= args@.len(),
            string_views(parts@) == arg_parts(args@, i as int),
        decreases args.len() - i,
    {
        let part = type_ref_name(&args[i]);
        let ghost previous = parts@;
        parts.push(part);
        assert(string_views(parts@) =~= string_views(previous).push(part@));
        i = i + 1;
    }
    let mut j: usize = 0;
    while j < bindings.len()
        invariant
            j <= bindings@.len(),
            string_views(parts@) == arg_parts(args@, args@.len() as int) + binding_parts(
                bindings@,
                j as int,
            ),
        decreases bindings.len() - j,
    {
        let binding = &bindings[j];
        let mut part = String::from_str("type ");
        part.append(binding.name.as_str());
        part.append(": ");
        part.append(type_ref_name(&binding.type_ref).as_str());
        let ghost previous = parts@;
        parts.push(part);
        assert(string_views(parts@) =~= string_views(previous).push(part@));
        j = j + 1;
    }
    let mut specialized = String::from_str(name);
    specialized.append("<");
    specialized.append(join_strings(&parts, ", ").as_str());
    specialized.append(">");
    specialized
}

/// The name of a type without arguments.
pub fn concrete_type_name(type_ref: &TypeRef) -> (name: Option<String>)
    ensures
        name is Some <==> type_ref.args@.len() == 0,
        name matches Some(n) ==> n == type_ref.name,
{
    if type_ref.args.len() == 0 {
        Some(type_ref.name.clone())
    } else {
        None
    }
}

/// Every type name that occurs in a type, outermost first.
pub open spec fn spec_type_names(type_ref: TypeRef) -> Seq<Seq<char>>
    decreases type_ref, 0int,
{
    match type_ref.function {
        Some(function) => param_names(function.params@, function.params@.len() as int)
            + spec_type_names(*function.return_type),
        None => seq![type_ref.name@] + arg_names(type_ref.args@, type_ref.args@.len() as int)
            + binding_names(type_ref.bindings@, type_ref.bindings@.len() as int),
    }
}

pub open spec fn arg_names(args: Seq<TypeRef>, n: int) -> Seq<Seq<char>>
    decreases args, n,
{
    if n <= 0 || n > args.len() {
        seq![]
    } else {
        arg_names(args, n - 1) + spec_type_names(args[n - 1])
    }
}

pub open spec fn binding_names(bindings: Seq<AssociatedTypeBinding>, n: int) -> Seq<Seq<char>>
    decreases bindings, n,
{
    if n <= 0 || n > bindings.len() {
        seq![]
    } else {
        binding_names(bindings, n - 1) + spec_type_names(bindings[n - 1].type_ref)
    }
}

pub open spec fn param_names(params: Seq<FunctionTypeParam>, n: int) -> Seq<Seq<char>>
    decreases params, n,
{
    if n <= 0 || n > params.len() {
        seq![]
    } else {
        param_names(params, n - 1) + spec_type_names(params[n - 1].type_ref)
    }
}

/// The texts of a list of string slices.
pub open spec fn str_views(names: Seq<&str>) -> Seq<Seq<char>> {
    names.map_values(|s: &str| s@)
}

/// Appends every name of `more` to `names`.
pub(crate) fn extend_names<'a>(names: &mut Vec<&'a str>, more: Vec<&'a str>)
    ensures
        str_views(final(names)@) == str_views(old(names)@) + str_views(more@),
{
    let mut i: usize = 0;
    while i < more.len()
        invariant
            i <= more@.len(),
            str_views(names@) == str_views(old(names)@) + str_views(more@).take(i as int),
        decreases more.len() - i,
    {
        let ghost previous = names@;
        names.push(more[i]);
        assert(str_views(names@) =~= str_views(previous).push(more@[i as int]@));
        assert(str_views(more@).take(i + 1) =~= str_views(more@).take(i as int).push(
            more@[i as int]@,
        ));
        i = i + 1;
    }
    assert(str_views(more@).take(more@.len() as int) =~= str_views(more@));
}

/// Every type name that occurs in a type, outermost first.
#[verifier::loop_isolation(false)]
pub fn type_names(type_ref: &TypeRef) -> (names: Vec<&str>)
    ensures
        str_views(names@) == spec_type_names(*type_ref),
    decreases type_ref,
{
    if let Some(function) = &type_ref.function {
        let mut names: Vec<&str> = Vec::new();
        let mut i: usize = 0;
        while i < function.params.len()
            invariant
                i <= function.params@.len(),
                str_views(names@) == param_names(function.params@, i as int),
            decreases function.params.len() - i,
        {
            extend_names(&mut names, type_names(&function.params[i].type_ref));
            i = i + 1;
        }
        extend_names(&mut names, type_names(&function.return_type));
        return names;
    }
    let mut names: Vec<&str> = Vec::new();
    names.push(type_ref.name.as_str());
    assert(str_views(names@) =~= seq![type_ref.name@]);
    let mut i: usize = 0;
    while i < type_ref.args.len()
        invariant
            i <= type_ref.args@.len(),
            str_views(names@) == seq![type_ref.name@] + arg_names(type_ref.args@, i as int),
        decreases type_ref.args.len() - i,
    {
        extend_names(&mut names, type_names(&type_ref.args[i]));
        i = i + 1;
    }
    let mut j: usize = 0;
    while j < type_ref.bindings.len()
        invariant
            j <= type_ref.bindings@.len(),
            str_views(names@) == seq![type_ref.name@] + arg_names(
                type_ref.args@,
                type_ref.args@.len() as int,
            ) + binding_names(type_ref.bindings@, j as int),
        decreases type_ref.bindings.len() - j,
    {
        extend_names(&mut names, type_names(&type_ref.bindings[j].type_ref));
        j = j + 1;
    }
    names
}

/// The type names inside a type's arguments (for a function type: in its
/// parameters and return type).
pub fn type_arg_names(type_ref: &TypeRef) -> (names: Vec<&str>)
    ensures
        str_views(names@) == match type_ref.function {
            Some(_) => spec_type_names(*type_ref),
            None => arg_names(type_ref.args@, type_ref.args@.len() as int),
        },
{
    if type_ref.function.is_some() {
        return type_names(type_ref);
    }
    let mut names: Vec<&str> = Vec::new();
    let mut i: usize = 0;
    while i < type_ref.args.len()
        invariant
            i <= type_ref.args@.len(),
            str_views(names@) == arg_names(type_ref.args@, i as int),
        decreases type_ref.args.len() - i,
    {
        extend_names(&mut names, type_names(&type_ref.args[i]));
        i = i + 1;
    }
    names
}

/// The last position `i < end` at which `::` starts, or -1.
pub open spec fn last_path_separator(text: Seq<char>, end: int) -> int
    decreases end,
{
    if end <= 0 {
        -1
    } else if end < text.len() && text[end - 1] == ':' && text[end] == ':' {
        end - 1
    } else {
        last_path_separator(text, end - 1)
    }
}

/// Where the last `::` of `text` starts, if it has one.
fn find_last_path_separator(text: &str) -> (position: Option<usize>)
    ensures
        last_path_separator(text@, text@.len() as int) == match position {
            Some(p) => p as int,
            None => -1,
        },
        position matches Some(p) ==> p + 2 <= text@.len(),
{
    let n = text.unicode_len();
    let mut end = n;
    while end > 0
        invariant
            end <= n,
            n == text@.len(),
            last_path_separator(text@, n as int) == last_path_separator(text@, end as int),
        decreases end,
    {
        if end < n && text.get_char(end - 1) == ':' && text.get_char(end) == ':' {
            return Some(end - 1);
        }
        end = end - 1;
    }
    None
}

/// Splits `Trait::method` at its last `::`; a name without `::` names only a method.
pub fn requested_trait_method(name: &str) -> (parts: (Option<&str>, &str))
    ensures
        ({
            let split = last_path_separator(name@, name@.len() as int);
            if split < 0 {
                parts.0 is None && parts.1@ == name@
            } else {
                parts.0 matches Some(t) && t@ == name@.subrange(0, split) && parts.1@
                    == name@.subrange(split + 2, name@.len() as int)
            }
        }),
{
    match find_last_path_separator(name) {
        Some(split) => {
            let n = name.unicode_len();
            (Some(name.substring_char(0, split)), name.substring_char(split + 2, n))
        },
        None => (None, name),
    }
}

/// The part of a path after its last `::`.
pub open spec fn last_path_segment(text: Seq<char>) -> Seq<char> {
    let split = last_path_separator(text, text.len() as int);
    if split < 0 {
        text
    } else {
        text.subrange(split + 2, text.len() as int)
    }
}

/// A trait name matches a requested one when they are equal, or when the
/// request names the trait's last path segment.
pub fn trait_name_matches_request(actual: &str, requested: &str) -> (matches: bool)
    ensures
        matches == (actual@ == requested@ || last_path_segment(actual@) == requested@),
{
    let actual_text = String::from_str(actual);
    let requested_text = String::from_str(requested);
    if actual_text.eq(&requested_text) {
        return true;
    }
    let (_, last) = requested_trait_method(actual);
    String::from_str(last).eq(&requested_text)
}

/// The name and span of each struct and enum among the first `n` items (or each
/// trait, when `traits`).
pub open spec fn declared_types(items: Seq<Item>, n: int, traits: bool) -> Seq<(Seq<char>, Span)>
    decreases n,
{
    if n <= 0 || n > items.len() {
        seq![]
    } else {
        let rest = declared_types(items, n - 1, traits);
        match items[n - 1] {
            Item::Struct(s) => if traits { rest } else { rest.push((s.name@, s.span)) },
            Item::Enum(e) => if traits { rest } else { rest.push((e.name@, e.span)) },
            Item::Trait(t) => if traits { rest.push((t.name@, t.span)) } else { rest },
            _ => rest,
        }
    }
}

/// Whether a list of type references names exactly `declared`, without
/// arguments, bindings or function parts.
pub open spec fn plain_refs(refs: Seq<TypeRef>, declared: Seq<(Seq<char>, Span)>) -> bool {
    &&& refs.len() == declared.len()
    &&& forall|i: int|
        #![trigger refs[i]]
        0 <= i < refs.len() ==> {
            &&& refs[i].name@ == declared[i].0
            &&& refs[i].span == declared[i].1
            &&& refs[i].args@.len() == 0
            &&& refs[i].bindings@.len() == 0
            &&& refs[i].function is None
        }
}

fn declared_type_refs(items: &Vec<Item>, traits: bool) -> (refs: Vec<TypeRef>)
    ensures
        plain_refs(refs@, declared_types(items@, items@.len() as int, traits)),
{
    let mut refs: Vec<TypeRef> = Vec::new();
    let mut i: usize = 0;
    while i < items.len()
        invariant
            i <= items@.len(),
            plain_refs(refs@, declared_types(items@, i as int, traits)),
        decreases items.len() - i,
    {
        let found = match &items[i] {
            Item::Struct(item) => if traits { None } else { Some((item.name.clone(), item.span)) },
            Item::Enum(item) => if traits { None } else { Some((item.name.clone(), item.span)) },
            Item::Trait(item) => if traits { Some((item.name.clone(), item.span)) } else { None },
            _ => None,
        };
        if let Some((name, span)) = found {
            refs.push(TypeRef { name, args: Vec::new(), bindings: Vec::new(), function: None, span });
        }
        i = i + 1;
    }
    refs
}

/// A plain type reference to every struct and enum among `items`.
pub fn concrete_type_refs(items: &Vec<Item>) -> (refs: Vec<TypeRef>)
    ensures
        plain_refs(refs@, declared_types(items@, items@.len() as int, false)),
{
    declared_type_refs(items, false)
}

/// A plain type reference to every trait among `items`.
pub fn concrete_trait_refs(items: &Vec<Item>) -> (refs: Vec<TypeRef>)
    ensures
        plain_refs(refs@, declared_types(items@, items@.len() as int, true)),
{
    declared_type_refs(items, true)
}

/// A method of the wanted kind (static or not) named `name`.
pub open spec fn is_method_named(member: StructMember, name: Seq<char>, static_: bool) -> bool {
    match member {
        StructMember::Method(f) => !static_ && (f.name matches Some(n) && n@ == name),
        StructMember::StaticMethod(f) => static_ && (f.name matches Some(n) && n@ == name),
        StructMember::Field(_) => false,
    }
}

/// The function that a method member declares.
pub open spec fn member_function(member: StructMember) -> FunctionDecl
    recommends
        member is Method || member is StaticMethod,
{
    match member {
        StructMember::Method(f) => f,
        StructMember::StaticMethod(f) => f,
        StructMember::Field(_) => arbitrary(),
    }
}

/// The first method (static or not, as asked) named `method_name` among the members.
pub fn find_method_member<'a>(members: &'a Vec<StructMember>, method_name: &str, static_: bool) -> (found:
    Option<&'a FunctionDecl>)
    ensures
        found is None <==> forall|i: int|
            0 <= i < members@.len() ==> !#[trigger] is_method_named(members@[i], method_name@, static_),
        found matches Some(f) ==> exists|i: int|
            0 <= i < members@.len() && #[trigger] is_method_named(members@[i], method_name@, static_)
                && *f == member_function(members@[i]) && forall|j: int|
                0 <= j < i ==> !#[trigger] is_method_named(members@[j], method_name@, static_),
{
    let mut i: usize = 0;
    while i < members.len()
        invariant
            i <= members@.len(),
            forall|j: int| 0 <= j < i ==> !#[trigger] is_method_named(members@[j], method_name@, static_),
        decreases members.len() - i,
    {
        match &members[i] {
            StructMember::Method(function) => {
                if !static_ {
                    if let Some(name) = &function.name {
                        if string_is(name, method_name) {
                            assert(is_method_named(members@[i as int], method_name@, static_));
                            return Some(function);
                        }
                    }
                }
            },
            StructMember::StaticMethod(function) => {
                if static_ {
                    if let Some(name) = &function.name {
                        if string_is(name, method_name) {
                            assert(is_method_named(members@[i as int], method_name@, static_));
                            return Some(function);
                        }
                    }
                }
            },
            StructMember::Field(_) => {},
        }
        i = i + 1;
    }
    None
}

/// The first type, when every type has the same name as it.
pub fn consistent_type(types: &Vec<TypeRef>) -> (consistent: Option<&TypeRef>)
    ensures
        consistent is Some <==> types@.len() > 0 && forall|i: int|
            0 <= i < types@.len() ==> spec_type_name(#[trigger] types@[i]) == spec_type_name(types@[0]),
        consistent matches Some(t) ==> *t == types@[0],
{
    if types.len() == 0 {
        return None;
    }
    let first = type_ref_name(&types[0]);
    let mut i: usize = 0;
    while i < types.len()
        invariant
            i <= types@.len(),
            types@.len() > 0,
            first@ == spec_type_name(types@[0]),
            forall|j: int| 0 <= j < i ==> spec_type_name(#[trigger] types@[j]) == spec_type_name(types@[0]),
        decreases types.len() - i,
    {
        let name = type_ref_name(&types[i]);
        if !name.eq(&first) {
            return None;
        }
        i = i + 1;
    }
    Some(&types[0])
}

} // verus!
