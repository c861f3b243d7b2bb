use vstd::prelude::*;

use crate::ast::{
    number_literal_is_float, spec_number_is_float, Block, ElseBranch, Expr, ExprKind, FunctionBody, FunctionDecl, ImplMember, Item, MatchBranch,
    MatchBranchBody, Param, Stmt, StmtKind, StructInitField, StructMember, TypeRef,
};
use crate::monomorphize::types::{arg_parts, specialized_name};
use crate::project::linker::insert_pair;
use crate::project::rewrite::{find_pair, lookup_pair, pair_keys};
use crate::text::{contains_string, join_seqs, string_views};

verus! {

/// A method of a generic struct or enum: its owner's name, its own name, and
/// whether it is static.
pub type MethodKey = (Seq<char>, Seq<char>, bool);

/// What the walk knows of a struct or an enum: the concrete type of each
/// field, and the concrete type that each method and static method returns.
#[derive(Debug)]
pub struct StructShape {
    pub fields: Vec<(String, String)>,
    pub methods: Vec<(String, Option<String>)>,
    pub static_methods: Vec<(String, Option<String>)>,
}

/// A shape as maps from names to type names.
#[verifier::ext_equal]
pub struct ShapeView {
    pub fields: Map<Seq<char>, Seq<char>>,
    pub methods: Map<Seq<char>, Option<Seq<char>>>,
    pub static_methods: Map<Seq<char>, Option<Seq<char>>>,
}

/// The shapes of all structs (and the order in which their names were first
/// declared), of all enums, and the concrete return types of free functions.
#[verifier::ext_equal]
pub struct Shapes {
    pub structs: Map<Seq<char>, ShapeView>,
    pub struct_order: Seq<Seq<char>>,
    pub enums: Map<Seq<char>, ShapeView>,
    pub functions: Map<Seq<char>, Option<Seq<char>>>,
}

pub open spec fn opt_text(value: Option<String>) -> Option<Seq<char>> {
    match value {
        Some(text) => Some(text@),
        None => None,
    }
}

/// A list of name/type-name pairs as a map.
pub open spec fn text_map(entries: Seq<(String, String)>) -> Map<Seq<char>, Seq<char>> {
    Map::new(|k: Seq<char>| lookup_pair(entries, k) is Some, |k: Seq<char>| lookup_pair(entries, k).unwrap()@)
}

/// A list of name/optional-type-name pairs as a map.
pub open spec fn return_map(entries: Seq<(String, Option<String>)>) -> Map<Seq<char>, Option<Seq<char>>> {
    Map::new(
        |k: Seq<char>| lookup_pair(entries, k) is Some,
        |k: Seq<char>| opt_text(lookup_pair(entries, k).unwrap()),
    )
}

impl View for StructShape {
    type V = ShapeView;

    open spec fn view(&self) -> ShapeView {
        ShapeView {
            fields: text_map(self.fields@),
            methods: return_map(self.methods@),
            static_methods: return_map(self.static_methods@),
        }
    }
}

/// A list of name/shape pairs as a map.
pub open spec fn shape_map(entries: Seq<(String, StructShape)>) -> Map<Seq<char>, ShapeView> {
    Map::new(|k: Seq<char>| lookup_pair(entries, k) is Some, |k: Seq<char>| lookup_pair(entries, k).unwrap()@)
}

/// The name of a type without arguments.
pub open spec fn concrete_name(type_ref: TypeRef) -> Option<Seq<char>> {
    if type_ref.args@.len() == 0 {
        Some(type_ref.name@)
    } else {
        None
    }
}

/// What a method of `owner` is declared to return, when that is a concrete
/// type; `Self` stands for the owner.
pub open spec fn declared_return(owner: Seq<char>, function: FunctionDecl) -> Option<Seq<char>> {
    match function.return_type {
        Some(t) => if t.name@ == "Self"@ && t.args@.len() == 0 {
            Some(owner)
        } else {
            concrete_name(t)
        },
        None => None,
    }
}

/// The concrete type of each field among `members`; a later field of the same
/// name wins.
pub open spec fn member_fields(members: Seq<StructMember>) -> Map<Seq<char>, Seq<char>>
    decreases members.len(),
{
    if members.len() == 0 {
        Map::empty()
    } else {
        let earlier = member_fields(members.drop_last());
        match members.last() {
            StructMember::Field(field) => match concrete_name(field.type_ref) {
                Some(t) => earlier.insert(field.name@, t),
                None => earlier,
            },
            _ => earlier,
        }
    }
}

/// What each named method (or static method) among `members` returns.
pub open spec fn member_returns(owner: Seq<char>, members: Seq<StructMember>, static_: bool) -> Map<
    Seq<char>,
    Option<Seq<char>>,
>
    decreases members.len(),
{
    if members.len() == 0 {
        Map::empty()
    } else {
        let earlier = member_returns(owner, members.drop_last(), static_);
        match members.last() {
            StructMember::Method(f) => if !static_ && f.name is Some {
                earlier.insert(f.name.unwrap()@, declared_return(owner, f))
            } else {
                earlier
            },
            StructMember::StaticMethod(f) => if static_ && f.name is Some {
                earlier.insert(f.name.unwrap()@, declared_return(owner, f))
            } else {
                earlier
            },
            StructMember::Field(_) => earlier,
        }
    }
}

/// The shape of a struct (with its fields) or of an enum (without).
pub open spec fn members_shape(owner: Seq<char>, members: Seq<StructMember>, with_fields: bool) -> ShapeView {
    ShapeView {
        fields: if with_fields {
            member_fields(members)
        } else {
            Map::empty()
        },
        methods: member_returns(owner, members, false),
        static_methods: member_returns(owner, members, true),
    }
}

pub open spec fn no_shapes() -> Shapes {
    Shapes { structs: Map::empty(), struct_order: seq![], enums: Map::empty(), functions: Map::empty() }
}

/// The shapes that the declarations among `items` give; a later declaration
/// of the same name wins.
pub open spec fn model_shapes(items: Seq<Item>) -> Shapes
    decreases items.len(),
{
    if items.len() == 0 {
        no_shapes()
    } else {
        let earlier = model_shapes(items.drop_last());
        match items.last() {
            Item::Struct(d) => Shapes {
                structs: earlier.structs.insert(d.name@, members_shape(d.name@, d.members@, true)),
                struct_order: if earlier.struct_order.contains(d.name@) {
                    earlier.struct_order
                } else {
                    earlier.struct_order.push(d.name@)
                },
                ..earlier
            },
            Item::Enum(d) => Shapes {
                enums: earlier.enums.insert(d.name@, members_shape(d.name@, d.members@, false)),
                ..earlier
            },
            Item::Function(f) => match f.name {
                Some(n) => Shapes {
                    functions: earlier.functions.insert(
                        n@,
                        match f.return_type {
                            Some(t) => concrete_name(t),
                            None => None,
                        },
                    ),
                    ..earlier
                },
                None => earlier,
            },
            _ => earlier,
        }
    }
}

/// The named methods and static methods among `members`, under their keys.
pub open spec fn member_methods(owner: Seq<char>, members: Seq<StructMember>) -> Map<MethodKey, FunctionDecl>
    decreases members.len(),
{
    if members.len() == 0 {
        Map::empty()
    } else {
        let earlier = member_methods(owner, members.drop_last());
        match members.last() {
            StructMember::Method(f) => match f.name {
                Some(n) => earlier.insert((owner, n@, false), f),
                None => earlier,
            },
            StructMember::StaticMethod(f) => match f.name {
                Some(n) => earlier.insert((owner, n@, true), f),
                None => earlier,
            },
            StructMember::Field(_) => earlier,
        }
    }
}

/// The methods of the structs and enums among `items` whose names are in
/// `generic`, under their keys.
pub open spec fn model_methods(items: Seq<Item>, generic: Seq<Seq<char>>) -> Map<MethodKey, FunctionDecl>
    decreases items.len(),
{
    if items.len() == 0 {
        Map::empty()
    } else {
        let earlier = model_methods(items.drop_last(), generic);
        match items.last() {
            Item::Struct(d) => if generic.contains(d.name@) {
                earlier.union_prefer_right(member_methods(d.name@, d.members@))
            } else {
                earlier
            },
            Item::Enum(d) => if generic.contains(d.name@) {
                earlier.union_prefer_right(member_methods(d.name@, d.members@))
            } else {
                earlier
            },
            _ => earlier,
        }
    }
}

/// The key of a method as text.
pub open spec fn key_of(key: (String, String, bool)) -> MethodKey {
    (key.0@, key.1@, key.2)
}

pub open spec fn key_seq(keys: Seq<(String, String, bool)>) -> Seq<MethodKey> {
    keys.map_values(|key: (String, String, bool)| key_of(key))
}

/// The function stored under `key`: that of the first entry with that key.
pub open spec fn lookup_method(entries: Seq<((String, String, bool), &FunctionDecl)>, key: MethodKey) -> Option<
    FunctionDecl,
>
    decreases entries.len(),
{
    if entries.len() == 0 {
        None
    } else if key_of(entries[0].0) == key {
        Some(*entries[0].1)
    } else {
        lookup_method(entries.drop_first(), key)
    }
}

/// A list of method entries as a map.
pub open spec fn method_map(entries: Seq<((String, String, bool), &FunctionDecl)>) -> Map<MethodKey, FunctionDecl> {
    Map::new(|k: MethodKey| lookup_method(entries, k) is Some, |k: MethodKey| lookup_method(entries, k).unwrap())
}

/// Whether `key` is the method `owner.name` of the given kind.
fn key_is(key: &(String, String, bool), owner: &str, name: &str, static_: bool) -> (same: bool)
    ensures
        same == (key_of(*key) == (owner@, name@, static_)),
{
    if key.2 != static_ {
        return false;
    }
    let owner_text = String::from_str(owner);
    let name_text = String::from_str(name);
    key.0.eq(&owner_text) && key.1.eq(&name_text)
}

/// The function stored under the key `(owner, name, static_)`.
fn find_method<'a>(entries: &Vec<((String, String, bool), &'a FunctionDecl)>, owner: &str, name: &str, static_: bool) -> (found:
    Option<&'a FunctionDecl>)
    ensures
        found is Some <==> method_map(entries@).dom().contains((owner@, name@, static_)),
        found matches Some(f) ==> *f == method_map(entries@)[(owner@, name@, static_)],
{
    let ghost key = (owner@, name@, static_);
    assert(entries@.skip(0) =~= entries@);
    let mut i: usize = 0;
    while i < entries.len()
        invariant
            i <= entries@.len(),
            key == (owner@, name@, static_),
            lookup_method(entries@, key) == lookup_method(entries@.skip(i as int), key),
        decreases entries.len() - i,
    {
        assert(entries@.skip(i as int).drop_first() =~= entries@.skip(i + 1));
        if key_is(&entries[i].0, owner, name, static_) {
            return Some(entries[i].1);
        }
        i = i + 1;
    }
    None
}

proof fn lemma_method_update(
    entries: Seq<((String, String, bool), &FunctionDecl)>,
    i: int,
    entry: ((String, String, bool), &FunctionDecl),
    k: MethodKey,
)
    requires
        0 <= i < entries.len(),
        key_of(entries[i].0) == key_of(entry.0),
        forall|j: int| 0 <= j < i ==> key_of(#[trigger] entries[j].0) != key_of(entry.0),
    ensures
        lookup_method(entries.update(i, entry), k) == if k == key_of(entry.0) {
            Some(*entry.1)
        } else {
            lookup_method(entries, k)
        },
    decreases i,
{
    let updated = entries.update(i, entry);
    if i > 0 {
        assert(updated[0] == entries[0]);
        assert(updated.drop_first() =~= entries.drop_first().update(i - 1, entry));
        assert forall|j: int| 0 <= j < i - 1 implies key_of(#[trigger] entries.drop_first()[j].0) != key_of(entry.0) by {
            assert(entries.drop_first()[j] == entries[j + 1]);
        }
        lemma_method_update(entries.drop_first(), i - 1, entry, k);
    } else {
        assert(updated[0] == entry);
        assert(updated.drop_first() =~= entries.drop_first());
    }
}

proof fn lemma_method_push(
    entries: Seq<((String, String, bool), &FunctionDecl)>,
    entry: ((String, String, bool), &FunctionDecl),
    k: MethodKey,
)
    requires
        forall|j: int| 0 <= j < entries.len() ==> key_of(#[trigger] entries[j].0) != key_of(entry.0),
    ensures
        lookup_method(entries.push(entry), k) == if k == key_of(entry.0) {
            Some(*entry.1)
        } else {
            lookup_method(entries, k)
        },
    decreases entries.len(),
{
    let pushed = entries.push(entry);
    assert(pushed[entries.len() as int] == entry);
    if entries.len() > 0 {
        assert(pushed[0] == entries[0]);
        assert(key_of(entries[0].0) != key_of(entry.0));
        assert(pushed.drop_first() =~= entries.drop_first().push(entry));
        assert forall|j: int| 0 <= j < entries.len() - 1 implies key_of(#[trigger] entries.drop_first()[j].0) != key_of(
            entry.0,
        ) by {
            assert(entries.drop_first()[j] == entries[j + 1]);
        }
        lemma_method_push(entries.drop_first(), entry, k);
    } else {
        assert(pushed[0] == entry);
        assert(pushed.drop_first() =~= Seq::<((String, String, bool), &FunctionDecl)>::empty());
        assert(lookup_method(pushed.drop_first(), k) is None);
    }
}

/// Stores `function` under the key `(owner, name, static_)`.
fn insert_method<'a>(
    entries: &mut Vec<((String, String, bool), &'a FunctionDecl)>,
    owner: &String,
    name: &String,
    static_: bool,
    function: &'a FunctionDecl,
)
    ensures
        method_map(final(entries)@) == method_map(old(entries)@).insert((owner@, name@, static_), *function),
{
    let ghost key = (owner@, name@, static_);
    let entry = ((owner.clone(), name.clone(), static_), function);
    assert(key_of(entry.0) == key);
    let mut i: usize = 0;
    while i < entries.len()
        invariant
            i <= entries@.len(),
            entries@ == old(entries)@,
            key_of(entry.0) == key,
            key == (owner@, name@, static_),
            entry.1 == function,
            forall|j: int| 0 <= j < i ==> key_of(#[trigger] entries@[j].0) != key,
        decreases entries.len() - i,
    {
        let same = key_is(&entries[i].0, owner.as_str(), name.as_str(), static_);
        if same {
            let ghost before = entries@;
            entries.set(i, entry);
            proof {
                assert forall|k: MethodKey| #[trigger] lookup_method(entries@, k) == if k == key {
                    Some(*function)
                } else {
                    lookup_method(before, k)
                } by {
                    lemma_method_update(before, i as int, entry, k);
                }
                assert(method_map(entries@) =~= method_map(before).insert(key, *function));
            }
            return;
        }
        i = i + 1;
    }
    let ghost before = entries@;
    entries.push(entry);
    proof {
        assert forall|k: MethodKey| #[trigger] lookup_method(entries@, k) == if k == key {
            Some(*function)
        } else {
            lookup_method(before, k)
        } by {
            lemma_method_push(before, entry, k);
        }
        assert(method_map(entries@) =~= method_map(before).insert(key, *function));
    }
}

/// Stores each named method and static method of `owner` under its key.
fn insert_member_methods<'a>(
    entries: &mut Vec<((String, String, bool), &'a FunctionDecl)>,
    owner: &String,
    members: &'a Vec<StructMember>,
)
    ensures
        method_map(final(entries)@) == method_map(old(entries)@).union_prefer_right(
            member_methods(owner@, members@),
        ),
{
    let mut i: usize = 0;
    while i < members.len()
        invariant
            i <= members@.len(),
            method_map(entries@) == method_map(old(entries)@).union_prefer_right(
                member_methods(owner@, members@.take(i as int)),
            ),
        decreases members.len() - i,
    {
        let ghost earlier = member_methods(owner@, members@.take(i as int));
        assert(members@.take(i + 1).drop_last() =~= members@.take(i as int));
        assert(members@.take(i + 1).last() == members@[i as int]);
        match &members[i] {
            StructMember::Method(function) => {
                if let Some(name) = &function.name {
                    insert_method(entries, owner, name, false, function);
                    assert(method_map(old(entries)@).union_prefer_right(earlier).insert(
                        (owner@, name@, false),
                        *function,
                    ) =~= method_map(old(entries)@).union_prefer_right(
                        earlier.insert((owner@, name@, false), *function),
                    ));
                }
            },
            StructMember::StaticMethod(function) => {
                if let Some(name) = &function.name {
                    insert_method(entries, owner, name, true, function);
                    assert(method_map(old(entries)@).union_prefer_right(earlier).insert(
                        (owner@, name@, true),
                        *function,
                    ) =~= method_map(old(entries)@).union_prefer_right(
                        earlier.insert((owner@, name@, true), *function),
                    ));
                }
            },
            StructMember::Field(_) => {},
        }
        i = i + 1;
    }
    assert(members@.take(members@.len() as int) =~= members@);
}

/// What a method of `owner` returns, when concrete; `Self` stands for the owner.
fn method_return(owner: &String, function: &FunctionDecl) -> (found: Option<String>)
    ensures
        opt_text(found) == declared_return(owner@, *function),
{
    match &function.return_type {
        Some(type_ref) => {
            if type_ref.args.len() == 0 && crate::text::string_is(&type_ref.name, "Self") {
                Some(owner.clone())
            } else if type_ref.args.len() == 0 {
                Some(type_ref.name.clone())
            } else {
                None
            }
        },
        None => None,
    }
}

/// The shape that `members` give a struct (with fields) or an enum (without).
fn build_shape(owner: &String, members: &Vec<StructMember>, with_fields: bool) -> (shape: StructShape)
    ensures
        shape@ == members_shape(owner@, members@, with_fields),
{
    let mut fields: Vec<(String, String)> = Vec::new();
    let mut methods: Vec<(String, Option<String>)> = Vec::new();
    let mut static_methods: Vec<(String, Option<String>)> = Vec::new();
    assert(text_map(fields@) =~= Map::empty());
    assert(return_map(methods@) =~= Map::empty());
    assert(return_map(static_methods@) =~= Map::empty());
    let mut i: usize = 0;
    while i < members.len()
        invariant
            i <= members@.len(),
            text_map(fields@) == if with_fields {
                member_fields(members@.take(i as int))
            } else {
                Map::<Seq<char>, Seq<char>>::empty()
            },
            return_map(methods@) == member_returns(owner@, members@.take(i as int), false),
            return_map(static_methods@) == member_returns(owner@, members@.take(i as int), true),
        decreases members.len() - i,
    {
        assert(members@.take(i + 1).drop_last() =~= members@.take(i as int));
        assert(members@.take(i + 1).last() == members@[i as int]);
        match &members[i] {
            StructMember::Field(field) => {
                if with_fields && field.type_ref.args.len() == 0 {
                    let ghost before = text_map(fields@);
                    insert_pair(&mut fields, field.name.as_str(), field.type_ref.name.clone());
                    assert(text_map(fields@) =~= before.insert(field.name@, field.type_ref.name@));
                }
            },
            StructMember::Method(function) => {
                if let Some(name) = &function.name {
                    let ghost before = return_map(methods@);
                    let returned = method_return(owner, function);
                    insert_pair(&mut methods, name.as_str(), returned);
                    assert(return_map(methods@) =~= before.insert(name@, declared_return(owner@, *function)));
                }
            },
            StructMember::StaticMethod(function) => {
                if let Some(name) = &function.name {
                    let ghost before = return_map(static_methods@);
                    let returned = method_return(owner, function);
                    insert_pair(&mut static_methods, name.as_str(), returned);
                    assert(return_map(static_methods@) =~= before.insert(
                        name@,
                        declared_return(owner@, *function),
                    ));
                }
            },
        }
        i = i + 1;
    }
    assert(members@.take(members@.len() as int) =~= members@);
    let shape = StructShape { fields, methods, static_methods };
    assert(shape@ =~= members_shape(owner@, members@, with_fields));
    shape
}

pub open spec fn map_get<V>(map: Map<Seq<char>, V>, key: Seq<char>) -> Option<V> {
    if map.dom().contains(key) {
        Some(map[key])
    } else {
        None
    }
}

pub open spec fn flat(value: Option<Option<Seq<char>>>) -> Option<Seq<char>> {
    match value {
        Some(Some(t)) => Some(t),
        _ => None,
    }
}

/// Whether `name` is `source`, or a path that ends in `::source`.
pub open spec fn names_source(name: Seq<char>, source: Seq<char>) -> bool {
    name == source || (name.len() >= source.len() + 2 && name.subrange(
        name.len() - source.len() - 2,
        name.len() as int,
    ) == "::"@ + source)
}

/// The first name in `order` that names `source`.
pub open spec fn first_named(order: Seq<Seq<char>>, source: Seq<char>) -> Option<Seq<char>>
    decreases order.len(),
{
    if order.len() == 0 {
        None
    } else if names_source(order[0], source) {
        Some(order[0])
    } else {
        first_named(order.drop_first(), source)
    }
}

/// The name of the generic type `name` applied to `args`.
pub open spec fn spec_specialized(name: Seq<char>, args: Seq<TypeRef>) -> Seq<char> {
    name + "<"@ + join_seqs(arg_parts(args, args.len() as int), ", "@) + ">"@
}

/// The type whose static method a call through `object` names: `Self`, a
/// struct or enum named outright and not shadowed by a local, or a struct or
/// enum given by a generic type applied to arguments.
pub open spec fn static_owner(shapes: Shapes, locals: Map<Seq<char>, Seq<char>>, object: Expr) -> Option<Seq<char>> {
    match object.kind {
        ExprKind::Identifier(id) => if id@ == "Self"@ {
            map_get(locals, id@)
        } else if !locals.dom().contains(id@) && (shapes.structs.dom().contains(id@) || shapes.enums.dom().contains(
            id@,
        )) {
            Some(id@)
        } else {
            None
        },
        ExprKind::GenericType { name, args } => {
            let t = spec_specialized(name@, args@);
            if shapes.structs.dom().contains(t) || shapes.enums.dom().contains(t) {
                Some(t)
            } else {
                None
            }
        },
        _ => None,
    }
}

/// The entry for method `name` of `owner` in a table of shapes, if it has one.
pub open spec fn shape_return(table: Map<Seq<char>, ShapeView>, owner: Seq<char>, name: Seq<char>, static_: bool) -> Option<
    Option<Seq<char>>,
> {
    if table.dom().contains(owner) {
        map_get(
            if static_ {
                table[owner].static_methods
            } else {
                table[owner].methods
            },
            name,
        )
    } else {
        None
    }
}

/// What method `name` of `owner` returns: as the struct declares it, else as
/// the enum does.
pub open spec fn method_type(shapes: Shapes, owner: Seq<char>, name: Seq<char>, static_: bool) -> Option<Seq<char>> {
    match shape_return(shapes.structs, owner, name, static_) {
        Some(returned) => returned,
        None => flat(shape_return(shapes.enums, owner, name, static_)),
    }
}

/// The name of the type that the walk gives an expression, where it knows one.
pub open spec fn expr_type(shapes: Shapes, locals: Map<Seq<char>, Seq<char>>, expr: Expr) -> Option<Seq<char>>
    decreases expr, 0nat,
{
    match expr.kind {
        ExprKind::Identifier(name) => map_get(locals, name@),
        ExprKind::StructInit { name, .. } => if shapes.structs.dom().contains(name@) {
            Some(name@)
        } else {
            None
        },
        ExprKind::Range { inclusive, .. } => first_named(
            shapes.struct_order,
            if inclusive {
                "RangeInclusive"@
            } else {
                "Range"@
            },
        ),
        ExprKind::Member { object, name } => match expr_type(shapes, locals, *object) {
            Some(t) => if shapes.structs.dom().contains(t) {
                map_get(shapes.structs[t].fields, name@)
            } else {
                None
            },
            None => None,
        },
        ExprKind::GenericMember { object, .. } => expr_type(shapes, locals, *object),
        ExprKind::Call { callee, .. } => call_type(shapes, locals, *callee),
        ExprKind::CollectionLiteral { collection, .. } => Some(collection.name@),
        ExprKind::Unary { operand, .. } => expr_type(shapes, locals, *operand),
        ExprKind::PostfixIncrement(operand) => expr_type(shapes, locals, *operand),
        ExprKind::Match { branches, .. } => branches_type(shapes, locals, branches@),
        ExprKind::String(_) => Some("string"@),
        ExprKind::Char(_) => Some("char"@),
        ExprKind::Number(value) => Some(
            if spec_number_is_float(value@) {
                "f64"@
            } else {
                "i32"@
            },
        ),
        ExprKind::Bool(_) => Some("bool"@),
        ExprKind::Comptime(inner) => expr_type(shapes, locals, *inner),
        _ => None,
    }
}

/// The type of a call, given its callee.
pub open spec fn call_type(shapes: Shapes, locals: Map<Seq<char>, Seq<char>>, callee: Expr) -> Option<Seq<char>>
    decreases callee, 1nat,
{
    match callee.kind {
        ExprKind::Identifier(name) => flat(map_get(shapes.functions, name@)),
        ExprKind::Member { object, name } => match static_owner(shapes, locals, *object) {
            Some(t) => method_type(shapes, t, name@, true),
            None => {
                let object_type = expr_type(shapes, locals, *object);
                if name@ == "clone"@ {
                    object_type
                } else {
                    match object_type {
                        Some(t) => method_type(shapes, t, name@, false),
                        None => None,
                    }
                }
            },
        },
        _ => None,
    }
}

/// The type of a `match`: that of the first branch whose body is an
/// expression of known type.
pub open spec fn branches_type(shapes: Shapes, locals: Map<Seq<char>, Seq<char>>, branches: Seq<MatchBranch>) -> Option<
    Seq<char>,
>
    decreases branches, 1nat,
{
    if branches.len() == 0 {
        None
    } else {
        let earlier = branches_type(shapes, locals, branches.subrange(0, branches.len() - 1));
        if earlier is Some {
            earlier
        } else {
            match branches[branches.len() - 1].body {
                MatchBranchBody::Expr(e) => expr_type(shapes, locals, *e),
                MatchBranchBody::Block(_) => None,
            }
        }
    }
}

/// The key itself, when it is that of a tracked method.
pub open spec fn exact(methods: Set<MethodKey>, key: MethodKey) -> Set<MethodKey> {
    if methods.contains(key) {
        set![key]
    } else {
        Set::empty()
    }
}

/// Every tracked non-static method named `name`, whatever its owner.
pub open spec fn matching(methods: Set<MethodKey>, name: Seq<char>) -> Set<MethodKey> {
    methods.filter(|key: MethodKey| key.1 == name && !key.2)
}

/// The tracked methods that an expression calls.
pub open spec fn expr_keys(shapes: Shapes, methods: Set<MethodKey>, locals: Map<Seq<char>, Seq<char>>, expr: Expr) -> Set<
    MethodKey,
>
    decreases expr, 0nat,
{
    match expr.kind {
        ExprKind::StructInit { fields, .. } => fields_keys(shapes, methods, locals, fields@),
        ExprKind::Range { start, end, .. } => expr_keys(shapes, methods, locals, *start).union(
            expr_keys(shapes, methods, locals, *end),
        ),
        ExprKind::Member { object, .. } => expr_keys(shapes, methods, locals, *object),
        ExprKind::GenericMember { object, .. } => expr_keys(shapes, methods, locals, *object),
        ExprKind::Call { callee, args } => exprs_keys(shapes, methods, locals, args@).union(
            call_keys(shapes, methods, locals, *callee),
        ),
        ExprKind::Array(items) => exprs_keys(shapes, methods, locals, items@),
        ExprKind::CollectionLiteral { items, .. } => exprs_keys(shapes, methods, locals, items@),
        ExprKind::Binary { left, right, .. } => expr_keys(shapes, methods, locals, *left).union(
            expr_keys(shapes, methods, locals, *right),
        ),
        ExprKind::Unary { operand, .. } => expr_keys(shapes, methods, locals, *operand),
        ExprKind::PostfixIncrement(operand) => expr_keys(shapes, methods, locals, *operand),
        ExprKind::Match { value, branches } => expr_keys(shapes, methods, locals, *value).union(
            branches_keys(shapes, methods, locals, branches@),
        ),
        ExprKind::Lambda(function) => function_keys(shapes, methods, function, None, false),
        ExprKind::Block(block) => block_keys(shapes, methods, locals, block),
        ExprKind::Comptime(inner) => expr_keys(shapes, methods, locals, *inner),
        _ => Set::empty(),
    }
}

/// The tracked methods that the callee of a call names or calls.
pub open spec fn call_keys(shapes: Shapes, methods: Set<MethodKey>, locals: Map<Seq<char>, Seq<char>>, callee: Expr) -> Set<
    MethodKey,
>
    decreases callee, 1nat,
{
    match callee.kind {
        ExprKind::Identifier(_) => Set::empty(),
        ExprKind::Member { object, name } => match static_owner(shapes, locals, *object) {
            Some(t) => exact(methods, (t, name@, true)),
            None => expr_keys(shapes, methods, locals, *object).union(
                if name@ == "clone"@ {
                    Set::empty()
                } else {
                    match expr_type(shapes, locals, *object) {
                        Some(t) => exact(methods, (t, name@, false)),
                        None => matching(methods, name@),
                    }
                },
            ),
        },
        _ => expr_keys(shapes, methods, locals, callee),
    }
}

pub open spec fn exprs_keys(shapes: Shapes, methods: Set<MethodKey>, locals: Map<Seq<char>, Seq<char>>, items: Seq<Expr>) -> Set<
    MethodKey,
>
    decreases items, 1nat,
{
    if items.len() == 0 {
        Set::empty()
    } else {
        exprs_keys(shapes, methods, locals, items.subrange(0, items.len() - 1)).union(
            expr_keys(shapes, methods, locals, items[items.len() - 1]),
        )
    }
}

pub open spec fn fields_keys(
    shapes: Shapes,
    methods: Set<MethodKey>,
    locals: Map<Seq<char>, Seq<char>>,
    fields: Seq<StructInitField>,
) -> Set<MethodKey>
    decreases fields, 1nat,
{
    if fields.len() == 0 {
        Set::empty()
    } else {
        fields_keys(shapes, methods, locals, fields.subrange(0, fields.len() - 1)).union(
            expr_keys(shapes, methods, locals, fields[fields.len() - 1].value),
        )
    }
}

pub open spec fn branches_keys(
    shapes: Shapes,
    methods: Set<MethodKey>,
    locals: Map<Seq<char>, Seq<char>>,
    branches: Seq<MatchBranch>,
) -> Set<MethodKey>
    decreases branches, 1nat,
{
    if branches.len() == 0 {
        Set::empty()
    } else {
        branches_keys(shapes, methods, locals, branches.subrange(0, branches.len() - 1)).union(
            branch_keys(shapes, methods, locals, branches[branches.len() - 1]),
        )
    }
}

pub open spec fn branch_keys(shapes: Shapes, methods: Set<MethodKey>, locals: Map<Seq<char>, Seq<char>>, branch: MatchBranch) -> Set<
    MethodKey,
>
    decreases branch, 0nat,
{
    let guard = match branch.guard {
        Some(g) => expr_keys(shapes, methods, locals, g),
        None => Set::empty(),
    };
    guard.union(
        match branch.body {
            MatchBranchBody::Expr(e) => expr_keys(shapes, methods, locals, *e),
            MatchBranchBody::Block(b) => block_keys(shapes, methods, locals, b),
        },
    )
}

/// The locals that a function starts with: `Self` and `self` for a method of
/// `owner`, and each parameter of concrete type.
pub open spec fn function_locals(owner: Option<Seq<char>>, has_self: bool, params: Seq<Param>) -> Map<Seq<char>, Seq<char>> {
    let start = match owner {
        Some(o) => if has_self {
            Map::<Seq<char>, Seq<char>>::empty().insert("Self"@, o).insert("self"@, o)
        } else {
            Map::<Seq<char>, Seq<char>>::empty().insert("Self"@, o)
        },
        None => Map::empty(),
    };
    params_locals(start, params)
}

pub open spec fn params_locals(locals: Map<Seq<char>, Seq<char>>, params: Seq<Param>) -> Map<Seq<char>, Seq<char>>
    decreases params.len(),
{
    if params.len() == 0 {
        locals
    } else {
        let earlier = params_locals(locals, params.drop_last());
        match params.last().type_ref {
            Some(t) => if t.args@.len() == 0 {
                earlier.insert(params.last().name@, t.name@)
            } else {
                earlier
            },
            None => earlier,
        }
    }
}

/// The tracked methods that a function calls, walked as a method of `owner`
/// (with `self` when `has_self`) or as a free function.
pub open spec fn function_keys(
    shapes: Shapes,
    methods: Set<MethodKey>,
    function: FunctionDecl,
    owner: Option<Seq<char>>,
    has_self: bool,
) -> Set<MethodKey>
    decreases function, 0nat,
{
    let locals = function_locals(owner, has_self, function.params@);
    match function.body {
        FunctionBody::Block(b) => block_keys(shapes, methods, locals, b),
        FunctionBody::Expr(e) => expr_keys(shapes, methods, locals, *e),
    }
}

pub open spec fn block_keys(shapes: Shapes, methods: Set<MethodKey>, locals: Map<Seq<char>, Seq<char>>, block: Block) -> Set<
    MethodKey,
>
    decreases block, 0nat,
{
    stmts_keys(shapes, methods, locals, block.statements@)
}

/// The type that a `let` gives its name: its concrete annotation (`Self`
/// read as the local `Self` where there is one), else that of its value.
pub open spec fn let_type(
    shapes: Shapes,
    locals: Map<Seq<char>, Seq<char>>,
    annotation: Option<TypeRef>,
    value: Option<Expr>,
) -> Option<Seq<char>> {
    match annotation {
        Some(t) if t.args@.len() == 0 => Some(
            if t.name@ == "Self"@ {
                match map_get(locals, "Self"@) {
                    Some(s) => s,
                    None => t.name@,
                }
            } else {
                t.name@
            },
        ),
        _ => match value {
            Some(v) => expr_type(shapes, locals, v),
            None => None,
        },
    }
}

/// The locals after a statement: a `let` of known type adds its name.
pub open spec fn stmt_locals(shapes: Shapes, locals: Map<Seq<char>, Seq<char>>, statement: Stmt) -> Map<Seq<char>, Seq<char>> {
    match statement.kind {
        StmtKind::Let { name, type_annotation, value, .. } => match let_type(shapes, locals, type_annotation, value) {
            Some(t) => locals.insert(name@, t),
            None => locals,
        },
        _ => locals,
    }
}

pub open spec fn stmts_locals(shapes: Shapes, locals: Map<Seq<char>, Seq<char>>, statements: Seq<Stmt>) -> Map<
    Seq<char>,
    Seq<char>,
>
    decreases statements.len(),
{
    if statements.len() == 0 {
        locals
    } else {
        stmt_locals(
            shapes,
            stmts_locals(shapes, locals, statements.subrange(0, statements.len() - 1)),
            statements[statements.len() - 1],
        )
    }
}

pub open spec fn stmts_keys(shapes: Shapes, methods: Set<MethodKey>, locals: Map<Seq<char>, Seq<char>>, statements: Seq<Stmt>) -> Set<
    MethodKey,
>
    decreases statements, 1nat,
{
    if statements.len() == 0 {
        Set::empty()
    } else {
        let earlier = statements.subrange(0, statements.len() - 1);
        stmts_keys(shapes, methods, locals, earlier).union(
            stmt_keys(shapes, methods, stmts_locals(shapes, locals, earlier), statements[statements.len() - 1]),
        )
    }
}

pub open spec fn stmt_keys(shapes: Shapes, methods: Set<MethodKey>, locals: Map<Seq<char>, Seq<char>>, statement: Stmt) -> Set<
    MethodKey,
>
    decreases statement, 0nat,
{
    match statement.kind {
        StmtKind::Let { value, .. } => match value {
            Some(v) => expr_keys(shapes, methods, locals, v),
            None => Set::empty(),
        },
        StmtKind::Assign { target, value, .. } => expr_keys(shapes, methods, locals, target).union(
            expr_keys(shapes, methods, locals, value),
        ),
        StmtKind::Return { value } => match value {
            Some(v) => expr_keys(shapes, methods, locals, v),
            None => Set::empty(),
        },
        StmtKind::If { condition, then_branch, else_branch } => expr_keys(shapes, methods, locals, condition).union(
            block_keys(shapes, methods, locals, then_branch),
        ).union(
            match else_branch {
                Some(ElseBranch::Block(b)) => block_keys(shapes, methods, locals, b),
                Some(ElseBranch::If(s)) => stmt_keys(shapes, methods, locals, *s),
                None => Set::empty(),
            },
        ),
        StmtKind::While { condition, body } => expr_keys(shapes, methods, locals, condition).union(
            block_keys(shapes, methods, locals, body),
        ),
        StmtKind::For { iterable, body, .. } => expr_keys(shapes, methods, locals, iterable).union(
            block_keys(shapes, methods, locals, body),
        ),
        StmtKind::Expr(e) => expr_keys(shapes, methods, locals, e),
        _ => Set::empty(),
    }
}

/// The tracked methods that the methods and static methods among `members`
/// of `owner` call.
pub open spec fn members_root_keys(shapes: Shapes, methods: Set<MethodKey>, owner: Seq<char>, members: Seq<StructMember>) -> Set<
    MethodKey,
>
    decreases members.len(),
{
    if members.len() == 0 {
        Set::empty()
    } else {
        let earlier = members_root_keys(shapes, methods, owner, members.drop_last());
        match members.last() {
            StructMember::Method(f) => earlier.union(function_keys(shapes, methods, f, Some(owner), true)),
            StructMember::StaticMethod(f) => earlier.union(function_keys(shapes, methods, f, Some(owner), false)),
            StructMember::Field(_) => earlier,
        }
    }
}

/// The tracked methods that the functions of an impl for `owner` call.
pub open spec fn impl_root_keys(shapes: Shapes, methods: Set<MethodKey>, owner: Seq<char>, members: Seq<ImplMember>) -> Set<
    MethodKey,
>
    decreases members.len(),
{
    if members.len() == 0 {
        Set::empty()
    } else {
        let m = members.last();
        impl_root_keys(shapes, methods, owner, members.drop_last()).union(
            function_keys(shapes, methods, m.function, Some(owner), !m.static_),
        )
    }
}

/// The tracked methods that the functions kept as they stand call: free
/// functions, extensions, impl functions, and the methods of the structs and
/// enums that are not in `generic`.
pub open spec fn root_keys(shapes: Shapes, methods: Set<MethodKey>, generic: Seq<Seq<char>>, items: Seq<Item>) -> Set<
    MethodKey,
>
    decreases items.len(),
{
    if items.len() == 0 {
        Set::empty()
    } else {
        let earlier = root_keys(shapes, methods, generic, items.drop_last());
        match items.last() {
            Item::Struct(d) => if generic.contains(d.name@) {
                earlier
            } else {
                earlier.union(members_root_keys(shapes, methods, d.name@, d.members@))
            },
            Item::Enum(d) => if generic.contains(d.name@) {
                earlier
            } else {
                earlier.union(members_root_keys(shapes, methods, d.name@, d.members@))
            },
            Item::Function(f) => earlier.union(function_keys(shapes, methods, f, None, false)),
            Item::Extension(x) => earlier.union(function_keys(shapes, methods, x.function, None, false)),
            Item::Impl(i) => earlier.union(impl_root_keys(shapes, methods, i.type_ref.name@, i.methods@)),
            _ => earlier,
        }
    }
}

/// The tracked methods that the tracked method `key` calls.
pub open spec fn method_keys(shapes: Shapes, table: Map<MethodKey, FunctionDecl>, key: MethodKey) -> Set<MethodKey> {
    function_keys(shapes, table.dom(), table[key], Some(key.0), !key.2)
}

/// Every tracked method in `keys` has the tracked methods that it calls in `keys`.
pub open spec fn closed_under_calls(shapes: Shapes, table: Map<MethodKey, FunctionDecl>, keys: Set<MethodKey>) -> bool {
    forall|k: MethodKey| #[trigger] keys.contains(k) && table.dom().contains(k) ==> method_keys(shapes, table, k).subset_of(keys)
}

/// `found` is the least set of tracked methods that holds `roots` and is
/// closed under calls: the methods that the roots call, directly or through
/// other tracked methods.
pub open spec fn reachable_from(shapes: Shapes, table: Map<MethodKey, FunctionDecl>, roots: Set<MethodKey>, found: Set<MethodKey>) -> bool {
    &&& roots.subset_of(found)
    &&& found.subset_of(table.dom())
    &&& closed_under_calls(shapes, table, found)
    &&& forall|keys: Set<MethodKey>|
        roots.subset_of(keys) && #[trigger] closed_under_calls(shapes, table, keys) ==> found.subset_of(keys)
}

/// `after` is `before` followed by new entries, and holds what `before` held
/// and `keys`.
pub open spec fn grown(before: Seq<MethodKey>, after: Seq<MethodKey>, keys: Set<MethodKey>) -> bool {
    &&& before.len() <= after.len()
    &&& after.subrange(0, before.len() as int) == before
    &&& after.to_set() == before.to_set().union(keys)
}

proof fn lemma_grown_refl(keys: Seq<MethodKey>)
    ensures
        grown(keys, keys, Set::empty()),
{
    assert(keys.subrange(0, keys.len() as int) =~= keys);
    assert(keys.to_set().union(Set::empty()) =~= keys.to_set());
}

proof fn lemma_grown_chain(a: Seq<MethodKey>, b: Seq<MethodKey>, c: Seq<MethodKey>, first: Set<MethodKey>, second: Set<MethodKey>)
    requires
        grown(a, b, first),
        grown(b, c, second),
    ensures
        grown(a, c, first.union(second)),
{
    assert(c.subrange(0, a.len() as int) =~= c.subrange(0, b.len() as int).subrange(0, a.len() as int));
    assert(a.to_set().union(first).union(second) =~= a.to_set().union(first.union(second)));
}

proof fn lemma_method_dom(entries: Seq<((String, String, bool), &FunctionDecl)>, k: MethodKey)
    ensures
        lookup_method(entries, k) is Some <==> exists|j: int| 0 <= j < entries.len() && key_of(#[trigger] entries[j].0) == k,
    decreases entries.len(),
{
    if entries.len() > 0 {
        lemma_method_dom(entries.drop_first(), k);
        if lookup_method(entries, k) is Some && key_of(entries[0].0) != k {
            let j = choose|j: int| 0 <= j < entries.len() - 1 && key_of(#[trigger] entries.drop_first()[j].0) == k;
            assert(entries.drop_first()[j] == entries[j + 1]);
        }
        if exists|j: int| 0 <= j < entries.len() && key_of(#[trigger] entries[j].0) == k {
            let j = choose|j: int| 0 <= j < entries.len() && key_of(#[trigger] entries[j].0) == k;
            if j > 0 {
                assert(entries.drop_first()[j - 1] == entries[j]);
            }
        }
    }
}

proof fn lemma_found_push(used: Seq<(String, String, bool)>, key: (String, String, bool))
    ensures
        key_seq(used.push(key)) == key_seq(used).push(key_of(key)),
{
    assert(key_seq(used.push(key)) =~= key_seq(used).push(key_of(key)));
}

/// A copy of the locals.
fn copy_locals(locals: &Vec<(String, String)>) -> (copy: Vec<(String, String)>)
    ensures
        text_map(copy@) == text_map(locals@),
{
    let mut copy: Vec<(String, String)> = Vec::new();
    let mut i: usize = 0;
    while i < locals.len()
        invariant
            i <= locals@.len(),
            copy@.len() == i,
            forall|j: int| #![trigger copy@[j]] 0 <= j < i ==> copy@[j].0@ == locals@[j].0@ && copy@[j].1@ == locals@[j].1@,
        decreases locals.len() - i,
    {
        copy.push((locals[i].0.clone(), locals[i].1.clone()));
        i = i + 1;
    }
    proof {
        assert forall|k: Seq<char>| #[trigger] lookup_pair(copy@, k) is Some == lookup_pair(locals@, k) is Some && (lookup_pair(
            copy@,
            k,
        ) is Some ==> lookup_pair(copy@, k).unwrap()@ == lookup_pair(locals@, k).unwrap()@) by {
            lemma_lookup_copy(copy@, locals@, k);
        }
        assert(text_map(copy@) =~= text_map(locals@));
    }
    copy
}

proof fn lemma_lookup_copy(a: Seq<(String, String)>, b: Seq<(String, String)>, k: Seq<char>)
    requires
        a.len() == b.len(),
        forall|j: int| #![trigger a[j]] 0 <= j < a.len() ==> a[j].0@ == b[j].0@ && a[j].1@ == b[j].1@,
    ensures
        lookup_pair(a, k) is Some == lookup_pair(b, k) is Some,
        lookup_pair(a, k) is Some ==> lookup_pair(a, k).unwrap()@ == lookup_pair(b, k).unwrap()@,
    decreases a.len(),
{
    if a.len() > 0 {
        assert(a[0].0@ == b[0].0@);
        assert forall|j: int| #![trigger a.drop_first()[j]] 0 <= j < a.len() - 1 implies a.drop_first()[j].0@ == b.drop_first()[j].0@
            && a.drop_first()[j].1@ == b.drop_first()[j].1@ by {
            assert(a.drop_first()[j] == a[j + 1]);
            assert(b.drop_first()[j] == b[j + 1]);
        }
        lemma_lookup_copy(a.drop_first(), b.drop_first(), k);
    }
}

/// The type of the local `name`, if the walk knows it.
fn local_type(locals: &Vec<(String, String)>, name: &str) -> (found: Option<String>)
    ensures
        opt_text(found) == map_get(text_map(locals@), name@),
{
    match crate::project::rewrite::find_pair(locals, name) {
        Some(t) => Some(t.clone()),
        None => None,
    }
}

/// Whether `name` is `source` or a path that ends in `::source`.
fn names_path_to(name: &str, source: &str) -> (named: bool)
    ensures
        named == names_source(name@, source@),
{
    let n = name.unicode_len();
    let m = source.unicode_len();
    if n == m {
        let mut same = true;
        let mut i: usize = 0;
        while i < n
            invariant
                n == name@.len(),
                m == source@.len(),
                n == m,
                i <= n,
                same == forall|j: int| 0 <= j < i ==> name@[j] == source@[j],
            decreases n - i,
        {
            if name.get_char(i) != source.get_char(i) {
                same = false;
            }
            i = i + 1;
        }
        proof {
            if same {
                assert(name@ =~= source@);
            }
            if name@.len() >= source@.len() + 2 {
                assert(false);
            }
        }
        return same;
    }
    if n < 2 || n - 2 < m {
        return false;
    }
    let start = n - m - 2;
    let mut same = name.get_char(start) == ':' && name.get_char(start + 1) == ':';
    let mut i: usize = 0;
    while i < m
        invariant
            n == name@.len(),
            m == source@.len(),
            n >= m + 2,
            start == n - m - 2,
            i <= m,
            same == (name@[start as int] == ':' && name@[start + 1] == ':' && forall|j: int|
                0 <= j < i ==> name@[start + 2 + j] == source@[j]),
        decreases m - i,
    {
        if name.get_char(start + 2 + i) != source.get_char(i) {
            same = false;
        }
        i = i + 1;
    }
    proof {
        let tail = name@.subrange(start as int, n as int);
        let wanted = "::"@ + source@;
        assert(wanted.len() == m + 2) by {
            reveal_strlit("::");
        }
        if same {
            assert forall|j: int| 0 <= j < tail.len() implies tail[j] == wanted[j] by {
                reveal_strlit("::");
                if j >= 2 {
                    assert(tail[j] == name@[start + 2 + (j - 2)]);
                }
            }
            assert(tail =~= wanted);
        }
        if tail == wanted {
            reveal_strlit("::");
            assert(tail[0] == wanted[0]);
            assert(tail[1] == wanted[1]);
            assert forall|j: int| 0 <= j < m implies name@[start + 2 + j] == source@[j] by {
                assert(tail[2 + j] == wanted[2 + j]);
            }
        }
        assert(name@ != source@);
    }
    same
}

/// Whether `name` is among `names`.
fn names_contain(names: &Vec<String>, name: &String) -> (found: bool)
    ensures
        found == string_views(names@).contains(name@),
{
    let found = contains_string(names, name);
    proof {
        if found {
            let i = choose|i: int| 0 <= i < names@.len() && #[trigger] names@[i]@ == name@;
            assert(string_views(names@)[i] == name@);
        }
        if string_views(names@).contains(name@) {
            let i = choose|i: int| 0 <= i < string_views(names@).len() && string_views(names@)[i] == name@;
            assert(names@[i]@ == name@);
        }
    }
    found
}

/// Which generic methods a program calls: the walk starts from every function
/// that is kept as it stands, and goes on into each generic method that it
/// finds called.
pub struct MethodReachability<'a> {
    pub structs: Vec<(String, StructShape)>,
    pub enums: Vec<(String, StructShape)>,
    pub functions: Vec<(String, Option<String>)>,
    pub generic_structs: &'a Vec<String>,
    pub generic_methods: Vec<((String, String, bool), &'a FunctionDecl)>,
    pub used: Vec<(String, String, bool)>,
}

impl<'a> MethodReachability<'a> {
    pub open spec fn shapes(&self) -> Shapes {
        Shapes {
            structs: shape_map(self.structs@),
            struct_order: pair_keys(self.structs@),
            enums: shape_map(self.enums@),
            functions: return_map(self.functions@),
        }
    }

    /// The methods of the generic structs and enums, under their keys.
    pub open spec fn methods(&self) -> Map<MethodKey, FunctionDecl> {
        method_map(self.generic_methods@)
    }

    /// The methods found called so far, in the order in which they were found.
    pub open spec fn found(&self) -> Seq<MethodKey> {
        key_seq(self.used@)
    }

    /// Each method found is a method of a generic struct or enum, and none is
    /// found twice.
    pub open spec fn wf(&self) -> bool {
        &&& self.found().no_duplicates()
        &&& self.found().to_set().subset_of(self.methods().dom())
    }

    /// The tables of `other` are those of `self`.
    pub open spec fn same_tables(&self, other: &Self) -> bool {
        &&& self.structs@ == other.structs@
        &&& self.enums@ == other.enums@
        &&& self.functions@ == other.functions@
        &&& self.generic_structs == other.generic_structs
        &&& self.generic_methods@ == other.generic_methods@
    }

    fn has_struct(&self, name: &str) -> (found: bool)
        ensures
            found == self.shapes().structs.dom().contains(name@),
    {
        find_pair(&self.structs, name).is_some()
    }

    fn has_enum(&self, name: &str) -> (found: bool)
        ensures
            found == self.shapes().enums.dom().contains(name@),
    {
        find_pair(&self.enums, name).is_some()
    }

    /// The concrete type of field `name` of the struct `owner`.
    fn field_type(&self, owner: &str, name: &str) -> (found: Option<String>)
        ensures
            opt_text(found) == (if self.shapes().structs.dom().contains(owner@) {
                map_get(self.shapes().structs[owner@].fields, name@)
            } else {
                None
            }),
    {
        match find_pair(&self.structs, owner) {
            Some(shape) => match find_pair(&shape.fields, name) {
                Some(t) => Some(t.clone()),
                None => None,
            },
            None => None,
        }
    }

    /// What the free function `name` returns, when concrete.
    fn function_return(&self, name: &str) -> (found: Option<String>)
        ensures
            opt_text(found) == flat(map_get(self.shapes().functions, name@)),
    {
        match find_pair(&self.functions, name) {
            Some(returned) => match returned {
                Some(t) => Some(t.clone()),
                None => None,
            },
            None => None,
        }
    }

    /// What method `name` of `owner` returns (see `method_type`).
    fn method_return_type(&self, owner: &str, name: &str, static_: bool) -> (found: Option<String>)
        ensures
            opt_text(found) == method_type(self.shapes(), owner@, name@, static_),
    {
        if let Some(shape) = find_pair(&self.structs, owner) {
            let table = if static_ {
                &shape.static_methods
            } else {
                &shape.methods
            };
            if let Some(returned) = find_pair(table, name) {
                return match returned {
                    Some(t) => Some(t.clone()),
                    None => None,
                };
            }
        }
        match find_pair(&self.enums, owner) {
            Some(shape) => {
                let table = if static_ {
                    &shape.static_methods
                } else {
                    &shape.methods
                };
                match find_pair(table, name) {
                    Some(returned) => match returned {
                        Some(t) => Some(t.clone()),
                        None => None,
                    },
                    None => None,
                }
            },
            None => None,
        }
    }

    /// The first struct, in declaration order, that names `source`.
    fn range_struct(&self, source: &str) -> (found: Option<String>)
        ensures
            opt_text(found) == first_named(self.shapes().struct_order, source@),
    {
        let ghost order = pair_keys(self.structs@);
        assert(order.skip(0) =~= order);
        let mut i: usize = 0;
        while i < self.structs.len()
            invariant
                i <= self.structs@.len(),
                order == pair_keys(self.structs@),
                first_named(order, source@) == first_named(order.skip(i as int), source@),
            decreases self.structs.len() - i,
        {
            assert(order.skip(i as int).drop_first() =~= order.skip(i + 1));
            assert(order.skip(i as int)[0] == self.structs@[i as int].0@);
            if names_path_to(self.structs[i].0.as_str(), source) {
                return Some(self.structs[i].0.clone());
            }
            i = i + 1;
        }
        None
    }

    /// The type whose static method a call through `object` names (see `static_owner`).
    fn static_owner(&self, object: &Expr, locals: &Vec<(String, String)>) -> (owner: Option<String>)
        ensures
            opt_text(owner) == static_owner(self.shapes(), text_map(locals@), *object),
    {
        match &object.kind {
            ExprKind::Identifier(id) => {
                if crate::text::string_is(id, "Self") {
                    local_type(locals, id.as_str())
                } else if local_type(locals, id.as_str()).is_none() && (self.has_struct(id.as_str()) || self.has_enum(
                    id.as_str(),
                )) {
                    Some(id.clone())
                } else {
                    None
                }
            },
            ExprKind::GenericType { name, args } => {
                let t = specialized_name(name.as_str(), args);
                if self.has_struct(t.as_str()) || self.has_enum(t.as_str()) {
                    Some(t)
                } else {
                    None
                }
            },
            _ => None,
        }
    }

    /// Whether the method has been found called.
    fn is_used(&self, owner: &str, name: &str, static_: bool) -> (used: bool)
        ensures
            used == self.found().contains((owner@, name@, static_)),
    {
        let mut i: usize = 0;
        while i < self.used.len()
            invariant
                i <= self.used@.len(),
                forall|j: int| 0 <= j < i ==> #[trigger] key_of(self.used@[j]) != (owner@, name@, static_),
            decreases self.used.len() - i,
        {
            if key_is(&self.used[i], owner, name, static_) {
                assert(self.found()[i as int] == (owner@, name@, static_));
                return true;
            }
            i = i + 1;
        }
        proof {
            if self.found().contains((owner@, name@, static_)) {
                let j = choose|j: int| 0 <= j < self.found().len() && self.found()[j] == (owner@, name@, static_);
                assert(key_of(self.used@[j]) == self.found()[j]);
            }
        }
        false
    }

    /// Records that the method `(owner, name, static_)` is called.
    fn use_method(&mut self, owner: &str, name: &str, static_: bool)
        requires
            old(self).wf(),
        ensures
            final(self).wf(),
            final(self).same_tables(old(self)),
            grown(old(self).found(), final(self).found(), exact(old(self).methods().dom(), (owner@, name@, static_))),
    {
        let ghost key = (owner@, name@, static_);
        let ghost before = self.found();
        let tracked_method = find_method(&self.generic_methods, owner, name, static_).is_some();
        if tracked_method && !self.is_used(owner, name, static_) {
            let entry = (String::from_str(owner), String::from_str(name), static_);
            proof {
                lemma_found_push(self.used@, entry);
            }
            self.used.push(entry);
            proof {
                assert(self.found() == before.push(key));
                before.lemma_push_to_set_commute(key);
                assert(before.push(key).subrange(0, before.len() as int) =~= before);
                assert(before.to_set().union(set![key]) =~= before.to_set().insert(key));
                assert forall|i: int, j: int|
                    0 <= i < self.found().len() && 0 <= j < self.found().len() && i != j implies self.found()[i]
                    != self.found()[j] by {
                    if i == before.len() {
                        assert(before.contains(before[j]));
                    } else if j == before.len() {
                        assert(before.contains(before[i]));
                    }
                }
            }
        } else {
            proof {
                lemma_grown_refl(before);
                if tracked_method {
                    assert(before.to_set().union(set![key]) =~= before.to_set());
                } else {
                    assert(exact(self.methods().dom(), key) =~= Set::empty());
                }
            }
        }
    }

    /// Records that every tracked non-static method named `name` is called.
    fn use_matching_methods(&mut self, name: &str)
        requires
            old(self).wf(),
        ensures
            final(self).wf(),
            final(self).same_tables(old(self)),
            grown(old(self).found(), final(self).found(), matching(old(self).methods().dom(), name@)),
    {
        let ghost entries = self.generic_methods@;
        let ghost dom = self.methods().dom();
        let mut keys: Vec<(String, String)> = Vec::new();
        let mut i: usize = 0;
        while i < self.generic_methods.len()
            invariant
                i <= entries.len(),
                entries == self.generic_methods@,
                forall|j: int| #![trigger keys@[j]] 0 <= j < keys@.len() ==> matching(dom, name@).contains((keys@[j].0@, keys@[j].1@, false)),
                forall|j: int|
                    #![trigger entries[j]]
                    0 <= j < i && entries[j].0.1@ == name@ && !entries[j].0.2 ==> exists|m: int|
                        0 <= m < keys@.len() && (#[trigger] keys@[m]).0@ == entries[j].0.0@ && keys@[m].1@ == entries[j].0.1@,
                dom == method_map(entries).dom(),
            decreases self.generic_methods.len() - i,
        {
            let key = &self.generic_methods[i].0;
            let ghost keys0 = keys@;
            if !key.2 && crate::text::string_is(&key.1, name) {
                proof {
                    lemma_method_dom(entries, key_of(entries[i as int].0));
                    assert(dom.contains(key_of(entries[i as int].0)));
                }
                keys.push((key.0.clone(), key.1.clone()));
                proof {
                    assert(keys@[keys@.len() - 1].0@ == entries[i as int].0.0@);
                    assert(keys@[keys@.len() - 1].1@ == entries[i as int].0.1@);
                }
            }
            proof {
                assert forall|j: int|
                    #![trigger entries[j]]
                    0 <= j < i + 1 && entries[j].0.1@ == name@ && !entries[j].0.2 implies exists|m: int|
                        0 <= m < keys@.len() && (#[trigger] keys@[m]).0@ == entries[j].0.0@ && keys@[m].1@
                            == entries[j].0.1@ by {
                    if j < i {
                        let m = choose|m: int|
                            0 <= m < keys0.len() && (#[trigger] keys0[m]).0@ == entries[j].0.0@ && keys0[m].1@
                                == entries[j].0.1@;
                        assert(keys@[m] == keys0[m]);
                    } else {
                        assert(keys@.len() > 0);
                        assert(keys@[keys@.len() - 1].0@ == entries[j].0.0@);
                    }
                }
            }
            i = i + 1;
        }
        let ghost start = self.found();
        proof {
            lemma_grown_refl(start);
        }
        let ghost mut added: Set<MethodKey> = Set::empty();
        let mut k: usize = 0;
        while k < keys.len()
            invariant
                k <= keys@.len(),
                self.wf(),
                self.same_tables(old(self)),
                dom == old(self).methods().dom(),
                forall|j: int| #![trigger keys@[j]] 0 <= j < keys@.len() ==> matching(dom, name@).contains((keys@[j].0@, keys@[j].1@, false)),
                added == Set::new(|key: MethodKey| exists|j: int| 0 <= j < k && key == (keys@[j].0@, keys@[j].1@, false)),
                grown(start, self.found(), added),
            decreases keys.len() - k,
        {
            let ghost found0 = self.found();
            let ghost key = (keys@[k as int].0@, keys@[k as int].1@, false);
            assert(matching(dom, name@).contains(key));
            self.use_method(keys[k].0.as_str(), keys[k].1.as_str(), false);
            proof {
                assert(exact(dom, key) =~= set![key]);
                lemma_grown_chain(start, found0, self.found(), added, set![key]);
                let next = Set::new(|x: MethodKey| exists|j: int| 0 <= j < k + 1 && x == (keys@[j].0@, keys@[j].1@, false));
                assert forall|x: MethodKey| next.contains(x) <==> added.union(set![key]).contains(x) by {
                    if next.contains(x) {
                        let j = choose|j: int| 0 <= j < k + 1 && x == (keys@[j].0@, keys@[j].1@, false);
                        if j < k {
                            assert(added.contains(x));
                        }
                    }
                    if added.contains(x) {
                        let j = choose|j: int| 0 <= j < k && x == (keys@[j].0@, keys@[j].1@, false);
                        assert(next.contains(x));
                    }
                    if x == key {
                        assert(next.contains(x));
                    }
                }
                assert(next =~= added.union(set![key]));
                added = next;
            }
            k = k + 1;
        }
        proof {
            assert forall|x: MethodKey| added.contains(x) <==> matching(dom, name@).contains(x) by {
                if matching(dom, name@).contains(x) {
                    lemma_method_dom(entries, x);
                    let j = choose|j: int| 0 <= j < entries.len() && key_of(#[trigger] entries[j].0) == x;
                    let m = choose|m: int|
                        0 <= m < keys@.len() && (#[trigger] keys@[m]).0@ == entries[j].0.0@ && keys@[m].1@ == entries[j].0.1@;
                    assert(added.contains(x));
                }
                if added.contains(x) {
                    let j = choose|j: int| 0 <= j < keys@.len() && x == (keys@[j].0@, keys@[j].1@, false);
                    assert(matching(dom, name@).contains((keys@[j].0@, keys@[j].1@, false)));
                }
            }
            assert(added =~= matching(dom, name@));
        }
    }

    /// Walks an expression: records the tracked methods that it calls (see
    /// `expr_keys`) and gives its type (see `expr_type`).
    #[verifier::spinoff_prover]
    #[verifier::rlimit(60)]
    fn visit_expr(&mut self, expr: &Expr, locals: &Vec<(String, String)>) -> (found: Option<String>)
        requires
            old(self).wf(),
        ensures
            final(self).wf(),
            final(self).same_tables(old(self)),
            grown(
                old(self).found(),
                final(self).found(),
                expr_keys(old(self).shapes(), old(self).methods().dom(), text_map(locals@), *expr),
            ),
            opt_text(found) == expr_type(old(self).shapes(), text_map(locals@), *expr),
        decreases expr, 0nat,
    {
        let ghost shapes = self.shapes();
        let ghost dom = self.methods().dom();
        let ghost l = text_map(locals@);
        let ghost start = self.found();
        proof {
            lemma_grown_refl(start);
        }
        match &expr.kind {
            ExprKind::Identifier(name) => local_type(locals, name.as_str()),
            ExprKind::StructInit { name, fields, .. } => {
                self.visit_fields(fields, locals);
                if self.has_struct(name.as_str()) {
                    Some(name.clone())
                } else {
                    None
                }
            },
            ExprKind::Range { start: first, end, inclusive } => {
                self.visit_expr(first, locals);
                let ghost middle = self.found();
                self.visit_expr(end, locals);
                proof {
                    lemma_grown_chain(
                        start,
                        middle,
                        self.found(),
                        expr_keys(shapes, dom, l, **first),
                        expr_keys(shapes, dom, l, **end),
                    );
                }
                if *inclusive {
                    self.range_struct("RangeInclusive")
                } else {
                    self.range_struct("Range")
                }
            },
            ExprKind::Member { object, name } => {
                let object_type = self.visit_expr(object, locals);
                match object_type {
                    Some(t) => self.field_type(t.as_str(), name.as_str()),
                    None => None,
                }
            },
            ExprKind::GenericMember { object, .. } => self.visit_expr(object, locals),
            ExprKind::Call { callee, args } => {
                self.visit_exprs(args, locals);
                let ghost middle = self.found();
                let found = self.visit_call(callee, locals);
                proof {
                    lemma_grown_chain(
                        start,
                        middle,
                        self.found(),
                        exprs_keys(shapes, dom, l, args@),
                        call_keys(shapes, dom, l, **callee),
                    );
                }
                found
            },
            ExprKind::Array(items) => {
                self.visit_exprs(items, locals);
                None
            },
            ExprKind::CollectionLiteral { collection, items } => {
                self.visit_exprs(items, locals);
                Some(collection.name.clone())
            },
            ExprKind::Binary { left, right, .. } => {
                self.visit_expr(left, locals);
                let ghost middle = self.found();
                self.visit_expr(right, locals);
                proof {
                    lemma_grown_chain(
                        start,
                        middle,
                        self.found(),
                        expr_keys(shapes, dom, l, **left),
                        expr_keys(shapes, dom, l, **right),
                    );
                }
                None
            },
            ExprKind::Unary { operand, .. } => self.visit_expr(operand, locals),
            ExprKind::PostfixIncrement(operand) => self.visit_expr(operand, locals),
            ExprKind::Match { value, branches } => {
                self.visit_expr(value, locals);
                let ghost middle = self.found();
                let found = self.visit_branches(branches, locals);
                proof {
                    lemma_grown_chain(
                        start,
                        middle,
                        self.found(),
                        expr_keys(shapes, dom, l, **value),
                        branches_keys(shapes, dom, l, branches@),
                    );
                }
                found
            },
            ExprKind::Lambda(function) => {
                self.visit_function(function, None, false);
                None
            },
            ExprKind::String(_) => Some(String::from_str("string")),
            ExprKind::Char(_) => Some(String::from_str("char")),
            ExprKind::Number(value) => {
                if number_literal_is_float(value.as_str()) {
                    Some(String::from_str("f64"))
                } else {
                    Some(String::from_str("i32"))
                }
            },
            ExprKind::Bool(_) => Some(String::from_str("bool")),
            ExprKind::Block(block) => {
                self.visit_block(block, copy_locals(locals));
                None
            },
            ExprKind::Comptime(inner) => self.visit_expr(inner, locals),
            ExprKind::GenericType { .. } => None,
            ExprKind::Missing => None,
        }
    }

    /// Walks the callee of a call: records the tracked methods that it names
    /// or calls (see `call_keys`) and gives the call's type (see `call_type`).
    #[verifier::spinoff_prover]
    #[verifier::rlimit(40)]
    fn visit_call(&mut self, callee: &Expr, locals: &Vec<(String, String)>) -> (found: Option<String>)
        requires
            old(self).wf(),
        ensures
            final(self).wf(),
            final(self).same_tables(old(self)),
            grown(
                old(self).found(),
                final(self).found(),
                call_keys(old(self).shapes(), old(self).methods().dom(), text_map(locals@), *callee),
            ),
            opt_text(found) == call_type(old(self).shapes(), text_map(locals@), *callee),
        decreases callee, 1nat,
    {
        let ghost shapes = self.shapes();
        let ghost dom = self.methods().dom();
        let ghost l = text_map(locals@);
        let ghost start = self.found();
        proof {
            lemma_grown_refl(start);
        }
        match &callee.kind {
            ExprKind::Identifier(name) => self.function_return(name.as_str()),
            ExprKind::Member { object, name } => {
                match self.static_owner(object, locals) {
                    Some(t) => {
                        self.use_method(t.as_str(), name.as_str(), true);
                        self.method_return_type(t.as_str(), name.as_str(), true)
                    },
                    None => {
                        let object_type = self.visit_expr(object, locals);
                        let ghost middle = self.found();
                        let ghost object_keys = expr_keys(shapes, dom, l, **object);
                        if crate::text::string_is(name, "clone") {
                            proof {
                                assert(object_keys.union(Set::empty()) =~= object_keys);
                            }
                            object_type
                        } else {
                            match object_type {
                                Some(t) => {
                                    self.use_method(t.as_str(), name.as_str(), false);
                                    proof {
                                        lemma_grown_chain(
                                            start,
                                            middle,
                                            self.found(),
                                            object_keys,
                                            exact(dom, (t@, name@, false)),
                                        );
                                    }
                                    self.method_return_type(t.as_str(), name.as_str(), false)
                                },
                                None => {
                                    self.use_matching_methods(name.as_str());
                                    proof {
                                        lemma_grown_chain(
                                            start,
                                            middle,
                                            self.found(),
                                            object_keys,
                                            matching(dom, name@),
                                        );
                                    }
                                    None
                                },
                            }
                        }
                    },
                }
            },
            _ => {
                self.visit_expr(callee, locals);
                None
            },
        }
    }

    fn visit_exprs(&mut self, items: &Vec<Expr>, locals: &Vec<(String, String)>)
        requires
            old(self).wf(),
        ensures
            final(self).wf(),
            final(self).same_tables(old(self)),
            grown(
                old(self).found(),
                final(self).found(),
                exprs_keys(old(self).shapes(), old(self).methods().dom(), text_map(locals@), items@),
            ),
        decreases items, 1nat,
    {
        let ghost shapes = self.shapes();
        let ghost dom = self.methods().dom();
        let ghost l = text_map(locals@);
        let ghost start = self.found();
        proof {
            lemma_grown_refl(start);
            assert(items@.take(0) =~= Seq::<Expr>::empty());
        }
        let mut i: usize = 0;
        while i < items.len()
            invariant
                i <= items@.len(),
                old(self).wf(),
                self.wf(),
                self.same_tables(old(self)),
                shapes == old(self).shapes(),
                dom == old(self).methods().dom(),
                l == text_map(locals@),
                start == old(self).found(),
                grown(start, self.found(), exprs_keys(shapes, dom, l, items@.take(i as int))),
            decreases items.len() - i,
        {
            let ghost middle = self.found();
            self.visit_expr(&items[i], locals);
            proof {
                assert(items@.take(i + 1).subrange(0, i as int) =~= items@.take(i as int));
                assert(items@.take(i + 1)[i as int] == items@[i as int]);
                lemma_grown_chain(
                    start,
                    middle,
                    self.found(),
                    exprs_keys(shapes, dom, l, items@.take(i as int)),
                    expr_keys(shapes, dom, l, items@[i as int]),
                );
            }
            i = i + 1;
        }
        assert(items@.take(items@.len() as int) =~= items@);
    }

    fn visit_fields(&mut self, fields: &Vec<StructInitField>, locals: &Vec<(String, String)>)
        requires
            old(self).wf(),
        ensures
            final(self).wf(),
            final(self).same_tables(old(self)),
            grown(
                old(self).found(),
                final(self).found(),
                fields_keys(old(self).shapes(), old(self).methods().dom(), text_map(locals@), fields@),
            ),
        decreases fields, 1nat,
    {
        let ghost shapes = self.shapes();
        let ghost dom = self.methods().dom();
        let ghost l = text_map(locals@);
        let ghost start = self.found();
        proof {
            lemma_grown_refl(start);
            assert(fields@.take(0) =~= Seq::<StructInitField>::empty());
        }
        let mut i: usize = 0;
        while i < fields.len()
            invariant
                i <= fields@.len(),
                old(self).wf(),
                self.wf(),
                self.same_tables(old(self)),
                shapes == old(self).shapes(),
                dom == old(self).methods().dom(),
                l == text_map(locals@),
                start == old(self).found(),
                grown(start, self.found(), fields_keys(shapes, dom, l, fields@.take(i as int))),
            decreases fields.len() - i,
        {
            let ghost middle = self.found();
            self.visit_expr(&fields[i].value, locals);
            proof {
                assert(fields@.take(i + 1).subrange(0, i as int) =~= fields@.take(i as int));
                assert(fields@.take(i + 1)[i as int] == fields@[i as int]);
                lemma_grown_chain(
                    start,
                    middle,
                    self.found(),
                    fields_keys(shapes, dom, l, fields@.take(i as int)),
                    expr_keys(shapes, dom, l, fields@[i as int].value),
                );
            }
            i = i + 1;
        }
        assert(fields@.take(fields@.len() as int) =~= fields@);
    }

    /// Walks the branches of a `match` and gives its type (see `branches_type`).
    fn visit_branches(&mut self, branches: &Vec<MatchBranch>, locals: &Vec<(String, String)>) -> (found: Option<String>)
        requires
            old(self).wf(),
        ensures
            final(self).wf(),
            final(self).same_tables(old(self)),
            grown(
                old(self).found(),
                final(self).found(),
                branches_keys(old(self).shapes(), old(self).methods().dom(), text_map(locals@), branches@),
            ),
            opt_text(found) == branches_type(old(self).shapes(), text_map(locals@), branches@),
        decreases branches, 1nat,
    {
        let ghost shapes = self.shapes();
        let ghost dom = self.methods().dom();
        let ghost l = text_map(locals@);
        let ghost start = self.found();
        proof {
            lemma_grown_refl(start);
            assert(branches@.take(0) =~= Seq::<MatchBranch>::empty());
        }
        let mut found: Option<String> = None;
        let mut i: usize = 0;
        while i < branches.len()
            invariant
                i <= branches@.len(),
                old(self).wf(),
                self.wf(),
                self.same_tables(old(self)),
                shapes == old(self).shapes(),
                dom == old(self).methods().dom(),
                l == text_map(locals@),
                start == old(self).found(),
                grown(start, self.found(), branches_keys(shapes, dom, l, branches@.take(i as int))),
                opt_text(found) == branches_type(shapes, l, branches@.take(i as int)),
            decreases branches.len() - i,
        {
            let ghost middle = self.found();
            let branch_type = self.visit_branch(&branches[i], locals);
            proof {
                assert(branches@.take(i + 1).subrange(0, i as int) =~= branches@.take(i as int));
                assert(branches@.take(i + 1)[i as int] == branches@[i as int]);
                lemma_grown_chain(
                    start,
                    middle,
                    self.found(),
                    branches_keys(shapes, dom, l, branches@.take(i as int)),
                    branch_keys(shapes, dom, l, branches@[i as int]),
                );
            }
            if found.is_none() {
                found = branch_type;
            }
            i = i + 1;
        }
        assert(branches@.take(branches@.len() as int) =~= branches@);
        found
    }

    /// Walks one branch of a `match`; gives the type of its body when that is an expression.
    fn visit_branch(&mut self, branch: &MatchBranch, locals: &Vec<(String, String)>) -> (found: Option<String>)
        requires
            old(self).wf(),
        ensures
            final(self).wf(),
            final(self).same_tables(old(self)),
            grown(
                old(self).found(),
                final(self).found(),
                branch_keys(old(self).shapes(), old(self).methods().dom(), text_map(locals@), *branch),
            ),
            opt_text(found) == match branch.body {
                MatchBranchBody::Expr(e) => expr_type(old(self).shapes(), text_map(locals@), *e),
                MatchBranchBody::Block(_) => None,
            },
        decreases branch, 0nat,
    {
        let ghost shapes = self.shapes();
        let ghost dom = self.methods().dom();
        let ghost l = text_map(locals@);
        let ghost start = self.found();
        proof {
            lemma_grown_refl(start);
        }
        if let Some(guard) = &branch.guard {
            self.visit_expr(guard, locals);
        }
        let ghost middle = self.found();
        let ghost guard_keys = match &branch.guard {
            Some(g) => expr_keys(shapes, dom, l, *g),
            None => Set::empty(),
        };
        let found = match &branch.body {
            MatchBranchBody::Expr(e) => self.visit_expr(e, locals),
            MatchBranchBody::Block(block) => {
                self.visit_block(block, copy_locals(locals));
                None
            },
        };
        proof {
            lemma_grown_chain(
                start,
                middle,
                self.found(),
                guard_keys,
                match &branch.body {
                    MatchBranchBody::Expr(e) => expr_keys(shapes, dom, l, **e),
                    MatchBranchBody::Block(b) => block_keys(shapes, dom, l, *b),
                },
            );
        }
        found
    }

    /// Walks a function as a method of `owner` (with `self` when `has_self`)
    /// or, without an owner, as a free function (see `function_keys`).
    fn visit_function(&mut self, function: &FunctionDecl, owner: Option<&String>, has_self: bool)
        requires
            old(self).wf(),
        ensures
            final(self).wf(),
            final(self).same_tables(old(self)),
            grown(
                old(self).found(),
                final(self).found(),
                function_keys(
                    old(self).shapes(),
                    old(self).methods().dom(),
                    *function,
                    match owner {
                        Some(o) => Some(o@),
                        None => None,
                    },
                    has_self,
                ),
            ),
        decreases function, 0nat,
    {
        let ghost owner_view = match owner {
            Some(o) => Some(o@),
            None => None::<Seq<char>>,
        };
        let mut locals: Vec<(String, String)> = Vec::new();
        let ghost empty = text_map(locals@);
        assert(empty =~= Map::<Seq<char>, Seq<char>>::empty());
        if let Some(o) = owner {
            insert_pair(&mut locals, "Self", o.clone());
            if has_self {
                let ghost with_self = text_map(locals@);
                insert_pair(&mut locals, "self", o.clone());
                assert(text_map(locals@) =~= with_self.insert("self"@, o@));
            }
        }
        proof {
            if owner is Some {
                reveal_strlit("Self");
                reveal_strlit("self");
            }
            let start_locals = match owner_view {
                Some(o) => if has_self {
                    Map::<Seq<char>, Seq<char>>::empty().insert("Self"@, o).insert("self"@, o)
                } else {
                    Map::<Seq<char>, Seq<char>>::empty().insert("Self"@, o)
                },
                None => Map::empty(),
            };
            assert(text_map(locals@) =~= start_locals);
            assert(function.params@.take(0) =~= Seq::<Param>::empty());
        }
        let ghost start_locals = text_map(locals@);
        let mut i: usize = 0;
        while i < function.params.len()
            invariant
                i <= function.params@.len(),
                text_map(locals@) == params_locals(start_locals, function.params@.take(i as int)),
            decreases function.params.len() - i,
        {
            let param = &function.params[i];
            assert(function.params@.take(i + 1).drop_last() =~= function.params@.take(i as int));
            assert(function.params@.take(i + 1).last() == function.params@[i as int]);
            if let Some(type_ref) = &param.type_ref {
                if type_ref.args.len() == 0 {
                    let ghost before = text_map(locals@);
                    insert_pair(&mut locals, param.name.as_str(), type_ref.name.clone());
                    assert(text_map(locals@) =~= before.insert(param.name@, type_ref.name@));
                }
            }
            i = i + 1;
        }
        assert(function.params@.take(function.params@.len() as int) =~= function.params@);
        assert(text_map(locals@) == function_locals(owner_view, has_self, function.params@));
        match &function.body {
            FunctionBody::Block(block) => self.visit_block(block, locals),
            FunctionBody::Expr(expr) => {
                self.visit_expr(expr, &locals);
            },
        }
    }

    /// Walks a block under a copy of the locals (see `block_keys`).
    fn visit_block(&mut self, block: &Block, locals: Vec<(String, String)>)
        requires
            old(self).wf(),
        ensures
            final(self).wf(),
            final(self).same_tables(old(self)),
            grown(
                old(self).found(),
                final(self).found(),
                block_keys(old(self).shapes(), old(self).methods().dom(), text_map(locals@), *block),
            ),
        decreases block, 0nat,
    {
        let mut locals = locals;
        self.visit_statements(&block.statements, &mut locals);
    }

    /// Walks statements in order; a `let` of known type adds a local.
    fn visit_statements(&mut self, statements: &Vec<Stmt>, locals: &mut Vec<(String, String)>)
        requires
            old(self).wf(),
        ensures
            final(self).wf(),
            final(self).same_tables(old(self)),
            grown(
                old(self).found(),
                final(self).found(),
                stmts_keys(old(self).shapes(), old(self).methods().dom(), text_map(old(locals)@), statements@),
            ),
            text_map(final(locals)@) == stmts_locals(old(self).shapes(), text_map(old(locals)@), statements@),
        decreases statements, 1nat,
    {
        let ghost shapes = self.shapes();
        let ghost dom = self.methods().dom();
        let ghost l = text_map(locals@);
        let ghost start = self.found();
        proof {
            lemma_grown_refl(start);
            assert(statements@.take(0) =~= Seq::<Stmt>::empty());
        }
        let mut i: usize = 0;
        while i < statements.len()
            invariant
                i <= statements@.len(),
                old(self).wf(),
                self.wf(),
                self.same_tables(old(self)),
                shapes == old(self).shapes(),
                dom == old(self).methods().dom(),
                l == text_map(old(locals)@),
                start == old(self).found(),
                grown(start, self.found(), stmts_keys(shapes, dom, l, statements@.take(i as int))),
                text_map(locals@) == stmts_locals(shapes, l, statements@.take(i as int)),
            decreases statements.len() - i,
        {
            let ghost middle = self.found();
            let ghost current = text_map(locals@);
            self.visit_statement(&statements[i], locals);
            proof {
                assert(statements@.take(i + 1).subrange(0, i as int) =~= statements@.take(i as int));
                assert(statements@.take(i + 1)[i as int] == statements@[i as int]);
                lemma_grown_chain(
                    start,
                    middle,
                    self.found(),
                    stmts_keys(shapes, dom, l, statements@.take(i as int)),
                    stmt_keys(shapes, dom, current, statements@[i as int]),
                );
            }
            i = i + 1;
        }
        assert(statements@.take(statements@.len() as int) =~= statements@);
    }

    /// Walks a statement (see `stmt_keys`); a `let` of known type adds a local
    /// (see `stmt_locals`).
    #[verifier::spinoff_prover]
    #[verifier::rlimit(60)]
    fn visit_statement(&mut self, statement: &Stmt, locals: &mut Vec<(String, String)>)
        requires
            old(self).wf(),
        ensures
            final(self).wf(),
            final(self).same_tables(old(self)),
            grown(
                old(self).found(),
                final(self).found(),
                stmt_keys(old(self).shapes(), old(self).methods().dom(), text_map(old(locals)@), *statement),
            ),
            text_map(final(locals)@) == stmt_locals(old(self).shapes(), text_map(old(locals)@), *statement),
        decreases statement, 0nat,
    {
        let ghost shapes = self.shapes();
        let ghost dom = self.methods().dom();
        let ghost l = text_map(locals@);
        let ghost start = self.found();
        proof {
            lemma_grown_refl(start);
        }
        match &statement.kind {
            StmtKind::Let { name, type_annotation, value, .. } => {
                let value_type = match value {
                    Some(v) => self.visit_expr(v, locals),
                    None => None,
                };
                let annotated = match type_annotation {
                    Some(type_ref) => {
                        if type_ref.args.len() == 0 {
                            if crate::text::string_is(&type_ref.name, "Self") {
                                match local_type(locals, "Self") {
                                    Some(t) => Some(t),
                                    None => Some(type_ref.name.clone()),
                                }
                            } else {
                                Some(type_ref.name.clone())
                            }
                        } else {
                            None
                        }
                    },
                    None => None,
                };
                let found = match annotated {
                    Some(t) => Some(t),
                    None => value_type,
                };
                proof {
                    reveal_strlit("Self");
                }
                assert(opt_text(found) == let_type(shapes, l, *type_annotation, *value));
                if let Some(t) = found {
                    let ghost before = text_map(locals@);
                    insert_pair(locals, name.as_str(), t);
                    assert(text_map(locals@) =~= before.insert(name@, t@));
                }
            },
            StmtKind::Assign { target, value, .. } => {
                self.visit_expr(target, locals);
                let ghost middle = self.found();
                self.visit_expr(value, locals);
                proof {
                    lemma_grown_chain(
                        start,
                        middle,
                        self.found(),
                        expr_keys(shapes, dom, l, *target),
                        expr_keys(shapes, dom, l, *value),
                    );
                }
            },
            StmtKind::Return { value } => {
                if let Some(v) = value {
                    self.visit_expr(v, locals);
                }
            },
            StmtKind::If { condition, then_branch, else_branch } => {
                self.visit_expr(condition, locals);
                let ghost first = self.found();
                self.visit_block(then_branch, copy_locals(locals));
                let ghost second = self.found();
                proof {
                    lemma_grown_chain(
                        start,
                        first,
                        second,
                        expr_keys(shapes, dom, l, *condition),
                        block_keys(shapes, dom, l, *then_branch),
                    );
                }
                match else_branch {
                    Some(ElseBranch::Block(block)) => {
                        self.visit_block(block, copy_locals(locals));
                    },
                    Some(ElseBranch::If(inner)) => {
                        let mut inner_locals = copy_locals(locals);
                        self.visit_statement(inner, &mut inner_locals);
                    },
                    None => {
                        proof {
                            lemma_grown_refl(second);
                        }
                    },
                }
                proof {
                    lemma_grown_chain(
                        start,
                        second,
                        self.found(),
                        expr_keys(shapes, dom, l, *condition).union(block_keys(shapes, dom, l, *then_branch)),
                        match else_branch {
                            Some(ElseBranch::Block(b)) => block_keys(shapes, dom, l, *b),
                            Some(ElseBranch::If(s)) => stmt_keys(shapes, dom, l, **s),
                            None => Set::empty(),
                        },
                    );
                }
            },
            StmtKind::While { condition, body } => {
                self.visit_expr(condition, locals);
                let ghost middle = self.found();
                self.visit_block(body, copy_locals(locals));
                proof {
                    lemma_grown_chain(
                        start,
                        middle,
                        self.found(),
                        expr_keys(shapes, dom, l, *condition),
                        block_keys(shapes, dom, l, *body),
                    );
                }
            },
            StmtKind::For { iterable, body, .. } => {
                self.visit_expr(iterable, locals);
                let ghost middle = self.found();
                self.visit_block(body, copy_locals(locals));
                proof {
                    lemma_grown_chain(
                        start,
                        middle,
                        self.found(),
                        expr_keys(shapes, dom, l, *iterable),
                        block_keys(shapes, dom, l, *body),
                    );
                }
            },
            StmtKind::Expr(e) => {
                self.visit_expr(e, locals);
            },
            StmtKind::Break => {},
            StmtKind::Continue => {},
        }
    }

    proof fn lemma_found_bound(&self)
        requires
            self.wf(),
        ensures
            self.found().len() <= self.generic_methods@.len(),
    {
        let entries = self.generic_methods@;
        let keys = entries.map_values(|e: ((String, String, bool), &FunctionDecl)| key_of(e.0));
        assert forall|k: MethodKey| self.methods().dom().contains(k) implies keys.to_set().contains(k) by {
            lemma_method_dom(entries, k);
            let j = choose|j: int| 0 <= j < entries.len() && key_of(#[trigger] entries[j].0) == k;
            assert(keys[j] == k);
        }
        keys.lemma_cardinality_of_set();
        self.found().unique_seq_to_set();
        vstd::set_lib::lemma_len_subset(self.found().to_set(), keys.to_set());
    }

    /// Walks every function of `items` that is kept as it stands, then each
    /// tracked method found called, until no new one is found; gives the
    /// methods found.
    #[verifier::rlimit(40)]
    pub fn find(self, items: &Vec<Item>) -> (found: Vec<(String, String, bool)>)
        requires
            self.found().len() == 0,
        ensures
            key_seq(found@).no_duplicates(),
            reachable_from(
                self.shapes(),
                self.methods(),
                root_keys(self.shapes(), self.methods().dom(), string_views(self.generic_structs@), items@),
                key_seq(found@).to_set(),
            ),
    {
        let ghost shapes = self.shapes();
        let ghost table = self.methods();
        let ghost dom = table.dom();
        let ghost generic = string_views(self.generic_structs@);
        let ghost original = self;
        let mut this = self;
        proof {
            lemma_grown_refl(this.found());
            assert(items@.take(0) =~= Seq::<Item>::empty());
            assert(this.found().to_set() =~= Set::empty());
        }
        let mut i: usize = 0;
        while i < items.len()
            invariant
                i <= items@.len(),
                this.wf(),
                this.same_tables(&original),
                shapes == original.shapes(),
                table == original.methods(),
                dom == table.dom(),
                generic == string_views(this.generic_structs@),
                this.found().to_set() == root_keys(shapes, dom, generic, items@.take(i as int)),
            decreases items.len() - i,
        {
            assert(items@.take(i + 1).drop_last() =~= items@.take(i as int));
            assert(items@.take(i + 1).last() == items@[i as int]);
            let ghost before = this.found();
            let ghost earlier = root_keys(shapes, dom, generic, items@.take(i as int));
            match &items[i] {
                Item::Struct(decl) => {
                    if !names_contain(this.generic_structs, &decl.name) {
                        this.visit_members(&decl.name, &decl.members);
                    }
                },
                Item::Enum(decl) => {
                    if !names_contain(this.generic_structs, &decl.name) {
                        this.visit_members(&decl.name, &decl.members);
                    }
                },
                Item::Function(function) => this.visit_function(function, None, false),
                Item::Extension(decl) => this.visit_function(&decl.function, None, false),
                Item::Impl(decl) => {
                    let ghost start = this.found();
                    proof {
                        lemma_grown_refl(start);
                        assert(decl.methods@.take(0) =~= Seq::<ImplMember>::empty());
                    }
                    let mut m: usize = 0;
                    while m < decl.methods.len()
                        invariant
                            m <= decl.methods@.len(),
                            this.wf(),
                            this.same_tables(&original),
                            shapes == original.shapes(),
                            dom == original.methods().dom(),
                            grown(
                                start,
                                this.found(),
                                impl_root_keys(shapes, dom, decl.type_ref.name@, decl.methods@.take(m as int)),
                            ),
                        decreases decl.methods.len() - m,
                    {
                        let member = &decl.methods[m];
                        let ghost middle = this.found();
                        this.visit_function(&member.function, Some(&decl.type_ref.name), !member.static_);
                        proof {
                            assert(decl.methods@.take(m + 1).drop_last() =~= decl.methods@.take(m as int));
                            assert(decl.methods@.take(m + 1).last() == decl.methods@[m as int]);
                            lemma_grown_chain(
                                start,
                                middle,
                                this.found(),
                                impl_root_keys(shapes, dom, decl.type_ref.name@, decl.methods@.take(m as int)),
                                function_keys(
                                    shapes,
                                    dom,
                                    decl.methods@[m as int].function,
                                    Some(decl.type_ref.name@),
                                    !decl.methods@[m as int].static_,
                                ),
                            );
                        }
                        m = m + 1;
                    }
                    assert(decl.methods@.take(decl.methods@.len() as int) =~= decl.methods@);
                },
                _ => {},
            }
            proof {
                assert(this.found().to_set() =~= root_keys(shapes, dom, generic, items@.take(i + 1)));
            }
            i = i + 1;
        }
        assert(items@.take(items@.len() as int) =~= items@);
        let ghost roots = root_keys(shapes, dom, generic, items@);
        let mut next: usize = 0;
        while next < this.used.len()
            invariant
                this.wf(),
                this.same_tables(&original),
                shapes == original.shapes(),
                table == original.methods(),
                dom == table.dom(),
                next <= this.found().len(),
                roots.subset_of(this.found().to_set()),
                forall|j: int|
                    0 <= j < next ==> #[trigger] method_keys(shapes, table, this.found()[j]).subset_of(
                        this.found().to_set(),
                    ),
                forall|keys: Set<MethodKey>|
                    roots.subset_of(keys) && #[trigger] closed_under_calls(shapes, table, keys) ==> this.found().to_set().subset_of(
                        keys,
                    ),
            decreases this.generic_methods@.len() - next,
        {
            proof {
                this.lemma_found_bound();
            }
            let owner = this.used[next].0.clone();
            let name = this.used[next].1.clone();
            let static_ = this.used[next].2;
            let ghost key = this.found()[next as int];
            let ghost before = this.found();
            assert(key == (owner@, name@, static_));
            assert(before.to_set().contains(key));
            match find_method(&this.generic_methods, owner.as_str(), name.as_str(), static_) {
                Some(function) => {
                    this.visit_function(function, Some(&owner), !static_);
                },
                None => {},
            }
            proof {
                let after = this.found();
                assert(method_keys(shapes, table, key) == function_keys(shapes, dom, table[key], Some(owner@), !static_));
                assert forall|j: int| 0 <= j < next + 1 implies #[trigger] method_keys(shapes, table, after[j]).subset_of(
                    after.to_set(),
                ) by {
                    assert(after[j] == before[j]) by {
                        assert(after.subrange(0, before.len() as int)[j] == after[j]);
                    }
                    if j < next {
                        assert(method_keys(shapes, table, before[j]).subset_of(before.to_set()));
                    }
                }
                assert forall|keys: Set<MethodKey>|
                    roots.subset_of(keys) && #[trigger] closed_under_calls(shapes, table, keys) implies after.to_set().subset_of(
                        keys,
                    ) by {
                    assert(before.to_set().subset_of(keys));
                    assert(keys.contains(key));
                    assert(method_keys(shapes, table, key).subset_of(keys));
                }
            }
            next = next + 1;
        }
        proof {
            let found = this.found();
            assert forall|k: MethodKey| #[trigger] found.to_set().contains(k) && table.dom().contains(k) implies method_keys(
                shapes,
                table,
                k,
            ).subset_of(found.to_set()) by {
                let j = choose|j: int| 0 <= j < found.len() && found[j] == k;
                assert(method_keys(shapes, table, found[j]).subset_of(found.to_set()));
            }
        }
        this.used
    }

    /// Walks the methods and static methods of a struct or enum `owner` that is
    /// kept as it stands (see `members_root_keys`).
    fn visit_members(&mut self, owner: &String, members: &Vec<StructMember>)
        requires
            old(self).wf(),
        ensures
            final(self).wf(),
            final(self).same_tables(old(self)),
            grown(
                old(self).found(),
                final(self).found(),
                members_root_keys(old(self).shapes(), old(self).methods().dom(), owner@, members@),
            ),
    {
        let ghost shapes = self.shapes();
        let ghost dom = self.methods().dom();
        let ghost start = self.found();
        proof {
            lemma_grown_refl(start);
            assert(members@.take(0) =~= Seq::<StructMember>::empty());
        }
        let mut i: usize = 0;
        while i < members.len()
            invariant
                i <= members@.len(),
                self.wf(),
                self.same_tables(old(self)),
                shapes == old(self).shapes(),
                dom == old(self).methods().dom(),
                start == old(self).found(),
                grown(start, self.found(), members_root_keys(shapes, dom, owner@, members@.take(i as int))),
            decreases members.len() - i,
        {
            assert(members@.take(i + 1).drop_last() =~= members@.take(i as int));
            assert(members@.take(i + 1).last() == members@[i as int]);
            let ghost middle = self.found();
            match &members[i] {
                StructMember::Method(function) => {
                    self.visit_function(function, Some(owner), true);
                    proof {
                        lemma_grown_chain(
                            start,
                            middle,
                            self.found(),
                            members_root_keys(shapes, dom, owner@, members@.take(i as int)),
                            function_keys(shapes, dom, *function, Some(owner@), true),
                        );
                    }
                },
                StructMember::StaticMethod(function) => {
                    self.visit_function(function, Some(owner), false);
                    proof {
                        lemma_grown_chain(
                            start,
                            middle,
                            self.found(),
                            members_root_keys(shapes, dom, owner@, members@.take(i as int)),
                            function_keys(shapes, dom, *function, Some(owner@), false),
                        );
                    }
                },
                StructMember::Field(_) => {},
            }
            i = i + 1;
        }
        assert(members@.take(members@.len() as int) =~= members@);
    }

    /// Builds the tables from the declarations among `items`; the methods of
    /// the structs and enums named in `generic_structs` are the ones tracked.
    pub fn new(items: &'a Vec<Item>, generic_structs: &'a Vec<String>) -> (reachability: Self)
        ensures
            reachability.shapes() == model_shapes(items@),
            reachability.methods() == model_methods(items@, string_views(generic_structs@)),
            reachability.found().len() == 0,
            reachability.generic_structs == generic_structs,
            reachability.wf(),
    {
        let mut structs: Vec<(String, StructShape)> = Vec::new();
        let mut enums: Vec<(String, StructShape)> = Vec::new();
        let mut functions: Vec<(String, Option<String>)> = Vec::new();
        let mut generic_methods: Vec<((String, String, bool), &'a FunctionDecl)> = Vec::new();
        let ghost generic = string_views(generic_structs@);
        assert(shape_map(structs@) =~= Map::empty());
        assert(shape_map(enums@) =~= Map::empty());
        assert(return_map(functions@) =~= Map::empty());
        assert(pair_keys(structs@) =~= Seq::<Seq<char>>::empty());
        assert(method_map(generic_methods@) =~= Map::empty());
        let mut i: usize = 0;
        while i < items.len()
            invariant
                i <= items@.len(),
                generic == string_views(generic_structs@),
                shape_map(structs@) == model_shapes(items@.take(i as int)).structs,
                pair_keys(structs@) == model_shapes(items@.take(i as int)).struct_order,
                shape_map(enums@) == model_shapes(items@.take(i as int)).enums,
                return_map(functions@) == model_shapes(items@.take(i as int)).functions,
                method_map(generic_methods@) == model_methods(items@.take(i as int), generic),
            decreases items.len() - i,
        {
            assert(items@.take(i + 1).drop_last() =~= items@.take(i as int));
            assert(items@.take(i + 1).last() == items@[i as int]);
            match &items[i] {
                Item::Struct(decl) => {
                    let shape = build_shape(&decl.name, &decl.members, true);
                    if names_contain(generic_structs, &decl.name) {
                        insert_member_methods(&mut generic_methods, &decl.name, &decl.members);
                    }
                    let ghost before = shape_map(structs@);
                    let ghost view = shape@;
                    insert_pair(&mut structs, decl.name.as_str(), shape);
                    assert(shape_map(structs@) =~= before.insert(decl.name@, view));
                },
                Item::Enum(decl) => {
                    let shape = build_shape(&decl.name, &decl.members, false);
                    if names_contain(generic_structs, &decl.name) {
                        insert_member_methods(&mut generic_methods, &decl.name, &decl.members);
                    }
                    let ghost before = shape_map(enums@);
                    let ghost view = shape@;
                    insert_pair(&mut enums, decl.name.as_str(), shape);
                    assert(shape_map(enums@) =~= before.insert(decl.name@, view));
                },
                Item::Function(function) => {
                    if let Some(name) = &function.name {
                        let returned = match &function.return_type {
                            Some(type_ref) => crate::monomorphize::types::concrete_type_name(type_ref),
                            None => None,
                        };
                        let ghost before = return_map(functions@);
                        let ghost view = opt_text(returned);
                        insert_pair(&mut functions, name.as_str(), returned);
                        assert(return_map(functions@) =~= before.insert(name@, view));
                    }
                },
                _ => {},
            }
            i = i + 1;
        }
        assert(items@.take(items@.len() as int) =~= items@);
        let used: Vec<(String, String, bool)> = Vec::new();
        let reachability = MethodReachability { structs, enums, functions, generic_structs, generic_methods, used };
        assert(reachability.found() =~= Seq::<MethodKey>::empty());
        assert(reachability.shapes() =~= model_shapes(items@));
        reachability
    }
}

/// Whether a member of `owner` stays: a field always, a method when it is found called.
pub open spec fn member_used(owner: Seq<char>, member: StructMember, used: Set<MethodKey>) -> bool {
    match member {
        StructMember::Field(_) => true,
        StructMember::Method(f) => f.name matches Some(n) && used.contains((owner, n@, false)),
        StructMember::StaticMethod(f) => f.name matches Some(n) && used.contains((owner, n@, true)),
    }
}

/// Whether a member stays once generic method templates go: a field always,
/// a method when it has no type parameters.
pub open spec fn member_concrete(member: StructMember) -> bool {
    match member {
        StructMember::Field(_) => true,
        StructMember::Method(f) => f.type_params@.len() == 0,
        StructMember::StaticMethod(f) => f.type_params@.len() == 0,
    }
}

/// The members that stay, in order: each found called when `used` is given,
/// each without type parameters otherwise.
pub open spec fn kept_members(owner: Seq<char>, members: Seq<StructMember>, used: Option<Set<MethodKey>>) -> Seq<
    StructMember,
>
    decreases members.len(),
{
    if members.len() == 0 {
        seq![]
    } else {
        let earlier = kept_members(owner, members.drop_last(), used);
        let keep = match used {
            Some(u) => member_used(owner, members.last(), u),
            None => member_concrete(members.last()),
        };
        if keep {
            earlier.push(members.last())
        } else {
            earlier
        }
    }
}

/// `after` is `before` with only the members that stay (see `kept_members`),
/// for the structs and enums that `affected` picks; every other item is unchanged.
pub open spec fn item_pruned(before: Item, after: Item, affected: spec_fn(Seq<char>) -> bool, used: Option<Set<MethodKey>>) -> bool {
    match before {
        Item::Struct(d) => if affected(d.name@) {
            after matches Item::Struct(d2) && d2.name == d.name && d2.exported == d.exported && d2.type_params
                == d.type_params && d2.type_param_bounds == d.type_param_bounds && d2.span == d.span
                && d2.members@ == kept_members(d.name@, d.members@, used)
        } else {
            after == before
        },
        Item::Enum(d) => if affected(d.name@) {
            after matches Item::Enum(d2) && d2.name == d.name && d2.exported == d.exported && d2.type_params
                == d.type_params && d2.type_param_bounds == d.type_param_bounds && d2.variants == d.variants
                && d2.span == d.span && d2.members@ == kept_members(d.name@, d.members@, used)
        } else {
            after == before
        },
        _ => after == before,
    }
}

pub open spec fn items_pruned(
    before: Seq<Item>,
    after: Seq<Item>,
    affected: spec_fn(Seq<char>) -> bool,
    used: Option<Set<MethodKey>>,
) -> bool {
    &&& after.len() == before.len()
    &&& forall|i: int| 0 <= i < before.len() ==> #[trigger] item_pruned(before[i], after[i], affected, used)
}

/// Whether `key` is among `keys`.
fn contains_key(keys: &Vec<(String, String, bool)>, owner: &str, name: &str, static_: bool) -> (found: bool)
    ensures
        found == key_seq(keys@).contains((owner@, name@, static_)),
{
    let mut i: usize = 0;
    while i < keys.len()
        invariant
            i <= keys@.len(),
            forall|j: int| 0 <= j < i ==> #[trigger] key_of(keys@[j]) != (owner@, name@, static_),
        decreases keys.len() - i,
    {
        if key_is(&keys[i], owner, name, static_) {
            assert(key_seq(keys@)[i as int] == (owner@, name@, static_));
            return true;
        }
        i = i + 1;
    }
    proof {
        if key_seq(keys@).contains((owner@, name@, static_)) {
            let j = choose|j: int| 0 <= j < keys@.len() && key_seq(keys@)[j] == (owner@, name@, static_);
            assert(key_of(keys@[j]) == key_seq(keys@)[j]);
        }
    }
    false
}

/// Keeps the members of `owner` that stay (see `kept_members`), in order.
fn retain_members(members: &mut Vec<StructMember>, owner: &String, used: Option<&Vec<(String, String, bool)>>)
    ensures
        final(members)@ == kept_members(
            owner@,
            old(members)@,
            match used {
                Some(u) => Some(key_seq(u@).to_set()),
                None => None,
            },
        ),
{
    let ghost wanted = match used {
        Some(u) => Some(key_seq(u@).to_set()),
        None => None::<Set<MethodKey>>,
    };
    let ghost all = members@;
    let total = members.len();
    let mut rest: Vec<StructMember> = Vec::new();
    std::mem::swap(&mut rest, members);
    assert(all.take(0) =~= Seq::<StructMember>::empty());
    assert(all.skip(0) =~= all);
    let mut k: usize = 0;
    while rest.len() > 0
        invariant
            k <= all.len(),
            total == all.len(),
            rest@ == all.skip(k as int),
            members@ == kept_members(owner@, all.take(k as int), wanted),
            wanted == match used {
                Some(u) => Some(key_seq(u@).to_set()),
                None => None::<Set<MethodKey>>,
            },
        decreases rest.len(),
    {
        let member = rest.remove(0);
        assert(all.skip(k as int)[0] == all[k as int]);
        assert(all.skip(k as int).remove(0) =~= all.skip(k + 1));
        assert(all.take(k + 1).drop_last() =~= all.take(k as int));
        assert(all.take(k + 1).last() == all[k as int]);
        let keep = match &member {
            StructMember::Field(_) => true,
            StructMember::Method(function) => match used {
                Some(u) => match &function.name {
                    Some(name) => contains_key(u, owner.as_str(), name.as_str(), false),
                    None => false,
                },
                None => function.type_params.len() == 0,
            },
            StructMember::StaticMethod(function) => match used {
                Some(u) => match &function.name {
                    Some(name) => contains_key(u, owner.as_str(), name.as_str(), true),
                    None => false,
                },
                None => function.type_params.len() == 0,
            },
        };
        assert(keep == match wanted {
            Some(u) => member_used(owner@, all[k as int], u),
            None => member_concrete(all[k as int]),
        });
        if keep {
            members.push(member);
        }
        k = k + 1;
    }
    assert(all.skip(k as int).len() == 0);
    assert(all.take(k as int) =~= all);
}

/// Of each generic struct and enum, keeps only the methods that the program
/// calls: those that the functions kept as they stand call, directly or
/// through other such methods (see `reachable_from`).
pub fn prune_unused_generic_methods(items: &mut Vec<Item>, generic_structs: &Vec<String>)
    ensures
        exists|used: Set<MethodKey>|
            #![trigger reachable_from(
                model_shapes(old(items)@),
                model_methods(old(items)@, string_views(generic_structs@)),
                root_keys(
                    model_shapes(old(items)@),
                    model_methods(old(items)@, string_views(generic_structs@)).dom(),
                    string_views(generic_structs@),
                    old(items)@,
                ),
                used,
            )]
            reachable_from(
                model_shapes(old(items)@),
                model_methods(old(items)@, string_views(generic_structs@)),
                root_keys(
                    model_shapes(old(items)@),
                    model_methods(old(items)@, string_views(generic_structs@)).dom(),
                    string_views(generic_structs@),
                    old(items)@,
                ),
                used,
            ) && items_pruned(
                old(items)@,
                final(items)@,
                |name: Seq<char>| string_views(generic_structs@).contains(name),
                Some(used),
            ),
{
    let used = MethodReachability::new(items, generic_structs).find(items);
    let ghost used_set = key_seq(used@).to_set();
    let ghost before = items@;
    let ghost affected = |name: Seq<char>| string_views(generic_structs@).contains(name);
    let mut i: usize = 0;
    while i < items.len()
        invariant
            i <= items@.len(),
            items@.len() == before.len(),
            used_set == key_seq(used@).to_set(),
            affected == (|name: Seq<char>| string_views(generic_structs@).contains(name)),
            forall|j: int| 0 <= j < i ==> #[trigger] item_pruned(before[j], items@[j], affected, Some(used_set)),
            forall|j: int| i <= j < items@.len() ==> #[trigger] items@[j] == before[j],
        decreases items.len() - i,
    {
        assert(items@[i as int] == before[i as int]);
        match &mut items[i] {
            Item::Struct(decl) => {
                if names_contain(generic_structs, &decl.name) {
                    retain_members(&mut decl.members, &decl.name, Some(&used));
                }
            },
            Item::Enum(decl) => {
                if names_contain(generic_structs, &decl.name) {
                    retain_members(&mut decl.members, &decl.name, Some(&used));
                }
            },
            _ => {},
        }
        assert(item_pruned(before[i as int], items@[i as int], affected, Some(used_set)));
        i = i + 1;
    }
}

/// Drops every method that has type parameters from the structs and enums.
pub fn prune_generic_method_templates(items: &mut Vec<Item>)
    ensures
        items_pruned(old(items)@, final(items)@, |name: Seq<char>| true, None),
{
    let ghost before = items@;
    let ghost affected = |name: Seq<char>| true;
    let mut i: usize = 0;
    while i < items.len()
        invariant
            i <= items@.len(),
            items@.len() == before.len(),
            affected == (|name: Seq<char>| true),
            forall|j: int| 0 <= j < i ==> #[trigger] item_pruned(before[j], items@[j], affected, None),
            forall|j: int| i <= j < items@.len() ==> #[trigger] items@[j] == before[j],
        decreases items.len() - i,
    {
        assert(items@[i as int] == before[i as int]);
        match &mut items[i] {
            Item::Struct(decl) => retain_members(&mut decl.members, &decl.name, None),
            Item::Enum(decl) => retain_members(&mut decl.members, &decl.name, None),
            _ => {},
        }
        assert(item_pruned(before[i as int], items@[i as int], affected, None));
        i = i + 1;
    }
}

/// The methods reachable from given roots are determined by them: two sets
/// that both are the least closed set holding the roots are the same set.
pub proof fn law_reachable_unique(
    shapes: Shapes,
    table: Map<MethodKey, FunctionDecl>,
    roots: Set<MethodKey>,
    first: Set<MethodKey>,
    second: Set<MethodKey>,
)
    requires
        reachable_from(shapes, table, roots, first),
        reachable_from(shapes, table, roots, second),
    ensures
        first == second,
{
    assert(closed_under_calls(shapes, table, second));
    assert(closed_under_calls(shapes, table, first));
    assert(first.subset_of(second));
    assert(second.subset_of(first));
    assert(first =~= second);
}

/// Dropping method templates twice drops nothing more than dropping them once.
pub proof fn law_template_pruning_idempotent(owner: Seq<char>, members: Seq<StructMember>)
    ensures
        kept_members(owner, kept_members(owner, members, None), None) == kept_members(owner, members, None),
    decreases members.len(),
{
    if members.len() > 0 {
        law_template_pruning_idempotent(owner, members.drop_last());
        let earlier = kept_members(owner, members.drop_last(), None);
        if member_concrete(members.last()) {
            assert(earlier.push(members.last()).drop_last() =~= earlier);
        }
    }
}

/// Each field stays when unused methods go, and each member that stays was
/// there before, in the same order.
pub proof fn law_pruning_keeps_fields(owner: Seq<char>, members: Seq<StructMember>, used: Option<Set<MethodKey>>)
    ensures
        kept_members(owner, members, used).len() <= members.len(),
        forall|i: int| 0 <= i < members.len() && #[trigger] members[i] is Field ==> kept_members(owner, members, used).contains(
            members[i],
        ),
        forall|x: StructMember| #[trigger] kept_members(owner, members, used).contains(x) ==> members.contains(x),
    decreases members.len(),
{
    if members.len() > 0 {
        let prefix = members.drop_last();
        law_pruning_keeps_fields(owner, prefix, used);
        let earlier = kept_members(owner, prefix, used);
        let kept = kept_members(owner, members, used);
        assert forall|i: int| 0 <= i < members.len() && #[trigger] members[i] is Field implies kept.contains(members[i]) by {
            if i < members.len() - 1 {
                assert(prefix[i] == members[i]);
                assert(earlier.contains(prefix[i]));
                let j = choose|j: int| 0 <= j < earlier.len() && earlier[j] == prefix[i];
                if kept.len() > earlier.len() {
                    assert(kept[j] == earlier[j]);
                }
            } else {
                assert(kept[kept.len() - 1] == members.last());
            }
        }
        assert forall|x: StructMember| #[trigger] kept.contains(x) implies members.contains(x) by {
            let j = choose|j: int| 0 <= j < kept.len() && kept[j] == x;
            if j < earlier.len() {
                assert(kept[j] == earlier[j]);
                assert(earlier.contains(x));
                let m = choose|m: int| 0 <= m < prefix.len() && prefix[m] == x;
                assert(members[m] == x);
            } else {
                assert(members[members.len() - 1] == x);
            }
        }
    }
}

} // verus!
