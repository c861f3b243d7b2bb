use vstd::prelude::*;

use vstd::utf8::encode_utf8;

use crate::ast::{ImplDecl, Item, TypeRef};
use crate::diagnostic::{Diagnostic, Severity};
use crate::project::link::{
    declaration_of, fnv1a, hex_fixed, item_declaration, qualified_extension_name, qualified_name,
    DeclarationView,
};
use crate::project::rewrite::{pair_keys, diagnostic_views, find_pair, lookup_pair, DiagnosticView, Export};
use crate::project::{has_error, Module};
use crate::project::reexport::{
    all_exports_view, all_pending, errors_appended, export_view, exports_view, import_targets_valid,
    import_visible_export, lemma_lookup_export, resolve_all_spec, resolve_re_exports,
};
use crate::project::import_spec::{
    glob_import_steps, import_run_of, insert_keyed, keyed, lemma_same_keys, text_pairs, lemma_first_index_found, view_has, lookup_view, lemma_lookup_view, import_steps, lemma_first_index, lemma_lookup_some_iff, lemma_text_lookup_some_iff,
    lemma_visible_import, name_import_steps, namespace_step,
};
use crate::project::rewrite::{scope_views, LinkNames, ModuleRewriter};
use crate::project::rewrite_code::{item_rewritten, OwnNames};
use crate::ast::Program;
use crate::text::{contains_string, string_is};

verus! {

/// `name` is one of `names`.
pub open spec fn listed(names: Seq<String>, name: Seq<char>) -> bool {
    exists|i: int| 0 <= i < names.len() && #[trigger] names[i]@ == name
}

/// Whether the self type of an impl belongs to the package `current_package`:
/// never for a function type, a built-in type, `void` or one of the impl's
/// type parameters; otherwise as the visible names record its package, and
/// unknown (`None`) when they do not.
pub open spec fn self_type_local(
    type_ref: TypeRef,
    current_package: usize,
    visible_name_packages: Seq<(Seq<char>, usize)>,
    impl_type_params: Seq<String>,
    basic_types: Seq<String>,
) -> Option<bool> {
    if type_ref.function is Some || listed(basic_types, type_ref.name@) || type_ref.name@ == "void"@ || listed(
        impl_type_params,
        type_ref.name@,
    ) {
        Some(false)
    } else {
        match lookup_view(visible_name_packages, type_ref.name@) {
            Some(package) => Some(package == current_package),
            None => None,
        }
    }
}

/// Whether an impl's self type belongs to the current package (see `self_type_local`).
pub fn impl_self_type_is_local(
    type_ref: &TypeRef,
    current_package: usize,
    visible_name_packages: &Vec<(String, usize)>,
    impl_type_params: &Vec<String>,
    basic_types: &Vec<String>,
) -> (local: Option<bool>)
    ensures
        local == self_type_local(*type_ref, current_package, keyed(visible_name_packages@), impl_type_params@, basic_types@),
{
    proof {
        reveal_strlit("void");
        lemma_lookup_view(visible_name_packages@, type_ref.name@);
    }
    if type_ref.function.is_some() || contains_string(basic_types, &type_ref.name) || string_is(
        &type_ref.name,
        "void",
    ) || contains_string(impl_type_params, &type_ref.name) {
        return Some(false);
    }
    match find_pair(visible_name_packages, type_ref.name.as_str()) {
        Some(package) => Some(*package == current_package),
        None => None,
    }
}

/// Each module's names and packages, by their text.
pub open spec fn package_views(packages: Seq<Vec<(String, usize)>>) -> Seq<Seq<(Seq<char>, usize)>> {
    packages.map_values(|v: Vec<(String, usize)>| keyed(v@))
}

/// The message for an impl of a foreign trait for a foreign type.
pub open spec fn foreign_impl_message(trait_name: Seq<char>, self_type: Seq<char>) -> Seq<char> {
    "cannot implement foreign trait `"@ + trait_name + "` for foreign type `"@ + self_type + "`"@
}

/// What checking one item of a module in package `package` reports: an impl
/// of a trait from another package for a type from another package.
pub open spec fn impl_errors(
    item: Item,
    package: usize,
    visible_name_packages: Seq<(Seq<char>, usize)>,
    basic_types: Seq<String>,
) -> Seq<DiagnosticView> {
    match item {
        Item::Impl(decl) => match lookup_view(visible_name_packages, decl.trait_ref.name@) {
            Some(trait_package) => if trait_package == package {
                seq![]
            } else {
                match self_type_local(decl.type_ref, package, visible_name_packages, decl.type_params@, basic_types) {
                    Some(false) => seq![
                        (Severity::Error, decl.span, foreign_impl_message(decl.trait_ref.name@, decl.type_ref.name@)),
                    ],
                    _ => seq![],
                }
            },
            None => seq![],
        },
        _ => seq![],
    }
}

/// What checking the first `n` items of a module reports.
pub open spec fn items_impl_errors(
    items: Seq<Item>,
    n: int,
    package: usize,
    visible_name_packages: Seq<(Seq<char>, usize)>,
    basic_types: Seq<String>,
) -> Seq<DiagnosticView>
    decreases n,
{
    if n <= 0 || n > items.len() {
        seq![]
    } else {
        items_impl_errors(items, n - 1, package, visible_name_packages, basic_types) + impl_errors(
            items[n - 1],
            package,
            visible_name_packages,
            basic_types,
        )
    }
}

/// What checking the first `n` modules reports, module after module.
pub open spec fn modules_impl_errors(
    modules: Seq<Module>,
    n: int,
    visible_name_packages: Seq<Seq<(Seq<char>, usize)>>,
    basic_types: Seq<String>,
) -> Seq<DiagnosticView>
    decreases n,
{
    if n <= 0 || n > modules.len() {
        seq![]
    } else {
        modules_impl_errors(modules, n - 1, visible_name_packages, basic_types) + items_impl_errors(
            modules[n - 1].program.items@,
            modules[n - 1].program.items@.len() as int,
            modules[n - 1].package,
            visible_name_packages[n - 1],
            basic_types,
        )
    }
}

fn check_impl(
    decl: &ImplDecl,
    package: usize,
    visible_name_packages: &Vec<(String, usize)>,
    basic_types: &Vec<String>,
    diagnostics: &mut Vec<Diagnostic>,
)
    ensures
        diagnostic_views(final(diagnostics)@) == diagnostic_views(old(diagnostics)@) + impl_errors(
            Item::Impl(*decl),
            package,
            keyed(visible_name_packages@),
            basic_types@,
        ),
        errors_appended(old(diagnostics)@, final(diagnostics)@),
{
    proof {
        lemma_errors_refl(diagnostics@);
        lemma_lookup_view(visible_name_packages@, decl.trait_ref.name@);
    }
    let trait_package = match find_pair(visible_name_packages, decl.trait_ref.name.as_str()) {
        Some(trait_package) => *trait_package,
        None => return,
    };
    if trait_package == package {
        return;
    }
    let local = impl_self_type_is_local(&decl.type_ref, package, visible_name_packages, &decl.type_params, basic_types);
    match local {
        Some(false) => {
            let mut message = String::from_str("cannot implement foreign trait `");
            message.append(decl.trait_ref.name.as_str());
            message.append("` for foreign type `");
            message.append(decl.type_ref.name.as_str());
            message.append("`");
            let ghost before = diagnostics@;
            diagnostics.push(Diagnostic::error(decl.span, message));
            assert(diagnostic_views(diagnostics@) =~= diagnostic_views(before) + seq![
                (Severity::Error, decl.span, foreign_impl_message(decl.trait_ref.name@, decl.type_ref.name@)),
            ]);
            proof {
                assert(diagnostics@.drop_last() =~= before);
                lemma_error_pushed(before, diagnostics@);
            }
        },
        _ => {},
    }
}

/// Reports each impl of a trait from another package for a type from
/// another package (see `impl_errors`), module after module.
pub fn validate_foreign_impls(
    modules: &Vec<Module>,
    visible_name_packages: &Vec<Vec<(String, usize)>>,
    basic_types: &Vec<String>,
    diagnostics: &mut Vec<Diagnostic>,
)
    requires
        visible_name_packages@.len() == modules@.len(),
    ensures
        diagnostic_views(final(diagnostics)@) == diagnostic_views(old(diagnostics)@) + modules_impl_errors(
            modules@,
            modules@.len() as int,
            package_views(visible_name_packages@),
            basic_types@,
        ),
        errors_appended(old(diagnostics)@, final(diagnostics)@),
{
    proof {
        lemma_errors_refl(diagnostics@);
    }
    let ghost start = diagnostic_views(diagnostics@);
    let mut m: usize = 0;
    while m < modules.len()
        invariant
            m <= modules@.len(),
            visible_name_packages@.len() == modules@.len(),
            start == diagnostic_views(old(diagnostics)@),
            diagnostic_views(diagnostics@) == start + modules_impl_errors(modules@, m as int, package_views(visible_name_packages@), basic_types@),
            errors_appended(old(diagnostics)@, diagnostics@),
        decreases modules.len() - m,
    {
        let module = &modules[m];
        let ghost before_module = diagnostic_views(diagnostics@);
        let mut k: usize = 0;
        while k < module.program.items.len()
            invariant
                m < modules@.len(),
                *module == modules@[m as int],
                visible_name_packages@.len() == modules@.len(),
                k <= module.program.items@.len(),
                diagnostic_views(diagnostics@) == before_module + items_impl_errors(
                    module.program.items@,
                    k as int,
                    module.package,
                    keyed(visible_name_packages@[m as int]@),
                    basic_types@,
                ),
                errors_appended(old(diagnostics)@, diagnostics@),
            decreases module.program.items.len() - k,
        {
            if let Item::Impl(decl) = &module.program.items[k] {
                let ghost d0 = diagnostics@;
                check_impl(decl, module.package, &visible_name_packages[m], basic_types, diagnostics);
                proof {
                    lemma_errors_chain(old(diagnostics)@, d0, diagnostics@);
                }
            }
            k = k + 1;
        }
        m = m + 1;
    }
}

/// Stores `value` under `key`: in place of the value stored there, or as a new entry.
pub fn insert_pair<V>(map: &mut Vec<(String, V)>, key: &str, value: V)
    ensures
        forall|k: Seq<char>|
            #[trigger] lookup_pair(final(map)@, k) == if k == key@ {
                Some(value)
            } else {
                lookup_pair(old(map)@, k)
            },
        pair_keys(final(map)@) == if pair_keys(old(map)@).contains(key@) {
            pair_keys(old(map)@)
        } else {
            pair_keys(old(map)@).push(key@)
        },
        keyed(final(map)@) == insert_keyed(keyed(old(map)@), key@, value),
{
    let mut i: usize = 0;
    while i < map.len()
        invariant
            i <= map@.len(),
            map@ == old(map)@,
            forall|j: int| 0 <= j < i ==> #[trigger] map@[j].0@ != key@,
        decreases map.len() - i,
    {
        if string_is(&map[i].0, key) {
            let ghost before = map@;
            let name = String::from_str(key);
            map.set(i, (name, value));
            proof {
                assert forall|k: Seq<char>| #[trigger] lookup_pair(map@, k) == if k == key@ {
                    Some(value)
                } else {
                    lookup_pair(before, k)
                } by {
                    lemma_lookup_update(before, i as int, (name, value), k);
                }
                assert(pair_keys(before)[i as int] == key@);
                assert(pair_keys(before).contains(key@));
                assert(pair_keys(map@) =~= pair_keys(before));
                lemma_first_index(before, key@, i as int);
                assert(keyed(map@) =~= keyed(before).update(i as int, (key@, value)));
            }
            return;
        }
        i = i + 1;
    }
    let ghost before = map@;
    let name = String::from_str(key);
    map.push((name, value));
    proof {
        assert forall|k: Seq<char>| #[trigger] lookup_pair(map@, k) == if k == key@ {
            Some(value)
        } else {
            lookup_pair(before, k)
        } by {
            lemma_lookup_push(before, (name, value), k);
        }
        assert(!pair_keys(before).contains(key@)) by {
            if pair_keys(before).contains(key@) {
                let j = choose|j: int| 0 <= j < before.len() && pair_keys(before)[j] == key@;
                assert(before[j].0@ != key@);
            }
        }
        assert(pair_keys(map@) =~= pair_keys(before).push(key@));
        lemma_first_index(before, key@, before.len() as int);
        assert(keyed(map@) =~= keyed(before).push((key@, value)));
    }
}

proof fn lemma_lookup_push<V>(map: Seq<(String, V)>, entry: (String, V), k: Seq<char>)
    requires
        forall|j: int| 0 <= j < map.len() ==> #[trigger] map[j].0@ != entry.0@,
    ensures
        lookup_pair(map.push(entry), k) == if k == entry.0@ { Some(entry.1) } else { lookup_pair(map, k) },
    decreases map.len(),
{
    let pushed = map.push(entry);
    assert(pushed[map.len() as int] == entry);
    if map.len() > 0 {
        let rest = map.drop_first();
        assert(pushed[0] == map[0]);
        assert(pushed.drop_first() =~= rest.push(entry));
        assert(map[0].0@ != entry.0@);
        assert forall|j: int| 0 <= j < rest.len() implies #[trigger] rest[j].0@ != entry.0@ by {
            assert(rest[j] == map[j + 1]);
        }
        lemma_lookup_push(rest, entry, k);
    } else {
        assert(pushed[0] == entry);
        assert(pushed.drop_first() =~= Seq::<(String, V)>::empty());
    }
}

proof fn lemma_lookup_update<V>(map: Seq<(String, V)>, i: int, entry: (String, V), k: Seq<char>)
    requires
        0 <= i < map.len(),
        map[i].0@ == entry.0@,
        forall|j: int| 0 <= j < i ==> #[trigger] map[j].0@ != entry.0@,
    ensures
        lookup_pair(map.update(i, entry), k) == if k == entry.0@ { Some(entry.1) } else { lookup_pair(map, k) },
    decreases i,
{
    if i > 0 {
        let rest = map.drop_first();
        assert(map.update(i, entry).drop_first() =~= rest.update(i - 1, entry));
        assert forall|j: int| 0 <= j < i - 1 implies #[trigger] rest[j].0@ != entry.0@ by {
            assert(rest[j] == map[j + 1]);
        }
        lemma_lookup_update(rest, i - 1, entry, k);
    } else {
        assert(map.update(i, entry).drop_first() =~= map.drop_first());
    }
}

/// The internal name that linking gives the declaration `name` of the module
/// keyed `key`: extension functions and the declarations of a module other
/// than the entry module are qualified with a hash of the key.
pub open spec fn internal_name(key: Seq<char>, entry: bool, name: Seq<char>, extension: bool) -> Seq<char> {
    if extension {
        "module_extension_"@ + hex_fixed(fnv1a(encode_utf8(key)) as nat, 8) + "::"@ + name
    } else if entry {
        name
    } else {
        "module_"@ + hex_fixed(fnv1a(encode_utf8(key)) as nat, 8) + "::"@ + name
    }
}

/// The message for a name that a module declares twice.
pub open spec fn duplicate_name_message(name: Seq<char>) -> Seq<char> {
    "duplicate top-level name `"@ + name + "` in this module"@
}

pub open spec fn reserved_clone_message() -> Seq<char> {
    "extension function name `clone` is reserved for the built-in deep clone operation"@
}

/// What a module's declarations give, one declaration after another: its
/// exports (internal name, package, extension), its names and their
/// packages, its extension functions, whether each name was last declared as
/// an extension, and the errors reported.
pub type DeclaredState = (
    Map<Seq<char>, (Seq<char>, usize, bool)>,
    Map<Seq<char>, Seq<char>>,
    Map<Seq<char>, usize>,
    Map<Seq<char>, Seq<char>>,
    Map<Seq<char>, bool>,
    Seq<DiagnosticView>,
);

/// One declaration: it is exported if it says so; a name declared before is
/// an error unless both are extension functions; an extension function may
/// not be named `clone`. A later declaration takes the name over.
pub open spec fn declare_step(key: Seq<char>, package: usize, entry: bool, state: DeclaredState, declaration: DeclarationView) -> DeclaredState {
    let (name, exported, extension, span) = declaration;
    let internal = internal_name(key, entry, name, extension);
    let exports = if exported { state.0.insert(name, (internal, package, extension)) } else { state.0 };
    let duplicate = state.4.contains_key(name) && !(state.4[name] && extension);
    let errors = state.5 + (if duplicate {
        seq![(Severity::Error, span, duplicate_name_message(name))]
    } else {
        seq![]
    }) + (if extension && name == "clone"@ {
        seq![(Severity::Error, span, reserved_clone_message())]
    } else {
        seq![]
    });
    let declared = state.4.insert(name, extension);
    if extension {
        (exports, state.1, state.2, state.3.insert(name, internal), declared, errors)
    } else {
        (exports, state.1.insert(name, internal), state.2.insert(name, package), state.3, declared, errors)
    }
}

/// The state after the declarations of the first `n` items.
pub open spec fn declare_items(key: Seq<char>, package: usize, entry: bool, items: Seq<Item>, n: int) -> DeclaredState
    decreases n,
{
    if n <= 0 || n > items.len() {
        (Map::empty(), Map::empty(), Map::empty(), Map::empty(), Map::empty(), seq![])
    } else {
        let before = declare_items(key, package, entry, items, n - 1);
        match declaration_of(items[n - 1]) {
            Some(declaration) => declare_step(key, package, entry, before, declaration),
            None => before,
        }
    }
}

/// A list of exports holds what `map` maps names to.
pub open spec fn exports_match(exports: Seq<(String, Export)>, map: Map<Seq<char>, (Seq<char>, usize, bool)>) -> bool {
    forall|k: Seq<char>|
        #[trigger] lookup_pair(exports, k) is Some <==> map.contains_key(k)
            && (lookup_pair(exports, k) matches Some(e) ==> (e.internal_name@, e.package, e.extension) == map[k])
}

pub open spec fn names_match(names: Seq<(String, String)>, map: Map<Seq<char>, Seq<char>>) -> bool {
    forall|k: Seq<char>|
        #[trigger] lookup_pair(names, k) is Some <==> map.contains_key(k)
            && (lookup_pair(names, k) matches Some(n) ==> n@ == map[k])
}

pub open spec fn values_match<V>(values: Seq<(String, V)>, map: Map<Seq<char>, V>) -> bool {
    forall|k: Seq<char>|
        #[trigger] lookup_pair(values, k) is Some <==> map.contains_key(k)
            && (lookup_pair(values, k) matches Some(v) ==> v == map[k])
}

/// A module's declarations as lists, in the order `insert_pair` keeps:
/// exports, names and their internal names, names and their packages, and
/// extensions and their internal names (see `declare_step`).
pub type DeclaredLists = (
    crate::project::reexport::ExportsView,
    Seq<(Seq<char>, Seq<char>)>,
    Seq<(Seq<char>, usize)>,
    Seq<(Seq<char>, Seq<char>)>,
);

/// The lists after the declarations of the first `n` items.
pub open spec fn declared_lists(key: Seq<char>, package: usize, entry: bool, items: Seq<Item>, n: int) -> DeclaredLists
    decreases n,
{
    if n <= 0 || n > items.len() {
        (seq![], seq![], seq![], seq![])
    } else {
        let before = declared_lists(key, package, entry, items, n - 1);
        match declaration_of(items[n - 1]) {
            Some(declaration) => {
                let (name, exported, extension, span) = declaration;
                let internal = internal_name(key, entry, name, extension);
                let exports = if exported {
                    insert_keyed(before.0, name, (internal, package, extension))
                } else {
                    before.0
                };
                if extension {
                    (exports, before.1, before.2, insert_keyed(before.3, name, internal))
                } else {
                    (exports, insert_keyed(before.1, name, internal), insert_keyed(before.2, name, package), before.3)
                }
            },
            None => before,
        }
    }
}

/// A module's declared lists.
pub open spec fn module_lists(module: Module) -> DeclaredLists {
    declared_lists(module.key@, module.package, module.entry, module.program.items@, module.program.items@.len() as int)
}

proof fn lemma_insert_exports(s1: Seq<(String, Export)>, s2: Seq<(String, Export)>, k: Seq<char>, v: Export)
    requires
        keyed(s2) == insert_keyed(keyed(s1), k, v),
    ensures
        exports_view(s2) == insert_keyed(exports_view(s1), k, export_view(v)),
{
    lemma_same_keys(keyed(s1), exports_view(s1), k);
    lemma_first_index_found(keyed(s1), k);
    assert(keyed(s2).len() == s2.len());
    if view_has(keyed(s1), k) {
        assert(s2.len() == s1.len());
    } else {
        assert(s2.len() == s1.len() + 1);
    }
    assert forall|i: int| 0 <= i < s2.len() implies #[trigger] exports_view(s2)[i] == insert_keyed(exports_view(s1), k, export_view(v))[i] by {
        assert(keyed(s2)[i] == (s2[i].0@, s2[i].1));
        if i < s1.len() {
            assert(keyed(s1)[i] == (s1[i].0@, s1[i].1));
        }
    }
    assert(exports_view(s2) =~= insert_keyed(exports_view(s1), k, export_view(v)));
}

proof fn lemma_insert_texts(s1: Seq<(String, String)>, s2: Seq<(String, String)>, k: Seq<char>, v: String)
    requires
        keyed(s2) == insert_keyed(keyed(s1), k, v),
    ensures
        text_pairs(s2) == insert_keyed(text_pairs(s1), k, v@),
{
    lemma_same_keys(keyed(s1), text_pairs(s1), k);
    lemma_first_index_found(keyed(s1), k);
    assert(keyed(s2).len() == s2.len());
    if view_has(keyed(s1), k) {
        assert(s2.len() == s1.len());
    } else {
        assert(s2.len() == s1.len() + 1);
    }
    assert forall|i: int| 0 <= i < s2.len() implies #[trigger] text_pairs(s2)[i] == insert_keyed(text_pairs(s1), k, v@)[i] by {
        assert(keyed(s2)[i] == (s2[i].0@, s2[i].1));
        if i < s1.len() {
            assert(keyed(s1)[i] == (s1[i].0@, s1[i].1));
        }
    }
    assert(text_pairs(s2) =~= insert_keyed(text_pairs(s1), k, v@));
}

/// The names that one module declares.
#[derive(Debug)]
pub struct ModuleNames {
    pub exports: Vec<(String, Export)>,
    pub names: Vec<(String, String)>,
    pub name_packages: Vec<(String, usize)>,
    pub extensions: Vec<(String, String)>,
}

/// Collects what a module declares (see `declare_items`), reporting duplicate
/// names and extension functions named `clone`.
pub fn declare_module(module: &Module, diagnostics: &mut Vec<Diagnostic>) -> (declared: ModuleNames)
    ensures
        ({
            let state = declare_items(
                module.key@,
                module.package,
                module.entry,
                module.program.items@,
                module.program.items@.len() as int,
            );
            &&& exports_match(declared.exports@, state.0)
            &&& names_match(declared.names@, state.1)
            &&& values_match(declared.name_packages@, state.2)
            &&& names_match(declared.extensions@, state.3)
            &&& diagnostic_views(final(diagnostics)@) == diagnostic_views(old(diagnostics)@) + state.5
        }),
        errors_appended(old(diagnostics)@, final(diagnostics)@),
        (exports_view(declared.exports@), text_pairs(declared.names@), keyed(declared.name_packages@), text_pairs(
            declared.extensions@,
        )) == module_lists(*module),
{
    proof {
        lemma_errors_refl(diagnostics@);
    }
    let ghost key = module.key@;
    let ghost items = module.program.items@;
    let mut exports: Vec<(String, Export)> = Vec::new();
    let mut names: Vec<(String, String)> = Vec::new();
    let mut name_packages: Vec<(String, usize)> = Vec::new();
    let mut extensions: Vec<(String, String)> = Vec::new();
    let mut declared: Vec<(String, bool)> = Vec::new();
    let ghost start = diagnostic_views(diagnostics@);
    let mut i: usize = 0;
    while i < module.program.items.len()
        invariant
            i <= items.len(),
            items == module.program.items@,
            key == module.key@,
            start == diagnostic_views(old(diagnostics)@),
            ({
                let state = declare_items(key, module.package, module.entry, items, i as int);
                &&& exports_match(exports@, state.0)
                &&& names_match(names@, state.1)
                &&& values_match(name_packages@, state.2)
                &&& names_match(extensions@, state.3)
                &&& values_match(declared@, state.4)
                &&& diagnostic_views(diagnostics@) == start + state.5
            }),
            errors_appended(old(diagnostics)@, diagnostics@),
            (exports_view(exports@), text_pairs(names@), keyed(name_packages@), text_pairs(extensions@)) == declared_lists(
                key,
                module.package,
                module.entry,
                items,
                i as int,
            ),
        decreases module.program.items.len() - i,
    {
        if let Some(declaration) = item_declaration(&module.program.items[i]) {
            let name = declaration.name;
            let internal = if declaration.extension {
                qualified_extension_name(module.key.as_str(), name)
            } else if module.entry {
                String::from_str(name)
            } else {
                qualified_name(module.key.as_str(), name)
            };
            proof {
                reveal_strlit("clone");
            }
            assert(internal@ == internal_name(key, module.entry, name@, declaration.extension));
            let ghost exports_before = exports@;
            if declaration.exported {
                let export = Export { internal_name: internal.clone(), package: module.package, extension: declaration.extension };
                insert_pair(&mut exports, name, export);
                proof {
                    lemma_insert_exports(exports_before, exports@, name@, export);
                }
            }
            let previous = match find_pair(&declared, name) {
                Some(extension) => Some(*extension),
                None => None,
            };
            insert_pair(&mut declared, name, declaration.extension);
            if let Some(previous_extension) = previous {
                if !(previous_extension && declaration.extension) {
                    let mut message = String::from_str("duplicate top-level name `");
                    message.append(name);
                    message.append("` in this module");
                    let ghost d0 = diagnostics@;
                    diagnostics.push(Diagnostic::error(declaration.span, message));
                    assert(diagnostic_views(diagnostics@) =~= diagnostic_views(d0) + seq![
                        (Severity::Error, declaration.span, duplicate_name_message(name@)),
                    ]);
                    proof {
                        assert(diagnostics@.drop_last() =~= d0);
                        lemma_error_pushed(d0, diagnostics@);
                        lemma_errors_chain(old(diagnostics)@, d0, diagnostics@);
                    }
                }
            }
            if declaration.extension {
                if string_is(&String::from_str(name), "clone") {
                    let ghost d0 = diagnostics@;
                    diagnostics.push(
                        Diagnostic::error(
                            declaration.span,
                            String::from_str("extension function name `clone` is reserved for the built-in deep clone operation"),
                        ),
                    );
                    assert(diagnostic_views(diagnostics@) =~= diagnostic_views(d0) + seq![
                        (Severity::Error, declaration.span, reserved_clone_message()),
                    ]);
                    proof {
                        assert(diagnostics@.drop_last() =~= d0);
                        lemma_error_pushed(d0, diagnostics@);
                        lemma_errors_chain(old(diagnostics)@, d0, diagnostics@);
                    }
                }
                let ghost extensions_before = extensions@;
                let ghost internal_value = internal;
                insert_pair(&mut extensions, name, internal);
                proof {
                    lemma_insert_texts(extensions_before, extensions@, name@, internal_value);
                }
            } else {
                let ghost names_before = names@;
                let ghost internal_value = internal;
                insert_pair(&mut names, name, internal);
                proof {
                    lemma_insert_texts(names_before, names@, name@, internal_value);
                }
                insert_pair(&mut name_packages, name, module.package);
            }
        }
        i = i + 1;
    }
    ModuleNames { exports, names, name_packages, extensions }
}

/// The message for a namespace whose name the module already uses.
pub open spec fn namespace_conflict_message(name: Seq<char>) -> Seq<char> {
    "module namespace `"@ + name + "` conflicts with another name in this module"@
}

/// Every namespace points at one of `count` modules.
pub open spec fn targets_below(namespaces: Seq<(String, usize)>, count: int) -> bool {
    forall|i: int| 0 <= i < namespaces.len() ==> #[trigger] namespaces[i].1 < count
}

/// The first index of `name` among the namespaces, or their number.
fn namespace_index(namespaces: &Vec<(String, usize)>, name: &String) -> (index: usize)
    ensures
        index <= namespaces@.len(),
        index < namespaces@.len() ==> namespaces@[index as int].0@ == name@,
        forall|j: int| 0 <= j < index ==> #[trigger] namespaces@[j].0@ != name@,
{
    let mut i: usize = 0;
    while i < namespaces.len()
        invariant
            i <= namespaces@.len(),
            forall|j: int| 0 <= j < i ==> #[trigger] namespaces@[j].0@ != name@,
        decreases namespaces.len() - i,
    {
        if namespaces[i].0.eq(name) {
            return i;
        }
        i = i + 1;
    }
    i
}

proof fn lemma_errors_refl(diagnostics: Seq<Diagnostic>)
    ensures
        errors_appended(diagnostics, diagnostics),
{
    assert(diagnostics.take(diagnostics.len() as int) =~= diagnostics);
}

proof fn lemma_errors_chain(a: Seq<Diagnostic>, b: Seq<Diagnostic>, c: Seq<Diagnostic>)
    requires
        errors_appended(a, b),
        errors_appended(b, c),
    ensures
        errors_appended(a, c),
{
    assert(c.take(a.len() as int) =~= c.take(b.len() as int).take(a.len() as int));
    assert forall|i: int| a.len() <= i < c.len() implies (#[trigger] c[i]).severity == Severity::Error by {
        if i < b.len() {
            assert(c.take(b.len() as int)[i] == b[i]);
        }
    }
}

proof fn lemma_error_pushed(before: Seq<Diagnostic>, after: Seq<Diagnostic>)
    requires
        after.len() == before.len() + 1,
        after.drop_last() == before,
        after.last().severity == Severity::Error,
    ensures
        errors_appended(before, after),
{
    assert(after.take(before.len() as int) =~= before);
}

/// Brings the imports of module `module_index` that are not re-exports, and
/// are weak or not as `weak` says, into the module's names, extensions and
/// namespaces (see `import_visible_export`), reporting conflicts and names
/// that the imported module does not export.
#[verifier::spinoff_prover]
#[verifier::rlimit(80)]
fn import_module(
    module_index: usize,
    modules: &Vec<Module>,
    exports: &Vec<Vec<(String, Export)>>,
    weak: bool,
    visible_names: &mut Vec<(String, String)>,
    visible_name_packages: &mut Vec<(String, usize)>,
    visible_extensions: &mut Vec<(String, String)>,
    visible_namespaces: &mut Vec<(String, usize)>,
    diagnostics: &mut Vec<Diagnostic>,
)
    requires
        module_index < modules@.len(),
        exports@.len() == modules@.len(),
        import_targets_valid(modules@, modules@.len() as int),
        targets_below(old(visible_namespaces)@, modules@.len() as int),
    ensures
        targets_below(final(visible_namespaces)@, modules@.len() as int),
        errors_appended(old(diagnostics)@, final(diagnostics)@),
        import_run_of(
            final(visible_names)@,
            final(visible_name_packages)@,
            final(visible_extensions)@,
            final(visible_namespaces)@,
            final(diagnostics)@,
        ) == import_steps(
            modules@,
            all_exports_view(exports@),
            module_index as int,
            weak,
            0,
            import_run_of(
                old(visible_names)@,
                old(visible_name_packages)@,
                old(visible_extensions)@,
                old(visible_namespaces)@,
                old(diagnostics)@,
            ),
        ),
{
    proof {
        lemma_errors_refl(diagnostics@);
    }
    let ghost start = import_run_of(visible_names@, visible_name_packages@, visible_extensions@, visible_namespaces@, diagnostics@);
    let ghost all = all_exports_view(exports@);
    let module = &modules[module_index];
    let mut i: usize = 0;
    while i < module.imports.len()
        invariant
            module_index < modules@.len(),
            *module == modules@[module_index as int],
            exports@.len() == modules@.len(),
            import_targets_valid(modules@, modules@.len() as int),
            i <= module.imports@.len(),
            targets_below(visible_namespaces@, modules@.len() as int),
            errors_appended(old(diagnostics)@, diagnostics@),
            all == all_exports_view(exports@),
            import_steps(modules@, all, module_index as int, weak, 0, start) == import_steps(
                modules@,
                all,
                module_index as int,
                weak,
                i as int,
                import_run_of(visible_names@, visible_name_packages@, visible_extensions@, visible_namespaces@, diagnostics@),
            ),
        decreases module.imports.len() - i,
    {
        let ghost cur = import_run_of(visible_names@, visible_name_packages@, visible_extensions@, visible_namespaces@, diagnostics@);
        let import = &module.imports[i];
        assert(modules@[module_index as int].imports@[i as int] == *import);
        if !import.exported && import.weak == weak {
            if let Some(target) = import.target {
                if let Some(namespace) = &import.namespace {
                    proof {
                        lemma_text_lookup_some_iff(visible_names@, namespace.name@);
                    }
                    let conflict = if find_pair(visible_names, namespace.name.as_str()).is_some() {
                        true
                    } else {
                        let index = namespace_index(visible_namespaces, &namespace.name);
                        proof {
                            lemma_first_index(visible_namespaces@, namespace.name@, index as int);
                        }
                        if index < visible_namespaces.len() {
                            let ghost before = visible_namespaces@;
                            visible_namespaces.set(index, (namespace.name.clone(), target));
                            assert forall|j: int| 0 <= j < visible_namespaces@.len() implies #[trigger] visible_namespaces@[j].1
                                < modules@.len() by {
                                if j != index {
                                    assert(visible_namespaces@[j] == before[j]);
                                }
                            }
                            true
                        } else {
                            let ghost before = visible_namespaces@;
                            visible_namespaces.push((namespace.name.clone(), target));
                            assert forall|j: int| 0 <= j < visible_namespaces@.len() implies #[trigger] visible_namespaces@[j].1
                                < modules@.len() by {
                                if j < before.len() {
                                    assert(visible_namespaces@[j] == before[j]);
                                }
                            }
                            false
                        }
                    };
                    if conflict {
                        let mut message = String::from_str("module namespace `");
                        message.append(namespace.name.as_str());
                        message.append("` conflicts with another name in this module");
                        let ghost d0 = diagnostics@;
                        diagnostics.push(Diagnostic::error(namespace.span, message));
                        proof {
                            assert(diagnostics@.drop_last() =~= d0);
                            lemma_error_pushed(d0, diagnostics@);
                            lemma_errors_chain(old(diagnostics)@, d0, diagnostics@);
                            assert(diagnostic_views(diagnostics@) =~= diagnostic_views(d0).push(
                                (Severity::Error, namespace.span, crate::project::import_spec::namespace_conflict_text(namespace.name@)),
                            ));
                        }
                    }
                    proof {
                        assert(import_run_of(visible_names@, visible_name_packages@, visible_extensions@, visible_namespaces@, diagnostics@)
                            =~= namespace_step(cur, namespace.name@, target, namespace.span));
                    }
                }
                let ghost spaced = import_run_of(visible_names@, visible_name_packages@, visible_extensions@, visible_namespaces@, diagnostics@);
                assert(spaced == match import.namespace {
                    Some(ns) => namespace_step(cur, ns.name@, target, ns.span),
                    None => cur,
                });
                if import.glob {
                    let entries = &exports[target];
                    assert(all[target as int] == exports_view(entries@));
                    let mut k: usize = 0;
                    while k < entries.len()
                        invariant
                            k <= entries@.len(),
                            errors_appended(old(diagnostics)@, diagnostics@),
                            glob_import_steps(spaced, exports_view(entries@), import.span, import.weak, 0) == glob_import_steps(
                                import_run_of(visible_names@, visible_name_packages@, visible_extensions@, visible_namespaces@, diagnostics@),
                                exports_view(entries@),
                                import.span,
                                import.weak,
                                k as int,
                            ),
                        decreases entries.len() - k,
                    {
                        let ghost d0 = diagnostics@;
                        let ghost n0 = visible_names@;
                        let ghost p0 = visible_name_packages@;
                        let ghost e0 = visible_extensions@;
                        import_visible_export(
                            entries[k].0.as_str(),
                            &entries[k].1,
                            import.span,
                            import.weak,
                            visible_names,
                            visible_name_packages,
                            visible_extensions,
                            visible_namespaces,
                            diagnostics,
                        );
                        proof {
                            lemma_errors_chain(old(diagnostics)@, d0, diagnostics@);
                            lemma_visible_import(
                                n0,
                                p0,
                                e0,
                                visible_namespaces@,
                                d0,
                                visible_names@,
                                visible_name_packages@,
                                visible_extensions@,
                                diagnostics@,
                                entries@[k as int].0@,
                                entries@[k as int].1,
                                import.span,
                                import.weak,
                            );
                        }
                        k = k + 1;
                    }
                }
                let ghost globbed = import_run_of(visible_names@, visible_name_packages@, visible_extensions@, visible_namespaces@, diagnostics@);
                assert(globbed == if import.glob {
                    glob_import_steps(spaced, all[target as int], import.span, import.weak, 0)
                } else {
                    spaced
                });
                let mut n: usize = 0;
                while n < import.names.len()
                    invariant
                        target < exports@.len(),
                        target < modules@.len(),
                        n <= import.names@.len(),
                        errors_appended(old(diagnostics)@, diagnostics@),
                        all == all_exports_view(exports@),
                        name_import_steps(globbed, all[target as int], modules@[target as int].path@, import.names@, import.weak, 0)
                            == name_import_steps(
                            import_run_of(visible_names@, visible_name_packages@, visible_extensions@, visible_namespaces@, diagnostics@),
                            all[target as int],
                            modules@[target as int].path@,
                            import.names@,
                            import.weak,
                            n as int,
                        ),
                    decreases import.names.len() - n,
                {
                    let imported_name = &import.names[n];
                    let name = &imported_name.name;
                    let local_name = match &imported_name.alias {
                        Some(alias) => alias,
                        None => name,
                    };
                    let ghost d0 = diagnostics@;
                    let ghost n0 = visible_names@;
                    let ghost p0 = visible_name_packages@;
                    let ghost e0 = visible_extensions@;
                    proof {
                        lemma_lookup_export(exports@[target as int]@, name@);
                        assert(local_name@ == crate::project::reexport::exported_as(import.names@[n as int]));
                    }
                    match find_pair(&exports[target], name.as_str()) {
                        None => {
                            let mut message = String::from_str("module `");
                            message.append(modules[target].path.as_str());
                            message.append("` does not export `");
                            message.append(name.as_str());
                            message.append("`");
                            assert(message@ =~= crate::project::reexport::missing_name_message(modules@[target as int].path@, name@));
                            diagnostics.push(Diagnostic::error(imported_name.span, message));
                            proof {
                                assert(diagnostics@.drop_last() =~= d0);
                                lemma_error_pushed(d0, diagnostics@);
                                assert(diagnostic_views(diagnostics@) =~= diagnostic_views(d0).push(
                                    (Severity::Error, imported_name.span, crate::project::reexport::missing_name_message(modules@[target as int].path@, name@)),
                                ));
                            }
                        },
                        Some(export) => {
                            import_visible_export(
                                local_name.as_str(),
                                export,
                                imported_name.span,
                                import.weak,
                                visible_names,
                                visible_name_packages,
                                visible_extensions,
                                visible_namespaces,
                                diagnostics,
                            );
                            proof {
                                lemma_visible_import(
                                    n0,
                                    p0,
                                    e0,
                                    visible_namespaces@,
                                    d0,
                                    visible_names@,
                                    visible_name_packages@,
                                    visible_extensions@,
                                    diagnostics@,
                                    local_name@,
                                    *export,
                                    imported_name.span,
                                    import.weak,
                                );
                            }
                        },
                    }
                    proof {
                        lemma_errors_chain(old(diagnostics)@, d0, diagnostics@);
                    }
                    n = n + 1;
                }
            }
        }
        proof {
            assert(import_steps(modules@, all, module_index as int, weak, i as int, cur) == import_steps(
                modules@,
                all,
                module_index as int,
                weak,
                i + 1,
                import_run_of(visible_names@, visible_name_packages@, visible_extensions@, visible_namespaces@, diagnostics@),
            ));
        }
        i = i + 1;
    }
}

/// Whether some diagnostic is an error.
fn any_error(diagnostics: &Vec<Diagnostic>) -> (error: bool)
    ensures
        error == has_error(diagnostics@),
{
    let mut i: usize = 0;
    while i < diagnostics.len()
        invariant
            i <= diagnostics@.len(),
            forall|j: int| 0 <= j < i ==> #[trigger] diagnostics@[j].severity != Severity::Error,
        decreases diagnostics.len() - i,
    {
        if diagnostics[i].severity == Severity::Error {
            return true;
        }
        i = i + 1;
    }
    false
}

proof fn lemma_error_kept(before: Seq<Diagnostic>, after: Seq<Diagnostic>)
    requires
        errors_appended(before, after),
        has_error(before),
    ensures
        has_error(after),
{
    let i = choose|i: int| 0 <= i < before.len() && #[trigger] before[i].severity == Severity::Error;
    assert(after.take(before.len() as int)[i] == before[i]);
    assert(after[i].severity == Severity::Error);
}

/// A copy of a list of maps from names to plain values.
fn copy_maps<V: Copy>(maps: &Vec<Vec<(String, V)>>) -> (copy: Vec<Vec<(String, V)>>)
    ensures
        copy@.len() == maps@.len(),
        forall|m: int| 0 <= m < maps@.len() ==> #[trigger] copy@[m]@ == maps@[m]@,
{
    let mut copy: Vec<Vec<(String, V)>> = Vec::new();
    let mut m: usize = 0;
    while m < maps.len()
        invariant
            m <= maps@.len(),
            copy@.len() == m,
            forall|j: int| 0 <= j < m ==> #[trigger] copy@[j]@ == maps@[j]@,
        decreases maps.len() - m,
    {
        let mut map: Vec<(String, V)> = Vec::new();
        let mut k: usize = 0;
        while k < maps[m].len()
            invariant
                m < maps@.len(),
                k <= maps@[m as int]@.len(),
                map@.len() == k,
                forall|j: int| 0 <= j < k ==> #[trigger] map@[j] == maps@[m as int]@[j],
            decreases maps[m as int]@.len() - k,
        {
            map.push((maps[m][k].0.clone(), maps[m][k].1));
            k = k + 1;
        }
        assert(map@ =~= maps@[m as int]@);
        copy.push(map);
        m = m + 1;
    }
    copy
}

/// A copy of a list of maps from names to names.
fn copy_name_maps(maps: &Vec<Vec<(String, String)>>) -> (copy: Vec<Vec<(String, String)>>)
    ensures
        copy@.len() == maps@.len(),
        forall|m: int| 0 <= m < maps@.len() ==> #[trigger] copy@[m]@ == maps@[m]@,
{
    let mut copy: Vec<Vec<(String, String)>> = Vec::new();
    let mut m: usize = 0;
    while m < maps.len()
        invariant
            m <= maps@.len(),
            copy@.len() == m,
            forall|j: int| 0 <= j < m ==> #[trigger] copy@[j]@ == maps@[j]@,
        decreases maps.len() - m,
    {
        let mut map: Vec<(String, String)> = Vec::new();
        let mut k: usize = 0;
        while k < maps[m].len()
            invariant
                m < maps@.len(),
                k <= maps@[m as int]@.len(),
                map@.len() == k,
                forall|j: int| 0 <= j < k ==> #[trigger] map@[j] == maps@[m as int]@[j],
            decreases maps[m as int]@.len() - k,
        {
            map.push((maps[m][k].0.clone(), maps[m][k].1.clone()));
            k = k + 1;
        }
        assert(map@ =~= maps@[m as int]@);
        copy.push(map);
        m = m + 1;
    }
    copy
}

/// How many items that are not imports the first `n` modules hold.
pub open spec fn linked_item_count(modules: Seq<Module>, n: int) -> nat
    decreases n,
{
    if n <= 0 || n > modules.len() {
        0
    } else {
        linked_item_count(modules, n - 1) + module_item_count(modules[n - 1].program.items@, modules[n - 1].program.items@.len() as int)
    }
}

/// How many of the first `n` items are not imports.
pub open spec fn module_item_count(items: Seq<Item>, n: int) -> nat
    decreases n,
{
    if n <= 0 || n > items.len() {
        0
    } else {
        module_item_count(items, n - 1) + if items[n - 1] is Import { 0nat } else { 1nat }
    }
}


/// The errors that the modules' declarations give, module by module (see
/// `declare_items`).
pub open spec fn declaration_errors(modules: Seq<Module>, n: int) -> Seq<DiagnosticView>
    decreases n,
{
    if n <= 0 || n > modules.len() {
        seq![]
    } else {
        let m = modules[n - 1];
        declaration_errors(modules, n - 1) + declare_items(
            m.key@,
            m.package,
            m.entry,
            m.program.items@,
            m.program.items@.len() as int,
        ).5
    }
}

/// Some view is an error.
pub open spec fn error_view(views: Seq<DiagnosticView>) -> bool {
    exists|i: int| 0 <= i < views.len() && #[trigger] views[i].0 == Severity::Error
}

/// `names` and `extensions` list the internal names that `module` declares.
pub open spec fn names_declared(names: Seq<(String, String)>, extensions: Seq<(String, String)>, module: Module) -> bool {
    let state = declare_items(
        module.key@,
        module.package,
        module.entry,
        module.program.items@,
        module.program.items@.len() as int,
    );
    names_match(names, state.1) && names_match(extensions, state.3)
}

/// Where in the linked program item `k` of module `m` stands: after the
/// non-import items of the earlier modules and of the earlier items of `m`.
pub open spec fn linked_item_at(modules: Seq<Module>, m: int, k: int) -> int {
    (linked_item_count(modules, m) + module_item_count(modules[m].program.items@, k)) as int
}

/// What a module sees while linking: names and their internal names, names
/// and their packages, extensions and their internal names, and namespaces
/// and their modules.
pub type Visible = (
    Seq<(Seq<char>, Seq<char>)>,
    Seq<(Seq<char>, usize)>,
    Seq<(Seq<char>, Seq<char>)>,
    Seq<(Seq<char>, usize)>,
);

/// Each module's declared exports.
pub open spec fn declared_exports_all(modules: Seq<Module>) -> Seq<crate::project::reexport::ExportsView> {
    Seq::new(modules.len(), |m: int| module_lists(modules[m]).0)
}

/// What each module sees before its imports: its own declarations.
pub open spec fn start_visible(modules: Seq<Module>) -> Seq<Visible> {
    Seq::new(
        modules.len(),
        |m: int| (module_lists(modules[m]).1, module_lists(modules[m]).2, module_lists(modules[m]).3, seq![]),
    )
}

pub open spec fn visible_views(
    names: Seq<Vec<(String, String)>>,
    packages: Seq<Vec<(String, usize)>>,
    extensions: Seq<Vec<(String, String)>>,
    namespaces: Seq<Vec<(String, usize)>>,
) -> Seq<Visible> {
    Seq::new(
        names.len(),
        |m: int| (text_pairs(names[m]@), keyed(packages[m]@), text_pairs(extensions[m]@), keyed(namespaces[m]@)),
    )
}

/// One pass of imports (weak or not) over modules `m` onwards, each module
/// bringing its imports into what it sees (see `import_steps`).
pub open spec fn import_pass(
    modules: Seq<Module>,
    exports: Seq<crate::project::reexport::ExportsView>,
    weak: bool,
    m: int,
    state: (Seq<Visible>, Seq<DiagnosticView>),
) -> (Seq<Visible>, Seq<DiagnosticView>)
    decreases modules.len() - m,
{
    if m < 0 || m >= modules.len() || m >= state.0.len() {
        state
    } else {
        let v = state.0[m];
        let run = import_steps(modules, exports, m, weak, 0, (v.0, v.1, v.2, v.3, state.1));
        import_pass(modules, exports, weak, m + 1, (state.0.update(m, (run.0, run.1, run.2, run.3)), run.4))
    }
}

/// What linking checks before it rewrites, from the diagnostics `start`:
/// the diagnostics (declarations, then re-exports, then the imports that are
/// not weak and the weak ones, then foreign impls, stopping after a step
/// that leaves an error), the exports after re-exports, and what each module
/// sees after its imports.
pub open spec fn link_check(modules: Seq<Module>, basic_types: Seq<String>, start: Seq<DiagnosticView>) -> (
    Seq<DiagnosticView>,
    Seq<crate::project::reexport::ExportsView>,
    Seq<Visible>,
) {
    let declared = start + declaration_errors(modules, modules.len() as int);
    let re_exported = resolve_all_spec(modules, 0, (all_pending(modules.len()), declared_exports_all(modules), declared));
    if error_view(re_exported.2) {
        (re_exported.2, re_exported.1, start_visible(modules))
    } else {
        let strong = import_pass(modules, re_exported.1, false, 0, (start_visible(modules), re_exported.2));
        let weak = import_pass(modules, re_exported.1, true, 0, strong);
        if error_view(weak.1) {
            (weak.1, re_exported.1, weak.0)
        } else {
            (
                weak.1 + modules_impl_errors(
                    modules,
                    modules.len() as int,
                    weak.0.map_values(|v: Visible| v.1),
                    basic_types,
                ),
                re_exported.1,
                weak.0,
            )
        }
    }
}

proof fn lemma_has_error_view(d: Seq<Diagnostic>)
    ensures
        has_error(d) == error_view(diagnostic_views(d)),
{
    if has_error(d) {
        let i = choose|i: int| 0 <= i < d.len() && #[trigger] d[i].severity == Severity::Error;
        assert(diagnostic_views(d)[i].0 == Severity::Error);
    }
    if error_view(diagnostic_views(d)) {
        let i = choose|i: int| 0 <= i < diagnostic_views(d).len() && #[trigger] diagnostic_views(d)[i].0 == Severity::Error;
        assert(d[i].severity == Severity::Error);
    }
}

/// Item `k` of module `m` stands rewritten at its place in `result`, under
/// the names that its module declares and the names, extensions and
/// namespaces it sees (`visible`, with the modules' `exports`).
pub open spec fn item_linked(
    modules: Seq<Module>,
    m: int,
    k: int,
    result: Seq<Item>,
    visible: Seq<Visible>,
    exports: Seq<crate::project::reexport::ExportsView>,
) -> bool {
    &&& linked_item_at(modules, m, k) < result.len()
    &&& exists|link: LinkNames, own: OwnNames|
        names_declared(own.0, own.1, modules[m]) && own.2 == modules[m].entry && text_pairs(link.0) == visible[m].0
            && text_pairs(link.1) == visible[m].2 && keyed(link.2) == visible[m].3 && all_exports_view(link.3) == exports
            && #[trigger] item_rewritten(
            link,
            own,
            seq![],
            modules[m].program.items@[k],
            result[linked_item_at(modules, m, k)],
        )
}

proof fn lemma_item_linked_push(
    modules: Seq<Module>,
    m: int,
    k: int,
    result: Seq<Item>,
    item: Item,
    visible: Seq<Visible>,
    exports: Seq<crate::project::reexport::ExportsView>,
)
    requires
        item_linked(modules, m, k, result, visible, exports),
    ensures
        item_linked(modules, m, k, result.push(item), visible, exports),
{
    let (link, own) = choose|link: LinkNames, own: OwnNames|
        names_declared(own.0, own.1, modules[m]) && own.2 == modules[m].entry && text_pairs(link.0) == visible[m].0
            && text_pairs(link.1) == visible[m].2 && keyed(link.2) == visible[m].3 && all_exports_view(link.3) == exports
            && #[trigger] item_rewritten(
            link,
            own,
            seq![],
            modules[m].program.items@[k],
            result[linked_item_at(modules, m, k)],
        );
    assert(result.push(item)[linked_item_at(modules, m, k)] == result[linked_item_at(modules, m, k)]);
    assert(item_rewritten(link, own, seq![], modules[m].program.items@[k], result.push(item)[linked_item_at(modules, m, k)]));
}

proof fn lemma_views_prefix(before: Seq<Diagnostic>, after: Seq<Diagnostic>)
    requires
        errors_appended(before, after),
    ensures
        diagnostic_views(after).take(before.len() as int) == diagnostic_views(before),
{
    assert(diagnostic_views(after).take(before.len() as int) =~= diagnostic_views(after.take(before.len() as int)));
}

proof fn lemma_error_view_has_error(start: Seq<Diagnostic>, errors: Seq<DiagnosticView>, now: Seq<Diagnostic>)
    requires
        diagnostic_views(now) == diagnostic_views(start) + errors,
        error_view(errors),
    ensures
        has_error(now),
{
    let i = choose|i: int| 0 <= i < errors.len() && #[trigger] errors[i].0 == Severity::Error;
    assert(diagnostic_views(now).len() == now.len());
    assert(diagnostic_views(start).len() == start.len());
    let idx = start.len() + i;
    assert(diagnostic_views(now)[idx] == errors[i]);
    assert(diagnostic_views(now)[idx].0 == now[idx].severity);
    assert(now[idx].severity == Severity::Error);
}

/// Links the modules of a project into one program: each module's
/// declarations get internal names, re-exports and imports make names
/// visible across modules, impls of foreign traits for foreign types are
/// refused, and every item but the imports is rewritten to the internal
/// names (see `ModuleRewriter::rewrite_item`). Errors are reported in
/// `diagnostics`; once there is an error (before the rewriting), the program
/// is empty. `basic_types` are the names of the built-in types.
#[verifier::spinoff_prover]
pub fn link_modules(modules: Vec<Module>, basic_types: &Vec<String>, diagnostics: &mut Vec<Diagnostic>) -> (program: Program)
    requires
        import_targets_valid(modules@, modules@.len() as int),
    ensures
        diagnostic_views(final(diagnostics)@).take(old(diagnostics)@.len() as int) == diagnostic_views(old(diagnostics)@),
        final(diagnostics)@.len() >= old(diagnostics)@.len(),
        has_error(old(diagnostics)@) ==> program.items@.len() == 0,
        program.items@.len() == 0 || program.items@.len() == linked_item_count(modules@, modules@.len() as int),
        !has_error(final(diagnostics)@) ==> program.items@.len() == linked_item_count(modules@, modules@.len() as int),
        diagnostic_views(final(diagnostics)@).take(
            (old(diagnostics)@.len() + declaration_errors(modules@, modules@.len() as int).len()) as int,
        ) == diagnostic_views(old(diagnostics)@) + declaration_errors(modules@, modules@.len() as int),
        error_view(declaration_errors(modules@, modules@.len() as int)) ==> program.items@.len() == 0,
        ({
            let check = link_check(modules@, basic_types@, diagnostic_views(old(diagnostics)@));
            &&& diagnostic_views(final(diagnostics)@).take(check.0.len() as int) == check.0
            &&& error_view(check.0) ==> program.items@.len() == 0 && diagnostic_views(final(diagnostics)@) == check.0
            &&& !error_view(check.0) ==> program.items@.len() == linked_item_count(modules@, modules@.len() as int)
                && forall|m: int, k: int|
                0 <= m < modules@.len() && 0 <= k < modules@[m].program.items@.len() && !(
                modules@[m].program.items@[k] is Import) ==> #[trigger] item_linked(
                    modules@,
                    m,
                    k,
                    program.items@,
                    check.2,
                    check.1,
                )
        }),
{
    let ghost original = modules@;
    let ghost start = diagnostics@;
    let ghost check = link_check(original, basic_types@, diagnostic_views(start));
    proof {
        lemma_errors_refl(diagnostics@);
    }
    let mut modules = modules;
    let mut exports: Vec<Vec<(String, Export)>> = Vec::new();
    let mut local_names: Vec<Vec<(String, String)>> = Vec::new();
    let mut local_name_packages: Vec<Vec<(String, usize)>> = Vec::new();
    let mut local_extensions: Vec<Vec<(String, String)>> = Vec::new();
    let mut m: usize = 0;
    while m < modules.len()
        invariant
            modules@ == original,
            m <= modules@.len(),
            exports@.len() == m,
            local_names@.len() == m,
            local_name_packages@.len() == m,
            local_extensions@.len() == m,
            errors_appended(start, diagnostics@),
            diagnostic_views(diagnostics@) == diagnostic_views(start) + declaration_errors(original, m as int),
            forall|j: int| 0 <= j < m ==> names_declared(#[trigger] local_names@[j]@, local_extensions@[j]@, original[j]),
            forall|j: int| 0 <= j < m ==> exports_view(#[trigger] exports@[j]@) == module_lists(original[j]).0,
            forall|j: int| 0 <= j < m ==> text_pairs(#[trigger] local_names@[j]@) == module_lists(original[j]).1,
            forall|j: int| 0 <= j < m ==> keyed(#[trigger] local_name_packages@[j]@) == module_lists(original[j]).2,
            forall|j: int| 0 <= j < m ==> text_pairs(#[trigger] local_extensions@[j]@) == module_lists(original[j]).3,
        decreases modules.len() - m,
    {
        let ghost d0 = diagnostics@;
        let ghost exports_prev = exports@;
        let ghost names_prev = local_names@;
        let ghost packages_prev = local_name_packages@;
        let ghost extensions_prev = local_extensions@;
        let declared = declare_module(&modules[m], diagnostics);
        proof {
            lemma_errors_chain(start, d0, diagnostics@);
        }
        let ModuleNames { exports: module_exports, names, name_packages, extensions } = declared;
        let ghost names_before = local_names@;
        let ghost extensions_before = local_extensions@;
        exports.push(module_exports);
        local_names.push(names);
        local_name_packages.push(name_packages);
        local_extensions.push(extensions);
        proof {
            assert(declaration_errors(original, m + 1) == declaration_errors(original, m as int) + declare_items(
                original[m as int].key@,
                original[m as int].package,
                original[m as int].entry,
                original[m as int].program.items@,
                original[m as int].program.items@.len() as int,
            ).5);
            assert forall|j: int| 0 <= j < m + 1 implies names_declared(
                #[trigger] local_names@[j]@,
                local_extensions@[j]@,
                original[j],
            ) by {
                if j < m {
                    assert(local_names@[j] == names_before[j]);
                    assert(local_extensions@[j] == extensions_before[j]);
                }
            }
            assert forall|j: int| 0 <= j < m + 1 implies exports_view(#[trigger] exports@[j]@) == module_lists(original[j]).0 by {
                if j < m {
                    assert(exports@[j] == exports_prev[j]);
                }
            }
            assert forall|j: int| 0 <= j < m + 1 implies text_pairs(#[trigger] local_names@[j]@) == module_lists(original[j]).1 by {
                if j < m {
                    assert(local_names@[j] == names_prev[j]);
                }
            }
            assert forall|j: int| 0 <= j < m + 1 implies keyed(#[trigger] local_name_packages@[j]@) == module_lists(original[j]).2 by {
                if j < m {
                    assert(local_name_packages@[j] == packages_prev[j]);
                }
            }
            assert forall|j: int| 0 <= j < m + 1 implies text_pairs(#[trigger] local_extensions@[j]@) == module_lists(original[j]).3 by {
                if j < m {
                    assert(local_extensions@[j] == extensions_prev[j]);
                }
            }
        }
        m = m + 1;
    }
    let ghost d1 = diagnostics@;
    let ghost decl = declaration_errors(original, original.len() as int);
    let ghost names0 = local_names@;
    let ghost extensions0 = local_extensions@;
    proof {
        if error_view(decl) {
            lemma_error_view_has_error(start, decl, d1);
        }
    }
    assert(all_exports_view(exports@) =~= declared_exports_all(original)) by {
        assert forall|j: int| 0 <= j < original.len() implies #[trigger] all_exports_view(exports@)[j] == declared_exports_all(original)[j] by {
            assert(exports_view(exports@[j]@) == module_lists(original[j]).0);
        }
    }
    let ghost re_exported = resolve_all_spec(
        original,
        0,
        (all_pending(original.len()), declared_exports_all(original), diagnostic_views(d1)),
    );
    resolve_re_exports(&modules, &mut exports, diagnostics);
    proof {
        lemma_has_error_view(diagnostics@);
        lemma_errors_chain(start, d1, diagnostics@);
        if error_view(decl) {
            lemma_error_kept(d1, diagnostics@);
        }
    }
    if any_error(diagnostics) {
        proof {
            lemma_views_prefix(d1, diagnostics@);
            assert(check.0 == re_exported.2);
        }
        return Program { items: Vec::new() };
    }
    proof {
        if has_error(start) {
            lemma_error_kept(start, diagnostics@);
        }
    }
    let ghost strong = import_pass(original, re_exported.1, false, 0, (start_visible(original), re_exported.2));
    let ghost weak_state = import_pass(original, re_exported.1, true, 0, strong);
    let mut visible_names = copy_name_maps(&local_names);
    let mut visible_name_packages = copy_maps(&local_name_packages);
    let mut visible_extensions = copy_name_maps(&local_extensions);
    let mut visible_namespaces: Vec<Vec<(String, usize)>> = Vec::new();
    let mut m: usize = 0;
    while m < modules.len()
        invariant
            m <= modules@.len(),
            visible_namespaces@.len() == m,
            forall|j: int| 0 <= j < m ==> #[trigger] visible_namespaces@[j]@.len() == 0,
        decreases modules.len() - m,
    {
        visible_namespaces.push(Vec::new());
        m = m + 1;
    }
    assert(visible_views(visible_names@, visible_name_packages@, visible_extensions@, visible_namespaces@)
        =~= start_visible(original)) by {
        assert forall|j: int| 0 <= j < original.len() implies #[trigger] visible_views(
            visible_names@,
            visible_name_packages@,
            visible_extensions@,
            visible_namespaces@,
        )[j] == start_visible(original)[j] by {
            assert(visible_names@[j]@ == local_names@[j]@);
            assert(visible_name_packages@[j]@ == local_name_packages@[j]@);
            assert(visible_extensions@[j]@ == local_extensions@[j]@);
            assert(text_pairs(local_names@[j]@) == module_lists(original[j]).1);
            assert(keyed(local_name_packages@[j]@) == module_lists(original[j]).2);
            assert(text_pairs(local_extensions@[j]@) == module_lists(original[j]).3);
            assert(visible_namespaces@[j]@ =~= Seq::<(String, usize)>::empty());
            assert(keyed(visible_namespaces@[j]@) =~= Seq::<(Seq<char>, usize)>::empty());
        }
    }
    let mut pass: usize = 0;
    while pass < 2
        invariant
            all_exports_view(exports@) == re_exported.1,
            (visible_views(visible_names@, visible_name_packages@, visible_extensions@, visible_namespaces@), diagnostic_views(diagnostics@))
                == if pass == 0 {
                (start_visible(original), re_exported.2)
            } else if pass == 1 {
                strong
            } else {
                weak_state
            },
            pass <= 2,
            strong == import_pass(original, re_exported.1, false, 0, (start_visible(original), re_exported.2)),
            weak_state == import_pass(original, re_exported.1, true, 0, strong),
            modules@ == original,
            import_targets_valid(modules@, modules@.len() as int),
            exports@.len() == modules@.len(),
            visible_names@.len() == modules@.len(),
            visible_name_packages@.len() == modules@.len(),
            visible_extensions@.len() == modules@.len(),
            visible_namespaces@.len() == modules@.len(),
            forall|j: int| 0 <= j < modules@.len() ==> #[trigger] targets_below(visible_namespaces@[j]@, modules@.len() as int),
            errors_appended(d1, diagnostics@),
        decreases 2 - pass,
    {
        let weak = pass == 1;
        let ghost pass_start = (
            visible_views(visible_names@, visible_name_packages@, visible_extensions@, visible_namespaces@),
            diagnostic_views(diagnostics@),
        );
        let mut m: usize = 0;
        while m < modules.len()
            invariant
                all_exports_view(exports@) == re_exported.1,
                import_pass(original, re_exported.1, weak, 0, pass_start) == import_pass(
                    original,
                    re_exported.1,
                    weak,
                    m as int,
                    (visible_views(visible_names@, visible_name_packages@, visible_extensions@, visible_namespaces@), diagnostic_views(diagnostics@)),
                ),
                modules@ == original,
                import_targets_valid(modules@, modules@.len() as int),
                m <= modules@.len(),
                exports@.len() == modules@.len(),
                visible_names@.len() == modules@.len(),
                visible_name_packages@.len() == modules@.len(),
                visible_extensions@.len() == modules@.len(),
                visible_namespaces@.len() == modules@.len(),
                forall|j: int| 0 <= j < modules@.len() ==> #[trigger] targets_below(visible_namespaces@[j]@, modules@.len() as int),
                errors_appended(d1, diagnostics@),
            decreases modules.len() - m,
        {
            let ghost d0 = diagnostics@;
            let ghost namespaces_before = visible_namespaces@;
            let ghost names_before = visible_names@;
            let ghost packages_before = visible_name_packages@;
            let ghost extensions_before = visible_extensions@;
            import_module(
                m,
                &modules,
                &exports,
                weak,
                &mut visible_names[m],
                &mut visible_name_packages[m],
                &mut visible_extensions[m],
                &mut visible_namespaces[m],
                diagnostics,
            );
            proof {
                lemma_errors_chain(d1, d0, diagnostics@);
                assert forall|j: int| 0 <= j < modules@.len() implies #[trigger] targets_below(
                    visible_namespaces@[j]@,
                    modules@.len() as int,
                ) by {
                    if j != m {
                        assert(visible_namespaces@[j] == namespaces_before[j]);
                    }
                }
                let before_views = visible_views(names_before, packages_before, extensions_before, namespaces_before);
                let run = import_steps(
                    original,
                    re_exported.1,
                    m as int,
                    weak,
                    0,
                    (before_views[m as int].0, before_views[m as int].1, before_views[m as int].2, before_views[m as int].3, diagnostic_views(d0)),
                );
                assert(visible_views(visible_names@, visible_name_packages@, visible_extensions@, visible_namespaces@) =~= before_views.update(
                    m as int,
                    (run.0, run.1, run.2, run.3),
                )) by {
                    assert forall|j: int| 0 <= j < original.len() implies #[trigger] visible_views(
                        visible_names@,
                        visible_name_packages@,
                        visible_extensions@,
                        visible_namespaces@,
                    )[j] == before_views.update(m as int, (run.0, run.1, run.2, run.3))[j] by {
                        if j != m {
                            assert(visible_names@[j] == names_before[j]);
                            assert(visible_name_packages@[j] == packages_before[j]);
                            assert(visible_extensions@[j] == extensions_before[j]);
                            assert(visible_namespaces@[j] == namespaces_before[j]);
                        }
                    }
                }
            }
            m = m + 1;
        }
        pass = pass + 1;
    }
    proof {
        lemma_has_error_view(diagnostics@);
    }
    if any_error(diagnostics) {
        proof {
            lemma_views_prefix(d1, diagnostics@);
        }
        return Program { items: Vec::new() };
    }
    let ghost d2 = diagnostics@;
    assert(package_views(visible_name_packages@) =~= weak_state.0.map_values(|v: Visible| v.1)) by {
        assert forall|j: int| 0 <= j < original.len() implies #[trigger] package_views(visible_name_packages@)[j]
            == weak_state.0.map_values(|v: Visible| v.1)[j] by {
            assert(visible_views(visible_names@, visible_name_packages@, visible_extensions@, visible_namespaces@)[j].1 == keyed(
                visible_name_packages@[j]@,
            ));
        }
    }
    validate_foreign_impls(&modules, &visible_name_packages, basic_types, diagnostics);
    proof {
        lemma_errors_chain(d1, d2, diagnostics@);
        lemma_has_error_view(diagnostics@);
        lemma_has_error_view(d2);
    }
    if any_error(diagnostics) {
        proof {
            lemma_views_prefix(d1, diagnostics@);
        }
        return Program { items: Vec::new() };
    }
    let ghost d3 = diagnostics@;
    let mut items: Vec<Item> = Vec::new();
    let mut owned: Vec<Diagnostic> = Vec::new();
    std::mem::swap(diagnostics, &mut owned);
    let mut m: usize = 0;
    while m < modules.len()
        invariant
            m <= modules@.len(),
            modules@.len() == original.len(),
            forall|j: int| m <= j < modules@.len() ==> #[trigger] modules@[j] == original[j],
            exports@.len() == modules@.len(),
            local_names@.len() == modules@.len(),
            local_extensions@.len() == modules@.len(),
            visible_names@.len() == modules@.len(),
            visible_extensions@.len() == modules@.len(),
            visible_namespaces@.len() == modules@.len(),
            forall|j: int| 0 <= j < modules@.len() ==> #[trigger] targets_below(visible_namespaces@[j]@, modules@.len() as int),
            items@.len() == linked_item_count(original, m as int),
            diagnostic_views(owned@).take(d3.len() as int) == diagnostic_views(d3),
            owned@.len() >= d3.len(),
            local_names@ == names0,
            local_extensions@ == extensions0,
            names0.len() == original.len(),
            extensions0.len() == original.len(),
            forall|j: int| 0 <= j < original.len() ==> names_declared(#[trigger] names0[j]@, extensions0[j]@, original[j]),
            visible_views(visible_names@, visible_name_packages@, visible_extensions@, visible_namespaces@) == check.2,
            all_exports_view(exports@) == check.1,
            visible_name_packages@.len() == modules@.len(),
            forall|m2: int, k2: int|
                0 <= m2 < m && 0 <= k2 < original[m2].program.items@.len() && !(original[m2].program.items@[k2] is Import)
                    ==> #[trigger] item_linked(original, m2, k2, items@, check.2, check.1),
        decreases modules.len() - m,
    {
        let entry = modules[m].entry;
        let mut module_items: Vec<Item> = Vec::new();
        std::mem::swap(&mut modules[m].program.items, &mut module_items);
        assert(module_items@ == original[m as int].program.items@);
        let mut rewriter = ModuleRewriter::new(
            &local_names[m],
            &visible_names[m],
            &local_extensions[m],
            &visible_extensions[m],
            &visible_namespaces[m],
            &exports,
            owned,
            entry,
        );
        assert(visible_views(visible_names@, visible_name_packages@, visible_extensions@, visible_namespaces@)[m as int]
            == (text_pairs(visible_names@[m as int]@), keyed(visible_name_packages@[m as int]@), text_pairs(visible_extensions@[m as int]@), keyed(visible_namespaces@[m as int]@)));
        assert(rewriter.wf()) by {
            assert forall|i: int| 0 <= i < rewriter.visible_namespaces@.len() implies #[trigger] rewriter.visible_namespaces@[i].1
                < rewriter.exports@.len() by {
                assert(targets_below(visible_namespaces@[m as int]@, modules@.len() as int));
            }
        }
        let ghost all_items = module_items@;
        assert(all_items.len() <= usize::MAX) by {
            assert(module_items.len() as int == all_items.len());
        }
        let mut k: usize = 0;
        while module_items.len() > 0
            invariant
                rewriter.wf(),
                rewriter.scopes@.len() == 0,
                k <= all_items.len(),
                all_items.len() <= usize::MAX,
                module_items@.len() == all_items.len() - k,
                module_items@ == all_items.skip(k as int),
                all_items == original[m as int].program.items@,
                m < original.len(),
                items@.len() == linked_item_count(original, m as int) + module_item_count(all_items, k as int),
                diagnostic_views(rewriter.diagnostics@).take(d3.len() as int) == diagnostic_views(d3),
                rewriter.diagnostics@.len() >= d3.len(),
                *rewriter.local_names == names0[m as int],
                *rewriter.local_extensions == extensions0[m as int],
                rewriter.entry == original[m as int].entry,
                names0.len() == original.len(),
                extensions0.len() == original.len(),
                names_declared(names0[m as int]@, extensions0[m as int]@, original[m as int]),
                text_pairs(rewriter.visible_names@) == check.2[m as int].0,
                text_pairs(rewriter.visible_extensions@) == check.2[m as int].2,
                keyed(rewriter.visible_namespaces@) == check.2[m as int].3,
                all_exports_view(rewriter.exports@) == check.1,
                forall|m2: int, k2: int|
                    ((0 <= m2 < m && 0 <= k2 < original[m2].program.items@.len()) || (m2 == m && 0 <= k2 < k)) && !(
                    original[m2].program.items@[k2] is Import) ==> #[trigger] item_linked(original, m2, k2, items@, check.2, check.1),
            decreases module_items.len(),
        {
            let mut item = module_items.remove(0);
            assert(item == all_items[k as int]);
            assert(module_items@ =~= all_items.skip(k + 1));
            if !matches!(item, Item::Import(_)) {
                let ghost d_before = rewriter.diagnostics@;
                let ghost link = rewriter.link_names();
                let ghost own = rewriter.own_names();
                proof {
                    assert(scope_views(rewriter.scopes@) =~= Seq::<Seq<Seq<char>>>::empty());
                }
                rewriter.rewrite_item(&mut item);
                assert(rewriter.diagnostics@.len() >= d_before.len()) by {
                    assert(diagnostic_views(rewriter.diagnostics@).len() == rewriter.diagnostics@.len());
                    assert(diagnostic_views(d_before).len() == d_before.len());
                }
                assert(diagnostic_views(rewriter.diagnostics@).take(d3.len() as int) =~= diagnostic_views(d3)) by {
                    assert(diagnostic_views(rewriter.diagnostics@).take(d_before.len() as int) =~= diagnostic_views(d_before));
                    assert(diagnostic_views(d_before).take(d3.len() as int) == diagnostic_views(d3));
                }
                let ghost before_push = items@;
                items.push(item);
                proof {
                    assert(items@[linked_item_at(original, m as int, k as int)] == item);
                    assert(item_rewritten(link, own, seq![], original[m as int].program.items@[k as int], items@[linked_item_at(original, m as int, k as int)]));
                    assert(item_linked(original, m as int, k as int, items@, check.2, check.1));
                    assert forall|m2: int, k2: int|
                        ((0 <= m2 < m && 0 <= k2 < original[m2].program.items@.len()) || (m2 == m && 0 <= k2 < k)) && !(
                        original[m2].program.items@[k2] is Import) implies #[trigger] item_linked(original, m2, k2, items@, check.2, check.1) by {
                        lemma_item_linked_push(original, m2, k2, before_push, item, check.2, check.1);
                    }
                }
            }
            k = k + 1;
        }
        owned = rewriter.diagnostics;
        assert(k == all_items.len());
        assert(linked_item_count(original, m + 1) == linked_item_count(original, m as int) + module_item_count(
            original[m as int].program.items@,
            original[m as int].program.items@.len() as int,
        ));
        m = m + 1;
    }
    *diagnostics = owned;
    proof {
        lemma_views_prefix(d1, d3);
        assert(diagnostic_views(diagnostics@).take(d1.len() as int) =~= diagnostic_views(diagnostics@).take(
            d3.len() as int,
        ).take(d1.len() as int));
        assert(diagnostic_views(start) == diagnostic_views(d3).take(start.len() as int)) by {
            assert(diagnostic_views(d3).take(start.len() as int) =~= diagnostic_views(d3.take(start.len() as int)));
        }
    }
    Program { items }
}

} // verus!
