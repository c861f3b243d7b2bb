use vstd::prelude::*;

use crate::ast::{Pattern, TypeRef};
use crate::diagnostic::{Diagnostic, Severity};
use crate::project::manifest::{char_vec, find_char, index_of_char, lemma_index_of_char_bounds};
use crate::span::Span;
use crate::text::string_is;

verus! {

/// What a module exports under a name: the internal name of the declaration,
/// the package that declares it, and whether it is an extension function.
#[derive(Debug)]
pub struct Export {
    pub internal_name: String,
    pub package: usize,
    pub extension: bool,
}

/// The value stored under `key`: that of the first entry with that key.
pub open spec fn lookup_pair<V>(map: Seq<(String, V)>, key: Seq<char>) -> Option<V>
    decreases map.len(),
{
    if map.len() == 0 {
        None
    } else if map[0].0@ == key {
        Some(map[0].1)
    } else {
        lookup_pair(map.drop_first(), key)
    }
}

/// The keys of a list of pairs, in order.
pub open spec fn pair_keys<V>(map: Seq<(String, V)>) -> Seq<Seq<char>> {
    map.map_values(|entry: (String, V)| entry.0@)
}

/// The value stored under `key` in a list of pairs.
pub(crate) fn find_pair<'a, V>(map: &'a Vec<(String, V)>, key: &str) -> (found: Option<&'a V>)
    ensures
        found is Some <==> lookup_pair(map@, key@) is Some,
        found matches Some(v) ==> *v == lookup_pair(map@, key@).unwrap(),
{
    assert(map@.skip(0) =~= map@);
    let mut i: usize = 0;
    while i < map.len()
        invariant
            i <= map@.len(),
            lookup_pair(map@, key@) == lookup_pair(map@.skip(i as int), key@),
        decreases map.len() - i,
    {
        assert(map@.skip(i as int).drop_first() =~= map@.skip(i + 1));
        if string_is(&map[i].0, key) {
            return Some(&map[i].1);
        }
        i = i + 1;
    }
    None
}

/// `name` split at its first `.`: the namespace before it and the member after it.
pub open spec fn split_at_dot(name: Seq<char>) -> Option<(Seq<char>, Seq<char>)> {
    let dot = index_of_char(name, '.');
    if dot >= name.len() {
        None
    } else {
        Some((name.take(dot), name.skip(dot + 1)))
    }
}

/// Splits `name` at its first `.`.
pub(crate) fn split_once_dot(name: &str) -> (parts: Option<(String, String)>)
    ensures
        parts is Some <==> split_at_dot(name@) is Some,
        parts matches Some(p) ==> p.0@ == split_at_dot(name@).unwrap().0 && p.1@ == split_at_dot(
            name@,
        ).unwrap().1,
{
    let chars = char_vec(name);
    let dot = find_char(&chars, 0, chars.len(), '.');
    assert(chars@.subrange(0, chars@.len() as int) =~= name@);
    if dot == chars.len() {
        return None;
    }
    let namespace = String::from_str(name.substring_char(0, dot));
    let member = String::from_str(name.substring_char(dot + 1, chars.len()));
    assert(name@.subrange(0, dot as int) =~= name@.take(dot as int));
    assert(name@.subrange(dot + 1, name@.len() as int) =~= name@.skip(dot + 1));
    Some((namespace, member))
}

/// Every namespace that a module sees points at a module's exports.
pub open spec fn namespaces_valid(namespaces: Seq<(String, usize)>, exports: Seq<Vec<(String, Export)>>) -> bool {
    forall|i: int| 0 <= i < namespaces.len() ==> #[trigger] namespaces[i].1 < exports.len()
}

proof fn lemma_lookup_in_map<V>(map: Seq<(String, V)>, key: Seq<char>)
    ensures
        lookup_pair(map, key) matches Some(v) ==> exists|i: int| 0 <= i < map.len() && #[trigger] map[i].1 == v,
    decreases map.len(),
{
    if map.len() > 0 && map[0].0@ != key {
        lemma_lookup_in_map(map.drop_first(), key);
        if let Some(v) = lookup_pair(map, key) {
            let i = choose|i: int| 0 <= i < map.drop_first().len() && #[trigger] map.drop_first()[i].1 == v;
            assert(map[i + 1].1 == v);
        }
    } else if map.len() > 0 {
        assert(map[0].1 == map[0].1);
    }
}

/// The internal name that `namespace.member` names: the non-extension export
/// `member` of the module that the namespace points at.
pub open spec fn qualified_target(
    namespaces: Seq<(String, usize)>,
    exports: Seq<Vec<(String, Export)>>,
    name: Seq<char>,
) -> Option<String> {
    match split_at_dot(name) {
        Some((namespace, member)) => match lookup_pair(namespaces, namespace) {
            Some(target) => match lookup_pair(exports[target as int]@, member) {
                Some(export) => if export.extension { None } else { Some(export.internal_name) },
                None => None,
            },
            None => None,
        },
        None => None,
    }
}

/// Resolves `namespace.member` against the namespaces a module sees, without reporting anything.
pub fn resolve_qualified_name(
    visible_namespaces: &Vec<(String, usize)>,
    exports: &Vec<Vec<(String, Export)>>,
    name: &str,
) -> (resolved: Option<String>)
    requires
        namespaces_valid(visible_namespaces@, exports@),
    ensures
        resolved == qualified_target(visible_namespaces@, exports@, name@),
{
    let (namespace, member) = match split_once_dot(name) {
        Some(parts) => parts,
        None => return None,
    };
    let target = match find_pair(visible_namespaces, namespace.as_str()) {
        Some(target) => *target,
        None => return None,
    };
    proof {
        lemma_lookup_in_map(visible_namespaces@, namespace@);
    }
    let export = match find_pair(&exports[target], member.as_str()) {
        Some(export) => export,
        None => return None,
    };
    if export.extension {
        None
    } else {
        Some(export.internal_name.clone())
    }
}

/// The names that resolving a module's code sees: the visible names, the
/// visible extension functions, the namespaces, and every module's exports.
pub type LinkNames = (Seq<(String, String)>, Seq<(String, String)>, Seq<(String, usize)>, Seq<Vec<(String, Export)>>);

/// Rewrites the names in one module's items to the internal names that linking
/// gives them, reporting what cannot be resolved.
pub struct ModuleRewriter<'names> {
    pub local_names: &'names Vec<(String, String)>,
    pub visible_names: &'names Vec<(String, String)>,
    pub local_extensions: &'names Vec<(String, String)>,
    pub visible_extensions: &'names Vec<(String, String)>,
    pub visible_namespaces: &'names Vec<(String, usize)>,
    pub exports: &'names Vec<Vec<(String, Export)>>,
    pub diagnostics: Vec<Diagnostic>,
    pub scopes: Vec<Vec<String>>,
    pub entry: bool,
}

/// The names bound in each scope, innermost last.
pub type ScopeViews = Seq<Seq<Seq<char>>>;

/// What a list of scopes binds, name by name.
pub open spec fn scope_views(scopes: Seq<Vec<String>>) -> ScopeViews {
    scopes.map_values(|scope: Vec<String>| scope@.map_values(|name: String| name@))
}

/// `name` is bound in one of the scopes.
pub open spec fn in_scopes(scopes: ScopeViews, name: Seq<char>) -> bool {
    exists|i: int, j: int| 0 <= i < scopes.len() && 0 <= j < scopes[i].len() && #[trigger] scopes[i][j] == name
}

/// The scopes after `name` is bound in the innermost one (with no scope, nothing changes).
pub open spec fn with_local(scopes: ScopeViews, name: Seq<char>) -> ScopeViews {
    if scopes.len() == 0 {
        scopes
    } else {
        scopes.update(scopes.len() - 1, scopes.last().push(name))
    }
}

/// A diagnostic by severity, span and message.
pub type DiagnosticView = (Severity, Span, Seq<char>);

pub open spec fn diagnostic_views(diagnostics: Seq<Diagnostic>) -> Seq<DiagnosticView> {
    diagnostics.map_values(|d: Diagnostic| (d.severity, d.span, d.message@))
}

/// The message for a namespace that lacks `member`.
pub open spec fn missing_export_message(namespace: Seq<char>, member: Seq<char>) -> Seq<char> {
    "module namespace `"@ + namespace + "` does not export `"@ + member + "`"@
}

/// The message for an extension function reached through a namespace.
pub open spec fn extension_by_namespace_message(member: Seq<char>) -> Seq<char> {
    "extension function `"@ + member + "` must be imported by name to participate in method lookup"@
}

/// The internal name of `namespace.member`, when the namespace exports it
/// and it is not an extension function.
pub open spec fn member_target(names: LinkNames, namespace: Seq<char>, member: Seq<char>) -> Option<String> {
    match lookup_pair(names.2, namespace) {
        Some(target) => match lookup_pair(names.3[target as int]@, member) {
            Some(export) => if export.extension { None } else { Some(export.internal_name) },
            None => None,
        },
        None => None,
    }
}

/// What resolving `namespace.member` at `span` reports.
pub open spec fn member_errors(names: LinkNames, namespace: Seq<char>, member: Seq<char>, span: Span) -> Seq<DiagnosticView> {
    match lookup_pair(names.2, namespace) {
        Some(target) => match lookup_pair(names.3[target as int]@, member) {
            Some(export) => if export.extension {
                seq![(Severity::Error, span, extension_by_namespace_message(member))]
            } else {
                seq![]
            },
            None => seq![(Severity::Error, span, missing_export_message(namespace, member))],
        },
        None => seq![],
    }
}

impl<'names> ModuleRewriter<'names> {
    pub open spec fn wf(&self) -> bool {
        namespaces_valid(self.visible_namespaces@, self.exports@)
    }

    pub open spec fn link_names(&self) -> LinkNames {
        (self.visible_names@, self.visible_extensions@, self.visible_namespaces@, self.exports@)
    }

    /// The name maps and the entry flag are those of `other`.
    pub open spec fn same_names(&self, other: &Self) -> bool {
        &&& self.local_names == other.local_names
        &&& self.visible_names == other.visible_names
        &&& self.local_extensions == other.local_extensions
        &&& self.visible_extensions == other.visible_extensions
        &&& self.visible_namespaces == other.visible_namespaces
        &&& self.exports == other.exports
        &&& self.entry == other.entry
    }

    /// Nothing but the diagnostics may change.
    pub open spec fn same_context(&self, other: &Self) -> bool {
        &&& self.same_names(other)
        &&& self.scopes == other.scopes
    }

    pub fn new(
        local_names: &'names Vec<(String, String)>,
        visible_names: &'names Vec<(String, String)>,
        local_extensions: &'names Vec<(String, String)>,
        visible_extensions: &'names Vec<(String, String)>,
        visible_namespaces: &'names Vec<(String, usize)>,
        exports: &'names Vec<Vec<(String, Export)>>,
        diagnostics: Vec<Diagnostic>,
        entry: bool,
    ) -> (rewriter: Self)
        ensures
            rewriter.local_names == local_names,
            rewriter.visible_names == visible_names,
            rewriter.local_extensions == local_extensions,
            rewriter.visible_extensions == visible_extensions,
            rewriter.visible_namespaces == visible_namespaces,
            rewriter.exports == exports,
            rewriter.diagnostics == diagnostics,
            rewriter.scopes@.len() == 0,
            rewriter.entry == entry,
    {
        ModuleRewriter {
            local_names,
            visible_names,
            local_extensions,
            visible_extensions,
            visible_namespaces,
            exports,
            diagnostics,
            scopes: Vec::new(),
            entry,
        }
    }

    /// Adds `name` to the innermost scope, if there is one.
    pub fn define_local(&mut self, name: &str)
        ensures
            final(self).local_names == old(self).local_names,
            final(self).visible_names == old(self).visible_names,
            final(self).local_extensions == old(self).local_extensions,
            final(self).visible_extensions == old(self).visible_extensions,
            final(self).visible_namespaces == old(self).visible_namespaces,
            final(self).exports == old(self).exports,
            final(self).diagnostics == old(self).diagnostics,
            final(self).entry == old(self).entry,
            scope_views(final(self).scopes@) == with_local(scope_views(old(self).scopes@), name@),
            final(self).scopes@.len() == old(self).scopes@.len(),
            forall|j: int| 0 <= j < old(self).scopes@.len() - 1 ==> #[trigger] final(self).scopes@[j] == old(self).scopes@[j],
    {
        let count = self.scopes.len();
        if count > 0 {
            let ghost before = self.scopes@;
            self.scopes[count - 1].push(String::from_str(name));
            assert(scope_views(self.scopes@) =~= with_local(scope_views(before), name@)) by {
                let last = count - 1;
                assert(self.scopes@[last as int]@.map_values(|n: String| n@) =~= before[last as int]@.map_values(
                    |n: String| n@,
                ).push(name@));
            }
        } else {
            assert(scope_views(self.scopes@) =~= scope_views(old(self).scopes@));
        }
    }

    /// Whether `name` is bound in some scope.
    pub fn is_local(&self, name: &str) -> (local: bool)
        ensures
            local == in_scopes(scope_views(self.scopes@), name@),
    {
        let ghost views = scope_views(self.scopes@);
        let mut i: usize = 0;
        while i < self.scopes.len()
            invariant
                i <= self.scopes@.len(),
                views == scope_views(self.scopes@),
                forall|a: int, b: int| 0 <= a < i && 0 <= b < views[a].len() ==> #[trigger] views[a][b] != name@,
            decreases self.scopes.len() - i,
        {
            let mut j: usize = 0;
            while j < self.scopes[i].len()
                invariant
                    i < self.scopes@.len(),
                    views == scope_views(self.scopes@),
                    j <= self.scopes@[i as int]@.len(),
                    forall|b: int| 0 <= b < j ==> #[trigger] views[i as int][b] != name@,
                decreases self.scopes[i as int]@.len() - j,
            {
                if string_is(&self.scopes[i][j], name) {
                    assert(views[i as int][j as int] == name@);
                    return true;
                }
                j = j + 1;
            }
            i = i + 1;
        }
        false
    }

    /// Renames a declaration of this module to its internal name, when it has one.
    pub fn rewrite_declared_name(&self, name: &mut String)
        ensures
            *final(name) == match lookup_pair(self.local_names@, old(name)@) {
                Some(internal) => internal,
                None => *old(name),
            },
    {
        if let Some(internal_name) = find_pair(self.local_names, name.as_str()) {
            *name = internal_name.clone();
        }
    }

    /// Resolves `namespace.member`, reporting a missing member or an extension
    /// function reached this way at `span`.
    pub fn resolve_namespace_member(&mut self, namespace: &str, member: &str, span: Span) -> (resolved:
        Option<String>)
        requires
            old(self).wf(),
        ensures
            final(self).same_context(old(self)),
            resolved == member_target(old(self).link_names(), namespace@, member@),
            diagnostic_views(final(self).diagnostics@) == diagnostic_views(old(self).diagnostics@) + member_errors(
                old(self).link_names(),
                namespace@,
                member@,
                span,
            ),
    {
        let target = match find_pair(self.visible_namespaces, namespace) {
            Some(target) => *target,
            None => return None,
        };
        proof {
            lemma_lookup_in_map(self.visible_namespaces@, namespace@);
        }
        match find_pair(&self.exports[target], member) {
            None => {
                let mut message = String::from_str("module namespace `");
                message.append(namespace);
                message.append("` does not export `");
                message.append(member);
                message.append("`");
                let ghost before = self.diagnostics@;
                self.diagnostics.push(Diagnostic::error(span, message));
                assert(diagnostic_views(self.diagnostics@) =~= diagnostic_views(before).push(
                    (Severity::Error, span, missing_export_message(namespace@, member@)),
                ));
                None
            },
            Some(export) => {
                if export.extension {
                    let mut message = String::from_str("extension function `");
                    message.append(member);
                    message.append("` must be imported by name to participate in method lookup");
                    let ghost before = self.diagnostics@;
                    self.diagnostics.push(Diagnostic::error(span, message));
                    assert(diagnostic_views(self.diagnostics@) =~= diagnostic_views(before).push(
                        (Severity::Error, span, extension_by_namespace_message(member@)),
                    ));
                    None
                } else {
                    Some(export.internal_name.clone())
                }
            },
        }
    }
}

/// The internal name that a name outside every scope refers to: through a
/// namespace, else among the visible names, else the name itself.
pub open spec fn global_name(names: LinkNames, name: String) -> String {
    match qualified_target(names.2, names.3, name@) {
        Some(internal) => internal,
        None => match lookup_pair(names.0, name@) {
            Some(internal) => internal,
            None => name,
        },
    }
}

/// `after` is the type `before` with its names resolved under `scopes`: a
/// function type has its parameter and return types resolved; another type,
/// unless its name is a local (a type parameter), gets its global name and
/// has its arguments resolved. Bindings and spans stay.
pub open spec fn type_rewritten(names: LinkNames, scopes: ScopeViews, before: TypeRef, after: TypeRef) -> bool
    decreases before,
{
    &&& after.span == before.span
    &&& after.bindings == before.bindings
    &&& match before.function {
        Some(f) => {
            &&& after.name == before.name
            &&& after.args == before.args
            &&& after.function matches Some(g) && g.params@.len() == f.params@.len() && (forall|i: int|
                #![trigger f.params@[i]]
                0 <= i < f.params@.len() ==> g.params@[i].mutable == f.params@[i].mutable
                    && type_rewritten(names, scopes, f.params@[i].type_ref, g.params@[i].type_ref))
                && type_rewritten(names, scopes, *f.return_type, *g.return_type)
        },
        None => {
            &&& after.function is None
            &&& if in_scopes(scopes, before.name@) {
                after.name == before.name && after.args == before.args
            } else {
                &&& after.name == global_name(names, before.name)
                &&& after.args@.len() == before.args@.len()
                &&& forall|i: int|
                    #![trigger before.args@[i]]
                    0 <= i < before.args@.len() ==> type_rewritten(names, scopes, before.args@[i], after.args@[i])
            }
        },
    }
}

impl<'names> ModuleRewriter<'names> {
    /// Resolves the names in a type (see `type_rewritten`).
    pub fn rewrite_type(&self, type_ref: &mut TypeRef)
        requires
            self.wf(),
        ensures
            type_rewritten(self.link_names(), scope_views(self.scopes@), *old(type_ref), *final(type_ref)),
        decreases *old(type_ref),
    {
        let ghost scopes = scope_views(self.scopes@);
        let ghost before = *type_ref;
        if let Some(function) = &mut type_ref.function {
            let ghost f0 = before.function.unwrap();
            let mut i: usize = 0;
            while i < function.params.len()
                invariant
                    self.wf(),
                    scopes == scope_views(self.scopes@),
                    before.function == Some(f0),
                    before == *old(type_ref),
                    i <= function.params@.len(),
                    function.params@.len() == f0.params@.len(),
                    forall|j: int|
                        #![trigger f0.params@[j]]
                        0 <= j < i ==> function.params@[j].mutable == f0.params@[j].mutable
                            && type_rewritten(self.link_names(), scopes, f0.params@[j].type_ref, function.params@[j].type_ref),
                    forall|j: int| #![trigger function.params@[j]] i <= j < function.params@.len() ==> function.params@[j] == f0.params@[j],
                    function.return_type == f0.return_type,
                decreases function.params.len() - i,
            {
                assert(function.params@[i as int] == f0.params@[i as int]);
                assert(decreases_to!(before => f0.params@[i as int].type_ref)) by {
                    assert(decreases_to!(before => before.function));
                    assert(decreases_to!(before.function => before.function->0));
                    assert(decreases_to!(f0 => f0.params));
                    assert(decreases_to!(f0.params => f0.params@));
                    assert(decreases_to!(f0.params@ => f0.params@[i as int]));
                    assert(decreases_to!(f0.params@[i as int] => f0.params@[i as int].type_ref));
                }
                self.rewrite_type(&mut function.params[i].type_ref);
                i = i + 1;
            }
            self.rewrite_type(&mut function.return_type);
            return;
        }
        if self.is_local(type_ref.name.as_str()) {
            return;
        }
        if let Some(internal_name) = resolve_qualified_name(self.visible_namespaces, self.exports, type_ref.name.as_str()) {
            type_ref.name = internal_name;
        } else if let Some(internal_name) = find_pair(self.visible_names, type_ref.name.as_str()) {
            type_ref.name = internal_name.clone();
        }
        let mut i: usize = 0;
        while i < type_ref.args.len()
            invariant
                self.wf(),
                scopes == scope_views(self.scopes@),
                before == *old(type_ref),
                before.function is None,
                type_ref.function is None,
                type_ref.span == before.span,
                type_ref.bindings == before.bindings,
                type_ref.name == global_name(self.link_names(), before.name),
                i <= type_ref.args@.len(),
                type_ref.args@.len() == before.args@.len(),
                forall|j: int|
                    #![trigger before.args@[j]]
                    0 <= j < i ==> type_rewritten(self.link_names(), scopes, before.args@[j], type_ref.args@[j]),
                forall|j: int| #![trigger type_ref.args@[j]] i <= j < type_ref.args@.len() ==> type_ref.args@[j] == before.args@[j],
            decreases type_ref.args.len() - i,
        {
            assert(type_ref.args@[i as int] == before.args@[i as int]);
            self.rewrite_type(&mut type_ref.args[i]);
            i = i + 1;
        }
    }
}

} // verus!
