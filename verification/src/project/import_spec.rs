use vstd::prelude::*;

use crate::ast::ImportName;
use crate::diagnostic::{Diagnostic, Severity};
use crate::project::reexport::{
    conflicting_extension_message, conflicting_import_message, exported_as, lookup_export, missing_name_message, pushed,
    ExportView, ExportsView,
};
use crate::project::rewrite::{diagnostic_views, lookup_pair, DiagnosticView, Export};
use crate::project::reexport::export_view;
use crate::project::Module;
use crate::span::Span;

verus! {

/// A module's visible names while its imports are brought in: names and
/// their internal names, names and their packages, extensions and their
/// internal names, namespaces and their modules, and the diagnostics.
pub type ImportRun = (
    Seq<(Seq<char>, Seq<char>)>,
    Seq<(Seq<char>, usize)>,
    Seq<(Seq<char>, Seq<char>)>,
    Seq<(Seq<char>, usize)>,
    Seq<DiagnosticView>,
);

pub open spec fn text_pairs(s: Seq<(String, String)>) -> Seq<(Seq<char>, Seq<char>)> {
    s.map_values(|p: (String, String)| (p.0@, p.1@))
}

pub open spec fn keyed<V>(s: Seq<(String, V)>) -> Seq<(Seq<char>, V)> {
    s.map_values(|p: (String, V)| (p.0@, p.1))
}

/// Whether some entry has the key `k`.
pub open spec fn view_has<V>(s: Seq<(Seq<char>, V)>, k: Seq<char>) -> bool {
    exists|i: int| 0 <= i < s.len() && #[trigger] s[i].0 == k
}

pub open spec fn import_run_of(
    names: Seq<(String, String)>,
    packages: Seq<(String, usize)>,
    extensions: Seq<(String, String)>,
    namespaces: Seq<(String, usize)>,
    diagnostics: Seq<Diagnostic>,
) -> ImportRun {
    (text_pairs(names), keyed(packages), text_pairs(extensions), keyed(namespaces), diagnostic_views(diagnostics))
}

/// `import_visible_export` as a step: `export` becomes visible under
/// `local` unless the name is taken (by an extension for an extension, by a
/// name or namespace otherwise), which is an error at `span` unless `weak`.
pub open spec fn visible_import_step(run: ImportRun, local: Seq<char>, export: ExportView, span: Span, weak: bool) -> ImportRun {
    let extension = export.2;
    let taken = if extension {
        view_has(run.2, local)
    } else {
        view_has(run.0, local) || view_has(run.3, local)
    };
    if taken {
        if weak {
            run
        } else {
            (run.0, run.1, run.2, run.3, run.4.push((Severity::Error, span, if extension {
                conflicting_extension_message(local)
            } else {
                conflicting_import_message(local)
            })))
        }
    } else if extension {
        (run.0, run.1, run.2.push((local, export.0)), run.3, run.4)
    } else {
        (run.0.push((local, export.0)), run.1.push((local, export.1)), run.2, run.3, run.4)
    }
}

pub open spec fn namespace_conflict_text(name: Seq<char>) -> Seq<char> {
    "module namespace `"@ + name + "` conflicts with another name in this module"@
}

/// The first index of `name` among the namespaces, or their number.
pub open spec fn first_index<V>(s: Seq<(Seq<char>, V)>, name: Seq<char>) -> int
    decreases s.len(),
{
    if s.len() == 0 {
        0
    } else if s[0].0 == name {
        0
    } else {
        1 + first_index(s.drop_first(), name)
    }
}

/// A namespace import `name` of module `target`: a name taken by a name is
/// an error; one taken by a namespace points it at `target` and is an
/// error; otherwise the namespace is added.
pub open spec fn namespace_step(run: ImportRun, name: Seq<char>, target: usize, span: Span) -> ImportRun {
    let error = (Severity::Error, span, namespace_conflict_text(name));
    if view_has(run.0, name) {
        (run.0, run.1, run.2, run.3, run.4.push(error))
    } else if view_has(run.3, name) {
        (run.0, run.1, run.2, run.3.update(first_index(run.3, name), (name, target)), run.4.push(error))
    } else {
        (run.0, run.1, run.2, run.3.push((name, target)), run.4)
    }
}

/// A glob import of `entries` from the `k`-th on.
pub open spec fn glob_import_steps(run: ImportRun, entries: ExportsView, span: Span, weak: bool, k: int) -> ImportRun
    decreases entries.len() - k,
{
    if k < 0 || k >= entries.len() {
        run
    } else {
        glob_import_steps(visible_import_step(run, entries[k].0, entries[k].1, span, weak), entries, span, weak, k + 1)
    }
}

/// The names imported from a module with `exports` (at `path`), from the
/// `n`-th on: a name it does not export is an error at the name.
pub open spec fn name_import_steps(
    run: ImportRun,
    exports: ExportsView,
    path: Seq<char>,
    names: Seq<ImportName>,
    weak: bool,
    n: int,
) -> ImportRun
    decreases names.len() - n,
{
    if n < 0 || n >= names.len() {
        run
    } else {
        let name = names[n];
        let next = match lookup_export(exports, name.name@) {
            None => (run.0, run.1, run.2, run.3, run.4.push((Severity::Error, name.span, missing_name_message(path, name.name@)))),
            Some(e) => visible_import_step(run, exported_as(name), e, name.span, weak),
        };
        name_import_steps(next, exports, path, names, weak, n + 1)
    }
}

/// Bringing in module `m`'s imports from the `i`-th on that are not
/// re-exports, have a target, and are weak exactly when `weak` (see
/// `import_module`): the namespace, then a glob's exports, then the names.
pub open spec fn import_steps(
    modules: Seq<Module>,
    exports: Seq<ExportsView>,
    m: int,
    weak: bool,
    i: int,
    run: ImportRun,
) -> ImportRun
    decreases modules[m].imports@.len() - i,
{
    if m < 0 || m >= modules.len() || i < 0 || i >= modules[m].imports@.len() {
        run
    } else {
        let import = modules[m].imports@[i];
        let next = if !import.exported && import.weak == weak && import.target is Some && import.target->0 < modules.len()
            && import.target->0 < exports.len() {
            let t = import.target->0 as int;
            let spaced = match import.namespace {
                Some(ns) => namespace_step(run, ns.name@, import.target->0, ns.span),
                None => run,
            };
            let globbed = if import.glob {
                glob_import_steps(spaced, exports[t], import.span, import.weak, 0)
            } else {
                spaced
            };
            name_import_steps(globbed, exports[t], modules[t].path@, import.names@, import.weak, 0)
        } else {
            run
        };
        import_steps(modules, exports, m, weak, i + 1, next)
    }
}

/// A key is found exactly when some entry has it.
pub proof fn lemma_lookup_some_iff<V>(s: Seq<(String, V)>, k: Seq<char>)
    ensures
        lookup_pair(s, k) is Some <==> view_has(keyed(s), k),
    decreases s.len(),
{
    if s.len() > 0 {
        lemma_lookup_some_iff(s.drop_first(), k);
        assert(keyed(s).drop_first() =~= keyed(s.drop_first()));
        if view_has(keyed(s), k) && s[0].0@ != k {
            let i = choose|i: int| 0 <= i < keyed(s).len() && #[trigger] keyed(s)[i].0 == k;
            assert(keyed(s.drop_first())[i - 1].0 == k);
        }
        if view_has(keyed(s.drop_first()), k) {
            let i = choose|i: int| 0 <= i < keyed(s.drop_first()).len() && #[trigger] keyed(s.drop_first())[i].0 == k;
            assert(keyed(s)[i + 1].0 == k);
        }
        if s[0].0@ == k {
            assert(keyed(s)[0].0 == k);
        }
    }
}

/// The same for lists of names and internal names.
pub proof fn lemma_text_lookup_some_iff(s: Seq<(String, String)>, k: Seq<char>)
    ensures
        lookup_pair(s, k) is Some <==> view_has(text_pairs(s), k),
{
    lemma_lookup_some_iff(s, k);
    if view_has(keyed(s), k) {
        let i = choose|i: int| 0 <= i < keyed(s).len() && #[trigger] keyed(s)[i].0 == k;
        assert(text_pairs(s)[i].0 == k);
    }
    if view_has(text_pairs(s), k) {
        let i = choose|i: int| 0 <= i < text_pairs(s).len() && #[trigger] text_pairs(s)[i].0 == k;
        assert(keyed(s)[i].0 == k);
    }
}

/// What `import_visible_export` promises, read as a step.
pub proof fn lemma_visible_import(
    names: Seq<(String, String)>,
    packages: Seq<(String, usize)>,
    extensions: Seq<(String, String)>,
    namespaces: Seq<(String, usize)>,
    diagnostics: Seq<Diagnostic>,
    names2: Seq<(String, String)>,
    packages2: Seq<(String, usize)>,
    extensions2: Seq<(String, String)>,
    diagnostics2: Seq<Diagnostic>,
    local: Seq<char>,
    export: Export,
    span: Span,
    weak: bool,
)
    requires
        ({
            let taken = if export.extension {
                lookup_pair(extensions, local) is Some
            } else {
                lookup_pair(names, local) is Some || lookup_pair(namespaces, local) is Some
            };
            let message = if export.extension {
                conflicting_extension_message(local)
            } else {
                conflicting_import_message(local)
            };
            &&& taken ==> {
                &&& names2 == names
                &&& packages2 == packages
                &&& extensions2 == extensions
                &&& if weak {
                    diagnostics2 == diagnostics
                } else {
                    diagnostic_views(diagnostics2) == diagnostic_views(diagnostics).push((Severity::Error, span, message))
                }
            }
            &&& !taken && export.extension ==> {
                &&& names2 == names
                &&& packages2 == packages
                &&& pushed(extensions, extensions2, local, export.internal_name)
                &&& diagnostics2 == diagnostics
            }
            &&& !taken && !export.extension ==> {
                &&& pushed(names, names2, local, export.internal_name)
                &&& pushed(packages, packages2, local, export.package)
                &&& extensions2 == extensions
                &&& diagnostics2 == diagnostics
            }
        }),
    ensures
        import_run_of(names2, packages2, extensions2, namespaces, diagnostics2) == visible_import_step(
            import_run_of(names, packages, extensions, namespaces, diagnostics),
            local,
            export_view(export),
            span,
            weak,
        ),
{
    lemma_text_lookup_some_iff(names, local);
    lemma_text_lookup_some_iff(extensions, local);
    lemma_lookup_some_iff(namespaces, local);
    if lookup_pair(names, local) is None && lookup_pair(namespaces, local) is None && !export.extension {
        assert(names2 =~= names.push(names2.last()));
        assert(packages2 =~= packages.push(packages2.last()));
        assert(text_pairs(names2) =~= text_pairs(names).push((local, export.internal_name@)));
        assert(keyed(packages2) =~= keyed(packages).push((local, export.package)));
    }
    if lookup_pair(extensions, local) is None && export.extension {
        assert(extensions2 =~= extensions.push(extensions2.last()));
        assert(text_pairs(extensions2) =~= text_pairs(extensions).push((local, export.internal_name@)));
    }
}

/// The index the namespace search finds is `first_index`.
pub proof fn lemma_first_index<V>(namespaces: Seq<(String, V)>, name: Seq<char>, index: int)
    requires
        0 <= index <= namespaces.len(),
        index < namespaces.len() ==> namespaces[index].0@ == name,
        forall|j: int| 0 <= j < index ==> #[trigger] namespaces[j].0@ != name,
    ensures
        first_index(keyed(namespaces), name) == index,
        index < namespaces.len() <==> view_has(keyed(namespaces), name),
    decreases namespaces.len(),
{
    lemma_lookup_some_iff(namespaces, name);
    if namespaces.len() > 0 {
        assert(keyed(namespaces).drop_first() =~= keyed(namespaces.drop_first()));
        if index > 0 {
            assert forall|j: int| 0 <= j < index - 1 implies #[trigger] namespaces.drop_first()[j].0@ != name by {
                assert(namespaces[j + 1].0@ != name);
            }
            lemma_first_index(namespaces.drop_first(), name, index - 1);
            assert(namespaces[0].0@ != name);
            if view_has(keyed(namespaces.drop_first()), name) {
                let i = choose|i: int| 0 <= i < keyed(namespaces.drop_first()).len() && #[trigger] keyed(namespaces.drop_first())[i].0 == name;
                assert(keyed(namespaces)[i + 1].0 == name);
            }
            if view_has(keyed(namespaces), name) {
                let i = choose|i: int| 0 <= i < keyed(namespaces).len() && #[trigger] keyed(namespaces)[i].0 == name;
                assert(i != 0);
                assert(keyed(namespaces.drop_first())[i - 1].0 == name);
            }
        } else if index < namespaces.len() {
            assert(keyed(namespaces)[0].0 == name);
        }
    }
}

/// `insert_pair` on views: the first entry with key `k` gets value `v`, or
/// the entry is added at the end.
pub open spec fn insert_keyed<V>(s: Seq<(Seq<char>, V)>, k: Seq<char>, v: V) -> Seq<(Seq<char>, V)> {
    if view_has(s, k) {
        s.update(first_index(s, k), (k, v))
    } else {
        s.push((k, v))
    }
}

/// Two lists with the same keys find a key at the same place.
pub proof fn lemma_same_keys<A, B>(a: Seq<(Seq<char>, A)>, b: Seq<(Seq<char>, B)>, k: Seq<char>)
    requires
        a.len() == b.len(),
        forall|i: int| 0 <= i < a.len() ==> #[trigger] a[i].0 == b[i].0,
    ensures
        first_index(a, k) == first_index(b, k),
        view_has(a, k) == view_has(b, k),
    decreases a.len(),
{
    if a.len() > 0 {
        assert forall|i: int| 0 <= i < a.drop_first().len() implies #[trigger] a.drop_first()[i].0 == b.drop_first()[i].0 by {
            assert(a[i + 1].0 == b[i + 1].0);
        }
        lemma_same_keys(a.drop_first(), b.drop_first(), k);
        if view_has(a, k) {
            let i = choose|i: int| 0 <= i < a.len() && #[trigger] a[i].0 == k;
            assert(b[i].0 == k);
        }
        if view_has(b, k) {
            let i = choose|i: int| 0 <= i < b.len() && #[trigger] b[i].0 == k;
            assert(a[i].0 == k);
        }
    }
}

/// A key present is found at its first place.
pub proof fn lemma_first_index_found<V>(s: Seq<(Seq<char>, V)>, k: Seq<char>)
    ensures
        view_has(s, k) ==> 0 <= first_index(s, k) < s.len() && s[first_index(s, k)].0 == k,
        0 <= first_index(s, k) <= s.len(),
    decreases s.len(),
{
    if s.len() > 0 && s[0].0 != k {
        lemma_first_index_found(s.drop_first(), k);
        if view_has(s, k) {
            let i = choose|i: int| 0 <= i < s.len() && #[trigger] s[i].0 == k;
            assert(s.drop_first()[i - 1].0 == k);
        }
    }
}

/// The value of the first entry with key `k`.
pub open spec fn lookup_view<V>(s: Seq<(Seq<char>, V)>, k: Seq<char>) -> Option<V>
    decreases s.len(),
{
    if s.len() == 0 {
        None
    } else if s[0].0 == k {
        Some(s[0].1)
    } else {
        lookup_view(s.drop_first(), k)
    }
}

/// `lookup_pair` agrees with `lookup_view` on the keys' text.
pub proof fn lemma_lookup_view<V>(s: Seq<(String, V)>, k: Seq<char>)
    ensures
        lookup_pair(s, k) == lookup_view(keyed(s), k),
    decreases s.len(),
{
    if s.len() > 0 {
        assert(keyed(s).drop_first() =~= keyed(s.drop_first()));
        lemma_lookup_view(s.drop_first(), k);
    }
}

} // verus!
