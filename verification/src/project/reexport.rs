use vstd::prelude::*;

use crate::diagnostic::{Diagnostic, Severity};
use crate::project::rewrite::{diagnostic_views, find_pair, lookup_pair, DiagnosticView, Export};
use crate::ast::ImportName;
use crate::project::{Module, ResolvedImport};
use crate::span::Span;

verus! {

impl Clone for Export {
    fn clone(&self) -> (export: Self)
        ensures
            export == *self,
    {
        Export { internal_name: self.internal_name.clone(), package: self.package, extension: self.extension }
    }
}

/// Where resolving a module's re-exports stands.
#[derive(Clone, Copy, PartialEq, Eq, Structural, Debug)]
pub enum ReExportState {
    Pending,
    Visiting,
    Done,
}

/// The message for a re-export that takes a name another export already has.
pub open spec fn conflicting_export_message(name: Seq<char>) -> Seq<char> {
    "re-exported name `"@ + name + "` conflicts with another export in this module"@
}

/// The message for an import of a name that the module does not export.
pub open spec fn missing_name_message(path: Seq<char>, name: Seq<char>) -> Seq<char> {
    "module `"@ + path + "` does not export `"@ + name + "`"@
}

/// `after` holds every entry of `before`, in place, and maybe more after them.
pub open spec fn extends<V>(before: Seq<(String, V)>, after: Seq<(String, V)>) -> bool {
    after.len() >= before.len() && after.take(before.len() as int) == before
}

/// Every module's exports only grew.
pub open spec fn exports_grew(before: Seq<Vec<(String, Export)>>, after: Seq<Vec<(String, Export)>>) -> bool {
    &&& after.len() == before.len()
    &&& forall|m: int| 0 <= m < before.len() ==> #[trigger] extends(before[m]@, after[m]@)
}

/// `after` is `before` with errors appended.
pub open spec fn errors_appended(before: Seq<Diagnostic>, after: Seq<Diagnostic>) -> bool {
    &&& after.len() >= before.len()
    &&& after.take(before.len() as int) == before
    &&& forall|i: int| before.len() <= i < after.len() ==> (#[trigger] after[i]).severity == Severity::Error
}

/// Makes `export` visible from module `module_index` under `name`, unless the
/// module already exports that name: the same declaration is left as it is,
/// another one is an error at `span`.
pub fn export_visible_name(
    module_index: usize,
    name: &str,
    export: Export,
    span: Span,
    exports: &mut Vec<Vec<(String, Export)>>,
    diagnostics: &mut Vec<Diagnostic>,
)
    requires
        module_index < old(exports)@.len(),
    ensures
        final(exports)@.len() == old(exports)@.len(),
        forall|m: int| 0 <= m < old(exports)@.len() && m != module_index ==> #[trigger] final(exports)@[m] == old(exports)@[m],
        match lookup_pair(old(exports)@[module_index as int]@, name@) {
            Some(existing) => {
                &&& final(exports)@[module_index as int] == old(exports)@[module_index as int]
                &&& if existing.internal_name@ == export.internal_name@ {
                    final(diagnostics)@ == old(diagnostics)@
                } else {
                    diagnostic_views(final(diagnostics)@) == diagnostic_views(old(diagnostics)@).push(
                        (Severity::Error, span, conflicting_export_message(name@)),
                    ) && errors_appended(old(diagnostics)@, final(diagnostics)@)
                }
            },
            None => {
                &&& final(diagnostics)@ == old(diagnostics)@
                &&& final(exports)@[module_index as int]@.len() == old(exports)@[module_index as int]@.len() + 1
                &&& final(exports)@[module_index as int]@.drop_last() == old(exports)@[module_index as int]@
                &&& final(exports)@[module_index as int]@.last().0@ == name@
                &&& final(exports)@[module_index as int]@.last().1 == export
            },
        },
        exports_grew(old(exports)@, final(exports)@),
        errors_appended(old(diagnostics)@, final(diagnostics)@),
{
    proof {
        lemma_grew_refl(exports@);
        lemma_errors_refl(diagnostics@);
    }
    if let Some(existing) = find_pair(&exports[module_index], name) {
        if existing.internal_name.eq(&export.internal_name) {
            return;
        }
        let mut message = String::from_str("re-exported name `");
        message.append(name);
        message.append("` conflicts with another export in this module");
        let ghost before = diagnostics@;
        diagnostics.push(Diagnostic::error(span, message));
        assert(diagnostic_views(diagnostics@) =~= diagnostic_views(before).push(
            (Severity::Error, span, conflicting_export_message(name@)),
        ));
        assert(diagnostics@.take(before.len() as int) =~= before);
        return;
    }
    let ghost before = exports@[module_index as int]@;
    let ghost all_before = exports@;
    exports[module_index].push((String::from_str(name), export));
    assert(exports@[module_index as int]@.drop_last() =~= before);
    proof {
        lemma_export_step_grew(all_before, exports@, module_index as int);
    }
}


/// The name under which a named import is seen: its alias, or its name.
pub open spec fn exported_as(name: ImportName) -> Seq<char> {
    match name.alias {
        Some(alias) => alias@,
        None => name.name@,
    }
}

/// Whether some entry has the key `key`.
pub open spec fn has_key<V>(entries: Seq<(String, V)>, key: Seq<char>) -> bool {
    exists|i: int| 0 <= i < entries.len() && #[trigger] entries[i].0@ == key
}

/// The first `upto` names of an import are all among `exports`.
pub open spec fn import_names_present(import: ResolvedImport, exports: Seq<(String, Export)>, upto: int) -> bool {
    forall|n: int| 0 <= n < upto && n < import.names@.len() ==> has_key(exports, exported_as(#[trigger] import.names@[n]))
}

/// Every name of the first `upto` re-exporting imports (exported, with a
/// target) of a module is among `exports`.
pub open spec fn imports_present(module: Module, exports: Seq<(String, Export)>, upto: int) -> bool {
    forall|i: int|
        0 <= i < upto && i < module.imports@.len() && module.imports@[i].exported && module.imports@[i].target is Some
            ==> import_names_present(#[trigger] module.imports@[i], exports, module.imports@[i].names@.len() as int)
}

/// Every name that a module re-exports by name is among `exports`.
pub open spec fn reexports_present(module: Module, exports: Seq<(String, Export)>) -> bool {
    imports_present(module, exports, module.imports@.len() as int)
}

/// Each module done has all its named re-exports, unless `failed`.
pub open spec fn done_present(
    modules: Seq<Module>,
    states: Seq<ReExportState>,
    exports: Seq<Vec<(String, Export)>>,
    failed: bool,
) -> bool {
    forall|m: int|
        0 <= m < modules.len() && m < states.len() && m < exports.len() && #[trigger] states[m] == ReExportState::Done
            ==> reexports_present(modules[m], exports[m]@) || failed
}

proof fn lemma_lookup_has_key<V>(entries: Seq<(String, V)>, key: Seq<char>)
    requires
        lookup_pair(entries, key) is Some,
    ensures
        has_key(entries, key),
    decreases entries.len(),
{
    if entries[0].0@ == key {
        assert(entries[0].0@ == key);
    } else {
        lemma_lookup_has_key(entries.drop_first(), key);
        let i = choose|i: int| 0 <= i < entries.drop_first().len() && #[trigger] entries.drop_first()[i].0@ == key;
        assert(entries[i + 1].0@ == key);
    }
}

proof fn lemma_key_kept<V>(a: Seq<(String, V)>, b: Seq<(String, V)>, key: Seq<char>)
    requires
        extends(a, b),
        has_key(a, key),
    ensures
        has_key(b, key),
{
    let i = choose|i: int| 0 <= i < a.len() && #[trigger] a[i].0@ == key;
    assert(b.take(a.len() as int)[i] == a[i]);
    assert(b[i].0@ == key);
}

proof fn lemma_names_kept(import: ResolvedImport, a: Seq<(String, Export)>, b: Seq<(String, Export)>, upto: int)
    requires
        extends(a, b),
        import_names_present(import, a, upto),
    ensures
        import_names_present(import, b, upto),
{
    assert forall|n: int| 0 <= n < upto && n < import.names@.len() implies has_key(b, exported_as(#[trigger] import.names@[n])) by {
        lemma_key_kept(a, b, exported_as(import.names@[n]));
    }
}

proof fn lemma_imports_kept(module: Module, a: Seq<(String, Export)>, b: Seq<(String, Export)>, upto: int)
    requires
        extends(a, b),
        imports_present(module, a, upto),
    ensures
        imports_present(module, b, upto),
{
    assert forall|i: int|
        0 <= i < upto && i < module.imports@.len() && module.imports@[i].exported && module.imports@[i].target is Some
            implies import_names_present(#[trigger] module.imports@[i], b, module.imports@[i].names@.len() as int) by {
        lemma_names_kept(module.imports@[i], a, b, module.imports@[i].names@.len() as int);
    }
}

proof fn lemma_done_kept(
    modules: Seq<Module>,
    states: Seq<ReExportState>,
    a: Seq<Vec<(String, Export)>>,
    b: Seq<Vec<(String, Export)>>,
    failed_before: bool,
    failed_after: bool,
)
    requires
        exports_grew(a, b),
        done_present(modules, states, a, failed_before),
        failed_before ==> failed_after,
    ensures
        done_present(modules, states, b, failed_after),
{
    assert forall|m: int|
        0 <= m < modules.len() && m < states.len() && m < b.len() && #[trigger] states[m] == ReExportState::Done implies reexports_present(
        modules[m],
        b[m]@,
    ) || failed_after by {
        if !failed_after {
            assert(extends(a[m]@, b[m]@));
            lemma_imports_kept(modules[m], a[m]@, b[m]@, modules[m].imports@.len() as int);
        }
    }
}

/// An export by its parts: internal name, package, whether an extension.
pub type ExportView = (Seq<char>, usize, bool);

/// A module's exports by their parts, in order.
pub type ExportsView = Seq<(Seq<char>, ExportView)>;

/// Where resolving re-exports stands: each module's state, each module's
/// exports, and the diagnostics.
pub type ReExportRun = (Seq<ReExportState>, Seq<ExportsView>, Seq<DiagnosticView>);

/// A run from the executable state.
pub open spec fn run_of(states: Seq<ReExportState>, exports: Seq<Vec<(String, Export)>>, diagnostics: Seq<Diagnostic>) -> ReExportRun {
    (states, all_exports_view(exports), diagnostic_views(diagnostics))
}

/// Every one of `n` modules waiting.
pub open spec fn all_pending(n: nat) -> Seq<ReExportState> {
    Seq::new(n, |i: int| ReExportState::Pending)
}

pub open spec fn export_view(e: Export) -> ExportView {
    (e.internal_name@, e.package, e.extension)
}

pub open spec fn exports_view(entries: Seq<(String, Export)>) -> ExportsView {
    entries.map_values(|p: (String, Export)| (p.0@, export_view(p.1)))
}

pub open spec fn all_exports_view(exports: Seq<Vec<(String, Export)>>) -> Seq<ExportsView> {
    exports.map_values(|v: Vec<(String, Export)>| exports_view(v@))
}

/// The first export named `key`.
pub open spec fn lookup_export(entries: ExportsView, key: Seq<char>) -> Option<ExportView>
    decreases entries.len(),
{
    if entries.len() == 0 {
        None
    } else if entries[0].0 == key {
        Some(entries[0].1)
    } else {
        lookup_export(entries.drop_first(), key)
    }
}

/// `export_visible_name` on a run: module `m` gets `export` under `name`
/// unless it exports that name already; another internal name there is an
/// error at `span`.
pub open spec fn visible_step(run: ReExportRun, m: int, name: Seq<char>, export: ExportView, span: Span) -> ReExportRun {
    match lookup_export(run.1[m], name) {
        Some(existing) => if existing.0 == export.0 {
            run
        } else {
            (run.0, run.1, run.2.push((Severity::Error, span, conflicting_export_message(name))))
        },
        None => (run.0, run.1.update(m, run.1[m].push((name, export))), run.2),
    }
}

/// A glob re-export into module `m` of `entries`, from the `k`-th on.
pub open spec fn glob_steps(run: ReExportRun, m: int, entries: ExportsView, span: Span, k: int) -> ReExportRun
    decreases entries.len() - k,
{
    if k < 0 || k >= entries.len() {
        run
    } else {
        glob_steps(visible_step(run, m, entries[k].0, entries[k].1, span), m, entries, span, k + 1)
    }
}

/// The named re-exports into module `m` from module `t` (at `path`), from
/// the `n`-th name on: a name `t` does not export is an error at the name.
pub open spec fn name_steps(run: ReExportRun, m: int, t: int, path: Seq<char>, names: Seq<ImportName>, n: int) -> ReExportRun
    decreases names.len() - n,
{
    if n < 0 || n >= names.len() {
        run
    } else {
        let name = names[n];
        let next = match lookup_export(run.1[t], name.name@) {
            None => (run.0, run.1, run.2.push((Severity::Error, name.span, missing_name_message(path, name.name@)))),
            Some(e) => visible_step(run, m, exported_as(name), e, name.span),
        };
        name_steps(next, m, t, path, names, n + 1)
    }
}

/// Resolving module `m`'s re-exports (see `resolve_module_re_exports`): a
/// module done or being visited is left; otherwise it is visited, its
/// imports are followed from the first, and it is done.
pub open spec fn resolve_spec(modules: Seq<Module>, m: int, run: ReExportRun) -> ReExportRun
    decreases pending_count(run.0), 0nat, 0nat,
{
    if m < 0 || m >= run.0.len() || run.0[m] != ReExportState::Pending {
        run
    } else {
        let visiting = run.0.update(m, ReExportState::Visiting);
        proof {
            lemma_pending_count_fewer(run.0, visiting, m);
        }
        let after = imports_spec(modules, m, 0, (visiting, run.1, run.2));
        (after.0.update(m, ReExportState::Done), after.1, after.2)
    }
}

/// Following module `m`'s imports from the `i`-th on: each re-export with a
/// target resolves the target first, then passes on all its exports (glob)
/// and the names it lists.
pub open spec fn imports_spec(modules: Seq<Module>, m: int, i: int, run: ReExportRun) -> ReExportRun
    decreases pending_count(run.0), 1nat, modules[m].imports@.len() - i,
{
    if m < 0 || m >= modules.len() || i < 0 || i >= modules[m].imports@.len() {
        run
    } else {
        let import = modules[m].imports@[i];
        if import.exported && import.target is Some && import.target->0 < modules.len() {
            let t = import.target->0 as int;
            let resolved = resolve_spec(modules, t, run);
            if pending_count(resolved.0) <= pending_count(run.0) && t < resolved.1.len() && m < resolved.1.len() {
                let globbed = if import.glob {
                    glob_steps(resolved, m, resolved.1[t], import.span, 0)
                } else {
                    resolved
                };
                let named = name_steps(globbed, m, t, modules[t].path@, import.names@, 0);
                if named.0 == resolved.0 {
                    imports_spec(modules, m, i + 1, named)
                } else {
                    named
                }
            } else {
                resolved
            }
        } else {
            imports_spec(modules, m, i + 1, run)
        }
    }
}

/// Resolving the re-exports of modules `m` onwards, in order.
pub open spec fn resolve_all_spec(modules: Seq<Module>, m: int, run: ReExportRun) -> ReExportRun
    decreases modules.len() - m,
{
    if m < 0 || m >= modules.len() {
        run
    } else {
        resolve_all_spec(modules, m + 1, resolve_spec(modules, m, run))
    }
}

/// `lookup_pair` on a module's exports agrees with `lookup_export` on their
/// parts.
pub proof fn lemma_lookup_export(entries: Seq<(String, Export)>, key: Seq<char>)
    ensures
        match lookup_pair(entries, key) {
            Some(e) => lookup_export(exports_view(entries), key) == Some(export_view(e)),
            None => lookup_export(exports_view(entries), key) is None,
        },
    decreases entries.len(),
{
    if entries.len() > 0 {
        assert(exports_view(entries).drop_first() =~= exports_view(entries.drop_first()));
        lemma_lookup_export(entries.drop_first(), key);
    }
}

/// What `export_visible_name` promises, read as a step of a run.
proof fn lemma_visible_step(
    before: Seq<Vec<(String, Export)>>,
    after: Seq<Vec<(String, Export)>>,
    d_before: Seq<Diagnostic>,
    d_after: Seq<Diagnostic>,
    states: Seq<ReExportState>,
    m: int,
    name: Seq<char>,
    export: Export,
    span: Span,
)
    requires
        0 <= m < before.len(),
        after.len() == before.len(),
        forall|j: int| 0 <= j < before.len() && j != m ==> #[trigger] after[j] == before[j],
        match lookup_pair(before[m]@, name) {
            Some(existing) => {
                &&& after[m] == before[m]
                &&& if existing.internal_name@ == export.internal_name@ {
                    d_after == d_before
                } else {
                    diagnostic_views(d_after) == diagnostic_views(d_before).push(
                        (Severity::Error, span, conflicting_export_message(name)),
                    )
                }
            },
            None => {
                &&& d_after == d_before
                &&& after[m]@.len() == before[m]@.len() + 1
                &&& after[m]@.drop_last() == before[m]@
                &&& after[m]@.last().0@ == name
                &&& after[m]@.last().1 == export
            },
        },
    ensures
        (states, all_exports_view(after), diagnostic_views(d_after)) == visible_step(
            (states, all_exports_view(before), diagnostic_views(d_before)),
            m,
            name,
            export_view(export),
            span,
        ),
{
    lemma_lookup_export(before[m]@, name);
    assert(all_exports_view(before)[m] == exports_view(before[m]@));
    match lookup_pair(before[m]@, name) {
        Some(existing) => {
            assert(all_exports_view(after) =~= all_exports_view(before)) by {
                assert forall|j: int| 0 <= j < before.len() implies all_exports_view(after)[j] == all_exports_view(before)[j] by {
                    if j != m {
                        assert(after[j] == before[j]);
                    }
                }
            }
        },
        None => {
            assert(exports_view(after[m]@) =~= exports_view(before[m]@).push((name, export_view(export)))) by {
                assert(after[m]@ =~= before[m]@.push(after[m]@.last()));
            }
            assert(all_exports_view(after) =~= all_exports_view(before).update(m, exports_view(before[m]@).push((name, export_view(export))))) by {
                assert forall|j: int| 0 <= j < before.len() implies #[trigger] all_exports_view(after)[j] == all_exports_view(before).update(
                    m,
                    exports_view(before[m]@).push((name, export_view(export))),
                )[j] by {
                    if j != m {
                        assert(after[j] == before[j]);
                    }
                }
            }
        },
    }
}

/// How many modules still wait for their re-exports.
pub open spec fn pending_count(states: Seq<ReExportState>) -> nat
    decreases states.len(),
{
    if states.len() == 0 {
        0
    } else {
        pending_count(states.drop_last()) + if states.last() == ReExportState::Pending { 1nat } else { 0nat }
    }
}

/// Finishing or starting a module that was waiting lowers the number of
/// modules still waiting.
pub proof fn lemma_pending_count_fewer(before: Seq<ReExportState>, after: Seq<ReExportState>, k: int)
    requires
        before.len() == after.len(),
        forall|i: int| 0 <= i < after.len() && #[trigger] after[i] == ReExportState::Pending ==> before[i]
            == ReExportState::Pending,
        0 <= k < before.len(),
        before[k] == ReExportState::Pending,
        after[k] != ReExportState::Pending,
    ensures
        pending_count(after) < pending_count(before),
    decreases before.len(),
{
    lemma_pending_count_at_most(before.drop_last(), after.drop_last());
    if k < before.len() - 1 {
        lemma_pending_count_fewer(before.drop_last(), after.drop_last(), k);
    }
}

/// Where no module starts waiting, no more modules wait than before.
pub proof fn lemma_pending_count_at_most(before: Seq<ReExportState>, after: Seq<ReExportState>)
    requires
        before.len() == after.len(),
        forall|i: int| 0 <= i < after.len() && #[trigger] after[i] == ReExportState::Pending ==> before[i]
            == ReExportState::Pending,
    ensures
        pending_count(after) <= pending_count(before),
    decreases before.len(),
{
    if before.len() > 0 {
        lemma_pending_count_at_most(before.drop_last(), after.drop_last());
    }
}

/// Every import of every module that names a module names one of `count`.
pub open spec fn import_targets_valid(modules: Seq<Module>, count: int) -> bool {
    forall|m: int, i: int|
        0 <= m < modules.len() && 0 <= i < modules[m].imports@.len() ==> ((#[trigger] modules[m].imports@[i]).target
            matches Some(t) ==> t < count)
}

/// How the states move while re-exports are resolved: a waiting module may
/// finish, a finished one stays finished, one being visited stays so, and no
/// other module starts to be visited.
pub open spec fn states_advanced(before: Seq<ReExportState>, after: Seq<ReExportState>) -> bool {
    &&& after.len() == before.len()
    &&& forall|i: int|
        0 <= i < after.len() ==> {
            &&& (#[trigger] after[i] == ReExportState::Pending ==> before[i] == ReExportState::Pending)
            &&& (before[i] == ReExportState::Done ==> after[i] == ReExportState::Done)
            &&& (before[i] == ReExportState::Visiting ==> after[i] == ReExportState::Visiting)
            &&& (after[i] == ReExportState::Visiting ==> before[i] == ReExportState::Visiting)
        }
}

/// A copy of a module's exports.
fn copy_exports(exports: &Vec<(String, Export)>) -> (copy: Vec<(String, Export)>)
    ensures
        copy@.len() == exports@.len(),
        forall|i: int| 0 <= i < exports@.len() ==> #[trigger] copy@[i] == exports@[i],
{
    let mut copy: Vec<(String, Export)> = Vec::new();
    let mut i: usize = 0;
    while i < exports.len()
        invariant
            i <= exports@.len(),
            copy@.len() == i,
            forall|j: int| 0 <= j < i ==> #[trigger] copy@[j] == exports@[j],
        decreases exports.len() - i,
    {
        copy.push((exports[i].0.clone(), exports[i].1.clone()));
        i = i + 1;
    }
    copy
}

/// Resolves what module `module_index` re-exports, after the modules it
/// re-exports from: a glob re-export passes on each of their exports, a named
/// one the export it names (under its alias, if it has one). A module already
/// done, or on the current path of a cycle, is left alone. Each module's
/// exports only grow, and what goes wrong is reported as errors.
#[verifier::spinoff_prover]
#[verifier::rlimit(80)]
pub fn resolve_module_re_exports(
    module_index: usize,
    modules: &Vec<Module>,
    exports: &mut Vec<Vec<(String, Export)>>,
    diagnostics: &mut Vec<Diagnostic>,
    states: &mut Vec<ReExportState>,
    Ghost(base): Ghost<int>,
)
    requires
        module_index < modules@.len(),
        old(exports)@.len() == modules@.len(),
        old(states)@.len() == modules@.len(),
        import_targets_valid(modules@, modules@.len() as int),
        base <= old(diagnostics)@.len(),
        done_present(modules@, old(states)@, old(exports)@, old(diagnostics)@.len() > base),
    ensures
        done_present(modules@, final(states)@, final(exports)@, final(diagnostics)@.len() > base),
        states_advanced(old(states)@, final(states)@),
        final(states)@[module_index as int] != ReExportState::Pending,
        old(states)@[module_index as int] == ReExportState::Pending ==> final(states)@[module_index as int]
            == ReExportState::Done,
        exports_grew(old(exports)@, final(exports)@),
        errors_appended(old(diagnostics)@, final(diagnostics)@),
        run_of(final(states)@, final(exports)@, final(diagnostics)@) == resolve_spec(
            modules@,
            module_index as int,
            run_of(old(states)@, old(exports)@, old(diagnostics)@),
        ),
    decreases pending_count(old(states)@),
{
    if states[module_index] != ReExportState::Pending {
        proof {
            lemma_grew_refl(exports@);
            lemma_errors_refl(diagnostics@);
        }
        return;
    }
    proof {
        lemma_grew_refl(exports@);
        lemma_errors_refl(diagnostics@);
    }
    let ghost pending_states = states@;
    states.set(module_index, ReExportState::Visiting);
    proof {
        assert forall|m: int|
            0 <= m < modules@.len() && m < states@.len() && m < exports@.len() && #[trigger] states@[m] == ReExportState::Done
                implies reexports_present(modules@[m], exports@[m]@) || diagnostics@.len() > base by {
            assert(pending_states[m] == ReExportState::Done);
        }
    }
    let ghost start_run = run_of(states@, exports@, diagnostics@);
    let module = &modules[module_index];
    let mut i: usize = 0;
    while i < module.imports.len()
        invariant
            module_index < modules@.len(),
            *module == modules@[module_index as int],
            import_targets_valid(modules@, modules@.len() as int),
            exports@.len() == modules@.len(),
            states@.len() == modules@.len(),
            old(states)@.len() == modules@.len(),
            i <= module.imports@.len(),
            states@[module_index as int] == ReExportState::Visiting,
            old(states)@[module_index as int] == ReExportState::Pending,
            forall|j: int|
                0 <= j < states@.len() && j != module_index ==> {
                    &&& (#[trigger] states@[j] == ReExportState::Pending ==> old(states)@[j] == ReExportState::Pending)
                    &&& (old(states)@[j] == ReExportState::Done ==> states@[j] == ReExportState::Done)
                    &&& (old(states)@[j] == ReExportState::Visiting ==> states@[j] == ReExportState::Visiting)
                    &&& (states@[j] == ReExportState::Visiting ==> old(states)@[j] == ReExportState::Visiting)
                },
            exports_grew(old(exports)@, exports@),
            errors_appended(old(diagnostics)@, diagnostics@),
            base <= old(diagnostics)@.len(),
            done_present(modules@, states@, exports@, diagnostics@.len() > base),
            imports_present(*module, exports@[module_index as int]@, i as int) || diagnostics@.len() > base,
            imports_spec(modules@, module_index as int, 0, start_run) == imports_spec(
                modules@,
                module_index as int,
                i as int,
                run_of(states@, exports@, diagnostics@),
            ),
        decreases module.imports.len() - i,
    {
        let ghost cur = run_of(states@, exports@, diagnostics@);
        let import = &module.imports[i];
        assert(import_targets_valid(modules@, modules@.len() as int));
        assert(modules@[module_index as int].imports@[i as int] == *import);
        if import.exported {
            if let Some(target) = import.target {
                proof {
                    lemma_pending_count_fewer(old(states)@, states@, module_index as int);
                }
                let ghost exports_before = exports@;
                let ghost diagnostics_before = diagnostics@;
                let ghost states_before = states@;
                resolve_module_re_exports(target, modules, exports, diagnostics, states, Ghost(base));
                let ghost resolved = run_of(states@, exports@, diagnostics@);
                proof {
                    lemma_pending_count_at_most(states_before, states@);
                    lemma_grew_chain(old(exports)@, exports_before, exports@);
                    lemma_errors_chain(old(diagnostics)@, diagnostics_before, diagnostics@);
                    assert(extends(exports_before[module_index as int]@, exports@[module_index as int]@));
                    if !(diagnostics@.len() > base) {
                        lemma_imports_kept(*module, exports_before[module_index as int]@, exports@[module_index as int]@, i as int);
                    }
                }
                if import.glob {
                    let entries = copy_exports(&exports[target]);
                    assert(entries@ =~= exports@[target as int]@);
                    let ghost listed = exports_view(entries@);
                    let mut k: usize = 0;
                    while k < entries.len()
                        invariant
                            states@ == resolved.0,
                            listed == exports_view(entries@),
                            glob_steps(resolved, module_index as int, listed, import.span, 0) == glob_steps(
                                run_of(states@, exports@, diagnostics@),
                                module_index as int,
                                listed,
                                import.span,
                                k as int,
                            ),
                            module_index < exports@.len(),
                            exports@.len() == modules@.len(),
                            k <= entries@.len(),
                            exports_grew(old(exports)@, exports@),
                            errors_appended(old(diagnostics)@, diagnostics@),
                            base <= old(diagnostics)@.len(),
                            done_present(modules@, states@, exports@, diagnostics@.len() > base),
                            imports_present(*module, exports@[module_index as int]@, i as int) || diagnostics@.len() > base,
                        decreases entries.len() - k,
                    {
                        let ghost exports_before = exports@;
                        let ghost diagnostics_before = diagnostics@;
                        let entry_export = entries[k].1.clone();
                        export_visible_name(
                            module_index,
                            entries[k].0.as_str(),
                            entry_export,
                            import.span,
                            exports,
                            diagnostics,
                        );
                        proof {
                            lemma_visible_step(
                                exports_before,
                                exports@,
                                diagnostics_before,
                                diagnostics@,
                                states@,
                                module_index as int,
                                entries@[k as int].0@,
                                entries@[k as int].1,
                                import.span,
                            );
                            assert(listed[k as int] == (entries@[k as int].0@, export_view(entries@[k as int].1)));
                            lemma_grew_chain(old(exports)@, exports_before, exports@);
                            lemma_errors_chain(old(diagnostics)@, diagnostics_before, diagnostics@);
                            lemma_steps_keep(modules@, states@, *module, module_index as int, i as int, exports_before, exports@, diagnostics_before.len() > base, diagnostics@.len() > base);
                        }
                        k = k + 1;
                    }
                }
                let ghost globbed = run_of(states@, exports@, diagnostics@);
                assert(globbed == if import.glob {
                    glob_steps(resolved, module_index as int, resolved.1[target as int], import.span, 0)
                } else {
                    resolved
                });
                let mut n: usize = 0;
                while n < import.names.len()
                    invariant
                        states@ == resolved.0,
                        name_steps(globbed, module_index as int, target as int, modules@[target as int].path@, import.names@, 0)
                            == name_steps(
                            run_of(states@, exports@, diagnostics@),
                            module_index as int,
                            target as int,
                            modules@[target as int].path@,
                            import.names@,
                            n as int,
                        ),
                        module_index < exports@.len(),
                        target < exports@.len(),
                        exports@.len() == modules@.len(),
                        target < modules@.len(),
                        n <= import.names@.len(),
                        exports_grew(old(exports)@, exports@),
                        errors_appended(old(diagnostics)@, diagnostics@),
                        base <= old(diagnostics)@.len(),
                        done_present(modules@, states@, exports@, diagnostics@.len() > base),
                        imports_present(*module, exports@[module_index as int]@, i as int) || diagnostics@.len() > base,
                        import_names_present(*import, exports@[module_index as int]@, n as int) || diagnostics@.len() > base,
                    decreases import.names.len() - n,
                {
                    let imported_name = &import.names[n];
                    let name = &imported_name.name;
                    let export_name = match &imported_name.alias {
                        Some(alias) => alias,
                        None => name,
                    };
                    let ghost exports_before = exports@;
                    let ghost diagnostics_before = diagnostics@;
                    assert(export_name@ == exported_as(import.names@[n as int]));
                    proof {
                        lemma_lookup_export(exports@[target as int]@, name@);
                    }
                    match find_pair(&exports[target], name.as_str()) {
                        None => {
                            let mut message = String::from_str("module `");
                            message.append(modules[target].path.as_str());
                            message.append("` does not export `");
                            message.append(name.as_str());
                            message.append("`");
                            assert(message@ =~= missing_name_message(modules@[target as int].path@, name@));
                            diagnostics.push(Diagnostic::error(imported_name.span, message));
                            assert(diagnostics@.take(diagnostics_before.len() as int) =~= diagnostics_before);
                            assert(diagnostic_views(diagnostics@) =~= diagnostic_views(diagnostics_before).push(
                                (Severity::Error, imported_name.span, missing_name_message(modules@[target as int].path@, name@)),
                            ));
                            proof {
                                lemma_grew_refl(exports@);
                            }
                        },
                        Some(export) => {
                            let export = export.clone();
                            let ghost chosen = export;
                            export_visible_name(
                                module_index,
                                export_name.as_str(),
                                export,
                                imported_name.span,
                                exports,
                                diagnostics,
                            );
                            proof {
                                lemma_visible_step(
                                    exports_before,
                                    exports@,
                                    diagnostics_before,
                                    diagnostics@,
                                    states@,
                                    module_index as int,
                                    export_name@,
                                    chosen,
                                    imported_name.span,
                                );
                            }
                        },
                    }
                    proof {
                        lemma_grew_chain(old(exports)@, exports_before, exports@);
                        lemma_errors_chain(old(diagnostics)@, diagnostics_before, diagnostics@);
                        lemma_steps_keep(modules@, states@, *module, module_index as int, i as int, exports_before, exports@, diagnostics_before.len() > base, diagnostics@.len() > base);
                        if !(diagnostics@.len() > base) {
                            lemma_names_kept(*import, exports_before[module_index as int]@, exports@[module_index as int]@, n as int);
                            assert(has_key(exports@[module_index as int]@, exported_as(import.names@[n as int]))) by {
                                if let Some(existing) = lookup_pair(exports_before[module_index as int]@, export_name@) {
                                    lemma_lookup_has_key(exports_before[module_index as int]@, export_name@);
                                } else {
                                    let last = exports@[module_index as int]@.len() - 1;
                                    assert(exports@[module_index as int]@[last].0@ == export_name@);
                                }
                            }
                        }
                    }
                    n = n + 1;
                }
                proof {
                    assert(imports_present(*module, exports@[module_index as int]@, i + 1) || diagnostics@.len() > base);
                    assert(imports_spec(modules@, module_index as int, i as int, cur) == imports_spec(
                        modules@,
                        module_index as int,
                        i + 1,
                        run_of(states@, exports@, diagnostics@),
                    ));
                }
            } else {
                proof {
                    assert(imports_present(*module, exports@[module_index as int]@, i + 1) || diagnostics@.len() > base);
                    assert(imports_spec(modules@, module_index as int, i as int, cur) == imports_spec(modules@, module_index as int, i + 1, cur));
                }
            }
        } else {
            proof {
                assert(imports_present(*module, exports@[module_index as int]@, i + 1) || diagnostics@.len() > base);
                assert(imports_spec(modules@, module_index as int, i as int, cur) == imports_spec(modules@, module_index as int, i + 1, cur));
            }
        }
        i = i + 1;
    }
    let ghost visiting_states = states@;
    states.set(module_index, ReExportState::Done);
    proof {
        assert(run_of(states@, exports@, diagnostics@) =~= (visiting_states.update(module_index as int, ReExportState::Done), all_exports_view(exports@), diagnostic_views(diagnostics@)));
    }
    proof {
        assert forall|m: int|
            0 <= m < modules@.len() && m < states@.len() && m < exports@.len() && #[trigger] states@[m] == ReExportState::Done
                implies reexports_present(modules@[m], exports@[m]@) || diagnostics@.len() > base by {
            if m != module_index {
                assert(visiting_states[m] == ReExportState::Done);
            }
        }
    }
}

/// One step that grows the exports and the diagnostics keeps what the
/// resolution has established: the modules done, and the re-exports of the
/// first `upto` imports of `module`.
proof fn lemma_steps_keep(
    modules: Seq<Module>,
    states: Seq<ReExportState>,
    module: Module,
    module_index: int,
    upto: int,
    a: Seq<Vec<(String, Export)>>,
    b: Seq<Vec<(String, Export)>>,
    failed_before: bool,
    failed_after: bool,
)
    requires
        0 <= module_index < a.len(),
        exports_grew(a, b),
        done_present(modules, states, a, failed_before),
        imports_present(module, a[module_index]@, upto) || failed_before,
        failed_before ==> failed_after,
    ensures
        done_present(modules, states, b, failed_after),
        imports_present(module, b[module_index]@, upto) || failed_after,
{
    lemma_done_kept(modules, states, a, b, failed_before, failed_after);
    if !failed_after {
        assert(extends(a[module_index]@, b[module_index]@));
        lemma_imports_kept(module, a[module_index]@, b[module_index]@, upto);
    }
}

proof fn lemma_grew_refl(exports: Seq<Vec<(String, Export)>>)
    ensures
        exports_grew(exports, exports),
{
    assert forall|m: int| 0 <= m < exports.len() implies #[trigger] extends(exports[m]@, exports[m]@) by {
        assert(exports[m]@.take(exports[m]@.len() as int) =~= exports[m]@);
    }
}

proof fn lemma_errors_refl(diagnostics: Seq<Diagnostic>)
    ensures
        errors_appended(diagnostics, diagnostics),
{
    assert(diagnostics.take(diagnostics.len() as int) =~= diagnostics);
}

proof fn lemma_grew_chain(
    a: Seq<Vec<(String, Export)>>,
    b: Seq<Vec<(String, Export)>>,
    c: Seq<Vec<(String, Export)>>,
)
    requires
        exports_grew(a, b),
        exports_grew(b, c),
    ensures
        exports_grew(a, c),
{
    assert forall|m: int| 0 <= m < a.len() implies #[trigger] extends(a[m]@, c[m]@) by {
        assert(extends(a[m]@, b[m]@));
        assert(extends(b[m]@, c[m]@));
        assert(c[m]@.take(a[m]@.len() as int) =~= c[m]@.take(b[m]@.len() as int).take(a[m]@.len() as int));
    }
}

proof fn lemma_errors_chain(a: Seq<Diagnostic>, b: Seq<Diagnostic>, c: Seq<Diagnostic>)
    requires
        errors_appended(a, b),
        errors_appended(b, c),
    ensures
        errors_appended(a, c),
{
    assert(c.take(a.len() as int) =~= c.take(b.len() as int).take(a.len() as int));
    assert forall|i: int| a.len() <= i < c.len() implies (#[trigger] c[i]).severity == Severity::Error by {
        if i < b.len() {
            assert(c.take(b.len() as int)[i] == b[i]);
        }
    }
}

proof fn lemma_export_step_grew(before: Seq<Vec<(String, Export)>>, after: Seq<Vec<(String, Export)>>, module_index: int)
    requires
        0 <= module_index < before.len(),
        after.len() == before.len(),
        forall|m: int| 0 <= m < before.len() && m != module_index ==> #[trigger] after[m] == before[m],
        after[module_index] == before[module_index] || (after[module_index]@.len() == before[module_index]@.len() + 1
            && after[module_index]@.drop_last() == before[module_index]@),
    ensures
        exports_grew(before, after),
{
    assert forall|m: int| 0 <= m < before.len() implies #[trigger] extends(before[m]@, after[m]@) by {
        assert(after[m]@.take(before[m]@.len() as int) =~= before[m]@) by {
            if m == module_index && after[module_index] != before[module_index] {
                assert(after[m]@.take(before[m]@.len() as int) =~= after[m]@.drop_last());
            }
        }
    }
}

/// Resolves the re-exports of every module (see `resolve_module_re_exports`):
/// afterwards every module is done.
pub fn resolve_re_exports(
    modules: &Vec<Module>,
    exports: &mut Vec<Vec<(String, Export)>>,
    diagnostics: &mut Vec<Diagnostic>,
)
    requires
        old(exports)@.len() == modules@.len(),
        import_targets_valid(modules@, modules@.len() as int),
    ensures
        exports_grew(old(exports)@, final(exports)@),
        errors_appended(old(diagnostics)@, final(diagnostics)@),
        forall|m: int|
            0 <= m < modules@.len() ==> reexports_present(#[trigger] modules@[m], final(exports)@[m]@)
                || final(diagnostics)@.len() > old(diagnostics)@.len(),
        ({
            let run = resolve_all_spec(
                modules@,
                0,
                (all_pending(modules@.len()), all_exports_view(old(exports)@), diagnostic_views(old(diagnostics)@)),
            );
            all_exports_view(final(exports)@) == run.1 && diagnostic_views(final(diagnostics)@) == run.2
        }),
{
    let ghost base = old(diagnostics)@.len() as int;
    let mut states: Vec<ReExportState> = Vec::new();
    let mut i: usize = 0;
    while i < modules.len()
        invariant
            i <= modules@.len(),
            states@.len() == i,
            forall|j: int| 0 <= j < i ==> #[trigger] states@[j] == ReExportState::Pending,
        decreases modules.len() - i,
    {
        states.push(ReExportState::Pending);
        i = i + 1;
    }
    assert(exports_grew(old(exports)@, exports@)) by {
        assert forall|m: int| 0 <= m < exports@.len() implies #[trigger] extends(exports@[m]@, exports@[m]@) by {
            assert(exports@[m]@.take(exports@[m]@.len() as int) =~= exports@[m]@);
        }
    }
    assert(diagnostics@.take(diagnostics@.len() as int) =~= diagnostics@);
    assert(done_present(modules@, states@, exports@, diagnostics@.len() > base));
    assert(states@ =~= all_pending(modules@.len()));
    let ghost first_run = run_of(states@, exports@, diagnostics@);
    let mut module_index: usize = 0;
    while module_index < modules.len()
        invariant
            module_index <= modules@.len(),
            exports@.len() == modules@.len(),
            states@.len() == modules@.len(),
            import_targets_valid(modules@, modules@.len() as int),
            forall|j: int| 0 <= j < states@.len() ==> #[trigger] states@[j] != ReExportState::Visiting,
            forall|j: int| 0 <= j < module_index ==> #[trigger] states@[j] == ReExportState::Done,
            exports_grew(old(exports)@, exports@),
            errors_appended(old(diagnostics)@, diagnostics@),
            base == old(diagnostics)@.len(),
            done_present(modules@, states@, exports@, diagnostics@.len() > base),
            first_run == (all_pending(modules@.len()), all_exports_view(old(exports)@), diagnostic_views(old(diagnostics)@)),
            resolve_all_spec(modules@, 0, first_run) == resolve_all_spec(
                modules@,
                module_index as int,
                run_of(states@, exports@, diagnostics@),
            ),
        decreases modules.len() - module_index,
    {
        let ghost exports_before = exports@;
        let ghost diagnostics_before = diagnostics@;
        let ghost states_before = states@;
        resolve_module_re_exports(module_index, modules, exports, diagnostics, &mut states, Ghost(base));
        proof {
            lemma_grew_chain(old(exports)@, exports_before, exports@);
            lemma_errors_chain(old(diagnostics)@, diagnostics_before, diagnostics@);
            assert forall|j: int| 0 <= j < module_index + 1 implies #[trigger] states@[j] == ReExportState::Done by {
                if j < module_index {
                    assert(states_before[j] == ReExportState::Done);
                } else {
                    assert(states_before[j] != ReExportState::Visiting);
                }
            }
        }
        module_index = module_index + 1;
    }
    assert forall|m: int| 0 <= m < modules@.len() implies reexports_present(#[trigger] modules@[m], exports@[m]@)
        || diagnostics@.len() > old(diagnostics)@.len() by {
        assert(states@[m] == ReExportState::Done);
    }
}

/// The message for an imported extension whose name another extension has.
pub open spec fn conflicting_extension_message(name: Seq<char>) -> Seq<char> {
    "imported extension `"@ + name + "` conflicts with another extension in this module"@
}

/// The message for an imported name that another name of the module has.
pub open spec fn conflicting_import_message(name: Seq<char>) -> Seq<char> {
    "imported name `"@ + name + "` conflicts with another name in this module"@
}

/// `after` is `before` with one more entry, `key` with a value.
pub open spec fn pushed<V>(before: Seq<(String, V)>, after: Seq<(String, V)>, key: Seq<char>, value: V) -> bool {
    &&& after.len() == before.len() + 1
    &&& after.drop_last() == before
    &&& after.last().0@ == key
    &&& after.last().1 == value
}

/// Makes `export` visible in a module under `local_name`: an extension among
/// the module's extensions, anything else among its names (with the package
/// that declares it). A name already taken, by an extension for an extension,
/// or by a name or namespace otherwise, is an error at `span`, except for a
/// weak import, which then gives way silently.
pub fn import_visible_export(
    local_name: &str,
    export: &Export,
    span: Span,
    weak: bool,
    visible_names: &mut Vec<(String, String)>,
    visible_name_packages: &mut Vec<(String, usize)>,
    visible_extensions: &mut Vec<(String, String)>,
    visible_namespaces: &Vec<(String, usize)>,
    diagnostics: &mut Vec<Diagnostic>,
)
    ensures
        ({
            let taken = if export.extension {
                lookup_pair(old(visible_extensions)@, local_name@) is Some
            } else {
                lookup_pair(old(visible_names)@, local_name@) is Some || lookup_pair(visible_namespaces@, local_name@) is Some
            };
            let message = if export.extension {
                conflicting_extension_message(local_name@)
            } else {
                conflicting_import_message(local_name@)
            };
            &&& taken ==> {
                &&& final(visible_names)@ == old(visible_names)@
                &&& final(visible_name_packages)@ == old(visible_name_packages)@
                &&& final(visible_extensions)@ == old(visible_extensions)@
                &&& if weak {
                    final(diagnostics)@ == old(diagnostics)@
                } else {
                    diagnostic_views(final(diagnostics)@) == diagnostic_views(old(diagnostics)@).push(
                        (Severity::Error, span, message),
                    )
                }
            }
            &&& !taken && export.extension ==> {
                &&& final(visible_names)@ == old(visible_names)@
                &&& final(visible_name_packages)@ == old(visible_name_packages)@
                &&& pushed(old(visible_extensions)@, final(visible_extensions)@, local_name@, export.internal_name)
                &&& final(diagnostics)@ == old(diagnostics)@
            }
            &&& !taken && !export.extension ==> {
                &&& pushed(old(visible_names)@, final(visible_names)@, local_name@, export.internal_name)
                &&& pushed(old(visible_name_packages)@, final(visible_name_packages)@, local_name@, export.package)
                &&& final(visible_extensions)@ == old(visible_extensions)@
                &&& final(diagnostics)@ == old(diagnostics)@
            }
        }),
        errors_appended(old(diagnostics)@, final(diagnostics)@),
{
    proof {
        lemma_errors_refl(diagnostics@);
    }
    let ghost before = diagnostics@;
    if export.extension {
        if find_pair(visible_extensions, local_name).is_some() {
            if !weak {
                let mut message = String::from_str("imported extension `");
                message.append(local_name);
                message.append("` conflicts with another extension in this module");
                diagnostics.push(Diagnostic::error(span, message));
                assert(diagnostic_views(diagnostics@) =~= diagnostic_views(before).push(
                    (Severity::Error, span, conflicting_extension_message(local_name@)),
                ));
                assert(diagnostics@.take(before.len() as int) =~= before);
            }
            return;
        }
        let ghost extensions = visible_extensions@;
        visible_extensions.push((String::from_str(local_name), export.internal_name.clone()));
        assert(visible_extensions@.drop_last() =~= extensions);
        return;
    }
    if find_pair(visible_names, local_name).is_some() || find_pair(visible_namespaces, local_name).is_some() {
        if !weak {
            let mut message = String::from_str("imported name `");
            message.append(local_name);
            message.append("` conflicts with another name in this module");
            diagnostics.push(Diagnostic::error(span, message));
            assert(diagnostic_views(diagnostics@) =~= diagnostic_views(before).push(
                (Severity::Error, span, conflicting_import_message(local_name@)),
            ));
            assert(diagnostics@.take(before.len() as int) =~= before);
        }
        return;
    }
    let ghost names = visible_names@;
    let ghost packages = visible_name_packages@;
    visible_names.push((String::from_str(local_name), export.internal_name.clone()));
    visible_name_packages.push((String::from_str(local_name), export.package));
    assert(visible_names@.drop_last() =~= names);
    assert(visible_name_packages@.drop_last() =~= packages);
}

} // verus!
