use vstd::prelude::*;

use crate::ast::{ImportDecl, ImportName, ImportNamespace, Item, Program};
use crate::diagnostic::Diagnostic;
use crate::project::permissions::{strip_path_prefix, stripped_path};
use crate::project::spans::{program_fits, program_shifted, shift_diagnostic, shift_program, span_fits, span_shifted};
use crate::project::{Module, ResolvedImport};
use crate::span::Span;

verus! {

/// The import declarations among `items`, in order.
pub open spec fn import_decls(items: Seq<Item>) -> Seq<ImportDecl>
    decreases items.len(),
{
    if items.len() == 0 {
        seq![]
    } else {
        import_decls(items.drop_last()) + match items.last() {
            Item::Import(d) => seq![d],
            _ => seq![],
        }
    }
}

/// `copy` holds the same names, aliases and spans as `names`.
pub open spec fn names_copied(copy: Seq<ImportName>, names: Seq<ImportName>) -> bool {
    &&& copy.len() == names.len()
    &&& forall|i: int|
        0 <= i < names.len() ==> {
            &&& (#[trigger] copy[i]).name@ == names[i].name@
            &&& copy[i].span == names[i].span
            &&& match (copy[i].alias, names[i].alias) {
                (Some(a), Some(b)) => a@ == b@,
                (None, None) => true,
                _ => false,
            }
        }
}

/// A loaded import before it is resolved: what the declaration says, not
/// a glob, not exported, not weak, with no target yet.
pub open spec fn import_from_decl(r: ResolvedImport, d: ImportDecl) -> bool {
    &&& r.path@ == d.path@
    &&& names_copied(r.names@, d.names@)
    &&& match (r.namespace, d.namespace) {
        (Some(a), Some(b)) => a.name@ == b.name@ && a.span == b.span,
        (None, None) => true,
        _ => false,
    }
    &&& !r.glob && !r.exported && !r.weak
    &&& r.span == d.span
    &&& r.target is None
}

/// The import of the standard library's prelude that a module gets: a weak
/// glob import of `std/prelude` at the start of its source.
pub open spec fn is_prelude_import(r: ResolvedImport, offset: usize) -> bool {
    &&& r.path@ == "std/prelude"@
    &&& r.names@.len() == 0
    &&& r.namespace is None
    &&& r.glob && !r.exported && r.weak
    &&& r.span == Span { start: offset, end: offset }
    &&& r.target is None
}

/// Whether a module of `package` gets the prelude: there is a standard
/// library, the package may use it, and it is not the standard library.
pub open spec fn gets_prelude(std_package: Option<usize>, no_std: bool, package: usize) -> bool {
    std_package matches Some(s) && !no_std && package != s
}

/// The first module loaded from `path` in `package`.
pub open spec fn loaded_index(ids: Seq<(usize, String)>, package: usize, path: Seq<char>) -> Option<int>
    decreases ids.len(),
{
    if ids.len() == 0 {
        None
    } else {
        match loaded_index(ids.drop_last(), package, path) {
            Some(i) => Some(i),
            None => if ids.last().0 == package && ids.last().1@ == path {
                Some(ids.len() - 1)
            } else {
                None
            },
        }
    }
}

fn copy_names(names: &Vec<ImportName>) -> (copy: Vec<ImportName>)
    ensures
        names_copied(copy@, names@),
{
    let mut copy: Vec<ImportName> = Vec::new();
    let mut i: usize = 0;
    while i < names.len()
        invariant
            i <= names@.len(),
            copy@.len() == i,
            forall|j: int|
                0 <= j < i ==> {
                    &&& (#[trigger] copy@[j]).name@ == names@[j].name@
                    &&& copy@[j].span == names@[j].span
                    &&& match (copy@[j].alias, names@[j].alias) {
                        (Some(a), Some(b)) => a@ == b@,
                        (None, None) => true,
                        _ => false,
                    }
                },
        decreases names.len() - i,
    {
        let alias = match &names[i].alias {
            Some(a) => Some(a.clone()),
            None => None,
        };
        copy.push(ImportName { name: names[i].name.clone(), alias, span: names[i].span });
        i = i + 1;
    }
    copy
}

fn import_of(d: &ImportDecl) -> (r: ResolvedImport)
    ensures
        import_from_decl(r, *d),
{
    let namespace = match &d.namespace {
        Some(ns) => Some(ImportNamespace { name: ns.name.clone(), span: ns.span }),
        None => None,
    };
    ResolvedImport {
        path: d.path.clone(),
        names: copy_names(&d.names),
        namespace,
        glob: false,
        exported: false,
        weak: false,
        span: d.span,
        target: None,
    }
}

/// The imports of a program's import declarations, in order.
pub fn imports_of(program: &Program) -> (imports: Vec<ResolvedImport>)
    ensures
        imports@.len() == import_decls(program.items@).len(),
        forall|i: int| 0 <= i < imports@.len() ==> import_from_decl(#[trigger] imports@[i], import_decls(program.items@)[i]),
{
    let mut imports: Vec<ResolvedImport> = Vec::new();
    let mut k: usize = 0;
    while k < program.items.len()
        invariant
            k <= program.items@.len(),
            imports@.len() == import_decls(program.items@.take(k as int)).len(),
            forall|i: int|
                0 <= i < imports@.len() ==> import_from_decl(#[trigger] imports@[i], import_decls(program.items@.take(k as int))[i]),
        decreases program.items.len() - k,
    {
        let ghost before = imports@;
        assert(program.items@.take(k + 1).drop_last() =~= program.items@.take(k as int));
        if let Item::Import(d) = &program.items[k] {
            imports.push(import_of(d));
        }
        proof {
            assert forall|i: int| 0 <= i < imports@.len() implies import_from_decl(
                #[trigger] imports@[i],
                import_decls(program.items@.take(k + 1))[i],
            ) by {
                if i < before.len() {
                    assert(imports@[i] == before[i]);
                }
            }
        }
        k = k + 1;
    }
    assert(program.items@.take(program.items@.len() as int) =~= program.items@);
    imports
}

/// The key of a module: the package root, `:`, and the module's path
/// inside the package's source directory (or the whole path where it lies
/// outside it).
pub open spec fn spec_module_key(root: Seq<char>, src: Seq<char>, path: Seq<char>) -> Seq<char> {
    root + ":"@ + match stripped_path(path, src) {
        Some(rest) => rest,
        None => path,
    }
}

pub fn module_key(root: &str, src: &str, path: &str) -> (key: String)
    ensures
        key@ == spec_module_key(root@, src@, path@),
{
    let mut key = String::from_str(root);
    key.append(":");
    match strip_path_prefix(path, src) {
        Some(rest) => key.append(rest.as_str()),
        None => key.append(path),
    }
    key
}

/// How a source file of the standard library is shown: `std/` and its path
/// inside the source directory; files of other packages keep their path.
pub open spec fn spec_display_path(std: bool, src: Seq<char>, path: Seq<char>) -> Option<Seq<char>> {
    if std {
        Some(
            "std/"@ + match stripped_path(path, src) {
                Some(rest) => rest,
                None => path,
            },
        )
    } else {
        None
    }
}

pub fn source_display_path(std: bool, src: &str, path: &str) -> (shown: Option<String>)
    ensures
        match shown {
            Some(s) => spec_display_path(std, src@, path@) == Some(s@),
            None => spec_display_path(std, src@, path@) is None,
        },
{
    if !std {
        return None;
    }
    let mut shown = String::from_str("std/");
    match strip_path_prefix(path, src) {
        Some(rest) => shown.append(rest.as_str()),
        None => shown.append(path),
    }
    Some(shown)
}

/// The modules loaded so far, by the package and path they were loaded
/// from, where the next source file goes in the shared offsets, and the
/// diagnostics of loading.
pub struct ModuleLoader {
    pub modules: Vec<Module>,
    pub module_ids: Vec<(usize, String)>,
    pub next_offset: usize,
    pub diagnostics: Vec<Diagnostic>,
}

impl ModuleLoader {
    pub fn new() -> (loader: Self)
        ensures
            loader.modules@.len() == 0,
            loader.module_ids@.len() == 0,
            loader.next_offset == 0,
            loader.diagnostics@.len() == 0,
    {
        ModuleLoader { modules: Vec::new(), module_ids: Vec::new(), next_offset: 0, diagnostics: Vec::new() }
    }

    /// The module already loaded from `path` in `package`, if any: each is
    /// loaded once.
    pub fn loaded(&self, package: usize, path: &str) -> (index: Option<usize>)
        ensures
            match index {
                Some(i) => loaded_index(self.module_ids@, package, path@) == Some(i as int),
                None => loaded_index(self.module_ids@, package, path@) is None,
            },
    {
        let mut i: usize = 0;
        while i < self.module_ids.len()
            invariant
                i <= self.module_ids@.len(),
                loaded_index(self.module_ids@.take(i as int), package, path@) is None,
            decreases self.module_ids.len() - i,
        {
            assert(self.module_ids@.take(i + 1).drop_last() =~= self.module_ids@.take(i as int));
            if self.module_ids[i].0 == package && crate::text::string_is(&self.module_ids[i].1, path) {
                proof {
                    lemma_loaded_prefix(self.module_ids@, i as int + 1, package, path@);
                }
                return Some(i);
            }
            i = i + 1;
        }
        assert(self.module_ids@.take(self.module_ids@.len() as int) =~= self.module_ids@);
        None
    }

    /// Adds a module read from a source of `source_len` bytes and parsed into
    /// `program` with `diagnostics`: its source is placed at the next offset
    /// (one byte after the previous source), its spans and diagnostics are
    /// moved there, its imports are those it declares, followed by the
    /// prelude where `gets_prelude`, and it is registered under its package
    /// and path. Returns its index.
    pub fn add_module(
        &mut self,
        path: String,
        key: String,
        package: usize,
        entry: bool,
        source_len: usize,
        program: Program,
        diagnostics: Vec<Diagnostic>,
        std_package: Option<usize>,
        no_std: bool,
    ) -> (index: usize)
        requires
            old(self).next_offset + source_len + 1 <= usize::MAX,
            program_fits(program, old(self).next_offset),
            forall|i: int| 0 <= i < diagnostics@.len() ==> span_fits(#[trigger] diagnostics@[i].span, old(self).next_offset),
        ensures
            index == old(self).modules@.len(),
            final(self).next_offset == old(self).next_offset + source_len + 1,
            final(self).module_ids@ == old(self).module_ids@.push((package, path)),
            final(self).modules@.drop_last() == old(self).modules@,
            final(self).modules@.len() == old(self).modules@.len() + 1,
            ({
                let module = final(self).modules@.last();
                let offset = old(self).next_offset;
                let declared = import_decls(module.program.items@);
                let count = declared.len();
                &&& module.path == path
                &&& module.key == key
                &&& module.package == package
                &&& module.entry == entry
                &&& program_shifted(program, module.program, offset)
                &&& module.imports@.len() == count + if gets_prelude(std_package, no_std, package) { 1int } else { 0int }
                &&& forall|i: int| 0 <= i < count ==> import_from_decl(#[trigger] module.imports@[i], declared[i])
                &&& gets_prelude(std_package, no_std, package) ==> is_prelude_import(module.imports@[count as int], offset)
            }),
            final(self).diagnostics@.len() == old(self).diagnostics@.len() + diagnostics@.len(),
            final(self).diagnostics@.take(old(self).diagnostics@.len() as int) == old(self).diagnostics@,
            forall|i: int|
                0 <= i < diagnostics@.len() ==> {
                    let shifted = #[trigger] final(self).diagnostics@[old(self).diagnostics@.len() + i];
                    &&& span_shifted(diagnostics@[i].span, shifted.span, old(self).next_offset)
                    &&& shifted.severity == diagnostics@[i].severity
                    &&& shifted.message == diagnostics@[i].message
                },
    {
        let offset = self.next_offset;
        self.next_offset = offset + source_len + 1;
        let ghost before = self.diagnostics@;
        let mut k: usize = 0;
        let mut diagnostics = diagnostics;
        let ghost given = diagnostics@;
        let total = diagnostics.len();
        assert(given.len() == total);
        while diagnostics.len() > 0
            invariant
                k <= given.len(),
                given.len() <= usize::MAX,
                self.modules@ == old(self).modules@,
                self.module_ids@ == old(self).module_ids@,
                offset == old(self).next_offset,
                self.next_offset == offset + source_len + 1,
                diagnostics@ == given.skip(k as int),
                forall|i: int| 0 <= i < given.len() ==> span_fits(#[trigger] given[i].span, offset),
                self.diagnostics@.len() == before.len() + k,
                self.diagnostics@.take(before.len() as int) == before,
                forall|i: int|
                    0 <= i < k ==> {
                        let shifted = #[trigger] self.diagnostics@[before.len() + i];
                        &&& span_shifted(given[i].span, shifted.span, offset)
                        &&& shifted.severity == given[i].severity
                        &&& shifted.message == given[i].message
                    },
            decreases diagnostics.len(),
        {
            let d = diagnostics.remove(0);
            assert(d == given[k as int]);
            assert(diagnostics@ =~= given.skip(k + 1));
            let ghost old_list = self.diagnostics@;
            self.diagnostics.push(shift_diagnostic(d, offset));
            proof {
                assert(self.diagnostics@.take(before.len() as int) =~= old_list.take(before.len() as int));
                assert forall|i: int| 0 <= i < k + 1 implies {
                    let shifted = #[trigger] self.diagnostics@[before.len() + i];
                    &&& span_shifted(given[i].span, shifted.span, offset)
                    &&& shifted.severity == given[i].severity
                    &&& shifted.message == given[i].message
                } by {
                    if i < k {
                        assert(self.diagnostics@[before.len() + i] == old_list[before.len() + i]);
                    }
                }
            }
            k = k + 1;
        }
        let mut program = program;
        shift_program(&mut program, offset);
        let mut imports = imports_of(&program);
        let ghost count = imports@.len();
        if let Some(s) = std_package {
            if !no_std && package != s {
                imports.push(ResolvedImport {
                    path: String::from_str("std/prelude"),
                    names: Vec::new(),
                    namespace: None,
                    glob: true,
                    exported: false,
                    weak: true,
                    span: Span::new(offset, offset),
                    target: None,
                });
                proof {
                    reveal_strlit("std/prelude");
                }
            }
        }
        self.module_ids.push((package, path.clone()));
        let index = self.modules.len();
        self.modules.push(Module { path, key, package, program, imports, entry });
        index
    }

    /// Records the module that import `import` of module `module` leads to.
    pub fn set_import_target(&mut self, module: usize, import: usize, target: Option<usize>)
        requires
            module < old(self).modules@.len(),
            import < old(self).modules@[module as int].imports@.len(),
        ensures
            final(self).modules@.len() == old(self).modules@.len(),
            forall|m: int| 0 <= m < old(self).modules@.len() && m != module ==> #[trigger] final(self).modules@[m] == old(self).modules@[m],
            final(self).modules@[module as int].imports@.len() == old(self).modules@[module as int].imports@.len(),
            final(self).modules@[module as int].imports@[import as int].target == target,
            final(self).module_ids@ == old(self).module_ids@,
            final(self).next_offset == old(self).next_offset,
            final(self).diagnostics@ == old(self).diagnostics@,
    {
        self.modules[module].imports[import].target = target;
    }
}

proof fn lemma_loaded_prefix(ids: Seq<(usize, String)>, n: int, package: usize, path: Seq<char>)
    requires
        0 < n <= ids.len(),
        loaded_index(ids.take(n - 1), package, path) is None,
        ids[n - 1].0 == package && ids[n - 1].1@ == path,
    ensures
        loaded_index(ids, package, path) == Some(n - 1),
    decreases ids.len() - n,
{
    assert(ids.take(n).drop_last() =~= ids.take(n - 1));
    assert(loaded_index(ids.take(n), package, path) == Some(n - 1));
    if n < ids.len() {
        lemma_loaded_prefix_extends(ids, n, n - 1, package, path);
    } else {
        assert(ids.take(n) =~= ids);
    }
}

proof fn lemma_loaded_prefix_extends(ids: Seq<(usize, String)>, n: int, found: int, package: usize, path: Seq<char>)
    requires
        0 < n <= ids.len(),
        loaded_index(ids.take(n), package, path) == Some(found),
    ensures
        loaded_index(ids, package, path) == Some(found),
    decreases ids.len() - n,
{
    if n < ids.len() {
        assert(ids.take(n + 1).drop_last() =~= ids.take(n));
        assert(loaded_index(ids.take(n + 1), package, path) == Some(found));
        lemma_loaded_prefix_extends(ids, n + 1, found, package, path);
    } else {
        assert(ids.take(n) =~= ids);
    }
}

} // verus!
