use vstd::prelude::*;
use vstd::string::StringSliceAdditionalSpecFns;
use vstd::utf8::encode_utf8;

use crate::ast::{ImportName, ImportNamespace, Program};
use crate::diagnostic::{Diagnostic, Severity};
use crate::span::Span;
use crate::text::{decimal, decimal_string};
use paths::{relative_source_path, spec_relative_path};
use spans::span_shifted;

pub mod comptime;
pub mod scan;
pub mod paths;
pub mod link;
pub mod spans;
pub mod manifest;
pub mod rewrite;
pub mod rewrite_code;
pub mod reexport;
pub mod linker;
pub mod comptime_reads;
pub mod comptime_sites;
pub mod lambda_sources;
pub mod materialize;
pub mod runner_types;
pub mod permissions;
pub mod runner_prepare;
pub mod comptime_replace;
pub mod comptime_expand;
pub mod comptime_fill;
pub mod imports;
pub mod import_spec;
pub mod loader;

verus! {

/// One source file of a project, placed at `offset` in the project's combined span space.
#[derive(Debug)]
pub struct SourceFile {
    pub path: String,
    pub display_path: Option<String>,
    pub source: String,
    pub offset: usize,
}

/// A source file handed to lowering, under the path that diagnostics show.
#[derive(Debug)]
pub struct LoweringSourceFile {
    pub path: String,
    pub source: String,
    pub offset: usize,
}

/// The source files of a checked project and the project's root directory.
#[derive(Debug)]
pub struct ProjectSources {
    files: Vec<SourceFile>,
    root: String,
}

/// An import of a module, resolved to the module it names (`target`), if
/// that module was found.
#[derive(Debug)]
pub struct ResolvedImport {
    pub path: String,
    pub names: Vec<ImportName>,
    pub namespace: Option<ImportNamespace>,
    pub glob: bool,
    pub exported: bool,
    pub weak: bool,
    pub span: Span,
    pub target: Option<usize>,
}

/// A loaded module: where it came from, its key, its package, its program
/// and imports, and whether it is the project's entry module.
#[derive(Debug)]
pub struct Module {
    pub path: String,
    pub key: String,
    pub package: usize,
    pub program: Program,
    pub imports: Vec<ResolvedImport>,
    pub entry: bool,
}

/// What checking a project produced.
#[derive(Debug)]
pub struct ProjectCompileResult {
    pub program: Program,
    pub diagnostics: Vec<Diagnostic>,
    pub sources: ProjectSources,
}

/// How a project is checked: where the standard library lives, and whether to
/// leave it out.
#[derive(Debug)]
pub struct ProjectOptions {
    pub std_path: Option<String>,
    pub no_std: bool,
}

impl Default for ProjectOptions {
    fn default() -> (options: Self)
        ensures
            options.std_path is None,
            !options.no_std,
    {
        ProjectOptions { std_path: None, no_std: false }
    }
}

/// Some diagnostic is an error.
pub open spec fn has_error(diagnostics: Seq<Diagnostic>) -> bool {
    exists|i: int| 0 <= i < diagnostics.len() && #[trigger] diagnostics[i].severity == Severity::Error
}

impl ProjectCompileResult {
    pub fn has_errors(&self) -> (errors: bool)
        ensures
            errors == has_error(self.diagnostics@),
    {
        let mut i: usize = 0;
        while i < self.diagnostics.len()
            invariant
                i <= self.diagnostics.len(),
                forall|j: int| 0 <= j < i ==> #[trigger] self.diagnostics@[j].severity != Severity::Error,
            decreases self.diagnostics.len() - i,
        {
            if self.diagnostics[i].severity == Severity::Error {
                return true;
            }
            i = i + 1;
        }
        false
    }
}

/// The index of the file that holds `position`: the last file whose offset is at
/// or before it, else the first file.
pub open spec fn file_index_for(files: Seq<SourceFile>, position: usize) -> int
    decreases files.len(),
{
    if files.len() == 0 {
        0
    } else if files.last().offset <= position {
        files.len() - 1
    } else {
        file_index_for(files.drop_last(), position)
    }
}

/// 1-based line of byte `position` in `bytes` (positions past the end count as the end).
pub open spec fn line_at(bytes: Seq<u8>, position: int) -> nat
    decreases position,
{
    if position <= 0 || bytes.len() == 0 {
        1
    } else if position > bytes.len() {
        line_at(bytes, bytes.len() as int)
    } else {
        line_at(bytes, position - 1) + if bytes[position - 1] == 10 { 1nat } else { 0nat }
    }
}

/// 1-based column of byte `position` in `bytes`: bytes since the last newline, plus one.
pub open spec fn column_at(bytes: Seq<u8>, position: int) -> nat
    decreases position,
{
    if position <= 0 || bytes.len() == 0 {
        1
    } else if position > bytes.len() {
        column_at(bytes, bytes.len() as int)
    } else if bytes[position - 1] == 10 {
        1
    } else {
        column_at(bytes, position - 1) + 1
    }
}

pub open spec fn severity_text(severity: Severity) -> Seq<char> {
    match severity {
        Severity::Error => "error"@,
        Severity::Warning => "warning"@,
    }
}

/// `path:line:column: severity: message`.
pub open spec fn rendered(path: Seq<char>, line: nat, column: nat, severity: Severity, message: Seq<char>) -> Seq<char> {
    path + ":"@ + decimal(line) + ":"@ + decimal(column) + ": "@ + severity_text(severity) + ": "@
        + message
}

impl ProjectSources {
    pub closed spec fn file_seq(&self) -> Seq<SourceFile> {
        self.files@
    }

    pub closed spec fn root_text(&self) -> Seq<char> {
        self.root@
    }

    pub fn new(files: Vec<SourceFile>, root: String) -> (sources: ProjectSources)
        ensures
            sources.file_seq() == files@,
            sources.root_text() == root@,
    {
        ProjectSources { files, root }
    }

    /// Which file a project-wide position falls in.
    fn file_for(&self, position: usize) -> (index: usize)
        requires
            self.files@.len() > 0,
        ensures
            index == file_index_for(self.files@, position),
            index < self.files@.len(),
    {
        let mut i = self.files.len();
        while i > 0
            invariant
                i <= self.files@.len(),
                self.files@.len() > 0,
                forall|j: int| i <= j < self.files@.len() ==> #[trigger] self.files@[j].offset > position,
            decreases i,
        {
            if self.files[i - 1].offset <= position {
                proof {
                    lemma_file_index_suffix(self.files@, position, i as int);
                    assert(self.files@.take(i as int).last() == self.files@[i - 1]);
                }
                return i - 1;
            }
            i = i - 1;
        }
        proof {
            lemma_file_index_suffix(self.files@, position, 0);
        }
        0
    }

    /// The files as lowering receives them: each under its display path, or
    /// else under its path relative to the project root.
    pub fn to_lowering_source_files(&self) -> (files: Vec<LoweringSourceFile>)
        ensures
            files@.len() == self.file_seq().len(),
            forall|i: int|
                #![trigger files@[i]]
                0 <= i < files@.len() ==> {
                    let file = self.file_seq()[i];
                    &&& files@[i].path@ == match file.display_path {
                        Some(p) => p@,
                        None => spec_relative_path(self.root_text(), file.path@),
                    }
                    &&& files@[i].source@ == file.source@
                    &&& files@[i].offset == file.offset
                },
    {
        let mut lowered: Vec<LoweringSourceFile> = Vec::new();
        let mut i: usize = 0;
        while i < self.files.len()
            invariant
                i <= self.files@.len(),
                lowered@.len() == i,
                forall|j: int|
                    #![trigger lowered@[j]]
                    0 <= j < i ==> {
                        let file = self.files@[j];
                        &&& lowered@[j].path@ == match file.display_path {
                            Some(p) => p@,
                            None => spec_relative_path(self.root@, file.path@),
                        }
                        &&& lowered@[j].source@ == file.source@
                        &&& lowered@[j].offset == file.offset
                    },
            decreases self.files.len() - i,
        {
            let file = &self.files[i];
            let path = match &file.display_path {
                Some(path) => path.clone(),
                None => relative_source_path(self.root.as_str(), file.path.as_str()),
            };
            lowered.push(LoweringSourceFile { path, source: file.source.clone(), offset: file.offset });
            i = i + 1;
        }
        lowered
    }

    /// Renders a diagnostic against the file that it points into, as
    /// `path:line:column: severity: message`, with the line and column of the
    /// span's start inside that file.
    pub fn render(&self, diagnostic: &Diagnostic) -> (text: String)
        requires
            self.file_seq().len() > 0,
            forall|i: int|
                0 <= i < self.file_seq().len() ==> encode_utf8(#[trigger] self.file_seq()[i].source@).len()
                    < u64::MAX,
        ensures
            ({
                let file = self.file_seq()[file_index_for(self.file_seq(), diagnostic.span.start)];
                let local = if diagnostic.span.start >= file.offset {
                    diagnostic.span.start - file.offset
                } else {
                    0
                };
                let path = match file.display_path {
                    Some(p) => p@,
                    None => file.path@,
                };
                text@ == rendered(
                    path,
                    line_at(encode_utf8(file.source@), local),
                    column_at(encode_utf8(file.source@), local),
                    diagnostic.severity,
                    diagnostic.message@,
                )
            }),
    {
        let index = self.file_for(diagnostic.span.start);
        let file = &self.files[index];
        let local_start = diagnostic.span.start.saturating_sub(file.offset);
        let bytes = file.source.as_str().as_bytes();
        let (line, column) = line_column(bytes, local_start);
        let mut text = match &file.display_path {
            Some(path) => path.clone(),
            None => file.path.clone(),
        };
        text.append(":");
        text.append(decimal_string(line).as_str());
        text.append(":");
        text.append(decimal_string(column).as_str());
        text.append(": ");
        match diagnostic.severity {
            Severity::Error => text.append("error"),
            Severity::Warning => text.append("warning"),
        }
        text.append(": ");
        text.append(diagnostic.message.as_str());
        text
    }
}

/// Files after index `i` that start past `position` do not hold it.
proof fn lemma_file_index_suffix(files: Seq<SourceFile>, position: usize, i: int)
    requires
        0 <= i <= files.len(),
        forall|j: int| i <= j < files.len() ==> #[trigger] files[j].offset > position,
    ensures
        file_index_for(files, position) == file_index_for(files.take(i), position),
    decreases files.len() - i,
{
    if i == files.len() {
        assert(files.take(i) =~= files);
    } else {
        let shorter = files.drop_last();
        assert(files.last() == files[files.len() - 1]);
        lemma_file_index_suffix(shorter, position, i);
        assert(shorter.take(i) =~= files.take(i));
    }
}

/// The line and column (both 1-based) of byte `position` in `bytes`.
fn line_column(bytes: &[u8], position: usize) -> (place: (u64, u64))
    requires
        bytes@.len() < u64::MAX,
    ensures
        place.0 == line_at(bytes@, position as int),
        place.1 == column_at(bytes@, position as int),
{
    let end = if position <= bytes.len() { position } else { bytes.len() };
    let mut line: u64 = 1;
    let mut column: u64 = 1;
    let mut i: usize = 0;
    while i < end
        invariant
            end <= bytes@.len(),
            bytes@.len() < u64::MAX,
            i <= end,
            line == line_at(bytes@, i as int),
            column == column_at(bytes@, i as int),
            line <= i + 1,
            column <= i + 1,
        decreases end - i,
    {
        if bytes[i] == 10u8 {
            line = line + 1;
            column = 1;
        } else {
            column = column + 1;
        }
        i = i + 1;
    }
    (line, column)
}

/// A position in file `k`, moved by that file's offset into the project-wide
/// positions, is found in file `k` again, at the same place within it. The
/// files lie in increasing order of offset, and the position comes before
/// the next file begins.
pub proof fn law_shifted_position_in_its_file(files: Seq<SourceFile>, k: int, local: Span, shifted: Span)
    requires
        0 <= k < files.len(),
        forall|i: int, j: int| 0 <= i < j < files.len() ==> files[i].offset < files[j].offset,
        k + 1 < files.len() ==> files[k].offset + local.start < files[k + 1].offset,
        span_shifted(local, shifted, files[k].offset),
    ensures
        file_index_for(files, shifted.start) == k,
        shifted.start - files[k].offset == local.start,
{
    let position = shifted.start;
    assert forall|j: int| k + 1 <= j < files.len() implies #[trigger] files[j].offset > position by {
        if j > k + 1 {
            assert(files[k + 1].offset < files[j].offset);
        }
    }
    lemma_file_index_suffix(files, position, k + 1);
    let prefix = files.take(k + 1);
    assert(prefix.last() == files[k]);
}

} // verus!
