use vstd::prelude::*;

use crate::ast::{Expr, FunctionDecl, Item, Program};
use crate::diagnostic::{Diagnostic, Severity};
use crate::project::comptime::ComptimeValue;
use crate::project::comptime_reads::RuntimeLocalUse;
use crate::project::comptime_replace::{first_replaced, replace_comptime_at_span, replaced_item, site_item, site_program};
use crate::project::comptime_sites::ComptimeSite;
use crate::project::materialize::{value_error, value_expr, value_ok};
use crate::project::has_error;
use crate::span::Span;
use crate::text::contains_string;

verus! {

// Expanding the `comptime` expressions of a program takes turns between
// running a site's code, which happens outside the library, and the decisions
// below: whether a site may run at all, and what its outcome does to the
// program and to the diagnostics.

/// Why compile-time code cannot read a runtime local `name`.
pub open spec fn local_read_message(name: Seq<char>) -> Seq<char> {
    "`comptime` expressions cannot read runtime local `"@ + name
        + "`; comptime code is compiled and run during compilation, before locals from the surrounding runtime scope exist. Move `"@
        + name
        + "` into the comptime block, make it a top-level `let` initialized by `comptime`, or compute this value at runtime outside `comptime`."@
}

/// Why compile-time code cannot read a runtime static `name`.
pub open spec fn static_read_message(name: Seq<char>) -> Seq<char> {
    "`comptime` expressions cannot read runtime static `"@ + name
        + "`; top-level `let` initializers run at runtime, so their values are not available while compiling. Initialize `"@
        + name + "` with `comptime` first, or move the computation out of `comptime`."@
}

pub open spec fn listed(names: Seq<String>, name: Seq<char>) -> bool {
    exists|i: int| 0 <= i < names.len() && #[trigger] names[i]@ == name
}

/// The index of the first static read whose static has not been expanded yet.
pub open spec fn first_unexpanded(uses: Seq<RuntimeLocalUse>, expanded: Seq<String>) -> Option<int>
    decreases uses.len(),
{
    if uses.len() == 0 {
        None
    } else if !listed(expanded, uses[0].name@) {
        Some(0)
    } else {
        match first_unexpanded(uses.drop_first(), expanded) {
            Some(i) => Some(i + 1),
            None => None,
        }
    }
}

/// What stops a site from running, if anything: its first read of a runtime
/// local, else its first read of a runtime static that has not been expanded.
pub open spec fn site_blocked_by(site: ComptimeSite, expanded: Seq<String>) -> Option<(Span, Seq<char>)> {
    if site.runtime_local_uses@.len() > 0 {
        let first = site.runtime_local_uses@[0];
        Some((first.span, local_read_message(first.name@)))
    } else {
        match first_unexpanded(site.runtime_static_uses@, expanded) {
            Some(i) => {
                let first = site.runtime_static_uses@[i];
                Some((first.span, static_read_message(first.name@)))
            },
            None => None,
        }
    }
}

fn local_read_error(read: &RuntimeLocalUse) -> (diagnostic: Diagnostic)
    ensures
        diagnostic.severity == Severity::Error,
        diagnostic.span == read.span,
        diagnostic.message@ == local_read_message(read.name@),
{
    let mut message = String::from_str("`comptime` expressions cannot read runtime local `");
    message.append(read.name.as_str());
    message.append(
        "`; comptime code is compiled and run during compilation, before locals from the surrounding runtime scope exist. Move `",
    );
    message.append(read.name.as_str());
    message.append(
        "` into the comptime block, make it a top-level `let` initialized by `comptime`, or compute this value at runtime outside `comptime`.",
    );
    Diagnostic::error(read.span, message)
}

fn static_read_error(read: &RuntimeLocalUse) -> (diagnostic: Diagnostic)
    ensures
        diagnostic.severity == Severity::Error,
        diagnostic.span == read.span,
        diagnostic.message@ == static_read_message(read.name@),
{
    let mut message = String::from_str("`comptime` expressions cannot read runtime static `");
    message.append(read.name.as_str());
    message.append(
        "`; top-level `let` initializers run at runtime, so their values are not available while compiling. Initialize `",
    );
    message.append(read.name.as_str());
    message.append("` with `comptime` first, or move the computation out of `comptime`.");
    Diagnostic::error(read.span, message)
}

/// The error that keeps a site from running (see `site_blocked_by`), given
/// the statics expanded so far; `None` where it may run.
pub fn site_blocker(site: &ComptimeSite, expanded: &Vec<String>) -> (blocked: Option<Diagnostic>)
    ensures
        match (blocked, site_blocked_by(*site, expanded@)) {
            (Some(d), Some((span, message))) => d.severity == Severity::Error && d.span == span && d.message@ == message,
            (None, None) => true,
            _ => false,
        },
{
    if site.runtime_local_uses.len() > 0 {
        return Some(local_read_error(&site.runtime_local_uses[0]));
    }
    let uses = &site.runtime_static_uses;
    let mut i: usize = 0;
    assert(uses@.skip(0) =~= uses@);
    while i < uses.len()
        invariant
            i <= uses@.len(),
            *uses == site.runtime_static_uses,
            site.runtime_local_uses@.len() == 0,
            site_blocked_by(*site, expanded@) == match first_unexpanded(uses@.skip(i as int), expanded@) {
                Some(k) => {
                    let first = uses@[k + i];
                    Some((first.span, static_read_message(first.name@)))
                },
                None => None::<(Span, Seq<char>)>,
            },
        decreases uses.len() - i,
    {
        let ghost rest = uses@.skip(i as int);
        assert(rest.drop_first() =~= uses@.skip(i + 1));
        assert(rest[0] == uses@[i as int]);
        if !contains_string(expanded, &uses[i].name) {
            return Some(static_read_error(&uses[i]));
        }
        i = i + 1;
    }
    None
}

/// Whether `program` after is `program` before with the first `comptime`
/// expression at `span` replaced by `value`, or unchanged where there is none.
pub open spec fn program_filled(before: Seq<Item>, after: Seq<Item>, span: Span, value: Expr) -> bool {
    if site_program(before, span) {
        first_replaced(
            before,
            after,
            |item: Item| site_item(item, span),
            |item: Item, item2: Item| replaced_item(item, item2, span, value),
        )
    } else {
        after == before
    }
}

/// Applies what running the site at `span` gave: a value that can be written
/// as source takes the site's place in the program (and a static that the
/// site initialises counts as expanded from then on); a value that cannot, or
/// a failed run, adds an error at `span` and leaves the program as it was.
/// Returns whether expansion goes on: it stops once any diagnostic is an error.
pub fn apply_site_result(
    program: &mut Program,
    span: Span,
    direct_static_name: &Option<String>,
    result: Result<ComptimeValue, String>,
    lambdas: &Vec<(String, FunctionDecl)>,
    expanded: &mut Vec<String>,
    diagnostics: &mut Vec<Diagnostic>,
) -> (proceed: bool)
    ensures
        proceed == !has_error(final(diagnostics)@),
        match result {
            Ok(value) => if value_ok(value, lambdas@) {
                &&& exists|e: Expr|
                    value_expr(value, span, lambdas@, e) && #[trigger] program_filled(
                        old(program).items@,
                        final(program).items@,
                        span,
                        e,
                    )
                &&& final(diagnostics)@ == old(diagnostics)@
                &&& match direct_static_name {
                    Some(name) => if listed(old(expanded)@, name@) {
                        final(expanded)@ == old(expanded)@
                    } else {
                        final(expanded)@ == old(expanded)@.push(*name)
                    },
                    None => final(expanded)@ == old(expanded)@,
                }
            } else {
                &&& *final(program) == *old(program)
                &&& final(expanded)@ == old(expanded)@
                &&& final(diagnostics)@ == old(diagnostics)@.push(final(diagnostics)@.last())
                &&& final(diagnostics)@.last().severity == Severity::Error
                &&& final(diagnostics)@.last().span == span
                &&& final(diagnostics)@.last().message@ == value_error(value, lambdas@)
            },
            Err(message) => {
                &&& *final(program) == *old(program)
                &&& final(expanded)@ == old(expanded)@
                &&& final(diagnostics)@ == old(diagnostics)@.push(final(diagnostics)@.last())
                &&& final(diagnostics)@.last().severity == Severity::Error
                &&& final(diagnostics)@.last().span == span
                &&& final(diagnostics)@.last().message == message
            },
        },
{
    match result {
        Ok(value) => match value.to_expr(span, lambdas) {
            Ok(expr) => {
                let ghost filled = expr;
                replace_comptime_at_span(program, span, expr);
                assert(program_filled(old(program).items@, program.items@, span, filled));
                if let Some(name) = direct_static_name {
                    if !contains_string(expanded, name) {
                        expanded.push(name.clone());
                    }
                }
            },
            Err(message) => {
                diagnostics.push(Diagnostic::error(span, message));
            },
        },
        Err(message) => {
            diagnostics.push(Diagnostic::error(span, message));
        },
    }
    !any_error(diagnostics)
}

/// Whether some diagnostic is an error.
fn any_error(diagnostics: &Vec<Diagnostic>) -> (error: bool)
    ensures
        error == has_error(diagnostics@),
{
    let mut i: usize = 0;
    while i < diagnostics.len()
        invariant
            i <= diagnostics@.len(),
            forall|j: int| 0 <= j < i ==> #[trigger] diagnostics@[j].severity != Severity::Error,
        decreases diagnostics.len() - i,
    {
        if diagnostics[i].severity == Severity::Error {
            return true;
        }
        i = i + 1;
    }
    false
}

} // verus!
