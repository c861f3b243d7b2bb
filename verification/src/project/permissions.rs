use vstd::prelude::*;
use vstd::utf8::encode_utf8;

use crate::ast::{Expr, ExprKind};
use crate::parser::{expression_path, spec_expression_path};
use crate::project::comptime::{path_pattern_matches, permission_allows_name, spec_glob_matches, PermissionValue};
use crate::text::string_is;

verus! {

/// What compile-time code of a package may read: files and environment variables.
#[derive(Debug)]
pub struct ComptimePermissions {
    pub fs: PermissionValue,
    pub env: PermissionValue,
}

/// A package of a project: its root directory and its compile-time permissions.
#[derive(Debug)]
pub struct Package {
    pub root: String,
    pub comptime_permissions: ComptimePermissions,
}

/// The path that `std::path::Path::join` builds from `base` and `path`.
pub uninterp spec fn joined_path(base: Seq<char>, path: Seq<char>) -> Seq<char>;

/// What `std::path::Path::strip_prefix` leaves of `path` once `base` is taken
/// off its front, as text; `None` where `base` does not lead `path`.
pub uninterp spec fn stripped_path(path: Seq<char>, base: Seq<char>) -> Option<Seq<char>>;

/// Calls `Path::join`. The contract only names the joined path: it depends on
/// the two paths alone.
#[verifier::external_body]
fn join_path(base: &str, path: &str) -> (joined: String)
    ensures
        joined@ == joined_path(base@, path@),
{
    std::path::Path::new(base).join(path).to_string_lossy().into_owned()
}

/// Calls `Path::strip_prefix`. The contract only names the rest of the path:
/// it depends on the two paths alone.
#[verifier::external_body]
pub(crate) fn strip_path_prefix(path: &str, base: &str) -> (rest: Option<String>)
    ensures
        match rest {
            Some(r) => stripped_path(path@, base@) == Some(r@),
            None => stripped_path(path@, base@) is None,
        },
{
    match std::path::Path::new(path).strip_prefix(base) {
        Ok(rest) => rest.to_str().map(String::from),
        Err(_) => None,
    }
}

/// `path` as seen from `root`: joined onto the root, then with the root taken
/// off again.
pub open spec fn path_under_root(root: Seq<char>, path: Seq<char>) -> Option<Seq<char>> {
    stripped_path(joined_path(root, path), root)
}

/// Whether `pattern` matches `path` as written, or as seen from the package root
/// (`relative`).
pub open spec fn pattern_admits(pattern: Seq<char>, path: Seq<char>, relative: Option<Seq<char>>) -> bool {
    spec_glob_matches(encode_utf8(pattern), encode_utf8(path)) || (relative matches Some(r) && spec_glob_matches(
        encode_utf8(pattern),
        encode_utf8(r),
    ))
}

/// Whether a path permission grants `path`, given how `path` reads from the
/// package root.
pub open spec fn path_permitted(permission: PermissionValue, path: Seq<char>, relative: Option<Seq<char>>) -> bool {
    match permission {
        PermissionValue::All => true,
        PermissionValue::Nothing => false,
        PermissionValue::Patterns(patterns) => exists|i: int|
            0 <= i < patterns@.len() && #[trigger] pattern_admits(patterns@[i]@, path, relative),
    }
}

/// Whether a name permission grants `name`: it is listed exactly.
pub open spec fn name_permitted(permission: PermissionValue, name: Seq<char>) -> bool {
    match permission {
        PermissionValue::All => true,
        PermissionValue::Nothing => false,
        PermissionValue::Patterns(patterns) => exists|i: int| 0 <= i < patterns@.len() && #[trigger] patterns@[i]@ == name,
    }
}

/// Whether a path permission grants `path`, where `relative` is how `path`
/// reads from the package root: some pattern matches one or the other.
pub fn permission_allows_relative(permission: &PermissionValue, path: &str, relative: &Option<String>) -> (allowed: bool)
    ensures
        allowed == path_permitted(
            *permission,
            path@,
            match relative {
                Some(r) => Some(r@),
                None => None,
            },
        ),
{
    let ghost seen: Option<Seq<char>> = match relative {
        Some(r) => Some(r@),
        None => None,
    };
    match permission {
        PermissionValue::All => true,
        PermissionValue::Nothing => false,
        PermissionValue::Patterns(patterns) => {
            let mut i: usize = 0;
            while i < patterns.len()
                invariant
                    i <= patterns@.len(),
                    seen == match relative {
                        Some(r) => Some(r@),
                        None => None,
                    },
                    (*permission matches PermissionValue::Patterns(listed) && listed == *patterns),
                    forall|j: int| 0 <= j < i ==> !#[trigger] pattern_admits(patterns@[j]@, path@, seen),
                decreases patterns.len() - i,
            {
                let pattern = patterns[i].as_str();
                let mut admits = path_pattern_matches(pattern, path);
                if !admits {
                    if let Some(r) = relative {
                        admits = path_pattern_matches(pattern, r.as_str());
                    }
                }
                if admits {
                    assert(pattern_admits(patterns@[i as int]@, path@, seen));
                    return true;
                }
                i = i + 1;
            }
            false
        },
    }
}

/// Whether a path permission grants `path`, read as written or relative to
/// the package `root`.
pub fn permission_allows_path(permission: &PermissionValue, root: &str, path: &str) -> (allowed: bool)
    ensures
        allowed == path_permitted(*permission, path@, path_under_root(root@, path@)),
{
    let joined = join_path(root, path);
    let relative = strip_path_prefix(joined.as_str(), root);
    permission_allows_relative(permission, path, &relative)
}

/// Whether compile-time code of package `package` may read the file `path`;
/// never for a package that does not exist.
pub open spec fn spec_can_read_fs(packages: Seq<Package>, package: int, path: Seq<char>) -> bool {
    0 <= package < packages.len() && path_permitted(
        packages[package].comptime_permissions.fs,
        path,
        path_under_root(packages[package].root@, path),
    )
}

/// Whether compile-time code of package `package` may read the environment
/// variable `name`; never for a package that does not exist.
pub open spec fn spec_can_read_env(packages: Seq<Package>, package: int, name: Seq<char>) -> bool {
    0 <= package < packages.len() && name_permitted(packages[package].comptime_permissions.env, name)
}

pub fn can_read_fs(packages: &[Package], package: usize, path: &str) -> (allowed: bool)
    ensures
        allowed == spec_can_read_fs(packages@, package as int, path@),
{
    if package >= packages.len() {
        return false;
    }
    let found = &packages[package];
    permission_allows_path(&found.comptime_permissions.fs, found.root.as_str(), path)
}

pub fn can_read_env(packages: &[Package], package: usize, name: &str) -> (allowed: bool)
    ensures
        allowed == spec_can_read_env(packages@, package as int, name@),
{
    if package >= packages.len() {
        return false;
    }
    permission_allows_name(&packages[package].comptime_permissions.env, name)
}

/// A permission query in compile-time code: a call of
/// `comptime.permissions.fs.canRead` (`true`) or `comptime.permissions.env.canRead`
/// (`false`) on one string literal, with that literal.
pub open spec fn permission_query(expr: Expr) -> Option<(bool, Seq<char>)> {
    match expr.kind {
        ExprKind::Call { callee, args } => if args@.len() == 1 {
            match args@[0].kind {
                ExprKind::String(value) => if spec_expression_path(*callee) == Some(
                    "comptime.permissions.fs.canRead"@,
                ) {
                    Some((true, value@))
                } else if spec_expression_path(*callee) == Some("comptime.permissions.env.canRead"@) {
                    Some((false, value@))
                } else {
                    None
                },
                _ => None,
            }
        } else {
            None
        },
        _ => None,
    }
}

/// The answer to a permission query, for compile-time code of package `package`.
pub open spec fn spec_permission_value(expr: Expr, packages: Seq<Package>, package: int) -> Option<bool> {
    match permission_query(expr) {
        Some((true, path)) => Some(spec_can_read_fs(packages, package, path)),
        Some((false, name)) => Some(spec_can_read_env(packages, package, name)),
        None => None,
    }
}

/// Answers a permission query (see `permission_query`) for package `package`;
/// `None` where `expr` is no such query.
pub fn comptime_permission_value(expr: &Expr, package: usize, packages: &[Package]) -> (value: Option<bool>)
    ensures
        value == spec_permission_value(*expr, packages@, package as int),
{
    let (callee, args) = match &expr.kind {
        ExprKind::Call { callee, args } => (callee, args),
        _ => return None,
    };
    if args.len() != 1 {
        return None;
    }
    let value = match &args[0].kind {
        ExprKind::String(value) => value,
        _ => return None,
    };
    let path = match expression_path(callee) {
        Some(path) => path,
        None => return None,
    };
    if string_is(&path, "comptime.permissions.fs.canRead") {
        Some(can_read_fs(packages, package, value.as_str()))
    } else if string_is(&path, "comptime.permissions.env.canRead") {
        Some(can_read_env(packages, package, value.as_str()))
    } else {
        None
    }
}

} // verus!
