use vstd::prelude::*;

use crate::diagnostic::{Diagnostic, Severity};
use crate::project::rewrite::{find_pair, lookup_pair};
use crate::span::Span;
use crate::text::string_is;

verus! {

/// Where an import leads, before its file is looked up: next to the
/// importing module, or into a package's source directory at a module path
/// (empty for the package's `lib` module); or why it cannot be followed.
#[derive(Debug)]
pub enum ImportRoute {
    Relative,
    Package { package: usize, target_path: String },
    Refused(Diagnostic),
}

/// The first `/` at or after `from`.
pub open spec fn first_slash(path: Seq<char>, from: int) -> Option<int>
    decreases path.len() - from,
{
    if from < 0 || from >= path.len() {
        None
    } else if path[from] == '/' {
        Some(from)
    } else {
        first_slash(path, from + 1)
    }
}

/// The package name that an import path starts with, and the module path
/// after the first `/` (empty where there is none).
pub open spec fn import_parts(path: Seq<char>) -> (Seq<char>, Seq<char>) {
    match first_slash(path, 0) {
        Some(i) => (path.take(i), path.skip(i + 1)),
        None => (path, seq![]),
    }
}

pub open spec fn no_std_message() -> Seq<char> {
    "`std` is unavailable because this package has `noStd: true`"@
}

pub open spec fn std_missing_message() -> Seq<char> {
    "standard library package is not configured"@
}

pub open spec fn unknown_dependency_message(name: Seq<char>) -> Seq<char> {
    "unknown package dependency `"@ + name + "`"@
}

/// Where an import leads (see `ImportRoute`): a path that starts with `.` is
/// relative; `std` leads to the standard library unless the package has
/// `noStd` or no standard library is configured; any other first part must
/// be one of the package's dependencies.
pub open spec fn spec_route(
    path: Seq<char>,
    span: Span,
    no_std: bool,
    std_package: Option<usize>,
    dependencies: Seq<(String, usize)>,
) -> ImportRouteView {
    if path.len() > 0 && path[0] == '.' {
        ImportRouteView::Relative
    } else {
        let (name, target_path) = import_parts(path);
        if name == "std"@ {
            if no_std {
                ImportRouteView::Refused(span, no_std_message())
            } else {
                match std_package {
                    Some(p) => ImportRouteView::Package(p, target_path),
                    None => ImportRouteView::Refused(span, std_missing_message()),
                }
            }
        } else {
            match lookup_pair(dependencies, name) {
                Some(p) => ImportRouteView::Package(p, target_path),
                None => ImportRouteView::Refused(span, unknown_dependency_message(name)),
            }
        }
    }
}

/// `first_slash` finds the first `/` at or after `from`: before it there is
/// none, and where it finds none, there is none from `from` on.
pub proof fn lemma_first_slash(path: Seq<char>, from: int)
    requires
        0 <= from,
    ensures
        first_slash(path, from) matches Some(i) ==> from <= i < path.len() && path[i] == '/' && forall|
            k: int,
        |
            from <= k < i ==> path[k] != '/',
        first_slash(path, from) is None ==> forall|k: int| from <= k < path.len() ==> path[k] != '/',
    decreases path.len() - from,
{
    if from < path.len() && path[from] != '/' {
        lemma_first_slash(path, from + 1);
    }
}

/// A package route leads to what follows the first `/` of the import path:
/// the path is a package name without `/`, then `/` and the target path, or
/// the name alone with an empty target path (the package's `lib` module); the
/// package is the standard library's for `std`, and otherwise a dependency of
/// that name.
pub proof fn law_package_route_target(
    path: Seq<char>,
    span: Span,
    no_std: bool,
    std_package: Option<usize>,
    dependencies: Seq<(String, usize)>,
    route: ImportRoute,
)
    requires
        route_view(route) == spec_route(path, span, no_std, std_package, dependencies),
    ensures
        route matches ImportRoute::Package { package, target_path } ==> exists|name: Seq<char>|
            #![trigger name.len()]
            {
                &&& forall|k: int| 0 <= k < name.len() ==> name[k] != '/'
                &&& path == name + seq!['/'] + target_path@ || (path == name && target_path@.len() == 0)
                &&& if name == "std"@ {
                    std_package == Some(package)
                } else {
                    exists|j: int|
                        0 <= j < dependencies.len() && (#[trigger] dependencies[j]).0@ == name
                            && dependencies[j].1 == package
                }
            },
{
    if let ImportRoute::Package { package, target_path } = route {
        lemma_first_slash(path, 0);
        let (name, rest) = import_parts(path);
        assert(rest == target_path@);
        match first_slash(path, 0) {
            Some(i) => {
                assert(path =~= name + seq!['/'] + rest);
            },
            None => {
                assert(name == path);
            },
        }
        if name != "std"@ {
            lemma_lookup_pair_found(dependencies, name);
        }
    }
}

/// What `lookup_pair` finds is the value of an entry with that key.
pub proof fn lemma_lookup_pair_found(map: Seq<(String, usize)>, key: Seq<char>)
    ensures
        lookup_pair(map, key) matches Some(v) ==> exists|j: int|
            0 <= j < map.len() && (#[trigger] map[j]).0@ == key && map[j].1 == v,
    decreases map.len(),
{
    if map.len() > 0 && map[0].0@ != key {
        lemma_lookup_pair_found(map.drop_first(), key);
        if let Some(v) = lookup_pair(map, key) {
            let j = choose|j: int| 0 <= j < map.drop_first().len() && (#[trigger] map.drop_first()[j]).0@ == key
                && map.drop_first()[j].1 == v;
            assert(map[j + 1] == map.drop_first()[j]);
        }
    }
}

/// An import route by its parts; a refusal is an error at a span with a message.
pub enum ImportRouteView {
    Relative,
    Package(usize, Seq<char>),
    Refused(Span, Seq<char>),
}

pub open spec fn route_view(route: ImportRoute) -> ImportRouteView {
    match route {
        ImportRoute::Relative => ImportRouteView::Relative,
        ImportRoute::Package { package, target_path } => ImportRouteView::Package(package, target_path@),
        ImportRoute::Refused(d) => if d.severity == Severity::Error {
            ImportRouteView::Refused(d.span, d.message@)
        } else {
            ImportRouteView::Relative
        },
    }
}

/// Decides where the import `import_path` of a package leads (see
/// `spec_route`), given whether the package has `noStd`, the standard
/// library's package, and the package's dependencies by name.
pub fn route_import(
    import_path: &str,
    span: Span,
    no_std: bool,
    std_package: Option<usize>,
    dependencies: &Vec<(String, usize)>,
) -> (route: ImportRoute)
    ensures
        route matches ImportRoute::Refused(d) ==> d.severity == Severity::Error,
        route_view(route) == spec_route(import_path@, span, no_std, std_package, dependencies@),
{
    let n = import_path.unicode_len();
    if n > 0 && import_path.get_char(0) == '.' {
        return ImportRoute::Relative;
    }
    let mut i: usize = 0;
    while i < n
        invariant
            i <= n,
            n == import_path@.len(),
            first_slash(import_path@, 0) == first_slash(import_path@, i as int),
        ensures
            i <= n,
            first_slash(import_path@, 0) == first_slash(import_path@, i as int),
            i < n ==> import_path@[i as int] == '/',
        decreases n - i,
    {
        if import_path.get_char(i) == '/' {
            break;
        }
        i = i + 1;
    }
    let (name, target_path) = if i < n {
        (import_path.substring_char(0, i), import_path.substring_char(i + 1, n))
    } else {
        (import_path.substring_char(0, n), import_path.substring_char(n, n))
    };
    proof {
        if i < n {
            assert(first_slash(import_path@, i as int) == Some(i as int));
            assert(import_path@.subrange(0, i as int) =~= import_path@.take(i as int));
            assert(import_path@.subrange(i + 1, n as int) =~= import_path@.skip(i + 1));
        } else {
            assert(import_path@.subrange(0, n as int) =~= import_path@);
            assert(import_path@.subrange(n as int, n as int) =~= Seq::<char>::empty());
        }
    }
    let name = String::from_str(name);
    if string_is(&name, "std") {
        if no_std {
            return ImportRoute::Refused(
                Diagnostic::error(span, String::from_str("`std` is unavailable because this package has `noStd: true`")),
            );
        }
        return match std_package {
            Some(p) => ImportRoute::Package { package: p, target_path: String::from_str(target_path) },
            None => ImportRoute::Refused(
                Diagnostic::error(span, String::from_str("standard library package is not configured")),
            ),
        };
    }
    match find_pair(dependencies, name.as_str()) {
        Some(p) => ImportRoute::Package { package: *p, target_path: String::from_str(target_path) },
        None => {
            let mut message = String::from_str("unknown package dependency `");
            message.append(name.as_str());
            message.append("`");
            ImportRoute::Refused(Diagnostic::error(span, message))
        },
    }
}

} // verus!
