use gustc::diagnostic::Severity;
use gustc::project::imports::{route_import, ImportRoute};
use gustc::span::Span;

fn deps() -> Vec<(String, usize)> {
    vec![("json".to_string(), 3), ("http".to_string(), 5)]
}

#[test]
fn relative_import_stays_next_to_its_module() {
    let route = route_import("./util", Span::new(0, 1), false, Some(1), &deps());
    assert!(matches!(route, ImportRoute::Relative));
}

#[test]
fn std_import_leads_into_the_standard_library() {
    match route_import("std/collections/map", Span::new(0, 1), false, Some(1), &deps()) {
        ImportRoute::Package { package, target_path } => {
            assert_eq!(package, 1);
            assert_eq!(target_path, "collections/map");
        }
        other => panic!("unexpected route {other:?}"),
    }
}

#[test]
fn std_import_refused_under_no_std() {
    match route_import("std", Span::new(4, 9), true, Some(1), &deps()) {
        ImportRoute::Refused(d) => {
            assert_eq!(d.severity, Severity::Error);
            assert_eq!(d.span, Span::new(4, 9));
            assert_eq!(d.message, "`std` is unavailable because this package has `noStd: true`");
        }
        other => panic!("unexpected route {other:?}"),
    }
}

#[test]
fn std_import_without_a_standard_library() {
    match route_import("std/io", Span::new(0, 1), false, None, &deps()) {
        ImportRoute::Refused(d) => assert_eq!(d.message, "standard library package is not configured"),
        other => panic!("unexpected route {other:?}"),
    }
}

#[test]
fn dependency_import_without_module_path_is_the_lib_module() {
    match route_import("http", Span::new(0, 1), false, Some(1), &deps()) {
        ImportRoute::Package { package, target_path } => {
            assert_eq!(package, 5);
            assert_eq!(target_path, "");
        }
        other => panic!("unexpected route {other:?}"),
    }
}

#[test]
fn unknown_dependency_is_refused() {
    match route_import("yaml/parse", Span::new(2, 3), false, Some(1), &deps()) {
        ImportRoute::Refused(d) => assert_eq!(d.message, "unknown package dependency `yaml`"),
        other => panic!("unexpected route {other:?}"),
    }
}
