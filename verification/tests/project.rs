use gustc::ast::Program;
use gustc::diagnostic::{Diagnostic, Severity};
use gustc::project::link::{hex_string, qualified_extension_name, qualified_name, stable_name_hash};
use gustc::project::paths::{path_segments_of, relative_source_path};
use gustc::project::spans::shift_diagnostic;
use gustc::project::{ProjectCompileResult, ProjectOptions, ProjectSources, SourceFile};
use gustc::span::Span;

fn file(path: &str, display: Option<&str>, source: &str, offset: usize) -> SourceFile {
    SourceFile {
        path: path.to_string(),
        display_path: display.map(|d| d.to_string()),
        source: source.to_string(),
        offset,
    }
}

fn sources() -> ProjectSources {
    ProjectSources::new(
        vec![
            file("/work/app/src/main.gs", None, "fn main() {\n  run()\n}\n", 0),
            file("/work/app/src/util.gs", Some("std/util.gs"), "let a = 1\nlet b = 2\n", 25),
        ],
        "/work/app".to_string(),
    )
}

#[test]
fn render_points_into_the_right_file() {
    let sources = sources();
    let diagnostic = Diagnostic::error(Span::new(14, 17), "unknown function `run`".to_string());
    assert_eq!(sources.render(&diagnostic), "/work/app/src/main.gs:2:3: error: unknown function `run`");
    let warning = Diagnostic { severity: Severity::Warning, span: Span::new(39, 40), message: "unused".to_string() };
    assert_eq!(sources.render(&warning), "std/util.gs:2:5: warning: unused");
}

#[test]
fn shifted_diagnostic_renders_at_its_local_position() {
    let sources = sources();
    let local = Diagnostic::error(Span::new(4, 5), "bad name".to_string());
    let shifted = shift_diagnostic(local, 25);
    assert_eq!(sources.render(&shifted), "std/util.gs:1:5: error: bad name");
}

#[test]
fn lowering_files_use_display_or_relative_paths() {
    let files = sources().to_lowering_source_files();
    assert_eq!(files.len(), 2);
    assert_eq!(files[0].path, "src/main.gs");
    assert_eq!(files[0].offset, 0);
    assert_eq!(files[1].path, "std/util.gs");
    assert_eq!(files[1].source, "let a = 1\nlet b = 2\n");
    assert_eq!(files[1].offset, 25);
}

#[test]
fn has_errors_ignores_warnings() {
    let warning = Diagnostic { severity: Severity::Warning, span: Span::new(0, 1), message: "w".to_string() };
    let mut result = ProjectCompileResult {
        program: Program { items: Vec::new() },
        diagnostics: vec![warning],
        sources: sources(),
    };
    assert!(!result.has_errors());
    result.diagnostics.push(Diagnostic::error(Span::new(0, 1), "e".to_string()));
    assert!(result.has_errors());
}

#[test]
fn default_options_use_std() {
    let options = ProjectOptions::default();
    assert!(options.std_path.is_none());
    assert!(!options.no_std);
}

#[test]
fn stable_name_hash_is_fnv1a() {
    assert_eq!(stable_name_hash(""), 0x811c9dc5);
    assert_eq!(stable_name_hash("a"), 0xe40c292c);
    assert_eq!(stable_name_hash("foobar"), 0xbf9cf968);
}

#[test]
fn hex_string_pads_to_width() {
    assert_eq!(hex_string(255, 8), "000000ff");
    assert_eq!(hex_string(0xdeadbeef, 8), "deadbeef");
    assert_eq!(hex_string(0x1234, 2), "34");
}

#[test]
fn qualified_names_carry_the_module_hash() {
    assert_eq!(qualified_name("", "main"), "module_811c9dc5::main");
    assert_eq!(qualified_extension_name("a", "len"), "module_extension_e40c292c::len");
}

#[test]
fn path_segments_skip_empty_and_dot_parts() {
    assert_eq!(path_segments_of("/a//b/./c/"), vec!["a", "b", "c"]);
    assert!(path_segments_of("").is_empty());
}

#[test]
fn relative_path_inside_root_is_the_rest() {
    assert_eq!(relative_source_path("/p/root", "/p/root/src/a.gs"), "src/a.gs");
    assert_eq!(relative_source_path("/p/root/", "/p/root/./src//a.gs"), "src/a.gs");
    assert_eq!(relative_source_path("/p/root", "/p/root"), "");
}

#[test]
fn relative_path_outside_root_climbs_up() {
    assert_eq!(relative_source_path("/p/root", "/p/lib/b.gs"), "../lib/b.gs");
    assert_eq!(relative_source_path("/a/b", "/x/y.gs"), "../../x/y.gs");
    assert_eq!(relative_source_path("/p/root", "/p"), "..");
}
