use wvr_render::source::{compose_source, fragment_path, locate_fragment};
use wvr_render::{parse_error_message, ShaderKind};

#[test]
fn diagnostic_points_at_column() {
    let source = "void main() {\n  gl_FragColor = vec4(1.0)\n}\n";
    let d = parse_error_message(
        "0:2(26): error: syntax error, unexpected '}'\nsecond line",
        ShaderKind::Fragment,
        "",
        source,
    )
    .unwrap();
    assert_eq!(d.line, 2);
    assert_eq!(d.column, 26);
    assert_eq!(d.code, "  gl_FragColor = vec4(1.0)");
    assert_eq!(d.message, " error syntax error, unexpected '}'");
    assert_eq!(
        d.render(),
        format!("  gl_FragColor = vec4(1.0)\n{}^\n error syntax error, unexpected '}}'\n", " ".repeat(26))
    );
}

#[test]
fn diagnostic_reads_the_right_shader() {
    let d = parse_error_message("0:1(3): bad", ShaderKind::Vertex, "first\r\nsecond", "other").unwrap();
    assert_eq!(d.code, "first");
    assert_eq!(d.message, " bad");
}

#[test]
fn unexpected_diagnostic_shape_is_rejected() {
    assert!(parse_error_message("linker failed", ShaderKind::Vertex, "x", "y").is_none());
    assert!(parse_error_message("0:x(3): bad", ShaderKind::Vertex, "x", "y").is_none());
    assert!(parse_error_message("0:1: bad", ShaderKind::Vertex, "x", "y").is_none());
    assert!(parse_error_message("0:0(1): bad", ShaderKind::Vertex, "x", "y").is_none());
    assert!(parse_error_message("0:5(1): bad", ShaderKind::Vertex, "x\ny\n", "y").is_none());
    assert!(parse_error_message("0:99999999999999999999999(1): bad", ShaderKind::Vertex, "x", "y").is_none());
}

#[test]
fn fragment_paths_use_host_separator() {
    assert_eq!(fragment_path("lib/noise.glsl", '\\'), "lib\\noise.glsl");
    assert_eq!(fragment_path("#std/header.glsl", '/'), "std/header.glsl");
}

#[test]
fn project_roots_are_searched_first() {
    let present = |root: usize, path: &String| root >= 1 && path == "a/b.glsl";
    let (root, fragment) = locate_fragment("a/b.glsl", '/', 3, &present).unwrap();
    assert_eq!(root, 1);
    assert!(fragment.watched);
    assert_eq!(fragment.path, "a/b.glsl");
}

#[test]
fn library_fragments_are_fixed() {
    let present = |_: usize, _: &String| true;
    let (root, fragment) = locate_fragment("#header.glsl", '/', 3, &present).unwrap();
    assert_eq!(root, 2);
    assert!(!fragment.watched);
    assert_eq!(fragment.path, "header.glsl");
}

#[test]
fn missing_fragment_is_not_found() {
    let absent = |_: usize, _: &String| false;
    assert!(locate_fragment("a.glsl", '/', 2, &absent).is_none());
}

#[test]
fn fragments_join_in_order() {
    let parts = vec!["#version 140\n".to_string(), "void main() {}\n".to_string()];
    assert_eq!(compose_source(&parts), "#version 140\nvoid main() {}\n");
}

#[test]
fn library_entry_without_roots_is_not_found() {
    let present = |_: usize, _: &String| true;
    assert!(locate_fragment("#header.glsl", '/', 0, &present).is_none());
}

#[test]
fn column_needs_closing_character() {
    assert!(parse_error_message("0:1(", ShaderKind::Vertex, "x", "y").is_none());
    let d = parse_error_message("0:1(7)", ShaderKind::Vertex, "x", "y").unwrap();
    assert_eq!((d.line, d.column), (1, 7));
    assert_eq!(d.message, "");
    assert_eq!(d.render(), "x\n       ^\n\n");
}
