use densleaf::diagnostic::{Diagnostic, Severity};
use densleaf::token::{Position, Span};

#[test]
fn renders_source_aware_diagnostics() {
    let span = Span::new("app.dl", Position::new(13, 2, 5), Position::new(17, 2, 9));
    let diagnostic =
        Diagnostic::error("duplicate field `name`", span).with_help("rename or remove the duplicate field");
    let rendered = diagnostic.render("model User {\n    name: string\n}");
    assert!(rendered.contains("app.dl:2:5"));
    assert!(rendered.contains("^^^^"));
    assert!(rendered.contains("help: rename or remove the duplicate field"));
}

#[test]
fn renders_the_exact_layout_with_help_and_note() {
    let span = Span::new("app.dl", Position::new(13, 2, 5), Position::new(17, 2, 9));
    let diagnostic = Diagnostic::error("duplicate field `name`", span)
        .with_help("rename it")
        .with_note("first declared above");
    let rendered = diagnostic.render("model User {\n    name: string\n}");
    assert_eq!(
        rendered,
        "error: duplicate field `name`\n\n --> app.dl:2:5\n  |\n2 |     name: string\n  |     ^^^^ duplicate field `name`\n\nhelp: rename it\n\nnote: first declared above"
    );
}

#[test]
fn constructors_set_only_their_own_parts() {
    let span = Span::new("a.dl", Position::new(0, 1, 1), Position::new(1, 1, 2));
    let plain = Diagnostic::error("oops", span.clone());
    assert_eq!(plain.severity, Severity::Error);
    assert_eq!(plain.message, "oops");
    assert_eq!(plain.span, span);
    assert_eq!(plain.help, None);
    assert_eq!(plain.note, None);
    let helped = plain.clone().with_help("try this");
    assert_eq!(helped.help.as_deref(), Some("try this"));
    assert_eq!(helped.note, None);
    assert_eq!(helped.message, "oops");
    let noted = plain.with_note("see there");
    assert_eq!(noted.note.as_deref(), Some("see there"));
    assert_eq!(noted.help, None);
}

#[test]
fn caret_is_at_least_one_wide_and_stops_at_the_line_end() {
    let empty = Span::new("a.dl", Position::new(4, 1, 5), Position::new(4, 1, 5));
    let rendered = Diagnostic::error("here", empty).render("abcdefgh");
    assert!(rendered.contains("|     ^ here"), "{rendered}");
    let long = Span::new("a.dl", Position::new(6, 1, 7), Position::new(40, 1, 41));
    let rendered = Diagnostic::error("tail", long).render("abcdefgh");
    assert!(rendered.contains("|       ^^ tail"), "{rendered}");
}

#[test]
fn a_line_past_the_source_renders_empty() {
    let span = Span::new("a.dl", Position::new(0, 9, 1), Position::new(1, 9, 2));
    let rendered = Diagnostic::error("gone", span).render("one line");
    assert!(rendered.contains("9 | \n"), "{rendered}");
}

#[test]
fn help_and_note_only_append_sections() {
    let span = Span::new("a.dl", Position::new(0, 1, 1), Position::new(3, 1, 4));
    let plain = Diagnostic::error("bad", span);
    let base = plain.render("abc");
    assert_eq!(plain.clone().with_help("h").render("abc"), format!("{base}\n\nhelp: h"));
    assert_eq!(plain.clone().with_note("n").render("abc"), format!("{base}\n\nnote: n"));
    assert_eq!(
        plain.with_note("n").with_help("h").render("abc"),
        format!("{base}\n\nhelp: h\n\nnote: n")
    );
}
