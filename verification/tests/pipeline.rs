use densleaf::ast::Declaration;
use densleaf::diagnostic::{render_all, Diagnostic};
use densleaf::lexer::lex;
use densleaf::parser::parse;
use densleaf::pipeline::check;
use densleaf::token::{Position, Span, TokenKind};

#[test]
fn check_stops_at_lexical_errors() {
    let errors = check("model User { name: @ }", "app.dl").unwrap_err();
    assert_eq!(errors.len(), 1);
    assert!(errors[0].message.contains("invalid character"));
}

#[test]
fn check_stops_at_syntax_errors_before_semantics() {
    let errors = check("model User { email: } model Post { id: nope }", "app.dl").unwrap_err();
    assert_eq!(errors[0].message, "expected a field type");
    assert!(errors.iter().all(|d| !d.message.contains("unknown type")));
}

#[test]
fn check_reports_semantic_errors_of_a_well_formed_program() {
    let errors = check("model User { id: nope }", "app.dl").unwrap_err();
    assert_eq!(errors.len(), 1);
    assert_eq!(errors[0].message, "unknown type `nope`");
    assert_eq!(errors[0].span.file, "app.dl");
}

#[test]
fn check_returns_the_program_when_nothing_objects() {
    let program = check("model User { id: id } controller Api { index() { return User } }", "app.dl").unwrap();
    assert_eq!(program.declarations.len(), 2);
    assert!(matches!(program.declarations[1], Declaration::Controller(_)));
}

#[test]
fn reports_join_renderings_with_blank_lines() {
    let span = |c| Span::new("a.dl", Position::new(c - 1, 1, c), Position::new(c, 1, c + 1));
    let first = Diagnostic::error("one", span(1));
    let second = Diagnostic::error("two", span(2));
    let source = "ab";
    let report = render_all(&vec![first.clone(), second.clone()], source);
    assert_eq!(report, format!("{}\n\n{}\n", first.render(source), second.render(source)));
    assert_eq!(render_all(&vec![], source), "");
}

#[test]
fn lexed_tokens_are_ordered_and_end_with_one_eof() {
    let source = "model é { x: \"y\" } @ 12 // done";
    let lexed = lex(source, "a.dl");
    let tokens = &lexed.tokens;
    assert_eq!(tokens.last().unwrap().kind, TokenKind::Eof);
    assert_eq!(tokens.iter().filter(|t| t.kind == TokenKind::Eof).count(), 1);
    assert_eq!(tokens.last().unwrap().span.start.offset, source.len());
    for pair in tokens.windows(2) {
        assert!(pair[0].span.start.offset < pair[0].span.end.offset);
        assert_eq!(pair[0].span.file, "a.dl");
        assert!(pair[0].span.end.offset <= pair[1].span.start.offset);
    }
    // `é` is not an identifier character and `@` is no token: both are reported.
    assert_eq!(lexed.diagnostics.len(), 2);
}

#[test]
fn any_lexer_output_parses_into_a_program() {
    for source in ["", "}}} ((", "model", "controller C { x( { ] }", "return 1 + model"] {
        let output = parse(lex(source, "a.dl").tokens);
        assert!(output.program.declarations.len() <= 1, "{source}");
    }
    let output = parse(lex("}} model A { id: id }", "a.dl").tokens);
    assert_eq!(output.diagnostics.len(), 2);
    assert_eq!(output.program.declarations.len(), 1);
}

#[test]
fn every_reported_error_points_into_the_checked_file() {
    let sources = [
        "model A { x: @ }",
        "model A { x: } controller { }",
        "model A { x: nope } model A { id: id } controller C { s(a, a) { let b = c return { k: 1, k: b } } }",
        "listener L listens Nothing { other() {} } policy P for Q {}",
    ];
    for source in sources {
        let errors = check(source, "app.dl").unwrap_err();
        assert!(!errors.is_empty());
        for error in &errors {
            assert_eq!(error.span.file, "app.dl");
            assert!(error.span.start.offset <= error.span.end.offset, "{source}");
            assert!(error.span.end.offset <= source.len(), "{source}");
        }
    }
}

#[test]
fn the_documented_examples_check_clean() {
    let source = r#"
model User {
    id: id
    name: string
    active: bool
}

controller UserController {
    index() {
        let score = (10 + 5) * 2
        let allowed = score >= 20 && !false

        let users = [
            { name: "Justin", active: allowed },
        ]

        return users[0].name
    }
}

middleware AuthMiddleware {
    handle(request) {
        return request
    }
}

migration CreateUsers {
    up() {}
    down() {}
}

policy UserPolicy for User {
    view(actor: User, target: User) {
        return true
    }
}

event UserCreated {
    user: User
}

listener SendWelcomeMail listens UserCreated {
    handle(event: UserCreated) {
        return event
    }
}

notification WelcomeNotification {
    channels() { return ["mail"] }
    message(user: User) { return "Welcome" }
}

mail WelcomeMail {
    subject() { return "Welcome" }
    body(user: User) { return "Hello" }
}
"#;
    let program = check(source, "app.dl").unwrap_or_else(|errors| panic!("{errors:?}"));
    assert_eq!(program.declarations.len(), 9);
}

#[test]
fn parsed_programs_clone_to_equal_values() {
    let output = parse(lex("model A { id: id } controller C { s(x: A) { let y = [x, { k: -x.f(1)[2] }] return (y) } }", "a.dl").tokens);
    let copy = output.clone();
    assert_eq!(copy.program, output.program);
    assert_eq!(copy.diagnostics, output.diagnostics);
}
