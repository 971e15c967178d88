use densleaf::diagnostic::Diagnostic;
use densleaf::lexer::lex;
use densleaf::parser::parse;
use densleaf::semantic::analyze;

fn diagnostics(source: &str) -> Vec<Diagnostic> {
    let lexed = lex(source, "test.dl");
    assert!(lexed.diagnostics.is_empty());
    let parsed = parse(lexed.tokens);
    assert!(parsed.diagnostics.is_empty(), "{:?}", parsed.diagnostics);
    analyze(&parsed.program)
}

fn messages(source: &str) -> Vec<String> {
    diagnostics(source).into_iter().map(|d| d.message).collect()
}

#[test]
fn catches_duplicate_models_and_fields() {
    let errors = diagnostics("model User { name: string name: string } model User { id: id }");
    assert!(errors.iter().any(|d| d.message.contains("duplicate model")));
    assert!(errors.iter().any(|d| d.message.contains("duplicate field")));
}

#[test]
fn catches_duplicate_controllers_methods_and_parameters() {
    let errors = diagnostics(
        "controller Api { show(id, id) { return true } show() { return false } } controller Api {}",
    );
    assert!(errors.iter().any(|d| d.message.contains("duplicate controller `Api`")));
    assert!(errors.iter().any(|d| d.message.contains("duplicate controller method")));
    assert!(errors.iter().any(|d| d.message.contains("duplicate parameter")));
}

#[test]
fn catches_cross_kind_top_level_name_collisions() {
    let errors = diagnostics("model User { id: id } controller User {}");
    assert!(errors.iter().any(|d| d.message.contains("duplicate top-level declaration")));
}

#[test]
fn catches_unknown_types() {
    let errors = diagnostics("model User { age: number }");
    assert_eq!(errors.len(), 1);
    assert!(errors[0].message.contains("unknown type `number`"));
}

#[test]
fn accepts_declared_models_as_types_even_when_declared_later() {
    let errors = diagnostics(
        "model Post { author: User } controller Api { show(user: User) { return user } } model User { id: id }",
    );
    assert!(errors.is_empty(), "{errors:?}");
}

#[test]
fn resolves_parameters_locals_and_top_level_symbols() {
    let errors = diagnostics(
        r#"controller Api {
            show(id) {
                let selected = id
                let found = User.find(selected)
                return found
            }
        }
        model User { id: id }"#,
    );
    assert!(errors.is_empty(), "{errors:?}");
}

#[test]
fn catches_unknown_names_duplicate_locals_and_object_keys() {
    let errors = diagnostics(
        r#"controller Api {
            show(id) {
                let selected = id
                let selected = missing
                return { value: selected, value: null }
            }
        }"#,
    );
    assert!(errors.iter().any(|d| d.message.contains("unknown name `missing`")));
    assert!(errors.iter().any(|d| d.message.contains("duplicate local binding")));
    assert!(errors.iter().any(|d| d.message.contains("duplicate object key")));
}

#[test]
fn duplicate_top_level_names_report_the_first_declaration() {
    let errors = diagnostics("model User { id: id }\nmodel User { id: id }\nevent User { id: id }");
    assert_eq!(errors.len(), 2);
    assert_eq!(errors[0].message, "duplicate model `User`");
    assert_eq!(errors[0].note.as_deref(), Some("`User` was already declared as a model at test.dl:1:7"));
    assert_eq!((errors[0].span.start.line, errors[0].span.start.column), (2, 7));
    assert_eq!(errors[1].message, "duplicate top-level declaration `User`");
    assert_eq!(errors[1].note.as_deref(), Some("`User` was already declared as a model at test.dl:1:7"));
}

#[test]
fn duplicate_fields_and_methods_point_at_the_latest_earlier_one() {
    let errors = diagnostics("event Ping { at: int at: int at: int }");
    assert_eq!(messages("event Ping { at: int at: int at: int }"), vec![
        "duplicate field `at` on event",
        "duplicate field `at` on event",
    ]);
    assert_eq!(errors[0].note.as_deref(), Some("`at` is already declared on `Ping` at test.dl:1:14"));
    assert_eq!(errors[1].note.as_deref(), Some("`at` is already declared on `Ping` at test.dl:1:22"));
    let errors = diagnostics("mail M { subject() {} body() {} body() {} }");
    assert_eq!(errors.len(), 1);
    assert_eq!(errors[0].message, "duplicate mail method `body`");
    assert_eq!(errors[0].note.as_deref(), Some("`body` is already declared on `M` at test.dl:1:23"));
}

#[test]
fn parameter_and_binding_notes_name_their_place() {
    let errors = diagnostics("controller C { show(a, b, a) { let b = a return b } }");
    assert_eq!(errors.len(), 2);
    assert_eq!(errors[0].message, "duplicate parameter `a`");
    assert_eq!(errors[0].note.as_deref(), Some("`a` was already declared in method `show` at test.dl:1:21"));
    assert_eq!(errors[1].message, "duplicate local binding `b`");
    assert_eq!(errors[1].note.as_deref(), Some("`b` is already bound at test.dl:1:24"));
}

#[test]
fn a_let_initializer_cannot_see_its_own_name() {
    let errors = diagnostics("controller C { show() { let x = x return x } }");
    assert_eq!(errors.len(), 1);
    assert_eq!(errors[0].message, "unknown name `x`");
    assert_eq!(
        errors[0].help.as_deref(),
        Some("declare the name with `let`, add it as a parameter, or reference a declared top-level symbol")
    );
    assert_eq!((errors[0].span.start.line, errors[0].span.start.column), (1, 33));
}

#[test]
fn names_are_checked_everywhere_except_after_a_dot() {
    let errors = messages("controller C { show() { return [a, { k: b }, -c, (d), e(f)[g] + h.i] } }");
    assert_eq!(errors, vec![
        "unknown name `a`",
        "unknown name `b`",
        "unknown name `c`",
        "unknown name `d`",
        "unknown name `e`",
        "unknown name `f`",
        "unknown name `g`",
        "unknown name `h`",
    ]);
}

#[test]
fn object_keys_are_compared_within_one_literal() {
    let errors = diagnostics("controller C { show() { return [{ a: 1, a: 2 }, { a: 3 }] } }");
    assert_eq!(errors.len(), 1);
    assert_eq!(errors[0].message, "duplicate object key `a`");
    assert_eq!(errors[0].note.as_deref(), Some("`a` was already defined at test.dl:1:35"));
}

#[test]
fn builtin_model_and_event_types_are_known() {
    assert!(diagnostics("model A { a: id b: int c: bool d: string e: E } event E { a: A }").is_empty());
    let errors = diagnostics("controller C { show(x: Thing, y) { return y } }");
    assert_eq!(errors.len(), 1);
    assert_eq!(errors[0].message, "unknown type `Thing`");
    assert_eq!(
        errors[0].help.as_deref(),
        Some("use a built-in type (id, int, bool, string), declared model, or declared event type")
    );
}

#[test]
fn middleware_and_migration_require_their_entry_points() {
    let errors = diagnostics("middleware Auth { check() {} } migration Users { down() {} }");
    assert_eq!(errors.len(), 2);
    assert_eq!(errors[0].message, "middleware `Auth` must define `handle`");
    assert_eq!(errors[0].help.as_deref(), Some("add `handle(request) { ... }` as the middleware entry point"));
    assert_eq!(errors[1].message, "migration `Users` must define `up`");
    assert_eq!(errors[1].help.as_deref(), Some("add `up() { ... }` to describe the forward migration"));
    assert!(diagnostics("middleware Auth { handle(request) {} } migration Users { up() {} }").is_empty());
}

#[test]
fn policies_must_target_models() {
    let errors = diagnostics("event E { id: id } policy P for E { view() { return true } }");
    assert_eq!(errors.len(), 1);
    assert_eq!(errors[0].message, "policy `P` targets unknown model `E`");
    assert_eq!(errors[0].help.as_deref(), Some("the name after `for` must refer to a declared model"));
    assert_eq!((errors[0].span.start.line, errors[0].span.start.column), (1, 33));
}

#[test]
fn listeners_must_listen_to_events_and_handle_them() {
    let errors = messages("model M { id: id } listener L listens M { handle(event: M) {} }");
    assert_eq!(errors, vec!["listener `L` listens to unknown event `M`"]);
    let errors = diagnostics("event E { id: id } listener L listens E { other() {} }");
    assert_eq!(errors.len(), 1);
    assert_eq!(errors[0].message, "listener `L` must define `handle`");
    assert_eq!(errors[0].help.as_deref(), Some("add `handle(event) { ... }` as the listener entry point"));
    let errors = diagnostics("event E { id: id } listener L listens E { handle() {} }");
    assert_eq!(errors.len(), 1);
    assert_eq!(errors[0].message, "listener `L` handle method must accept the event");
    assert_eq!(errors[0].help.as_deref(), Some("add a first parameter such as `event: E`"));
    let errors = diagnostics("model M { id: id } event E { id: id } listener L listens E { handle(x: M) {} }");
    assert_eq!(errors.len(), 1);
    assert_eq!(errors[0].message, "listener `L` handles `E`, not `M`");
    assert_eq!(errors[0].help.as_deref(), Some("type the first handle parameter as `E` or leave it inferred"));
    assert!(diagnostics("event E { id: id } listener L listens E { handle(e) { return e } }").is_empty());
}

#[test]
fn only_the_first_handle_method_is_checked() {
    let errors = messages("event E { id: id } listener L listens E { handle(e: E) {} handle() {} }");
    assert_eq!(errors, vec!["duplicate listener method `handle`"]);
}

#[test]
fn notifications_and_mails_require_their_methods() {
    let errors = diagnostics("notification N {} mail W {}");
    let texts: Vec<(&str, Option<&str>)> =
        errors.iter().map(|d| (d.message.as_str(), d.help.as_deref())).collect();
    assert_eq!(texts, vec![
        ("notification `N` must define `channels`", Some("add `channels() { return [...] }` to declare delivery channels")),
        ("notification `N` must define `message`", Some("add `message(...) { ... }` to define notification content")),
        ("mail `W` must define `subject`", Some("add `subject() { ... }` to define the mail subject")),
        ("mail `W` must define `body`", Some("add `body(...) { ... }` to define the mail body")),
    ]);
}

#[test]
fn the_readme_messaging_example_is_clean() {
    let errors = diagnostics(
        r#"
        model User { id: id }
        event UserCreated {
            user: User
        }

        listener SendWelcomeMail listens UserCreated {
            handle(event: UserCreated) {
                return event
            }
        }

        notification WelcomeNotification {
            channels() { return ["mail"] }
            message(user: User) { return "Welcome" }
        }

        mail WelcomeMail {
            subject() { return "Welcome" }
            body(user: User) { return "Hello" }
        }
        "#,
    );
    assert!(errors.is_empty(), "{errors:?}");
}

#[test]
fn global_duplicates_come_before_declaration_checks() {
    let errors = messages("model A { x: nope } model A { id: id }");
    assert_eq!(errors, vec!["duplicate model `A`", "unknown type `nope`"]);
}

#[test]
fn distinct_top_level_names_give_no_duplicate_reports() {
    let errors = messages("model A { id: id } model B { id: id } event C { a: A }");
    assert!(errors.is_empty(), "{errors:?}");
    let errors = messages("model A { id: id } event A { id: id } mail A { subject() {} body() {} }");
    assert_eq!(errors, vec![
        "duplicate top-level declaration `A`",
        "duplicate top-level declaration `A`",
    ]);
}

#[test]
fn every_semantic_report_is_an_error() {
    let errors = diagnostics(
        "model A { x: nope x: int } model A { id: id } controller C { s(a, a) { let b = z let b = 1 return { k: 1, k: 2 } } } middleware M {} listener L listens A {}",
    );
    assert!(errors.len() >= 8);
    assert!(errors.iter().all(|d| d.severity == densleaf::diagnostic::Severity::Error));
}
