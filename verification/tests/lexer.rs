use densleaf::lexer::lex;
use densleaf::token::TokenKind;

fn kinds(source: &str) -> Vec<TokenKind> {
    lex(source, "test.dl")
        .tokens
        .into_iter()
        .map(|token| token.kind)
        .collect()
}

#[test]
fn lexes_keywords_identifiers_and_literals() {
    assert_eq!(
        kinds("model User controller Api let value = null return true false \"hello\" 42"),
        vec![
            TokenKind::Model,
            TokenKind::Identifier("User".into()),
            TokenKind::Controller,
            TokenKind::Identifier("Api".into()),
            TokenKind::Let,
            TokenKind::Identifier("value".into()),
            TokenKind::Equal,
            TokenKind::Null,
            TokenKind::Return,
            TokenKind::True,
            TokenKind::False,
            TokenKind::StringLiteral("hello".into()),
            TokenKind::IntegerLiteral(42),
            TokenKind::Eof,
        ]
    );
}

#[test]
fn lexes_punctuation_and_operators() {
    assert_eq!(
        kinds("{}()[]:,.= == != ! + - * / % < <= > >= && ||"),
        vec![
            TokenKind::LeftBrace,
            TokenKind::RightBrace,
            TokenKind::LeftParen,
            TokenKind::RightParen,
            TokenKind::LeftBracket,
            TokenKind::RightBracket,
            TokenKind::Colon,
            TokenKind::Comma,
            TokenKind::Dot,
            TokenKind::Equal,
            TokenKind::EqualEqual,
            TokenKind::BangEqual,
            TokenKind::Bang,
            TokenKind::Plus,
            TokenKind::Minus,
            TokenKind::Star,
            TokenKind::Slash,
            TokenKind::Percent,
            TokenKind::Less,
            TokenKind::LessEqual,
            TokenKind::Greater,
            TokenKind::GreaterEqual,
            TokenKind::AndAnd,
            TokenKind::OrOr,
            TokenKind::Eof,
        ]
    );
}

#[test]
fn tracks_source_spans_and_comments() {
    let output = lex("// comment\nmodel User {}", "app.dl");
    assert!(output.diagnostics.is_empty());
    let model = &output.tokens[0];
    assert_eq!(model.span.start.line, 2);
    assert_eq!(model.span.start.column, 1);
    assert_eq!(model.span.file, "app.dl");
}

#[test]
fn reports_invalid_characters() {
    let output = lex("model @", "app.dl");
    assert_eq!(output.diagnostics.len(), 1);
    assert!(output.diagnostics[0].message.contains("invalid character"));
}

#[test]
fn reports_incomplete_logical_operators() {
    let output = lex("true & false | true", "app.dl");
    assert_eq!(output.diagnostics.len(), 2);
    assert!(
        output
            .diagnostics
            .iter()
            .all(|diagnostic| diagnostic.message.contains("expected a second"))
    );
}

#[test]
fn reports_unterminated_strings() {
    let output = lex("return \"hello", "app.dl");
    assert_eq!(output.diagnostics.len(), 1);
    assert!(
        output.diagnostics[0]
            .message
            .contains("unterminated string")
    );
}

#[test]
fn lexes_application_declaration_keywords() {
    assert_eq!(
        kinds("middleware Auth migration CreateUsers policy UserPolicy for User"),
        vec![
            TokenKind::Middleware,
            TokenKind::Identifier("Auth".into()),
            TokenKind::Migration,
            TokenKind::Identifier("CreateUsers".into()),
            TokenKind::Policy,
            TokenKind::Identifier("UserPolicy".into()),
            TokenKind::For,
            TokenKind::Identifier("User".into()),
            TokenKind::Eof,
        ]
    );
}

#[test]
fn lexes_messaging_declaration_keywords() {
    assert_eq!(
        kinds(
            "event UserCreated listener SendMail listens UserCreated notification Welcome mail WelcomeMail"
        ),
        vec![
            TokenKind::Event,
            TokenKind::Identifier("UserCreated".into()),
            TokenKind::Listener,
            TokenKind::Identifier("SendMail".into()),
            TokenKind::Listens,
            TokenKind::Identifier("UserCreated".into()),
            TokenKind::Notification,
            TokenKind::Identifier("Welcome".into()),
            TokenKind::Mail,
            TokenKind::Identifier("WelcomeMail".into()),
            TokenKind::Eof,
        ]
    );
}

#[test]
fn tracks_byte_offsets_lines_and_columns_across_multibyte_text() {
    let output = lex("\"é\"\n  x", "a.dl");
    assert!(output.diagnostics.is_empty());
    assert_eq!(output.tokens[0].kind, TokenKind::StringLiteral("é".into()));
    assert_eq!(output.tokens[0].span.start.offset, 0);
    assert_eq!(output.tokens[0].span.end.offset, 4);
    assert_eq!(output.tokens[0].span.end.column, 4);
    let x = &output.tokens[1];
    assert_eq!(x.kind, TokenKind::Identifier("x".into()));
    assert_eq!(x.span.start.offset, 7);
    assert_eq!((x.span.start.line, x.span.start.column), (2, 3));
    let eof = &output.tokens[2];
    assert_eq!(eof.kind, TokenKind::Eof);
    assert_eq!(eof.span.start, eof.span.end);
    assert_eq!(eof.span.start.offset, 8);
}

#[test]
fn decodes_string_escapes() {
    let output = lex(r#""a\n\t\"\\\q""#, "a.dl");
    assert!(output.diagnostics.is_empty());
    assert_eq!(output.tokens[0].kind, TokenKind::StringLiteral("a\n\t\"\\q".into()));
}

#[test]
fn string_literals_stop_at_line_end() {
    let output = lex("\"abc\nx", "a.dl");
    assert_eq!(output.diagnostics.len(), 1);
    assert_eq!(output.diagnostics[0].span.end.offset, 4);
    assert_eq!(
        output.diagnostics[0].help.as_deref(),
        Some("close the string with `\"` before the end of the line")
    );
    assert_eq!(output.tokens[0].kind, TokenKind::Identifier("x".into()));
}

#[test]
fn integer_literals_beyond_i64_are_reported() {
    let output = lex("9223372036854775807 9223372036854775808", "a.dl");
    assert_eq!(output.tokens[0].kind, TokenKind::IntegerLiteral(i64::MAX));
    assert_eq!(output.tokens[1].kind, TokenKind::Eof);
    assert_eq!(output.diagnostics.len(), 1);
    assert_eq!(
        output.diagnostics[0].message,
        "integer literal is outside the supported range"
    );
}

#[test]
fn invalid_character_message_names_the_character() {
    let output = lex("€", "a.dl");
    assert_eq!(output.diagnostics[0].message, "invalid character `€`");
    assert_eq!(output.diagnostics[0].span.end.offset, 3);
    assert_eq!(output.tokens.len(), 1);
}

#[test]
fn empty_source_gives_only_end_of_file() {
    assert_eq!(kinds(""), vec![TokenKind::Eof]);
    assert_eq!(kinds("   // only a comment"), vec![TokenKind::Eof]);
}
