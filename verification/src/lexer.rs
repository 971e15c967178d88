use vstd::prelude::*;
use crate::diagnostic::{Diagnostic, DiagnosticView};
use crate::diagnostic::next_newline;
use crate::token::{Position, Span, Token, TokenKind};
use crate::text::{
    chars_of, chars_equal_str, char_len_utf8, is_alpha, is_alpha_char, is_digit,
    is_digit_char, is_whitespace, is_whitespace_char, lemma_utf8_len_prefix, lemma_utf8_len_push,
    owned, push_char, push_str, string_from_chars, utf8_len, byte_len, lemma_utf8_len_ge_len,
};

verus! {

// ---------------------------------------------------------------------------
// Positions in the source
// ---------------------------------------------------------------------------

/// Byte offset of the character at index `i` of `s`.
pub open spec fn offset_at(s: Seq<char>, i: int) -> int {
    utf8_len(s.take(i)) as int
}

/// 1-based line of the character at index `i`: one more than the number of
/// `\n` before it.
pub open spec fn line_at(s: Seq<char>, i: int) -> int
    decreases i,
{
    if i <= 0 {
        1
    } else if s[i - 1] == '\n' {
        line_at(s, i - 1) + 1
    } else {
        line_at(s, i - 1)
    }
}

/// 1-based column of the character at index `i`: characters since the last
/// `\n`, plus one.
pub open spec fn column_at(s: Seq<char>, i: int) -> int
    decreases i,
{
    if i <= 0 {
        1
    } else if s[i - 1] == '\n' {
        1
    } else {
        column_at(s, i - 1) + 1
    }
}

/// The position of the character at index `i` of `s`.
pub open spec fn pos_at(s: Seq<char>, i: int) -> Position {
    Position {
        offset: offset_at(s, i) as usize,
        line: line_at(s, i) as usize,
        column: column_at(s, i) as usize,
    }
}

/// `span` covers characters `a..b` of `s` in the file named `file`.
pub open spec fn span_is(span: Span, s: Seq<char>, file: Seq<char>, a: int, b: int) -> bool {
    &&& span.file@ == file
    &&& span.start == pos_at(s, a)
    &&& span.end == pos_at(s, b)
}

pub proof fn lemma_line_column_bounds(s: Seq<char>, i: int)
    requires
        0 <= i,
    ensures
        1 <= line_at(s, i) <= i + 1,
        1 <= column_at(s, i) <= i + 1,
    decreases i,
{
    if i > 0 {
        lemma_line_column_bounds(s, i - 1);
    }
}

// ---------------------------------------------------------------------------
// Character classes
// ---------------------------------------------------------------------------

pub open spec fn is_identifier_start_char(c: char) -> bool {
    is_alpha_char(c) || c == '_'
}

pub open spec fn is_identifier_continue_char(c: char) -> bool {
    is_alpha_char(c) || is_digit_char(c) || c == '_'
}

fn is_identifier_start(c: char) -> (b: bool)
    ensures
        b == is_identifier_start_char(c),
{
    is_alpha(c) || c == '_'
}

fn is_identifier_continue(c: char) -> (b: bool)
    ensures
        b == is_identifier_continue_char(c),
{
    is_alpha(c) || is_digit(c) || c == '_'
}

// ---------------------------------------------------------------------------
// The lexical grammar
// ---------------------------------------------------------------------------

/// What a token carries: a kind without text, or the text or value of an
/// identifier, string literal or integer literal.
pub enum Lexeme {
    Fixed(TokenKind),
    Ident(Seq<char>),
    Str(Seq<char>),
    Int(i64),
}

/// `kind` is the token kind that `l` describes.
pub open spec fn kind_is(kind: TokenKind, l: Lexeme) -> bool {
    match l {
        Lexeme::Fixed(k) => kind == k,
        Lexeme::Ident(t) => kind matches TokenKind::Identifier(n) && n@ == t,
        Lexeme::Str(t) => kind matches TokenKind::StringLiteral(n) && n@ == t,
        Lexeme::Int(v) => kind == TokenKind::IntegerLiteral(v),
    }
}

/// One step of the lexer at index `i`.
pub enum Step {
    /// Whitespace or a comment up to the given index.
    Skip(int),
    /// A token that ends at the given index.
    Tok(Lexeme, int),
    /// An error with message and help text, covering the text up to the index.
    Diag(Seq<char>, Seq<char>, int),
}

/// End of the run of whitespace that starts at `j`.
pub open spec fn whitespace_end(s: Seq<char>, j: int) -> int
    decreases s.len() - j,
{
    if j < s.len() && is_whitespace_char(s[j]) {
        whitespace_end(s, j + 1)
    } else {
        j
    }
}

/// End of the run of ASCII digits that starts at `j`.
pub open spec fn digits_end(s: Seq<char>, j: int) -> int
    decreases s.len() - j,
{
    if j < s.len() && is_digit_char(s[j]) {
        digits_end(s, j + 1)
    } else {
        j
    }
}

/// End of the run of identifier characters that starts at `j`.
pub open spec fn identifier_end(s: Seq<char>, j: int) -> int
    decreases s.len() - j,
{
    if j < s.len() && is_identifier_continue_char(s[j]) {
        identifier_end(s, j + 1)
    } else {
        j
    }
}

pub open spec fn digit_value(c: char) -> nat {
    ((c as u32) - ('0' as u32)) as nat
}

/// The value of a sequence of decimal digits.
pub open spec fn digits_value(t: Seq<char>) -> nat
    decreases t.len(),
{
    if t.len() == 0 {
        0
    } else {
        10 * digits_value(t.drop_last()) + digit_value(t.last())
    }
}

/// The character that an escape `\c` stands for inside a string literal.
pub open spec fn escaped(c: char) -> char {
    if c == 'n' {
        '\n'
    } else if c == 'r' {
        '\r'
    } else if c == 't' {
        '\t'
    } else {
        c
    }
}

/// Scans the body of a string literal from index `k`, with `value` read so
/// far: the index where the literal ends, its value, and whether a closing
/// quote ended it.
pub open spec fn scan_string(s: Seq<char>, k: int, value: Seq<char>) -> (int, Seq<char>, bool)
    decreases s.len() - k,
{
    if k < 0 || k >= s.len() {
        (k, value, false)
    } else if s[k] == '"' {
        (k + 1, value, true)
    } else if s[k] == '\n' {
        (k, value, false)
    } else if s[k] == '\\' {
        if k + 1 >= s.len() {
            (k + 1, value, false)
        } else {
            scan_string(s, k + 2, value.push(escaped(s[k + 1])))
        }
    } else {
        scan_string(s, k + 1, value.push(s[k]))
    }
}

/// The kind of a word: a keyword, or else an identifier.
pub open spec fn word_lexeme(t: Seq<char>) -> Lexeme {
    if t == "model"@ {
        Lexeme::Fixed(TokenKind::Model)
    } else if t == "controller"@ {
        Lexeme::Fixed(TokenKind::Controller)
    } else if t == "middleware"@ {
        Lexeme::Fixed(TokenKind::Middleware)
    } else if t == "migration"@ {
        Lexeme::Fixed(TokenKind::Migration)
    } else if t == "policy"@ {
        Lexeme::Fixed(TokenKind::Policy)
    } else if t == "for"@ {
        Lexeme::Fixed(TokenKind::For)
    } else if t == "event"@ {
        Lexeme::Fixed(TokenKind::Event)
    } else if t == "listener"@ {
        Lexeme::Fixed(TokenKind::Listener)
    } else if t == "listens"@ {
        Lexeme::Fixed(TokenKind::Listens)
    } else if t == "notification"@ {
        Lexeme::Fixed(TokenKind::Notification)
    } else if t == "mail"@ {
        Lexeme::Fixed(TokenKind::Mail)
    } else if t == "let"@ {
        Lexeme::Fixed(TokenKind::Let)
    } else if t == "return"@ {
        Lexeme::Fixed(TokenKind::Return)
    } else if t == "null"@ {
        Lexeme::Fixed(TokenKind::Null)
    } else if t == "true"@ {
        Lexeme::Fixed(TokenKind::True)
    } else if t == "false"@ {
        Lexeme::Fixed(TokenKind::False)
    } else {
        Lexeme::Ident(t)
    }
}

/// The kind of a one-character punctuation token.
pub open spec fn single_kind(c: char) -> Option<TokenKind> {
    if c == '{' {
        Some(TokenKind::LeftBrace)
    } else if c == '}' {
        Some(TokenKind::RightBrace)
    } else if c == '(' {
        Some(TokenKind::LeftParen)
    } else if c == ')' {
        Some(TokenKind::RightParen)
    } else if c == '[' {
        Some(TokenKind::LeftBracket)
    } else if c == ']' {
        Some(TokenKind::RightBracket)
    } else if c == ':' {
        Some(TokenKind::Colon)
    } else if c == ',' {
        Some(TokenKind::Comma)
    } else if c == '.' {
        Some(TokenKind::Dot)
    } else if c == '+' {
        Some(TokenKind::Plus)
    } else if c == '-' {
        Some(TokenKind::Minus)
    } else if c == '*' {
        Some(TokenKind::Star)
    } else if c == '/' {
        Some(TokenKind::Slash)
    } else if c == '%' {
        Some(TokenKind::Percent)
    } else {
        None
    }
}

/// The kinds of an operator that is one character, or two when followed by `=`.
pub open spec fn compare_kinds(c: char) -> Option<(TokenKind, TokenKind)> {
    if c == '=' {
        Some((TokenKind::Equal, TokenKind::EqualEqual))
    } else if c == '!' {
        Some((TokenKind::Bang, TokenKind::BangEqual))
    } else if c == '<' {
        Some((TokenKind::Less, TokenKind::LessEqual))
    } else if c == '>' {
        Some((TokenKind::Greater, TokenKind::GreaterEqual))
    } else {
        None
    }
}

/// The character at `j`, if there is one.
pub open spec fn char_at(s: Seq<char>, j: int) -> Option<char> {
    if 0 <= j < s.len() {
        Some(s[j])
    } else {
        None
    }
}

/// What the lexer does at index `i` (where `i < s.len()`).
pub open spec fn step(s: Seq<char>, i: int) -> Step {
    let c = s[i];
    if is_whitespace_char(c) {
        Step::Skip(whitespace_end(s, i))
    } else if c == '/' && char_at(s, i + 1) == Some('/') {
        Step::Skip(next_newline(s, i + 2))
    } else if single_kind(c) is Some {
        Step::Tok(Lexeme::Fixed(single_kind(c)->0), i + 1)
    } else if compare_kinds(c) is Some {
        let (one, two) = compare_kinds(c)->0;
        if char_at(s, i + 1) == Some('=') {
            Step::Tok(Lexeme::Fixed(two), i + 2)
        } else {
            Step::Tok(Lexeme::Fixed(one), i + 1)
        }
    } else if c == '&' {
        if char_at(s, i + 1) == Some('&') {
            Step::Tok(Lexeme::Fixed(TokenKind::AndAnd), i + 2)
        } else {
            Step::Diag(
                "expected a second `&`"@,
                "Densleaf uses `&&` for this logical operator"@,
                i + 1,
            )
        }
    } else if c == '|' {
        if char_at(s, i + 1) == Some('|') {
            Step::Tok(Lexeme::Fixed(TokenKind::OrOr), i + 2)
        } else {
            Step::Diag(
                "expected a second `|`"@,
                "Densleaf uses `||` for this logical operator"@,
                i + 1,
            )
        }
    } else if c == '"' {
        let (end, value, terminated) = scan_string(s, i + 1, Seq::empty());
        if terminated {
            Step::Tok(Lexeme::Str(value), end)
        } else {
            Step::Diag(
                "unterminated string literal"@,
                "close the string with `\"` before the end of the line"@,
                end,
            )
        }
    } else if is_digit_char(c) {
        let end = digits_end(s, i);
        let value = digits_value(s.subrange(i, end));
        if value <= i64::MAX {
            Step::Tok(Lexeme::Int(value as i64), end)
        } else {
            Step::Diag(
                "integer literal is outside the supported range"@,
                "use an integer no larger than 9223372036854775807"@,
                end,
            )
        }
    } else if is_identifier_start_char(c) {
        let end = identifier_end(s, i + 1);
        Step::Tok(word_lexeme(s.subrange(i, end)), end)
    } else {
        Step::Diag(
            "invalid character `"@ + seq![c] + "`"@,
            "remove the character or replace it with valid Densleaf syntax"@,
            i + 1,
        )
    }
}

/// The index after a step.
pub open spec fn step_end(st: Step) -> int {
    match st {
        Step::Skip(n) => n,
        Step::Tok(_, n) => n,
        Step::Diag(_, _, n) => n,
    }
}

proof fn lemma_whitespace_end(s: Seq<char>, j: int)
    requires
        0 <= j <= s.len(),
    ensures
        j <= whitespace_end(s, j) <= s.len(),
    decreases s.len() - j,
{
    if j < s.len() && is_whitespace_char(s[j]) {
        lemma_whitespace_end(s, j + 1);
    }
}

proof fn lemma_digits_end(s: Seq<char>, j: int)
    requires
        0 <= j <= s.len(),
    ensures
        j <= digits_end(s, j) <= s.len(),
    decreases s.len() - j,
{
    if j < s.len() && is_digit_char(s[j]) {
        lemma_digits_end(s, j + 1);
    }
}

proof fn lemma_identifier_end(s: Seq<char>, j: int)
    requires
        0 <= j <= s.len(),
    ensures
        j <= identifier_end(s, j) <= s.len(),
    decreases s.len() - j,
{
    if j < s.len() && is_identifier_continue_char(s[j]) {
        lemma_identifier_end(s, j + 1);
    }
}

proof fn lemma_scan_string(s: Seq<char>, k: int, value: Seq<char>)
    requires
        0 <= k <= s.len(),
    ensures
        k <= scan_string(s, k, value).0 <= s.len(),
    decreases s.len() - k,
{
    if k < s.len() && s[k] != '"' && s[k] != '\n' {
        if s[k] == '\\' {
            if k + 1 < s.len() {
                lemma_scan_string(s, k + 2, value.push(escaped(s[k + 1])));
            }
        } else {
            lemma_scan_string(s, k + 1, value.push(s[k]));
        }
    }
}

/// Every step moves forward and stays within the source.
pub proof fn lemma_step_progress(s: Seq<char>, i: int)
    requires
        0 <= i < s.len(),
    ensures
        i < step_end(step(s, i)) <= s.len(),
{
    let c = s[i];
    if is_whitespace_char(c) {
        lemma_whitespace_end(s, i);
        assert(whitespace_end(s, i) == whitespace_end(s, i + 1));
        lemma_whitespace_end(s, i + 1);
    } else if c == '/' && char_at(s, i + 1) == Some('/') {
        crate::diagnostic::lemma_next_newline_bounds(s, i + 2);
    } else if c == '"' {
        lemma_scan_string(s, i + 1, Seq::empty());
    } else if is_digit_char(c) {
        lemma_digits_end(s, i + 1);
        assert(digits_end(s, i) == digits_end(s, i + 1));
    } else if is_identifier_start_char(c) {
        lemma_identifier_end(s, i + 1);
    }
}

/// A token as the lexical grammar describes it: what it carries and the
/// indices of the characters it covers.
pub struct LexToken {
    pub lexeme: Lexeme,
    pub start: int,
    pub end: int,
}

/// A lexer diagnostic: message, help, and the indices it covers.
pub struct LexDiag {
    pub message: Seq<char>,
    pub help: Seq<char>,
    pub start: int,
    pub end: int,
}

/// The tokens and diagnostics that lexing `s` from index `i` produces.
pub open spec fn lex_from(s: Seq<char>, i: int) -> (Seq<LexToken>, Seq<LexDiag>)
    decreases s.len() - i,
{
    if i < 0 || i >= s.len() {
        (
            seq![LexToken { lexeme: Lexeme::Fixed(TokenKind::Eof), start: s.len() as int, end: s.len() as int }],
            Seq::empty(),
        )
    } else {
        let st = step(s, i);
        proof {
            lemma_step_progress(s, i);
        }
        let rest = lex_from(s, step_end(st));
        match st {
            Step::Skip(_) => rest,
            Step::Tok(l, n) => (seq![LexToken { lexeme: l, start: i, end: n }] + rest.0, rest.1),
            Step::Diag(m, h, n) => (rest.0, seq![LexDiag { message: m, help: h, start: i, end: n }] + rest.1),
        }
    }
}

/// The tokens and diagnostics of the whole source `s`.
pub open spec fn lex_spec(s: Seq<char>) -> (Seq<LexToken>, Seq<LexDiag>) {
    lex_from(s, 0)
}

/// The lexeme of the end-of-file token.
pub open spec fn eof_lexeme() -> Lexeme {
    Lexeme::Fixed(TokenKind::Eof)
}

/// No step of the lexer produces an end-of-file token.
proof fn lemma_step_not_eof(s: Seq<char>, i: int)
    requires
        0 <= i < s.len(),
    ensures
        step(s, i) matches Step::Tok(l, _) ==> l != eof_lexeme(),
{
}

proof fn lemma_lex_from_shape(s: Seq<char>, i: int)
    requires
        0 <= i <= s.len(),
    ensures
        ({
            let (ts, ds) = lex_from(s, i);
            &&& ts.len() >= 1
            &&& ts.last() == (LexToken { lexeme: eof_lexeme(), start: s.len() as int, end: s.len() as int })
            &&& forall|k: int| 0 <= k < ts.len() - 1 ==> (#[trigger] ts[k]).lexeme != eof_lexeme()
            &&& forall|k: int| 0 <= k < ts.len() - 1 ==> (#[trigger] ts[k]).start < ts[k].end
            &&& forall|k: int| 0 <= k < ts.len() ==> i <= (#[trigger] ts[k]).start <= ts[k].end <= s.len()
            &&& forall|k: int, l: int| 0 <= k < l < ts.len() ==> (#[trigger] ts[k]).end <= (#[trigger] ts[l]).start
            &&& forall|k: int| 0 <= k < ds.len() ==> i <= (#[trigger] ds[k]).start <= ds[k].end <= s.len()
            &&& forall|k: int, l: int| 0 <= k < l < ds.len() ==> (#[trigger] ds[k]).end <= (#[trigger] ds[l]).start
        }),
    decreases s.len() - i,
{
    if i < s.len() {
        let st = step(s, i);
        lemma_step_progress(s, i);
        lemma_step_not_eof(s, i);
        lemma_lex_from_shape(s, step_end(st));
        let rest = lex_from(s, step_end(st));
        match st {
            Step::Skip(_) => {},
            Step::Tok(l, n) => {
                let head = seq![LexToken { lexeme: l, start: i, end: n }];
                assert((head + rest.0).last() == rest.0.last());
                assert forall|k: int| 0 <= k < (head + rest.0).len() - 1 implies (#[trigger] (head + rest.0)[k]).lexeme != eof_lexeme() by {
                    if k > 0 {
                        assert((head + rest.0)[k] == rest.0[k - 1]);
                    }
                }
                assert forall|k: int| 0 <= k < (head + rest.0).len() - 1 implies (#[trigger] (head + rest.0)[k]).start < (head + rest.0)[k].end by {
                    if k > 0 {
                        assert((head + rest.0)[k] == rest.0[k - 1]);
                    }
                }
                assert forall|k: int, m: int| 0 <= k < m < (head + rest.0).len() implies (#[trigger] (head + rest.0)[k]).end <= (#[trigger] (head + rest.0)[m]).start by {
                    assert((head + rest.0)[m] == rest.0[m - 1]);
                    if k > 0 {
                        assert((head + rest.0)[k] == rest.0[k - 1]);
                    }
                }
                assert forall|k: int| 0 <= k < (head + rest.0).len() implies i <= (#[trigger] (head + rest.0)[k]).start <= (head + rest.0)[k].end <= s.len() by {
                    if k > 0 {
                        assert((head + rest.0)[k] == rest.0[k - 1]);
                    }
                }
            },
            Step::Diag(msg, h, n) => {
                let head = seq![LexDiag { message: msg, help: h, start: i, end: n }];
                assert forall|k: int, m: int| 0 <= k < m < (head + rest.1).len() implies (#[trigger] (head + rest.1)[k]).end <= (#[trigger] (head + rest.1)[m]).start by {
                    assert((head + rest.1)[m] == rest.1[m - 1]);
                    if k > 0 {
                        assert((head + rest.1)[k] == rest.1[k - 1]);
                    }
                }
                assert forall|k: int| 0 <= k < (head + rest.1).len() implies i <= (#[trigger] (head + rest.1)[k]).start <= (head + rest.1)[k].end <= s.len() by {
                    if k > 0 {
                        assert((head + rest.1)[k] == rest.1[k - 1]);
                    }
                }
            },
        }
    }
}

/// Lexing ends with exactly one end-of-file token, which covers the empty
/// text at the end of the source; every other token covers at least one
/// character, every token and every diagnostic covers text of the source,
/// and they come in source order without overlapping.
pub proof fn lex_tokens_are_ordered_and_end_with_eof(s: Seq<char>)
    ensures
        ({
            let (ts, ds) = lex_spec(s);
            &&& ts.len() >= 1
            &&& ts.last() == (LexToken { lexeme: eof_lexeme(), start: s.len() as int, end: s.len() as int })
            &&& forall|k: int| 0 <= k < ts.len() - 1 ==> (#[trigger] ts[k]).lexeme != eof_lexeme()
            &&& forall|k: int| 0 <= k < ts.len() - 1 ==> (#[trigger] ts[k]).start < ts[k].end
            &&& forall|k: int| 0 <= k < ts.len() ==> 0 <= (#[trigger] ts[k]).start <= ts[k].end <= s.len()
            &&& forall|k: int, l: int| 0 <= k < l < ts.len() ==> (#[trigger] ts[k]).end <= (#[trigger] ts[l]).start
            &&& forall|k: int| 0 <= k < ds.len() ==> 0 <= (#[trigger] ds[k]).start <= ds[k].end <= s.len()
            &&& forall|k: int, l: int| 0 <= k < l < ds.len() ==> (#[trigger] ds[k]).end <= (#[trigger] ds[l]).start
        }),
{
    lemma_lex_from_shape(s, 0);
}

/// A character with Unicode's White_Space property (what `char::is_whitespace`
/// tests), listed one by one.
pub open spec fn white_space(c: char) -> bool {
    c == '\t' || c == '\n' || c == '\u{0B}' || c == '\u{0C}' || c == '\r' || c == ' ' || c == '\u{85}'
        || c == '\u{A0}' || c == '\u{1680}' || ('\u{2000}' <= c && c <= '\u{200A}') || c == '\u{2028}'
        || c == '\u{2029}' || c == '\u{202F}' || c == '\u{205F}' || c == '\u{3000}'
}

/// A character that may continue a word: an ASCII letter or digit, or `_`.
pub open spec fn ascii_word_char(c: char) -> bool {
    ('a' <= c && c <= 'z') || ('A' <= c && c <= 'Z') || ('0' <= c && c <= '9') || c == '_'
}

proof fn lemma_white_space_is_skipped(c: char)
    requires
        white_space(c),
    ensures
        is_whitespace_char(c),
{
}

proof fn lemma_word_chars(c: char)
    ensures
        is_identifier_continue_char(c) <==> ascii_word_char(c),
        is_identifier_start_char(c) <==> (ascii_word_char(c) && !('0' <= c && c <= '9')),
{
}

proof fn lemma_identifier_run(s: Seq<char>, j: int)
    requires
        0 <= j <= s.len(),
    ensures
        forall|m: int| j <= m < identifier_end(s, j) ==> is_identifier_continue_char(#[trigger] s[m]),
        identifier_end(s, j) < s.len() ==> !is_identifier_continue_char(s[identifier_end(s, j)]),
    decreases s.len() - j,
{
    if j < s.len() && is_identifier_continue_char(s[j]) {
        lemma_identifier_run(s, j + 1);
    }
}

/// What every token (but the end-of-file one) and every diagnostic produced
/// from index `i` on starts at, and what an identifier token covers.
proof fn lemma_lex_from_starts(s: Seq<char>, i: int)
    requires
        0 <= i <= s.len(),
    ensures
        ({
            let (ts, ds) = lex_from(s, i);
            &&& forall|k: int| 0 <= k < ts.len() - 1 ==> i <= (#[trigger] ts[k]).start < s.len() && !white_space(s[ts[k].start])
            &&& forall|k: int| 0 <= k < ds.len() ==> i <= (#[trigger] ds[k]).start < s.len() && !white_space(s[ds[k].start])
            &&& forall|k: int| 0 <= k < ts.len() && (#[trigger] ts[k]).lexeme is Ident ==> word_token(s, ts[k])
        }),
    decreases s.len() - i,
{
    lemma_lex_from_shape(s, i);
    if i < s.len() {
        let st = step(s, i);
        lemma_step_progress(s, i);
        lemma_lex_from_starts(s, step_end(st));
        let rest = lex_from(s, step_end(st));
        match st {
            Step::Skip(_) => {},
            Step::Tok(l, n) => {
                let head = seq![LexToken { lexeme: l, start: i, end: n }];
                let ts = head + rest.0;
                if !white_space(s[i]) {
                } else {
                    lemma_white_space_is_skipped(s[i]);
                }
                if l is Ident {
                    let end = identifier_end(s, i + 1);
                    lemma_identifier_end(s, i + 1);
                    lemma_identifier_run(s, i + 1);
                    lemma_word_chars(s[i]);
                    if end < s.len() {
                        lemma_word_chars(s[end]);
                    }
                    assert forall|m: int| i < m < n implies ascii_word_char(#[trigger] s[m]) by {
                        lemma_word_chars(s[m]);
                    }
                    assert(word_token(s, ts[0]));
                }
                assert forall|k: int| 0 <= k < ts.len() - 1 implies i <= (#[trigger] ts[k]).start < s.len() && !white_space(s[ts[k].start]) by {
                    if k > 0 {
                        assert(ts[k] == rest.0[k - 1]);
                    }
                }
                assert forall|k: int| 0 <= k < ts.len() && (#[trigger] ts[k]).lexeme is Ident implies word_token(s, ts[k]) by {
                    if k > 0 {
                        assert(ts[k] == rest.0[k - 1]);
                    }
                }
            },
            Step::Diag(msg, h, n) => {
                let head = seq![LexDiag { message: msg, help: h, start: i, end: n }];
                let ds = head + rest.1;
                if white_space(s[i]) {
                    lemma_white_space_is_skipped(s[i]);
                }
                assert forall|k: int| 0 <= k < ds.len() implies i <= (#[trigger] ds[k]).start < s.len() && !white_space(s[ds[k].start]) by {
                    if k > 0 {
                        assert(ds[k] == rest.1[k - 1]);
                    }
                }
            },
        }
    }
}

/// The token `t` of `s` is a whole word: its text is the characters it
/// covers, it starts with an ASCII letter or `_`, every other character is an
/// ASCII letter, digit or `_`, and the character after it (if any) is none of
/// these.
pub open spec fn word_token(s: Seq<char>, t: LexToken) -> bool {
    &&& 0 <= t.start < t.end <= s.len()
    &&& t.lexeme == Lexeme::Ident(s.subrange(t.start, t.end))
    &&& ascii_word_char(s[t.start]) && !('0' <= s[t.start] && s[t.start] <= '9')
    &&& forall|m: int| t.start < m < t.end ==> ascii_word_char(#[trigger] s[m])
    &&& t.end < s.len() ==> !ascii_word_char(s[t.end])
}

/// White space only separates: no token (but the final end-of-file one) and
/// no diagnostic starts at a White_Space character, so a tab, a newline or a
/// space between tokens is never reported nor part of a token's start.
pub proof fn white_space_starts_no_token_or_diagnostic(s: Seq<char>)
    ensures
        forall|k: int|
            0 <= k < lex_spec(s).0.len() - 1 ==> !white_space(s[(#[trigger] lex_spec(s).0[k]).start]),
        forall|k: int| 0 <= k < lex_spec(s).1.len() ==> !white_space(s[(#[trigger] lex_spec(s).1[k]).start]),
{
    lemma_lex_from_starts(s, 0);
}

/// A source made only of White_Space characters lexes to the end-of-file
/// token alone, with no diagnostic.
pub proof fn white_space_alone_lexes_to_end_of_file(s: Seq<char>)
    requires
        forall|j: int| 0 <= j < s.len() ==> white_space(#[trigger] s[j]),
    ensures
        lex_spec(s).0 == seq![LexToken { lexeme: eof_lexeme(), start: s.len() as int, end: s.len() as int }],
        lex_spec(s).1.len() == 0,
{
    lex_tokens_are_ordered_and_end_with_eof(s);
    lemma_lex_from_starts(s, 0);
    let (ts, ds) = lex_spec(s);
    if ds.len() > 0 {
        assert(!white_space(s[ds[0].start]));
    }
    if ts.len() > 1 {
        assert(!white_space(s[ts[0].start]));
    }
    assert(ts =~= seq![LexToken { lexeme: eof_lexeme(), start: s.len() as int, end: s.len() as int }]);
}

/// Every identifier token is a maximal word of the source: its text is
/// exactly the characters it covers, it starts with an ASCII letter or `_`,
/// continues with ASCII letters, digits and `_`, and is not followed by
/// another such character (so `user_id` is one token, never `user` and
/// `_id`).
pub proof fn identifiers_are_maximal_words(s: Seq<char>)
    ensures
        forall|k: int|
            0 <= k < lex_spec(s).0.len() && (#[trigger] lex_spec(s).0[k]).lexeme is Ident ==> word_token(
                s,
                lex_spec(s).0[k],
            ),
{
    lemma_lex_from_starts(s, 0);
}

/// Byte offsets grow with character indices, strictly.
proof fn lemma_offset_increases(s: Seq<char>, a: int, b: int)
    requires
        0 <= a <= b <= s.len(),
    ensures
        offset_at(s, a) + (b - a) <= offset_at(s, b) <= utf8_len(s),
{
    let t = s.take(b);
    assert(t.take(a) =~= s.take(a));
    crate::text::lemma_utf8_len_split(t, a);
    crate::text::lemma_utf8_len_ge_len(t.skip(a));
    lemma_utf8_len_prefix(s, b);
}

/// Each token the lexer returns lies in the lexed file; each token before the
/// final end-of-file token spans at least one byte, and ends no later than
/// the next token starts.
pub proof fn lexed_token_spans_are_nonempty_and_ordered(out: LexOutput, s: Seq<char>, file: Seq<char>)
    requires
        lex_output_is(out, s, file),
        utf8_len(s) <= usize::MAX,
    ensures
        forall|i: int| 0 <= i < out.tokens@.len() ==> (#[trigger] out.tokens@[i]).span.file@ == file,
        forall|i: int|
            0 <= i < out.tokens@.len() - 1 ==> (#[trigger] out.tokens@[i]).span.start.offset
                < out.tokens@[i].span.end.offset <= out.tokens@[i + 1].span.start.offset,
{
    let ts = out.tokens@;
    let ls = lex_spec(s).0;
    lex_tokens_are_ordered_and_end_with_eof(s);
    assert forall|i: int| 0 <= i < ts.len() implies (#[trigger] ts[i]).span.file@ == file by {
        assert(token_is(ts[i], ls[i], s, file));
    }
    assert forall|i: int| 0 <= i < ts.len() - 1 implies (#[trigger] ts[i]).span.start.offset < ts[i].span.end.offset
        <= ts[i + 1].span.start.offset by {
        assert(token_is(ts[i], ls[i], s, file));
        assert(token_is(ts[i + 1], ls[i + 1], s, file));
        let (a, b, c) = (ls[i].start, ls[i].end, ls[i + 1].start);
        lemma_offset_increases(s, a, b);
        lemma_offset_increases(s, b, c);
        lemma_offset_increases(s, c, s.len() as int);
    }
}

/// `t` is the token that `l` describes, in source `s` of file `file`.
pub open spec fn token_is(t: Token, l: LexToken, s: Seq<char>, file: Seq<char>) -> bool {
    &&& kind_is(t.kind, l.lexeme)
    &&& span_is(t.span, s, file, l.start, l.end)
}

/// `d` is the diagnostic that `l` describes.
pub open spec fn diag_is(d: DiagnosticView, l: LexDiag, s: Seq<char>, file: Seq<char>) -> bool {
    &&& d.severity == crate::diagnostic::Severity::Error
    &&& d.message == l.message
    &&& d.help == Some(l.help)
    &&& d.note is None
    &&& span_is(d.span, s, file, l.start, l.end)
}

pub open spec fn tokens_are(ts: Seq<Token>, ls: Seq<LexToken>, s: Seq<char>, file: Seq<char>) -> bool {
    &&& ts.len() == ls.len()
    &&& forall|k: int| 0 <= k < ts.len() ==> #[trigger] token_is(ts[k], ls[k], s, file)
}

pub open spec fn diags_are(ds: Seq<Diagnostic>, ls: Seq<LexDiag>, s: Seq<char>, file: Seq<char>) -> bool {
    &&& ds.len() == ls.len()
    &&& forall|k: int| 0 <= k < ds.len() ==> #[trigger] diag_is(ds[k]@, ls[k], s, file)
}

// ---------------------------------------------------------------------------
// The lexer
// ---------------------------------------------------------------------------

/// Tokens and diagnostics produced by lexing one source file.
#[derive(Debug, Clone)]
pub struct LexOutput {
    pub tokens: Vec<Token>,
    pub diagnostics: Vec<Diagnostic>,
}

/// `out` is what the lexical grammar gives for source `s` of file `file`.
pub open spec fn lex_output_is(out: LexOutput, s: Seq<char>, file: Seq<char>) -> bool {
    &&& tokens_are(out.tokens@, lex_spec(s).0, s, file)
    &&& diags_are(out.diagnostics@, lex_spec(s).1, s, file)
}

/// Splits `source` (of file `file`) into tokens, reporting lexical errors as
/// diagnostics. The token list always ends with an end-of-file token.
pub fn lex(source: &str, file: &str) -> (out: LexOutput)
    ensures
        lex_output_is(out, source@, file@),
        utf8_len(source@) <= isize::MAX,
{
    let chars = chars_of(source);
    let bytes_len = byte_len(source);
    proof {
        lemma_utf8_len_ge_len(chars@);
    }
    let mut lexer = Lexer {
        chars,
        file: owned(file),
        index: 0,
        offset: 0,
        line: 1,
        column: 1,
        tokens: Vec::new(),
        diagnostics: Vec::new(),
    };
    proof {
        assert(chars@.take(0) =~= Seq::<char>::empty());
        assert(utf8_len(Seq::<char>::empty()) == 0);
    }
    lexer.tokenize()
}

struct Lexer {
    chars: Vec<char>,
    file: String,
    index: usize,
    offset: usize,
    line: usize,
    column: usize,
    tokens: Vec<Token>,
    diagnostics: Vec<Diagnostic>,
}

impl Lexer {
    spec fn wf(&self) -> bool {
        &&& self.index <= self.chars@.len()
        &&& self.chars@.len() <= isize::MAX
        &&& utf8_len(self.chars@) <= usize::MAX
        &&& self.offset == offset_at(self.chars@, self.index as int)
        &&& self.line == line_at(self.chars@, self.index as int)
        &&& self.column == column_at(self.chars@, self.index as int)
    }

    /// The same source, file and output so far.
    spec fn same_output(&self, other: &Lexer) -> bool {
        &&& self.chars@ == other.chars@
        &&& self.file@ == other.file@
        &&& self.tokens@ == other.tokens@
        &&& self.diagnostics@ == other.diagnostics@
    }

    fn tokenize(self) -> (out: LexOutput)
        requires
            self.wf(),
            self.index == 0,
            self.tokens@.len() == 0,
            self.diagnostics@.len() == 0,
        ensures
            lex_output_is(out, self.chars@, self.file@),
    {
        let mut this = self;
        let ghost s = this.chars@;
        let ghost f = this.file@;
        let ghost tp: Seq<LexToken> = Seq::empty();
        let ghost dp: Seq<LexDiag> = Seq::empty();
        while this.index < this.chars.len()
            invariant
                this.wf(),
                this.chars@ == s,
                this.file@ == f,
                lex_spec(s).0 == tp + lex_from(s, this.index as int).0,
                lex_spec(s).1 == dp + lex_from(s, this.index as int).1,
                tokens_are(this.tokens@, tp, s, f),
                diags_are(this.diagnostics@, dp, s, f),
            decreases s.len() - this.index,
        {
            let ghost i = this.index as int;
            let ghost old_tokens = this.tokens@;
            let ghost old_diags = this.diagnostics@;
            proof {
                lemma_step_progress(s, i);
            }
            this.lex_step();
            proof {
                match step(s, i) {
                    Step::Skip(_) => {},
                    Step::Tok(l, n) => {
                        let lt = LexToken { lexeme: l, start: i, end: n };
                        assert(lex_from(s, i).0 == seq![lt] + lex_from(s, n).0);
                        assert(tp + lex_from(s, i).0 =~= tp.push(lt) + lex_from(s, n).0);
                        assert forall|k: int| 0 <= k < this.tokens@.len() implies #[trigger] token_is(
                            this.tokens@[k],
                            tp.push(lt)[k],
                            s,
                            f,
                        ) by {
                            if k < old_tokens.len() {
                                assert(this.tokens@[k] == old_tokens[k]);
                            }
                        }
                        tp = tp.push(lt);
                    },
                    Step::Diag(m, h, n) => {
                        let ld = LexDiag { message: m, help: h, start: i, end: n };
                        assert(lex_from(s, i).1 == seq![ld] + lex_from(s, n).1);
                        assert(dp + lex_from(s, i).1 =~= dp.push(ld) + lex_from(s, n).1);
                        assert forall|k: int| 0 <= k < this.diagnostics@.len() implies #[trigger] diag_is(
                            this.diagnostics@[k]@,
                            dp.push(ld)[k],
                            s,
                            f,
                        ) by {
                            if k < old_diags.len() {
                                assert(this.diagnostics@[k] == old_diags[k]);
                            }
                        }
                        dp = dp.push(ld);
                    },
                }
            }
        }
        let ghost old_tokens = this.tokens@;
        let position = this.position();
        let span = Span { file: this.file.clone(), start: position, end: position };
        this.tokens.push(Token::new(TokenKind::Eof, span));
        proof {
            let lt = LexToken { lexeme: Lexeme::Fixed(TokenKind::Eof), start: s.len() as int, end: s.len() as int };
            assert(lex_spec(s).0 =~= tp.push(lt));
            assert(lex_spec(s).1 =~= dp);
            assert forall|k: int| 0 <= k < this.tokens@.len() implies #[trigger] token_is(
                this.tokens@[k],
                tp.push(lt)[k],
                s,
                f,
            ) by {
                if k < old_tokens.len() {
                    assert(this.tokens@[k] == old_tokens[k]);
                }
            }
        }
        LexOutput { tokens: this.tokens, diagnostics: this.diagnostics }
    }

    fn peek(&self) -> (c: Option<char>)
        requires
            self.wf(),
        ensures
            c == char_at(self.chars@, self.index as int),
    {
        if self.index < self.chars.len() {
            Some(self.chars[self.index])
        } else {
            None
        }
    }

    fn peek_next(&self) -> (c: Option<char>)
        requires
            self.wf(),
        ensures
            c == char_at(self.chars@, self.index + 1),
    {
        if self.index + 1 < self.chars.len() {
            Some(self.chars[self.index + 1])
        } else {
            None
        }
    }

    fn advance(&mut self) -> (c: char)
        requires
            old(self).wf(),
            old(self).index < old(self).chars@.len(),
        ensures
            final(self).wf(),
            final(self).same_output(old(self)),
            final(self).index == old(self).index + 1,
            c == old(self).chars@[old(self).index as int],
    {
        let ghost s = self.chars@;
        let ghost i = self.index as int;
        let c = self.chars[self.index];
        proof {
            assert(s.take(i + 1) =~= s.take(i).push(s[i]));
            lemma_utf8_len_push(s.take(i), s[i]);
            lemma_utf8_len_prefix(s, i + 1);
            lemma_line_column_bounds(s, i);
        }
        self.offset = self.offset + char_len_utf8(c);
        self.index = self.index + 1;
        if c == '\n' {
            self.line = self.line + 1;
            self.column = 1;
        } else {
            self.column = self.column + 1;
        }
        c
    }

    fn position(&self) -> (p: Position)
        requires
            self.wf(),
        ensures
            p == pos_at(self.chars@, self.index as int),
    {
        Position::new(self.offset, self.line, self.column)
    }

    fn span_from(&self, start: Position, a: Ghost<int>) -> (span: Span)
        requires
            self.wf(),
            start == pos_at(self.chars@, a@),
        ensures
            span_is(span, self.chars@, self.file@, a@, self.index as int),
    {
        Span { file: self.file.clone(), start, end: self.position() }
    }

    /// Records a token of kind `kind` that started at index `a` (position `start`).
    fn push_token(&mut self, kind: TokenKind, start: Position, a: Ghost<int>)
        requires
            old(self).wf(),
            start == pos_at(old(self).chars@, a@),
        ensures
            final(self).wf(),
            final(self).index == old(self).index,
            final(self).chars@ == old(self).chars@,
            final(self).file@ == old(self).file@,
            final(self).diagnostics@ == old(self).diagnostics@,
            final(self).tokens@.len() == old(self).tokens@.len() + 1,
            final(self).tokens@.drop_last() == old(self).tokens@,
            final(self).tokens@.last().kind == kind,
            span_is(final(self).tokens@.last().span, old(self).chars@, old(self).file@, a@, old(self).index as int),
    {
        let span = self.span_from(start, a);
        self.tokens.push(Token::new(kind, span));
        assert(self.tokens@.drop_last() =~= old(self).tokens@);
    }

    /// Records an error with `message` and `help` over the text from index `a`.
    fn push_error(&mut self, message: String, help: &str, start: Position, a: Ghost<int>)
        requires
            old(self).wf(),
            start == pos_at(old(self).chars@, a@),
        ensures
            final(self).wf(),
            final(self).index == old(self).index,
            final(self).chars@ == old(self).chars@,
            final(self).file@ == old(self).file@,
            final(self).tokens@ == old(self).tokens@,
            final(self).diagnostics@.len() == old(self).diagnostics@.len() + 1,
            final(self).diagnostics@.drop_last() == old(self).diagnostics@,
            diag_is(
                final(self).diagnostics@.last()@,
                LexDiag { message: message@, help: help@, start: a@, end: old(self).index as int },
                old(self).chars@,
                old(self).file@,
            ),
    {
        let span = self.span_from(start, a);
        let d = Diagnostic::error_owned(message, span).with_help(help);
        self.diagnostics.push(d);
        assert(self.diagnostics@.drop_last() =~= old(self).diagnostics@);
    }

    /// Performs the lexer step at the current index.
    fn lex_step(&mut self)
        requires
            old(self).wf(),
            old(self).index < old(self).chars@.len(),
        ensures
            final(self).wf(),
            final(self).chars@ == old(self).chars@,
            final(self).file@ == old(self).file@,
            final(self).index == step_end(step(old(self).chars@, old(self).index as int)),
            match step(old(self).chars@, old(self).index as int) {
                Step::Skip(_) => final(self).tokens@ == old(self).tokens@
                    && final(self).diagnostics@ == old(self).diagnostics@,
                Step::Tok(l, n) => final(self).diagnostics@ == old(self).diagnostics@
                    && final(self).tokens@.len() == old(self).tokens@.len() + 1
                    && final(self).tokens@.drop_last() == old(self).tokens@
                    && token_is(
                        final(self).tokens@.last(),
                        LexToken { lexeme: l, start: old(self).index as int, end: n },
                        old(self).chars@,
                        old(self).file@,
                    ),
                Step::Diag(m, h, n) => final(self).tokens@ == old(self).tokens@
                    && final(self).diagnostics@.len() == old(self).diagnostics@.len() + 1
                    && final(self).diagnostics@.drop_last() == old(self).diagnostics@
                    && diag_is(
                        final(self).diagnostics@.last()@,
                        LexDiag { message: m, help: h, start: old(self).index as int, end: n },
                        old(self).chars@,
                        old(self).file@,
                    ),
            },
    {
        let ghost s = self.chars@;
        let ghost i = self.index as int;
        let start = self.position();
        let c = self.chars[self.index];
        if is_whitespace(c) {
            self.skip_whitespace();
            return;
        }
        if c == '/' && self.peek_next() == Some('/') {
            self.skip_comment();
            return;
        }
        match single_kind_of(c) {
            Some(kind) => {
                self.advance();
                self.push_token(kind, start, Ghost(i));
                return;
            },
            None => {},
        }
        match compare_kinds_of(c) {
            Some((one, two)) => {
                self.advance();
                if self.peek() == Some('=') {
                    self.advance();
                    self.push_token(two, start, Ghost(i));
                } else {
                    self.push_token(one, start, Ghost(i));
                }
                return;
            },
            None => {},
        }
        if c == '&' {
            self.advance();
            if self.peek() == Some('&') {
                self.advance();
                self.push_token(TokenKind::AndAnd, start, Ghost(i));
            } else {
                self.push_error(owned("expected a second `&`"), "Densleaf uses `&&` for this logical operator", start, Ghost(i));
            }
            return;
        }
        if c == '|' {
            self.advance();
            if self.peek() == Some('|') {
                self.advance();
                self.push_token(TokenKind::OrOr, start, Ghost(i));
            } else {
                self.push_error(owned("expected a second `|`"), "Densleaf uses `||` for this logical operator", start, Ghost(i));
            }
            return;
        }
        if c == '"' {
            self.lex_string(start);
            return;
        }
        if is_digit(c) {
            self.lex_integer(start);
            return;
        }
        if is_identifier_start(c) {
            self.lex_identifier(start);
            return;
        }
        self.advance();
        let mut message = owned("invalid character `");
        push_char(&mut message, c);
        push_str(&mut message, "`");
        assert(message@ =~= "invalid character `"@ + seq![c] + "`"@);
        self.push_error(message, "remove the character or replace it with valid Densleaf syntax", start, Ghost(i));
    }

    fn skip_whitespace(&mut self)
        requires
            old(self).wf(),
        ensures
            final(self).wf(),
            final(self).same_output(old(self)),
            final(self).index == whitespace_end(old(self).chars@, old(self).index as int),
    {
        let ghost s = self.chars@;
        let ghost i = self.index as int;
        while self.index < self.chars.len() && is_whitespace(self.chars[self.index])
            invariant
                self.wf(),
                self.same_output(old(self)),
                self.chars@ == s,
                i <= self.index,
                whitespace_end(s, i) == whitespace_end(s, self.index as int),
            decreases s.len() - self.index,
        {
            self.advance();
        }
    }

    fn skip_comment(&mut self)
        requires
            old(self).wf(),
            old(self).index + 1 < old(self).chars@.len(),
        ensures
            final(self).wf(),
            final(self).same_output(old(self)),
            final(self).index == next_newline(old(self).chars@, old(self).index + 2),
    {
        let ghost s = self.chars@;
        let ghost i = self.index as int;
        self.advance();
        self.advance();
        while self.index < self.chars.len() && self.chars[self.index] != '\n'
            invariant
                self.wf(),
                self.same_output(old(self)),
                self.chars@ == s,
                i + 2 <= self.index,
                next_newline(s, i + 2) == next_newline(s, self.index as int),
            decreases s.len() - self.index,
        {
            self.advance();
        }
    }

    fn lex_identifier(&mut self, start: Position)
        requires
            old(self).wf(),
            old(self).index < old(self).chars@.len(),
            is_identifier_start_char(old(self).chars@[old(self).index as int]),
            start == pos_at(old(self).chars@, old(self).index as int),
        ensures
            final(self).wf(),
            final(self).chars@ == old(self).chars@,
            final(self).file@ == old(self).file@,
            final(self).diagnostics@ == old(self).diagnostics@,
            ({
                let s = old(self).chars@;
                let i = old(self).index as int;
                let end = identifier_end(s, i + 1);
                &&& final(self).index == end
                &&& final(self).tokens@.len() == old(self).tokens@.len() + 1
                &&& final(self).tokens@.drop_last() == old(self).tokens@
                &&& token_is(
                    final(self).tokens@.last(),
                    LexToken { lexeme: word_lexeme(s.subrange(i, end)), start: i, end },
                    s,
                    old(self).file@,
                )
            }),
    {
        let ghost s = self.chars@;
        let a = self.index;
        self.advance();
        while self.index < self.chars.len() && is_identifier_continue(self.chars[self.index])
            invariant
                self.wf(),
                self.same_output(old(self)),
                self.chars@ == s,
                a < self.index,
                identifier_end(s, a + 1) == identifier_end(s, self.index as int),
            decreases s.len() - self.index,
        {
            self.advance();
        }
        let kind = word_kind(&self.chars, a, self.index);
        self.push_token(kind, start, Ghost(a as int));
    }

    fn lex_integer(&mut self, start: Position)
        requires
            old(self).wf(),
            old(self).index < old(self).chars@.len(),
            is_digit_char(old(self).chars@[old(self).index as int]),
            start == pos_at(old(self).chars@, old(self).index as int),
        ensures
            final(self).wf(),
            final(self).chars@ == old(self).chars@,
            final(self).file@ == old(self).file@,
            final(self).index == step_end(step(old(self).chars@, old(self).index as int)),
            ({
                let s = old(self).chars@;
                let i = old(self).index as int;
                let end = digits_end(s, i);
                let value = digits_value(s.subrange(i, end));
                if value <= i64::MAX {
                    &&& final(self).diagnostics@ == old(self).diagnostics@
                    &&& final(self).tokens@.len() == old(self).tokens@.len() + 1
                    &&& final(self).tokens@.drop_last() == old(self).tokens@
                    &&& token_is(
                        final(self).tokens@.last(),
                        LexToken { lexeme: Lexeme::Int(value as i64), start: i, end },
                        s,
                        old(self).file@,
                    )
                } else {
                    &&& final(self).tokens@ == old(self).tokens@
                    &&& final(self).diagnostics@.len() == old(self).diagnostics@.len() + 1
                    &&& final(self).diagnostics@.drop_last() == old(self).diagnostics@
                    &&& diag_is(
                        final(self).diagnostics@.last()@,
                        LexDiag {
                            message: "integer literal is outside the supported range"@,
                            help: "use an integer no larger than 9223372036854775807"@,
                            start: i,
                            end,
                        },
                        s,
                        old(self).file@,
                    )
                }
            }),
    {
        let ghost s = self.chars@;
        let a = self.index;
        while self.index < self.chars.len() && is_digit(self.chars[self.index])
            invariant
                self.wf(),
                self.same_output(old(self)),
                self.chars@ == s,
                a <= self.index,
                digits_end(s, a as int) == digits_end(s, self.index as int),
                forall|k: int| a <= k < self.index ==> is_digit_char(#[trigger] s[k]),
            decreases s.len() - self.index,
        {
            self.advance();
        }
        match digits_to_i64(&self.chars, a, self.index) {
            Some(value) => self.push_token(TokenKind::IntegerLiteral(value), start, Ghost(a as int)),
            None => self.push_error(
                owned("integer literal is outside the supported range"),
                "use an integer no larger than 9223372036854775807",
                start,
                Ghost(a as int),
            ),
        }
    }

    fn lex_string(&mut self, start: Position)
        requires
            old(self).wf(),
            old(self).index < old(self).chars@.len(),
            old(self).chars@[old(self).index as int] == '"',
            start == pos_at(old(self).chars@, old(self).index as int),
        ensures
            final(self).wf(),
            final(self).chars@ == old(self).chars@,
            final(self).file@ == old(self).file@,
            ({
                let s = old(self).chars@;
                let i = old(self).index as int;
                let (end, value, terminated) = scan_string(s, i + 1, Seq::empty());
                &&& final(self).index == end
                &&& if terminated {
                    &&& final(self).diagnostics@ == old(self).diagnostics@
                    &&& final(self).tokens@.len() == old(self).tokens@.len() + 1
                    &&& final(self).tokens@.drop_last() == old(self).tokens@
                    &&& token_is(
                        final(self).tokens@.last(),
                        LexToken { lexeme: Lexeme::Str(value), start: i, end },
                        s,
                        old(self).file@,
                    )
                } else {
                    &&& final(self).tokens@ == old(self).tokens@
                    &&& final(self).diagnostics@.len() == old(self).diagnostics@.len() + 1
                    &&& final(self).diagnostics@.drop_last() == old(self).diagnostics@
                    &&& diag_is(
                        final(self).diagnostics@.last()@,
                        LexDiag {
                            message: "unterminated string literal"@,
                            help: "close the string with `\"` before the end of the line"@,
                            start: i,
                            end,
                        },
                        s,
                        old(self).file@,
                    )
                }
            }),
    {
        let ghost s = self.chars@;
        let ghost i = self.index as int;
        self.advance();
        let mut value = String::new();
        let mut terminated = false;
        while self.index < self.chars.len()
            invariant_except_break
                self.wf(),
                self.same_output(old(self)),
                self.chars@ == s,
                i < self.index,
                !terminated,
                scan_string(s, i + 1, Seq::empty()) == scan_string(s, self.index as int, value@),
            ensures
                self.wf(),
                self.same_output(old(self)),
                self.chars@ == s,
                scan_string(s, i + 1, Seq::empty()) == (self.index as int, value@, terminated),
            decreases s.len() - self.index,
        {
            let ch = self.chars[self.index];
            if ch == '"' {
                self.advance();
                terminated = true;
                break;
            } else if ch == '\n' {
                break;
            } else if ch == '\\' {
                self.advance();
                match self.peek() {
                    Some(other) => {
                        self.advance();
                        push_char(&mut value, escape_char(other));
                    },
                    None => break,
                }
            } else {
                self.advance();
                push_char(&mut value, ch);
            }
        }
        if terminated {
            self.push_token(TokenKind::StringLiteral(value), start, Ghost(i));
        } else {
            self.push_error(
                owned("unterminated string literal"),
                "close the string with `\"` before the end of the line",
                start,
                Ghost(i),
            );
        }
    }
}

fn escape_char(c: char) -> (e: char)
    ensures
        e == escaped(c),
{
    if c == 'n' {
        '\n'
    } else if c == 'r' {
        '\r'
    } else if c == 't' {
        '\t'
    } else {
        c
    }
}

fn single_kind_of(c: char) -> (k: Option<TokenKind>)
    ensures
        k == single_kind(c),
{
    if c == '{' {
        Some(TokenKind::LeftBrace)
    } else if c == '}' {
        Some(TokenKind::RightBrace)
    } else if c == '(' {
        Some(TokenKind::LeftParen)
    } else if c == ')' {
        Some(TokenKind::RightParen)
    } else if c == '[' {
        Some(TokenKind::LeftBracket)
    } else if c == ']' {
        Some(TokenKind::RightBracket)
    } else if c == ':' {
        Some(TokenKind::Colon)
    } else if c == ',' {
        Some(TokenKind::Comma)
    } else if c == '.' {
        Some(TokenKind::Dot)
    } else if c == '+' {
        Some(TokenKind::Plus)
    } else if c == '-' {
        Some(TokenKind::Minus)
    } else if c == '*' {
        Some(TokenKind::Star)
    } else if c == '/' {
        Some(TokenKind::Slash)
    } else if c == '%' {
        Some(TokenKind::Percent)
    } else {
        None
    }
}

fn compare_kinds_of(c: char) -> (k: Option<(TokenKind, TokenKind)>)
    ensures
        k == compare_kinds(c),
{
    if c == '=' {
        Some((TokenKind::Equal, TokenKind::EqualEqual))
    } else if c == '!' {
        Some((TokenKind::Bang, TokenKind::BangEqual))
    } else if c == '<' {
        Some((TokenKind::Less, TokenKind::LessEqual))
    } else if c == '>' {
        Some((TokenKind::Greater, TokenKind::GreaterEqual))
    } else {
        None
    }
}

/// The token kind of the word `chars[a..b]`.
fn word_kind(chars: &Vec<char>, a: usize, b: usize) -> (k: TokenKind)
    requires
        a <= b <= chars@.len(),
    ensures
        kind_is(k, word_lexeme(chars@.subrange(a as int, b as int))),
{
    if chars_equal_str(chars, a, b, "model") {
        TokenKind::Model
    } else if chars_equal_str(chars, a, b, "controller") {
        TokenKind::Controller
    } else if chars_equal_str(chars, a, b, "middleware") {
        TokenKind::Middleware
    } else if chars_equal_str(chars, a, b, "migration") {
        TokenKind::Migration
    } else if chars_equal_str(chars, a, b, "policy") {
        TokenKind::Policy
    } else if chars_equal_str(chars, a, b, "for") {
        TokenKind::For
    } else if chars_equal_str(chars, a, b, "event") {
        TokenKind::Event
    } else if chars_equal_str(chars, a, b, "listener") {
        TokenKind::Listener
    } else if chars_equal_str(chars, a, b, "listens") {
        TokenKind::Listens
    } else if chars_equal_str(chars, a, b, "notification") {
        TokenKind::Notification
    } else if chars_equal_str(chars, a, b, "mail") {
        TokenKind::Mail
    } else if chars_equal_str(chars, a, b, "let") {
        TokenKind::Let
    } else if chars_equal_str(chars, a, b, "return") {
        TokenKind::Return
    } else if chars_equal_str(chars, a, b, "null") {
        TokenKind::Null
    } else if chars_equal_str(chars, a, b, "true") {
        TokenKind::True
    } else if chars_equal_str(chars, a, b, "false") {
        TokenKind::False
    } else {
        TokenKind::Identifier(string_from_chars(chars, a, b))
    }
}

/// The value of the digits `chars[a..b]`, if it fits in an `i64`.
fn digits_to_i64(chars: &Vec<char>, a: usize, b: usize) -> (r: Option<i64>)
    requires
        a <= b <= chars@.len(),
        forall|k: int| a <= k < b ==> is_digit_char(#[trigger] chars@[k]),
    ensures
        match r {
            Some(v) => digits_value(chars@.subrange(a as int, b as int)) <= i64::MAX
                && v == digits_value(chars@.subrange(a as int, b as int)),
            None => digits_value(chars@.subrange(a as int, b as int)) > i64::MAX,
        },
{
    let mut value: i64 = 0;
    let mut overflow = false;
    let mut k = a;
    assert(chars@.subrange(a as int, a as int).len() == 0);
    while k < b
        invariant
            a <= k <= b <= chars@.len(),
            forall|j: int| a <= j < b ==> is_digit_char(#[trigger] chars@[j]),
            value >= 0,
            !overflow ==> value == digits_value(chars@.subrange(a as int, k as int)),
            overflow ==> digits_value(chars@.subrange(a as int, k as int)) > i64::MAX,
        decreases b - k,
    {
        let c = chars[k];
        assert(is_digit_char(chars@[k as int]));
        let d = ((c as u32) - ('0' as u32)) as i64;
        assert(chars@.subrange(a as int, k + 1).drop_last() =~= chars@.subrange(a as int, k as int));
        assert(chars@.subrange(a as int, k + 1).last() == c);
        let ghost prev = digits_value(chars@.subrange(a as int, k as int));
        assert(digits_value(chars@.subrange(a as int, k + 1)) == 10 * prev + digit_value(c));
        if !overflow {
            if value > (i64::MAX - d) / 10 {
                assert(10 * value + d > i64::MAX) by (nonlinear_arith)
                    requires
                        value > (i64::MAX - d) / 10,
                        0 <= d <= 9,
                ;
                overflow = true;
            } else {
                assert(10 * value + d <= i64::MAX) by (nonlinear_arith)
                    requires
                        value <= (i64::MAX - d) / 10,
                        0 <= d <= 9,
                        value >= 0,
                ;
                value = value * 10 + d;
            }
        }
        k = k + 1;
    }
    if overflow {
        None
    } else {
        Some(value)
    }
}

} // verus!
