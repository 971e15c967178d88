use vstd::prelude::*;
use crate::ast::{
    BinaryOperator, ControllerMethod, Declaration, EntryV, ExprV, Expression, ModelField, ObjectEntry,
    Parameter, Program, Statement, StmtV, TypeReference, UnaryOperator, MethodV, FieldsV, MethodsV,
    TypeRefV, ParamV, FieldV,
    DeclV, expr_span, methods_view, LetStatement, ReturnStatement, ModelDefinition, EventDefinition,
    ControllerDefinition, MiddlewareDefinition, MigrationDefinition, PolicyDefinition,
    ListenerDefinition, NotificationDefinition, MailDefinition,
};
use crate::diagnostic::{Diagnostic, DiagnosticView, error_view, with_help_view, text_opt};
use crate::text::{owned, push_str};
use crate::token::{Span, Token, TokenKind};
use crate::lexer::{
    LexToken, Lexeme, Step, compare_kinds, lex_from, single_kind, step, step_end,
};
use crate::lexer::{LexOutput, eof_lexeme, lex_output_is, lex_spec, lex_tokens_are_ordered_and_end_with_eof, token_is};

verus! {

/// A number for each kind of token, ignoring what the token carries.
pub open spec fn tag(k: TokenKind) -> nat {
    match k {
        TokenKind::Model => 0,
        TokenKind::Controller => 1,
        TokenKind::Middleware => 2,
        TokenKind::Migration => 3,
        TokenKind::Policy => 4,
        TokenKind::For => 5,
        TokenKind::Event => 6,
        TokenKind::Listener => 7,
        TokenKind::Listens => 8,
        TokenKind::Notification => 9,
        TokenKind::Mail => 10,
        TokenKind::Let => 11,
        TokenKind::Return => 12,
        TokenKind::Null => 13,
        TokenKind::True => 14,
        TokenKind::False => 15,
        TokenKind::Identifier(_) => 16,
        TokenKind::StringLiteral(_) => 17,
        TokenKind::IntegerLiteral(_) => 18,
        TokenKind::LeftBrace => 19,
        TokenKind::RightBrace => 20,
        TokenKind::LeftParen => 21,
        TokenKind::RightParen => 22,
        TokenKind::LeftBracket => 23,
        TokenKind::RightBracket => 24,
        TokenKind::Colon => 25,
        TokenKind::Comma => 26,
        TokenKind::Dot => 27,
        TokenKind::Equal => 28,
        TokenKind::EqualEqual => 29,
        TokenKind::Bang => 30,
        TokenKind::BangEqual => 31,
        TokenKind::Plus => 32,
        TokenKind::Minus => 33,
        TokenKind::Star => 34,
        TokenKind::Slash => 35,
        TokenKind::Percent => 36,
        TokenKind::Less => 37,
        TokenKind::LessEqual => 38,
        TokenKind::Greater => 39,
        TokenKind::GreaterEqual => 40,
        TokenKind::AndAnd => 41,
        TokenKind::OrOr => 42,
        TokenKind::Eof => 43,
    }
}

/// The tag of a token kind.
pub fn kind_tag(k: &TokenKind) -> (t: u8)
    ensures
        t == tag(*k),
{
    match k {
        TokenKind::Model => 0,
        TokenKind::Controller => 1,
        TokenKind::Middleware => 2,
        TokenKind::Migration => 3,
        TokenKind::Policy => 4,
        TokenKind::For => 5,
        TokenKind::Event => 6,
        TokenKind::Listener => 7,
        TokenKind::Listens => 8,
        TokenKind::Notification => 9,
        TokenKind::Mail => 10,
        TokenKind::Let => 11,
        TokenKind::Return => 12,
        TokenKind::Null => 13,
        TokenKind::True => 14,
        TokenKind::False => 15,
        TokenKind::Identifier(_) => 16,
        TokenKind::StringLiteral(_) => 17,
        TokenKind::IntegerLiteral(_) => 18,
        TokenKind::LeftBrace => 19,
        TokenKind::RightBrace => 20,
        TokenKind::LeftParen => 21,
        TokenKind::RightParen => 22,
        TokenKind::LeftBracket => 23,
        TokenKind::RightBracket => 24,
        TokenKind::Colon => 25,
        TokenKind::Comma => 26,
        TokenKind::Dot => 27,
        TokenKind::Equal => 28,
        TokenKind::EqualEqual => 29,
        TokenKind::Bang => 30,
        TokenKind::BangEqual => 31,
        TokenKind::Plus => 32,
        TokenKind::Minus => 33,
        TokenKind::Star => 34,
        TokenKind::Slash => 35,
        TokenKind::Percent => 36,
        TokenKind::Less => 37,
        TokenKind::LessEqual => 38,
        TokenKind::Greater => 39,
        TokenKind::GreaterEqual => 40,
        TokenKind::AndAnd => 41,
        TokenKind::OrOr => 42,
        TokenKind::Eof => 43,
    }
}

// ---------------------------------------------------------------------------
// The grammar, with its error recovery, as functions on the token sequence
// ---------------------------------------------------------------------------

/// Index of the first end-of-file token at or after `i` (the length if none).
pub open spec fn first_eof_from(ts: Seq<Token>, i: int) -> int
    decreases ts.len() - i,
{
    if i < 0 || i >= ts.len() {
        ts.len() as int
    } else if ts[i].kind is Eof {
        i
    } else {
        first_eof_from(ts, i + 1)
    }
}

/// Index of the first end-of-file token; parsing never moves past it.
pub open spec fn eof_index(ts: Seq<Token>) -> int {
    first_eof_from(ts, 0)
}

/// The token sequence has an end-of-file token.
pub open spec fn has_eof(ts: Seq<Token>) -> bool {
    eof_index(ts) < ts.len()
}

proof fn lemma_first_eof_from(ts: Seq<Token>, i: int)
    requires
        0 <= i <= ts.len(),
    ensures
        i <= first_eof_from(ts, i) <= ts.len(),
        first_eof_from(ts, i) < ts.len() ==> ts[first_eof_from(ts, i)].kind is Eof,
        forall|j: int| i <= j < first_eof_from(ts, i) ==> !(#[trigger] ts[j].kind is Eof),
    decreases ts.len() - i,
{
    if i < ts.len() && !(ts[i].kind is Eof) {
        lemma_first_eof_from(ts, i + 1);
    }
}

/// Only the first end-of-file token can stand at the end-of-file index, and
/// no token before it is one.
pub proof fn lemma_eof_index(ts: Seq<Token>)
    ensures
        0 <= eof_index(ts) <= ts.len(),
        eof_index(ts) < ts.len() ==> ts[eof_index(ts)].kind is Eof,
        forall|j: int| 0 <= j < eof_index(ts) ==> !(#[trigger] ts[j].kind is Eof),
{
    lemma_first_eof_from(ts, 0);
}

/// `p` is a position the parser can stand at.
pub open spec fn valid_pos(ts: Seq<Token>, p: int) -> bool {
    0 <= p <= eof_index(ts) < ts.len()
}

/// The result of parsing from some position: a value (none when the
/// construct is malformed), the position after it, and the diagnostics
/// reported on the way.
pub struct Parsed<T> {
    pub value: Option<T>,
    pub pos: int,
    pub diags: Seq<DiagnosticView>,
}

pub open spec fn failed<T>(pos: int, diags: Seq<DiagnosticView>) -> Parsed<T> {
    Parsed { value: None, pos, diags }
}

pub open spec fn at_kind(ts: Seq<Token>, p: int, k: TokenKind) -> bool {
    tag(ts[p].kind) == tag(k)
}

pub open spec fn at_eof(ts: Seq<Token>, p: int) -> bool {
    ts[p].kind is Eof
}

/// An error at the token at `p`.
pub open spec fn error_at(ts: Seq<Token>, p: int, message: Seq<char>) -> DiagnosticView {
    error_view(message, ts[p].span)
}

/// The span from the start of `a` to the end of `b`, in the file of `a`.
pub open spec fn join(a: Span, b: Span) -> Span {
    Span { file: a.file, start: a.start, end: b.end }
}

/// The name a token spells where a name is expected: an identifier, or the
/// keyword `event`, which also names a listener's event parameter (as in
/// `handle(event: UserCreated) { return event }`).
pub open spec fn name_of(k: TokenKind) -> Option<Seq<char>> {
    match k {
        TokenKind::Identifier(name) => Some(name@),
        TokenKind::Event => Some("event"@),
        _ => None,
    }
}

/// The text of the name a token spells, if it spells one.
pub fn name_text(k: &TokenKind) -> (r: Option<String>)
    ensures
        text_opt(r) == name_of(*k),
{
    match k {
        TokenKind::Identifier(name) => Some(name.clone()),
        TokenKind::Event => Some(owned("event")),
        _ => None,
    }
}

/// The view of a parsed name and its span.
pub open spec fn named_view(r: Option<(String, Span)>) -> Option<(Seq<char>, Span)> {
    match r {
        Some((n, s)) => Some((n@, s)),
        None => None,
    }
}

/// The position after the token at `p`; the end of input is never passed.
pub open spec fn past(ts: Seq<Token>, p: int) -> int {
    if at_eof(ts, p) {
        p
    } else {
        p + 1
    }
}

/// A name at `p`, or an error with `message`. The token at `p` is consumed
/// either way.
pub open spec fn expect_identifier(ts: Seq<Token>, p: int, message: Seq<char>) -> Parsed<(Seq<char>, Span)> {
    match name_of(ts[p].kind) {
        Some(name) => Parsed { value: Some((name, ts[p].span)), pos: p + 1, diags: seq![] },
        None => failed(past(ts, p), seq![error_at(ts, p, message)]),
    }
}

/// A token of kind `k` at `p`, or an error with `message`; only a matching
/// token is consumed.
pub open spec fn expect_kind(ts: Seq<Token>, p: int, k: TokenKind, message: Seq<char>) -> Parsed<Span> {
    if at_kind(ts, p, k) {
        Parsed { value: Some(ts[p].span), pos: past(ts, p), diags: seq![] }
    } else {
        failed(p, seq![error_at(ts, p, message)])
    }
}

// --- expressions -----------------------------------------------------------

/// The binary operator of a token at precedence level `level`
/// (1: `* / %`, 2: `+ -`, 3: `< <= > >=`, 4: `== !=`, 5: `&&`, 6: `||`).
pub open spec fn binary_operator(level: nat, k: TokenKind) -> Option<BinaryOperator> {
    if level == 1 {
        match k {
            TokenKind::Star => Some(BinaryOperator::Multiply),
            TokenKind::Slash => Some(BinaryOperator::Divide),
            TokenKind::Percent => Some(BinaryOperator::Remainder),
            _ => None,
        }
    } else if level == 2 {
        match k {
            TokenKind::Plus => Some(BinaryOperator::Add),
            TokenKind::Minus => Some(BinaryOperator::Subtract),
            _ => None,
        }
    } else if level == 3 {
        match k {
            TokenKind::Less => Some(BinaryOperator::Less),
            TokenKind::LessEqual => Some(BinaryOperator::LessEqual),
            TokenKind::Greater => Some(BinaryOperator::Greater),
            TokenKind::GreaterEqual => Some(BinaryOperator::GreaterEqual),
            _ => None,
        }
    } else if level == 4 {
        match k {
            TokenKind::EqualEqual => Some(BinaryOperator::Equal),
            TokenKind::BangEqual => Some(BinaryOperator::NotEqual),
            _ => None,
        }
    } else if level == 5 {
        match k {
            TokenKind::AndAnd => Some(BinaryOperator::And),
            _ => None,
        }
    } else if level == 6 {
        match k {
            TokenKind::OrOr => Some(BinaryOperator::Or),
            _ => None,
        }
    } else {
        None
    }
}

/// How a binary operator is written in Densleaf source.
pub open spec fn operator_symbol(op: BinaryOperator) -> Seq<char> {
    match op {
        BinaryOperator::Add => "+"@,
        BinaryOperator::Subtract => "-"@,
        BinaryOperator::Multiply => "*"@,
        BinaryOperator::Divide => "/"@,
        BinaryOperator::Remainder => "%"@,
        BinaryOperator::Equal => "=="@,
        BinaryOperator::NotEqual => "!="@,
        BinaryOperator::Less => "<"@,
        BinaryOperator::LessEqual => "<="@,
        BinaryOperator::Greater => ">"@,
        BinaryOperator::GreaterEqual => ">="@,
        BinaryOperator::And => "&&"@,
        BinaryOperator::Or => "||"@,
    }
}

/// The token the lexer makes of exactly the text `s`, with nothing else.
pub open spec fn lexes_to_one_token(s: Seq<char>, k: TokenKind) -> bool {
    &&& lex_spec(s).0 == seq![
        LexToken { lexeme: Lexeme::Fixed(k), start: 0, end: s.len() as int },
        LexToken { lexeme: eof_lexeme(), start: s.len() as int, end: s.len() as int },
    ]
    &&& lex_spec(s).1.len() == 0
}

/// The one-character token of a comparison character.
spec fn short_compare(c: char) -> TokenKind {
    let (one, _) = compare_kinds(c)->0;
    one
}

/// The token of a comparison character followed by `=`.
spec fn long_compare(c: char) -> TokenKind {
    let (_, two) = compare_kinds(c)->0;
    two
}

proof fn lemma_lex_one_char(s: Seq<char>)
    requires
        s.len() == 1,
        single_kind(s[0]) is Some || (compare_kinds(s[0]) is Some),
    ensures
        single_kind(s[0]) is Some ==> lexes_to_one_token(s, single_kind(s[0])->0),
        single_kind(s[0]) is None ==> lexes_to_one_token(s, short_compare(s[0])),
{
    let k = if single_kind(s[0]) is Some { single_kind(s[0])->0 } else { short_compare(s[0]) };
    assert(!crate::text::is_whitespace_char(s[0]));
    assert(crate::lexer::char_at(s, 1) is None);
    assert(step(s, 0) == Step::Tok(Lexeme::Fixed(k), 1));
    let rest = lex_from(s, 1);
    assert(rest.0 == seq![LexToken { lexeme: eof_lexeme(), start: 1, end: 1 }]);
    assert(rest.1.len() == 0);
    assert(lex_from(s, 0).0 =~= seq![LexToken { lexeme: Lexeme::Fixed(k), start: 0, end: 1 }] + rest.0);
    assert(lex_spec(s).0 =~= seq![
        LexToken { lexeme: Lexeme::Fixed(k), start: 0, end: 1 },
        LexToken { lexeme: eof_lexeme(), start: 1, end: 1 },
    ]);
}

proof fn lemma_lex_two_chars(s: Seq<char>)
    requires
        s.len() == 2,
        (compare_kinds(s[0]) is Some && s[1] == '=') || (s[0] == '&' && s[1] == '&') || (s[0] == '|' && s[1] == '|'),
    ensures
        compare_kinds(s[0]) is Some ==> lexes_to_one_token(s, long_compare(s[0])),
        s[0] == '&' ==> lexes_to_one_token(s, TokenKind::AndAnd),
        s[0] == '|' ==> lexes_to_one_token(s, TokenKind::OrOr),
{
    let k = if compare_kinds(s[0]) is Some {
        long_compare(s[0])
    } else if s[0] == '&' {
        TokenKind::AndAnd
    } else {
        TokenKind::OrOr
    };
    assert(!crate::text::is_whitespace_char(s[0]));
    assert(crate::lexer::char_at(s, 1) == Some(s[1]));
    assert(single_kind(s[0]) is None);
    assert(step(s, 0) == Step::Tok(Lexeme::Fixed(k), 2));
    let rest = lex_from(s, 2);
    assert(rest.0 == seq![LexToken { lexeme: eof_lexeme(), start: 2, end: 2 }]);
    assert(rest.1.len() == 0);
    assert(lex_from(s, 0).0 =~= seq![LexToken { lexeme: Lexeme::Fixed(k), start: 0, end: 2 }] + rest.0);
    assert(lex_spec(s).0 =~= seq![
        LexToken { lexeme: Lexeme::Fixed(k), start: 0, end: 2 },
        LexToken { lexeme: eof_lexeme(), start: 2, end: 2 },
    ]);
}

/// Each binary operator is read from the token that writes it: whatever the
/// precedence level, a token that gives operator `op` is exactly the token
/// the lexer makes of `op`'s own symbol (so `!=` gives `NotEqual` and `==`
/// gives `Equal`, and no two operator tokens give the same operator).
pub proof fn binary_operators_come_from_their_symbols(level: nat, k: TokenKind)
    ensures
        binary_operator(level, k) matches Some(op) ==> lexes_to_one_token(operator_symbol(op), k),
{
    if binary_operator(level, k) is Some {
        let op = binary_operator(level, k)->0;
        let t = operator_symbol(op);
        match op {
            BinaryOperator::Add => {
                reveal_strlit("+");
                lemma_lex_one_char(t);
            },
            BinaryOperator::Subtract => {
                reveal_strlit("-");
                lemma_lex_one_char(t);
            },
            BinaryOperator::Multiply => {
                reveal_strlit("*");
                lemma_lex_one_char(t);
            },
            BinaryOperator::Divide => {
                reveal_strlit("/");
                lemma_lex_one_char(t);
            },
            BinaryOperator::Remainder => {
                reveal_strlit("%");
                lemma_lex_one_char(t);
            },
            BinaryOperator::Equal => {
                reveal_strlit("==");
                lemma_lex_two_chars(t);
            },
            BinaryOperator::NotEqual => {
                reveal_strlit("!=");
                lemma_lex_two_chars(t);
            },
            BinaryOperator::Less => {
                reveal_strlit("<");
                lemma_lex_one_char(t);
            },
            BinaryOperator::LessEqual => {
                reveal_strlit("<=");
                lemma_lex_two_chars(t);
            },
            BinaryOperator::Greater => {
                reveal_strlit(">");
                lemma_lex_one_char(t);
            },
            BinaryOperator::GreaterEqual => {
                reveal_strlit(">=");
                lemma_lex_two_chars(t);
            },
            BinaryOperator::And => {
                reveal_strlit("&&");
                lemma_lex_two_chars(t);
            },
            BinaryOperator::Or => {
                reveal_strlit("||");
                lemma_lex_two_chars(t);
            },
        }
    }
}

pub open spec fn unary_operator(k: TokenKind) -> Option<UnaryOperator> {
    match k {
        TokenKind::Bang => Some(UnaryOperator::Not),
        TokenKind::Minus => Some(UnaryOperator::Negate),
        _ => None,
    }
}

/// The lowest precedence level.
pub open spec fn top_level() -> nat {
    6
}

/// An expression at `p`.
pub open spec fn expression(ts: Seq<Token>, p: int) -> Parsed<ExprV>
    decreases eof_index(ts) - p, 100int,
{
    proof {
        lemma_eof_index(ts);
    }
    if !valid_pos(ts, p) {
        failed(p, seq![])
    } else {
        binary(ts, p, top_level())
    }
}

/// An expression whose binary operators are all of level `level` or tighter.
pub open spec fn binary(ts: Seq<Token>, p: int, level: nat) -> Parsed<ExprV>
    decreases eof_index(ts) - p, 11 + 2 * level,
{
    proof {
        lemma_eof_index(ts);
    }
    if !valid_pos(ts, p) {
        failed(p, seq![])
    } else if level == 0 {
        unary(ts, p)
    } else {
        let left = binary(ts, p, (level - 1) as nat);
        match left.value {
            None => left,
            Some(l) => if p <= left.pos <= eof_index(ts) {
                binary_rest(ts, left.pos, level, l, left.diags)
            } else {
                left
            },
        }
    }
}

/// Continues a left-associative chain of level-`level` operators after `left`.
pub open spec fn binary_rest(
    ts: Seq<Token>,
    p: int,
    level: nat,
    left: ExprV,
    diags: Seq<DiagnosticView>,
) -> Parsed<ExprV>
    decreases eof_index(ts) - p, 10 + 2 * level,
{
    proof {
        lemma_eof_index(ts);
    }
    if !valid_pos(ts, p) || level == 0 {
        Parsed { value: Some(left), pos: p, diags }
    } else {
        match binary_operator(level, ts[p].kind) {
            None => Parsed { value: Some(left), pos: p, diags },
            Some(op) => if at_eof(ts, p) {
                Parsed { value: Some(left), pos: p, diags }
            } else {
                let right = binary(ts, p + 1, (level - 1) as nat);
                match right.value {
                    None => failed(right.pos, diags + right.diags),
                    Some(r) => {
                        let combined = ExprV::Binary {
                            left: Box::new(left),
                            operator: op,
                            right: Box::new(r),
                            span: join(expr_span(left), expr_span(r)),
                        };
                        if p < right.pos <= eof_index(ts) {
                            binary_rest(ts, right.pos, level, combined, diags + right.diags)
                        } else {
                            Parsed { value: Some(combined), pos: right.pos, diags: diags + right.diags }
                        }
                    },
                }
            },
        }
    }
}

/// A prefix `!` or `-` applied to a unary expression, or a postfix expression.
pub open spec fn unary(ts: Seq<Token>, p: int) -> Parsed<ExprV>
    decreases eof_index(ts) - p, 5int,
{
    proof {
        lemma_eof_index(ts);
    }
    if !valid_pos(ts, p) {
        failed(p, seq![])
    } else {
        match unary_operator(ts[p].kind) {
            Some(op) => {
                let operand = unary(ts, p + 1);
                match operand.value {
                    None => operand,
                    Some(o) => Parsed {
                        value: Some(ExprV::Unary {
                            operator: op,
                            operand: Box::new(o),
                            span: join(ts[p].span, expr_span(o)),
                        }),
                        pos: operand.pos,
                        diags: operand.diags,
                    },
                }
            },
            None => postfix(ts, p),
        }
    }
}

/// A primary expression followed by member accesses, calls and indexes.
pub open spec fn postfix(ts: Seq<Token>, p: int) -> Parsed<ExprV>
    decreases eof_index(ts) - p, 4int,
{
    proof {
        lemma_eof_index(ts);
    }
    if !valid_pos(ts, p) {
        failed(p, seq![])
    } else {
        let base = primary(ts, p);
        match base.value {
            None => base,
            Some(b) => if p <= base.pos <= eof_index(ts) {
                postfix_rest(ts, base.pos, b, base.diags)
            } else {
                base
            },
        }
    }
}

/// Applies the postfix operations found at `p` to `target`.
pub open spec fn postfix_rest(
    ts: Seq<Token>,
    p: int,
    target: ExprV,
    diags: Seq<DiagnosticView>,
) -> Parsed<ExprV>
    decreases eof_index(ts) - p, 3int,
{
    proof {
        lemma_eof_index(ts);
    }
    if !valid_pos(ts, p) {
        Parsed { value: Some(target), pos: p, diags }
    } else if ts[p].kind is Dot {
        let member = expect_identifier(ts, p + 1, "expected a member name after `.`"@);
        match member.value {
            None => failed(member.pos, diags + member.diags),
            Some((name, name_span)) => postfix_rest(
                ts,
                member.pos,
                ExprV::Member {
                    object: Box::new(target),
                    member: name,
                    member_span: name_span,
                    span: join(expr_span(target), name_span),
                },
                diags,
            ),
        }
    } else if ts[p].kind is LeftParen {
        let args = list(ts, p + 1, TokenKind::RightParen, seq![], seq![]);
        match args.value {
            None => failed(args.pos, diags + args.diags),
            Some(arguments) => {
                let close = expect_kind(
                    ts,
                    args.pos,
                    TokenKind::RightParen,
                    "expected `)` to close the argument list"@,
                );
                match close.value {
                    None => failed(close.pos, diags + args.diags + close.diags),
                    Some(close_span) => if p < close.pos <= eof_index(ts) {
                        postfix_rest(
                            ts,
                            close.pos,
                            ExprV::Call {
                                callee: Box::new(target),
                                arguments,
                                span: join(expr_span(target), close_span),
                            },
                            diags + args.diags,
                        )
                    } else {
                        failed(close.pos, diags + args.diags)
                    },
                }
            },
        }
    } else if ts[p].kind is LeftBracket {
        let index = expression(ts, p + 1);
        match index.value {
            None => failed(index.pos, diags + index.diags),
            Some(i) => {
                let close = expect_kind(
                    ts,
                    index.pos,
                    TokenKind::RightBracket,
                    "expected `]` to close the index"@,
                );
                match close.value {
                    None => failed(close.pos, diags + index.diags + close.diags),
                    Some(close_span) => if p < close.pos <= eof_index(ts) {
                        postfix_rest(
                            ts,
                            close.pos,
                            ExprV::Index {
                                object: Box::new(target),
                                index: Box::new(i),
                                span: join(expr_span(target), close_span),
                            },
                            diags + index.diags,
                        )
                    } else {
                        failed(close.pos, diags + index.diags)
                    },
                }
            },
        }
    } else {
        Parsed { value: Some(target), pos: p, diags }
    }
}

/// Comma-separated expressions up to (not including) a `closer` token; a
/// trailing comma is allowed. `items` and `diags` are what came before `p`.
pub open spec fn list(
    ts: Seq<Token>,
    p: int,
    closer: TokenKind,
    items: Seq<ExprV>,
    diags: Seq<DiagnosticView>,
) -> Parsed<Seq<ExprV>>
    decreases eof_index(ts) - p, 102int,
{
    proof {
        lemma_eof_index(ts);
    }
    if !valid_pos(ts, p) {
        failed(p, diags)
    } else if at_kind(ts, p, closer) {
        Parsed { value: Some(items), pos: p, diags }
    } else {
        let item = expression(ts, p);
        match item.value {
            None => failed(item.pos, diags + item.diags),
            Some(e) => if valid_pos(ts, item.pos) && at_kind(ts, item.pos, TokenKind::Comma)
                && p < item.pos + 1 <= eof_index(ts) {
                list(ts, item.pos + 1, closer, items.push(e), diags + item.diags)
            } else {
                Parsed { value: Some(items.push(e)), pos: item.pos, diags: diags + item.diags }
            },
        }
    }
}

/// One `key: value` entry of an object literal.
pub open spec fn entry(ts: Seq<Token>, p: int) -> Parsed<EntryV>
    decreases eof_index(ts) - p, 101int,
{
    proof {
        lemma_eof_index(ts);
    }
    if !valid_pos(ts, p) {
        failed(p, seq![])
    } else {
        let key = expect_identifier(ts, p, "expected an object key"@);
        match key.value {
            None => key.map_fail(),
            Some((name, key_span)) => {
                let colon = expect_kind(ts, key.pos, TokenKind::Colon, "expected `:` after the object key"@);
                match colon.value {
                    None => colon.map_fail(),
                    Some(_) => {
                        let value = expression(ts, colon.pos);
                        match value.value {
                            None => value.map_fail(),
                            Some(v) => Parsed {
                                value: Some(EntryV { key: name, key_span, value: v, span: join(key_span, expr_span(v)) }),
                                pos: value.pos,
                                diags: value.diags,
                            },
                        }
                    },
                }
            },
        }
    }
}

/// Comma-separated `key: value` entries up to (not including) `}`; a
/// trailing comma is allowed.
pub open spec fn entries(
    ts: Seq<Token>,
    p: int,
    items: Seq<EntryV>,
    diags: Seq<DiagnosticView>,
) -> Parsed<Seq<EntryV>>
    decreases eof_index(ts) - p, 102int,
{
    proof {
        lemma_eof_index(ts);
    }
    if !valid_pos(ts, p) {
        failed(p, diags)
    } else if ts[p].kind is RightBrace {
        Parsed { value: Some(items), pos: p, diags }
    } else {
        let e = entry(ts, p);
        match e.value {
            None => failed(e.pos, diags + e.diags),
            Some(x) => if valid_pos(ts, e.pos) && at_kind(ts, e.pos, TokenKind::Comma)
                && p < e.pos + 1 <= eof_index(ts) {
                entries(ts, e.pos + 1, items.push(x), diags + e.diags)
            } else {
                Parsed { value: Some(items.push(x)), pos: e.pos, diags: diags + e.diags }
            },
        }
    }
}

/// A literal, a name, an array, an object or a parenthesized expression.
pub open spec fn primary(ts: Seq<Token>, p: int) -> Parsed<ExprV>
    decreases eof_index(ts) - p, 2int,
{
    proof {
        lemma_eof_index(ts);
    }
    if !valid_pos(ts, p) {
        failed(p, seq![])
    } else {
        let t = ts[p];
        match t.kind {
            TokenKind::StringLiteral(value) => Parsed { value: Some(ExprV::Str { value: value@, span: t.span }), pos: p + 1, diags: seq![] },
            TokenKind::IntegerLiteral(value) => Parsed { value: Some(ExprV::Int { value, span: t.span }), pos: p + 1, diags: seq![] },
            TokenKind::True => Parsed { value: Some(ExprV::Bool { value: true, span: t.span }), pos: p + 1, diags: seq![] },
            TokenKind::False => Parsed { value: Some(ExprV::Bool { value: false, span: t.span }), pos: p + 1, diags: seq![] },
            TokenKind::Null => Parsed { value: Some(ExprV::Null { span: t.span }), pos: p + 1, diags: seq![] },
            TokenKind::LeftParen => {
                let inner = expression(ts, p + 1);
                match inner.value {
                    None => inner,
                    Some(e) => {
                        let close = expect_kind(ts, inner.pos, TokenKind::RightParen, "expected `)` to close the grouped expression"@);
                        match close.value {
                            None => failed(close.pos, inner.diags + close.diags),
                            Some(c) => Parsed {
                                value: Some(ExprV::Grouped { expression: Box::new(e), span: join(t.span, c) }),
                                pos: close.pos,
                                diags: inner.diags,
                            },
                        }
                    },
                }
            },
            TokenKind::LeftBracket => {
                let items = list(ts, p + 1, TokenKind::RightBracket, seq![], seq![]);
                match items.value {
                    None => items.map_fail(),
                    Some(elements) => {
                        let close = expect_kind(ts, items.pos, TokenKind::RightBracket, "expected `]` to close the array"@);
                        match close.value {
                            None => failed(close.pos, items.diags + close.diags),
                            Some(c) => Parsed {
                                value: Some(ExprV::Array { elements, span: join(t.span, c) }),
                                pos: close.pos,
                                diags: items.diags,
                            },
                        }
                    },
                }
            },
            TokenKind::LeftBrace => {
                let items = entries(ts, p + 1, seq![], seq![]);
                match items.value {
                    None => items.map_fail(),
                    Some(es) => {
                        let close = expect_kind(ts, items.pos, TokenKind::RightBrace, "expected `}` to close the object"@);
                        match close.value {
                            None => failed(close.pos, items.diags + close.diags),
                            Some(c) => Parsed {
                                value: Some(ExprV::Object { entries: es, span: join(t.span, c) }),
                                pos: close.pos,
                                diags: items.diags,
                            },
                        }
                    },
                }
            },
            _ => match name_of(t.kind) {
                Some(name) => Parsed { value: Some(ExprV::Ident { name, span: t.span }), pos: p + 1, diags: seq![] },
                None => failed(
                past(ts, p),
                seq![with_help_view(
                    error_at(ts, p, "expected an expression"@),
                    "use a literal, a name, an array `[...]`, an object `{...}`, or a parenthesized expression"@,
                )],
                ),
            },
        }
    }
}

impl<T> Parsed<T> {
    /// The same failure, at another result type.
    pub open spec fn map_fail<U>(self) -> Parsed<U> {
        Parsed { value: None, pos: self.pos, diags: self.diags }
    }
}

// --- statements and methods --------------------------------------------------

/// `let name = expression`, at a `let` token.
pub open spec fn let_statement(ts: Seq<Token>, p: int) -> Parsed<StmtV> {
    if !valid_pos(ts, p) || !(ts[p].kind is Let) {
        failed(p, seq![])
    } else {
        let name = expect_identifier(ts, p + 1, "expected a variable name after `let`"@);
        match name.value {
            None => name.map_fail(),
            Some((n, name_span)) => {
                let eq = expect_kind(ts, name.pos, TokenKind::Equal, "expected `=` after the variable name"@);
                match eq.value {
                    None => eq.map_fail(),
                    Some(_) => {
                        let init = expression(ts, eq.pos);
                        match init.value {
                            None => init.map_fail(),
                            Some(e) => Parsed {
                                value: Some(StmtV::Let {
                                    name: n,
                                    name_span,
                                    initializer: e,
                                    span: join(ts[p].span, expr_span(e)),
                                }),
                                pos: init.pos,
                                diags: init.diags,
                            },
                        }
                    },
                }
            },
        }
    }
}

/// `return expression`, at a `return` token.
pub open spec fn return_statement(ts: Seq<Token>, p: int) -> Parsed<StmtV> {
    if !valid_pos(ts, p) || !(ts[p].kind is Return) {
        failed(p, seq![])
    } else {
        let e = expression(ts, p + 1);
        match e.value {
            None => e.map_fail(),
            Some(x) => Parsed {
                value: Some(StmtV::Return { expression: x, span: join(ts[p].span, expr_span(x)) }),
                pos: e.pos,
                diags: e.diags,
            },
        }
    }
}

/// Statements up to a `}` (or the end of input); malformed ones are reported
/// and left out.
pub open spec fn statements(
    ts: Seq<Token>,
    p: int,
    items: Seq<StmtV>,
    diags: Seq<DiagnosticView>,
) -> Parsed<Seq<StmtV>>
    decreases eof_index(ts) - p,
{
    proof {
        lemma_eof_index(ts);
    }
    if !valid_pos(ts, p) {
        failed(p, diags)
    } else if ts[p].kind is RightBrace || at_eof(ts, p) {
        Parsed { value: Some(items), pos: p, diags }
    } else if ts[p].kind is Let || ts[p].kind is Return {
        let st = if ts[p].kind is Let { let_statement(ts, p) } else { return_statement(ts, p) };
        let items2 = match st.value {
            Some(x) => items.push(x),
            None => items,
        };
        if p < st.pos <= eof_index(ts) {
            statements(ts, st.pos, items2, diags + st.diags)
        } else {
            Parsed { value: Some(items2), pos: st.pos, diags: diags + st.diags }
        }
    } else {
        statements(
            ts,
            p + 1,
            items,
            diags.push(with_help_view(
                error_at(ts, p, "expected a statement"@),
                "method bodies support `let` and `return` statements"@,
            )),
        )
    }
}

/// `{ statements }`: the statements and the span of the braces.
pub open spec fn block(ts: Seq<Token>, p: int) -> Parsed<(Seq<StmtV>, Span)> {
    if !valid_pos(ts, p) {
        failed(p, seq![])
    } else {
        let open = expect_kind(ts, p, TokenKind::LeftBrace, "expected `{` to start the method body"@);
        match open.value {
            None => open.map_fail(),
            Some(open_span) => {
                let body = statements(ts, open.pos, seq![], seq![]);
                match body.value {
                    None => body.map_fail(),
                    Some(stmts) => {
                        let close = expect_kind(ts, body.pos, TokenKind::RightBrace, "expected `}` to close the method body"@);
                        match close.value {
                            None => failed(close.pos, body.diags + close.diags),
                            Some(close_span) => Parsed {
                                value: Some((stmts, join(open_span, close_span))),
                                pos: close.pos,
                                diags: body.diags,
                            },
                        }
                    },
                }
            },
        }
    }
}

/// Comma-separated parameters `name` or `name: type`, from `p`.
pub open spec fn parameter_list(ts: Seq<Token>, p: int, items: Seq<ParamV>) -> Parsed<Seq<ParamV>>
    decreases eof_index(ts) - p,
{
    proof {
        lemma_eof_index(ts);
    }
    if !valid_pos(ts, p) {
        failed(p, seq![])
    } else {
        let name = expect_identifier(ts, p, "expected a parameter name"@);
        match name.value {
            None => name.map_fail(),
            Some((n, name_span)) => {
                let q = name.pos;
                let typed = valid_pos(ts, q) && ts[q].kind is Colon;
                let ty = expect_identifier(ts, q + 1, "expected a parameter type"@);
                if typed && ty.value is None {
                    ty.map_fail()
                } else {
                    let (ty_name, type_span) = ty.value->0;
                    let param = if typed {
                        ParamV {
                            name: n,
                            name_span,
                            type_reference: Some(TypeRefV { name: ty_name, span: type_span }),
                            span: join(name_span, type_span),
                        }
                    } else {
                        ParamV { name: n, name_span, type_reference: None, span: name_span }
                    };
                    let r = if typed { ty.pos } else { q };
                    if valid_pos(ts, r) && ts[r].kind is Comma && p < r + 1 <= eof_index(ts) {
                        parameter_list(ts, r + 1, items.push(param))
                    } else {
                        Parsed { value: Some(items.push(param)), pos: r, diags: seq![] }
                    }
                }
            },
        }
    }
}

/// The parameters between `(` and `)`, which may be none.
pub open spec fn parameters(ts: Seq<Token>, p: int) -> Parsed<Seq<ParamV>> {
    if valid_pos(ts, p) && ts[p].kind is RightParen {
        Parsed { value: Some(seq![]), pos: p, diags: seq![] }
    } else {
        parameter_list(ts, p, seq![])
    }
}

/// `name(parameters) { statements }`; `name_message` reports a missing name.
pub open spec fn method(ts: Seq<Token>, p: int, name_message: Seq<char>) -> Parsed<MethodV> {
    if !valid_pos(ts, p) {
        failed(p, seq![])
    } else {
        let name = expect_identifier(ts, p, name_message);
        match name.value {
            None => name.map_fail(),
            Some((n, name_span)) => {
                let open = expect_kind(ts, name.pos, TokenKind::LeftParen, "expected `(` after the method name"@);
                match open.value {
                    None => open.map_fail(),
                    Some(_) => {
                        let params = parameters(ts, open.pos);
                        match params.value {
                            None => params.map_fail(),
                            Some(ps) => {
                                let close = expect_kind(ts, params.pos, TokenKind::RightParen, "expected `)` after the method parameters"@);
                                match close.value {
                                    None => failed(close.pos, params.diags + close.diags),
                                    Some(_) => {
                                        let body = block(ts, close.pos);
                                        match body.value {
                                            None => failed(body.pos, params.diags + body.diags),
                                            Some((stmts, block_span)) => Parsed {
                                                value: Some(MethodV {
                                                    name: n,
                                                    name_span,
                                                    parameters: ps,
                                                    body: stmts,
                                                    span: join(name_span, block_span),
                                                }),
                                                pos: body.pos,
                                                diags: params.diags + body.diags,
                                            },
                                        }
                                    },
                                }
                            },
                        }
                    },
                }
            },
        }
    }
}

/// After a malformed method: skips to the next member name or to the `}`
/// that closes the declaration, stepping over nested braces.
pub open spec fn skip_member(ts: Seq<Token>, p: int, depth: nat) -> int
    decreases eof_index(ts) - p,
{
    proof {
        lemma_eof_index(ts);
    }
    if !valid_pos(ts, p) || at_eof(ts, p) {
        p
    } else {
        match ts[p].kind {
            TokenKind::LeftBrace => skip_member(ts, p + 1, depth + 1),
            TokenKind::RightBrace => if depth > 0 {
                skip_member(ts, p + 1, (depth - 1) as nat)
            } else {
                p
            },
            TokenKind::Identifier(_) => if depth == 0 {
                p
            } else {
                skip_member(ts, p + 1, depth)
            },
            _ => skip_member(ts, p + 1, depth),
        }
    }
}

/// Methods up to a `}` (or the end of input).
pub open spec fn methods(
    ts: Seq<Token>,
    p: int,
    name_message: Seq<char>,
    items: Seq<MethodV>,
    diags: Seq<DiagnosticView>,
) -> Parsed<Seq<MethodV>>
    decreases eof_index(ts) - p,
{
    if !valid_pos(ts, p) {
        failed(p, diags)
    } else if ts[p].kind is RightBrace || at_eof(ts, p) {
        Parsed { value: Some(items), pos: p, diags }
    } else {
        let m = method(ts, p, name_message);
        let items2 = match m.value {
            Some(x) => items.push(x),
            None => items,
        };
        let next = match m.value {
            Some(_) => m.pos,
            None => skip_member(ts, m.pos, 0),
        };
        if p < next <= eof_index(ts) {
            methods(ts, next, name_message, items2, diags + m.diags)
        } else {
            Parsed { value: Some(items2), pos: next, diags: diags + m.diags }
        }
    }
}

// --- fields ------------------------------------------------------------------

/// `name: type` inside the model or event named `owner`.
pub open spec fn field(ts: Seq<Token>, p: int, owner: Seq<char>) -> Parsed<FieldV> {
    if !valid_pos(ts, p) {
        failed(p, seq![])
    } else {
        let name = expect_identifier(ts, p, "expected a field name"@);
        match name.value {
            None => name.map_fail(),
            Some((n, name_span)) => {
                let colon = expect_kind(ts, name.pos, TokenKind::Colon, "expected `:` after the field name"@);
                match colon.value {
                    None => colon.map_fail(),
                    Some(_) => {
                        let q = colon.pos;
                        match name_of(ts[q].kind) {
                            Some(ty) => Parsed {
                                value: Some(FieldV {
                                    name: n,
                                    name_span,
                                    type_reference: TypeRefV { name: ty, span: ts[q].span },
                                    span: join(name_span, ts[q].span),
                                }),
                                pos: q + 1,
                                diags: seq![],
                            },
                            None => failed(
                                past(ts, q),
                                seq![with_help_view(
                                    error_at(ts, q, "expected a field type"@),
                                    "try `"@ + n + ": string` on `"@ + owner + "`"@,
                                )],
                            ),
                        }
                    },
                }
            },
        }
    }
}

/// After a malformed field: skips to the next name or to `}`.
pub open spec fn skip_field(ts: Seq<Token>, p: int) -> int
    decreases eof_index(ts) - p,
{
    proof {
        lemma_eof_index(ts);
    }
    if !valid_pos(ts, p) || at_eof(ts, p) || ts[p].kind is RightBrace || ts[p].kind is Identifier {
        p
    } else {
        skip_field(ts, p + 1)
    }
}

/// Fields up to a `}` (or the end of input).
pub open spec fn fields(
    ts: Seq<Token>,
    p: int,
    owner: Seq<char>,
    items: Seq<FieldV>,
    diags: Seq<DiagnosticView>,
) -> Parsed<Seq<FieldV>>
    decreases eof_index(ts) - p,
{
    if !valid_pos(ts, p) {
        failed(p, diags)
    } else if ts[p].kind is RightBrace || at_eof(ts, p) {
        Parsed { value: Some(items), pos: p, diags }
    } else {
        let f = field(ts, p, owner);
        let items2 = match f.value {
            Some(x) => items.push(x),
            None => items,
        };
        let next = match f.value {
            Some(_) => f.pos,
            None => skip_field(ts, f.pos),
        };
        if p < next <= eof_index(ts) {
            fields(ts, next, owner, items2, diags + f.diags)
        } else {
            Parsed { value: Some(items2), pos: next, diags: diags + f.diags }
        }
    }
}

// --- declarations --------------------------------------------------------------

/// A declaration with fields: keyword at `p`, name, `{ fields }`.
pub open spec fn fields_declaration(
    ts: Seq<Token>,
    p: int,
    name_message: Seq<char>,
    open_message: Seq<char>,
    close_message: Seq<char>,
) -> Parsed<FieldsV> {
    if !valid_pos(ts, p) || at_eof(ts, p) {
        failed(p, seq![])
    } else {
        let name = expect_identifier(ts, p + 1, name_message);
        match name.value {
            None => name.map_fail(),
            Some((n, name_span)) => {
                let open = expect_kind(ts, name.pos, TokenKind::LeftBrace, open_message);
                match open.value {
                    None => open.map_fail(),
                    Some(_) => {
                        let body = fields(ts, open.pos, n, seq![], seq![]);
                        match body.value {
                            None => body.map_fail(),
                            Some(fs) => {
                                let close = expect_kind(ts, body.pos, TokenKind::RightBrace, close_message);
                                match close.value {
                                    None => failed(close.pos, body.diags + close.diags),
                                    Some(close_span) => Parsed {
                                        value: Some(FieldsV {
                                            name: n,
                                            name_span,
                                            fields: fs,
                                            span: join(ts[p].span, close_span),
                                        }),
                                        pos: close.pos,
                                        diags: body.diags,
                                    },
                                }
                            },
                        }
                    },
                }
            },
        }
    }
}

/// The messages a declaration with methods reports.
pub struct MethodsMessages {
    pub name: Seq<char>,
    /// For `policy ... for` and `listener ... listens`: the keyword, the
    /// message when it is missing, and the message when the name after it is.
    pub target: Option<(TokenKind, Seq<char>, Seq<char>)>,
    pub open: Seq<char>,
    pub method: Seq<char>,
    pub close: Seq<char>,
}

/// The name after the target keyword, when the declaration has one.
pub open spec fn declaration_target(
    ts: Seq<Token>,
    p: int,
    target: Option<(TokenKind, Seq<char>, Seq<char>)>,
) -> Parsed<Option<TypeRefV>> {
    match target {
        None => Parsed { value: Some(None), pos: p, diags: seq![] },
        Some((keyword, keyword_message, name_message)) => {
            let k = expect_kind(ts, p, keyword, keyword_message);
            match k.value {
                None => k.map_fail(),
                Some(_) => {
                    let t = expect_identifier(ts, k.pos, name_message);
                    match t.value {
                        None => t.map_fail(),
                        Some((n, span)) => Parsed {
                            value: Some(Some(TypeRefV { name: n, span })),
                            pos: t.pos,
                            diags: seq![],
                        },
                    }
                },
            }
        },
    }
}

/// A declaration with methods: keyword at `p`, name, target, `{ methods }`.
pub open spec fn methods_declaration(ts: Seq<Token>, p: int, msgs: MethodsMessages) -> Parsed<MethodsV> {
    if !valid_pos(ts, p) || at_eof(ts, p) {
        failed(p, seq![])
    } else {
        let name = expect_identifier(ts, p + 1, msgs.name);
        match name.value {
            None => name.map_fail(),
            Some((n, name_span)) => {
                let target = declaration_target(ts, name.pos, msgs.target);
                match target.value {
                    None => target.map_fail(),
                    Some(t) => {
                        let open = expect_kind(ts, target.pos, TokenKind::LeftBrace, msgs.open);
                        match open.value {
                            None => open.map_fail(),
                            Some(_) => {
                                let body = methods(ts, open.pos, msgs.method, seq![], seq![]);
                                match body.value {
                                    None => body.map_fail(),
                                    Some(ms) => {
                                        let close = expect_kind(ts, body.pos, TokenKind::RightBrace, msgs.close);
                                        match close.value {
                                            None => failed(close.pos, body.diags + close.diags),
                                            Some(close_span) => Parsed {
                                                value: Some(MethodsV {
                                                    name: n,
                                                    name_span,
                                                    target: t,
                                                    methods: ms,
                                                    span: join(ts[p].span, close_span),
                                                }),
                                                pos: close.pos,
                                                diags: body.diags,
                                            },
                                        }
                                    },
                                }
                            },
                        }
                    },
                }
            },
        }
    }
}

pub open spec fn plain_messages(
    name: Seq<char>,
    open: Seq<char>,
    method: Seq<char>,
    close: Seq<char>,
) -> MethodsMessages {
    MethodsMessages { name, target: None, open, method, close }
}

pub open spec fn fields_as(r: Parsed<FieldsV>, event: bool) -> Parsed<DeclV> {
    Parsed {
        value: match r.value {
            Some(v) => Some(if event { DeclV::Event(v) } else { DeclV::Model(v) }),
            None => None,
        },
        pos: r.pos,
        diags: r.diags,
    }
}

/// Which declaration a keyword starts (1 to 9), or 0.
pub open spec fn declaration_keyword(k: TokenKind) -> nat {
    match k {
        TokenKind::Model => 1,
        TokenKind::Controller => 2,
        TokenKind::Middleware => 3,
        TokenKind::Migration => 4,
        TokenKind::Policy => 5,
        TokenKind::Event => 6,
        TokenKind::Listener => 7,
        TokenKind::Notification => 8,
        TokenKind::Mail => 9,
        _ => 0,
    }
}

pub open spec fn methods_as(r: Parsed<MethodsV>, which: nat) -> Parsed<DeclV> {
    Parsed {
        value: match r.value {
            Some(v) => Some(
                if which == 2 {
                    DeclV::Controller(v)
                } else if which == 3 {
                    DeclV::Middleware(v)
                } else if which == 4 {
                    DeclV::Migration(v)
                } else if which == 5 {
                    DeclV::Policy(v)
                } else if which == 7 {
                    DeclV::Listener(v)
                } else if which == 8 {
                    DeclV::Notification(v)
                } else {
                    DeclV::Mail(v)
                },
            ),
            None => None,
        },
        pos: r.pos,
        diags: r.diags,
    }
}

/// The messages of each kind of declaration with methods.
pub open spec fn messages_for(which: nat) -> MethodsMessages {
    if which == 2 {
        plain_messages(
            "expected a controller name"@,
            "expected `{` after the controller name"@,
            "expected a controller method name"@,
            "expected `}` to close the controller"@,
        )
    } else if which == 3 {
        plain_messages(
            "expected a middleware name"@,
            "expected `{` after the middleware name"@,
            "expected a middleware method name"@,
            "expected `}` to close the middleware"@,
        )
    } else if which == 4 {
        plain_messages(
            "expected a migration name"@,
            "expected `{` after the migration name"@,
            "expected a migration method name"@,
            "expected `}` to close the migration"@,
        )
    } else if which == 5 {
        MethodsMessages {
            name: "expected a policy name"@,
            target: Some((TokenKind::For, "expected `for` after the policy name"@, "expected a model name after `for`"@)),
            open: "expected `{` after the policy target"@,
            method: "expected a policy method name"@,
            close: "expected `}` to close the policy"@,
        }
    } else if which == 7 {
        MethodsMessages {
            name: "expected a listener name"@,
            target: Some((TokenKind::Listens, "expected `listens` after the listener name"@, "expected an event name after `listens`"@)),
            open: "expected `{` after the listened event"@,
            method: "expected a listener method name"@,
            close: "expected `}` to close the listener"@,
        }
    } else if which == 8 {
        plain_messages(
            "expected a notification name"@,
            "expected `{` after the notification name"@,
            "expected a notification method name"@,
            "expected `}` to close the notification"@,
        )
    } else {
        plain_messages(
            "expected a mail name"@,
            "expected `{` after the mail name"@,
            "expected a mail method name"@,
            "expected `}` to close the mail"@,
        )
    }
}

/// The declaration whose keyword is at `p`.
pub open spec fn declaration(ts: Seq<Token>, p: int) -> Parsed<DeclV> {
    let which = declaration_keyword(ts[p].kind);
    if which == 1 {
        fields_as(
            fields_declaration(
                ts,
                p,
                "expected a model name"@,
                "expected `{` after the model name"@,
                "expected `}` to close the model"@,
            ),
            false,
        )
    } else if which == 6 {
        fields_as(
            fields_declaration(
                ts,
                p,
                "expected an event name"@,
                "expected `{` after the event name"@,
                "expected `}` to close the event"@,
            ),
            true,
        )
    } else {
        methods_as(methods_declaration(ts, p, messages_for(which)), which)
    }
}

/// The declarations from `p` to the end of input; stray tokens between
/// declarations are reported one by one.
pub open spec fn declarations(
    ts: Seq<Token>,
    p: int,
    items: Seq<DeclV>,
    diags: Seq<DiagnosticView>,
) -> Parsed<Seq<DeclV>>
    decreases eof_index(ts) - p,
{
    proof {
        lemma_eof_index(ts);
    }
    if !valid_pos(ts, p) {
        failed(p, diags)
    } else if at_eof(ts, p) {
        Parsed { value: Some(items), pos: p, diags }
    } else if declaration_keyword(ts[p].kind) != 0 {
        let d = declaration(ts, p);
        let items2 = match d.value {
            Some(x) => items.push(x),
            None => items,
        };
        if p < d.pos <= eof_index(ts) {
            declarations(ts, d.pos, items2, diags + d.diags)
        } else {
            Parsed { value: Some(items2), pos: d.pos, diags: diags + d.diags }
        }
    } else {
        declarations(
            ts,
            p + 1,
            items,
            diags.push(with_help_view(
                error_at(ts, p, "expected a top-level declaration"@),
                "start a top-level declaration with `model`, `controller`, `middleware`, `migration`, `policy`, `event`, `listener`, `notification`, or `mail`"@,
            )),
        )
    }
}

/// The program and diagnostics that parsing `ts` gives.
pub open spec fn parse_spec(ts: Seq<Token>) -> Parsed<Seq<DeclV>> {
    declarations(ts, 0, seq![], seq![])
}

proof fn lemma_declarations_some(ts: Seq<Token>, p: int, items: Seq<DeclV>, diags: Seq<DiagnosticView>)
    requires
        valid_pos(ts, p),
    ensures
        declarations(ts, p, items, diags).value is Some,
    decreases eof_index(ts) - p,
{
    lemma_eof_index(ts);
    if !at_eof(ts, p) {
        if declaration_keyword(ts[p].kind) != 0 {
            let d = declaration(ts, p);
            let items2 = match d.value {
                Some(x) => items.push(x),
                None => items,
            };
            if p < d.pos <= eof_index(ts) {
                lemma_declarations_some(ts, d.pos, items2, diags + d.diags);
            }
        } else {
            lemma_declarations_some(
                ts,
                p + 1,
                items,
                diags.push(with_help_view(
                    error_at(ts, p, "expected a top-level declaration"@),
                    "start a top-level declaration with `model`, `controller`, `middleware`, `migration`, `policy`, `event`, `listener`, `notification`, or `mail`"@,
                )),
            );
        }
    }
}

/// Parsing never gives up: every token sequence with an end-of-file token
/// yields a program, whatever syntax errors it also reports.
pub proof fn parsing_always_yields_a_program(ts: Seq<Token>)
    requires
        has_eof(ts),
    ensures
        parse_spec(ts).value is Some,
{
    lemma_eof_index(ts);
    lemma_declarations_some(ts, 0, seq![], seq![]);
}

/// Whatever the lexer returns can be handed to the parser: its tokens hold
/// an end-of-file token, and the first one is the last token.
pub proof fn lexer_output_can_be_parsed(out: LexOutput, source: Seq<char>, file: Seq<char>)
    requires
        lex_output_is(out, source, file),
    ensures
        has_eof(out.tokens@),
        eof_index(out.tokens@) == out.tokens@.len() - 1,
{
    let ts = out.tokens@;
    let ls = lex_spec(source).0;
    lex_tokens_are_ordered_and_end_with_eof(source);
    lemma_eof_index(ts);
    let last = ts.len() - 1;
    assert(token_is(ts[last], ls[last], source, file));
    assert(ts[last].kind is Eof);
    if eof_index(ts) < last {
        let e = eof_index(ts);
        assert(token_is(ts[e], ls[e], source, file));
        assert(ls[e].lexeme != eof_lexeme());
    }
}

// ---------------------------------------------------------------------------
// The parser
// ---------------------------------------------------------------------------

/// The program a token sequence describes, and the syntax errors in it.
#[derive(Debug, Clone)]
pub struct ParseOutput {
    pub program: Program,
    pub diagnostics: Vec<Diagnostic>,
}

/// The views of a sequence of diagnostics.
pub open spec fn dviews(ds: Seq<Diagnostic>) -> Seq<DiagnosticView> {
    ds.map_values(|d: Diagnostic| d@)
}

pub open spec fn opt_expr(e: Option<Expression>) -> Option<ExprV> {
    match e {
        Some(x) => Some(x@),
        None => None,
    }
}

pub open spec fn exprs_view(es: Seq<Expression>) -> Seq<ExprV> {
    es.map_values(|e: Expression| e@)
}

pub open spec fn entries_view(es: Seq<ObjectEntry>) -> Seq<EntryV> {
    es.map_values(|e: ObjectEntry| e@)
}

proof fn lemma_dviews_push(ds: Seq<Diagnostic>, d: Diagnostic)
    ensures
        dviews(ds.push(d)) == dviews(ds).push(d@),
{
    assert(dviews(ds.push(d)) =~= dviews(ds).push(d@));
}

/// Parses a token sequence (which must hold an end-of-file token) into a
/// program, reporting syntax errors as diagnostics.
pub fn parse(tokens: Vec<Token>) -> (out: ParseOutput)
    requires
        has_eof(tokens@),
    ensures
        parse_spec(tokens@).value == Some(out.program@),
        dviews(out.diagnostics@) == parse_spec(tokens@).diags,
{
    let mut parser = Parser { tokens, current: 0, diagnostics: Vec::new() };
    proof {
        parsing_always_yields_a_program(parser.tokens@);
        lemma_eof_index(parser.tokens@);
        assert(parser.tokens@.len() == parser.tokens.len());
        assert(dviews(parser.diagnostics@) =~= Seq::<DiagnosticView>::empty());
    }
    let declarations = parser.parse_declarations();
    ParseOutput { program: Program { declarations }, diagnostics: parser.diagnostics }
}

struct Parser {
    tokens: Vec<Token>,
    current: usize,
    diagnostics: Vec<Diagnostic>,
}

/// The span from the start of `a` to the end of `b`.
fn join_spans(a: &Span, b: &Span) -> (s: Span)
    ensures
        s == join(*a, *b),
{
    Span { file: a.file.clone(), start: a.start, end: b.end }
}

impl Parser {
    spec fn wf(&self) -> bool {
        &&& valid_pos(self.tokens@, self.current as int)
        &&& self.tokens@.len() <= usize::MAX
    }

    /// `self` is `before` after a parse step that gave `r`.
    spec fn follows<T>(&self, before: Parser, r: Parsed<T>) -> bool {
        &&& self.wf()
        &&& self.tokens@ == before.tokens@
        &&& self.current == r.pos
        &&& dviews(self.diagnostics@) == dviews(before.diagnostics@) + r.diags
    }

    spec fn ts(&self) -> Seq<Token> {
        self.tokens@
    }

    spec fn pos(&self) -> int {
        self.current as int
    }

    fn at(&self, k: &TokenKind) -> (b: bool)
        requires
            self.wf(),
        ensures
            b == at_kind(self.tokens@, self.current as int, *k),
    {
        kind_tag(&self.tokens[self.current].kind) == kind_tag(k)
    }

    fn is_eof(&self) -> (b: bool)
        requires
            self.wf(),
        ensures
            b == at_eof(self.tokens@, self.current as int),
    {
        match self.tokens[self.current].kind {
            TokenKind::Eof => true,
            _ => false,
        }
    }

    fn kind(&self) -> (k: &TokenKind)
        requires
            self.wf(),
        ensures
            *k == self.tokens@[self.current as int].kind,
    {
        &self.tokens[self.current].kind
    }

    fn span(&self) -> (s: Span)
        requires
            self.wf(),
        ensures
            s == self.tokens@[self.current as int].span,
    {
        self.tokens[self.current].span.duplicate()
    }

    /// Moves past the current token unless it is the end of input.
    fn advance(&mut self)
        requires
            old(self).wf(),
        ensures
            final(self).wf(),
            final(self).tokens@ == old(self).tokens@,
            final(self).diagnostics@ == old(self).diagnostics@,
            final(self).current == if at_eof(old(self).tokens@, old(self).current as int) {
                old(self).current as int
            } else {
                old(self).current + 1
            },
    {
        proof {
            lemma_eof_index(self.tokens@);
        }
        if !self.is_eof() {
            assert(self.tokens@.len() == self.tokens.len());
            self.current = self.current + 1;
        }
    }

    fn report(&mut self, d: Diagnostic)
        ensures
            final(self).tokens@ == old(self).tokens@,
            final(self).current == old(self).current,
            dviews(final(self).diagnostics@) == dviews(old(self).diagnostics@) + seq![d@],
    {
        proof {
            lemma_dviews_push(self.diagnostics@, d);
            assert(dviews(self.diagnostics@).push(d@) =~= dviews(self.diagnostics@) + seq![d@]);
        }
        self.diagnostics.push(d);
    }

    fn expect_identifier(&mut self, message: &str) -> (r: Option<(String, Span)>)
        requires
            old(self).wf(),
        ensures
            final(self).follows(*old(self), expect_identifier(old(self).ts(), old(self).pos(), message@)),
            named_view(r) == expect_identifier(old(self).ts(), old(self).pos(), message@).value,
    {
        proof {
            lemma_eof_index(self.tokens@);
        }
        match name_text(&self.tokens[self.current].kind) {
            Some(n) => {
                let span = self.span();
                self.advance();
                assert(dviews(self.diagnostics@) =~= dviews(old(self).diagnostics@) + seq![]);
                Some((n, span))
            },
            None => {
                let d = Diagnostic::error(message, self.span());
                self.report(d);
                self.advance();
                None
            },
        }
    }

    fn expect_kind(&mut self, k: &TokenKind, message: &str) -> (r: Option<Span>)
        requires
            old(self).wf(),
        ensures
            final(self).follows(*old(self), expect_kind(old(self).ts(), old(self).pos(), *k, message@)),
            r == expect_kind(old(self).ts(), old(self).pos(), *k, message@).value,
    {
        proof {
            lemma_eof_index(self.tokens@);
        }
        if self.at(k) {
            let span = self.span();
            self.advance();
            assert(dviews(self.diagnostics@) =~= dviews(old(self).diagnostics@) + seq![]);
            Some(span)
        } else {
            let d = Diagnostic::error(message, self.span());
            self.report(d);
            None
        }
    }
}

fn binary_operator_of(level: u8, k: &TokenKind) -> (op: Option<BinaryOperator>)
    ensures
        op == binary_operator(level as nat, *k),
{
    if level == 1 {
        match k {
            TokenKind::Star => Some(BinaryOperator::Multiply),
            TokenKind::Slash => Some(BinaryOperator::Divide),
            TokenKind::Percent => Some(BinaryOperator::Remainder),
            _ => None,
        }
    } else if level == 2 {
        match k {
            TokenKind::Plus => Some(BinaryOperator::Add),
            TokenKind::Minus => Some(BinaryOperator::Subtract),
            _ => None,
        }
    } else if level == 3 {
        match k {
            TokenKind::Less => Some(BinaryOperator::Less),
            TokenKind::LessEqual => Some(BinaryOperator::LessEqual),
            TokenKind::Greater => Some(BinaryOperator::Greater),
            TokenKind::GreaterEqual => Some(BinaryOperator::GreaterEqual),
            _ => None,
        }
    } else if level == 4 {
        match k {
            TokenKind::EqualEqual => Some(BinaryOperator::Equal),
            TokenKind::BangEqual => Some(BinaryOperator::NotEqual),
            _ => None,
        }
    } else if level == 5 {
        match k {
            TokenKind::AndAnd => Some(BinaryOperator::And),
            _ => None,
        }
    } else if level == 6 {
        match k {
            TokenKind::OrOr => Some(BinaryOperator::Or),
            _ => None,
        }
    } else {
        None
    }
}

fn unary_operator_of(k: &TokenKind) -> (op: Option<UnaryOperator>)
    ensures
        op == unary_operator(*k),
{
    match k {
        TokenKind::Bang => Some(UnaryOperator::Not),
        TokenKind::Minus => Some(UnaryOperator::Negate),
        _ => None,
    }
}

proof fn lemma_array_view(v: Vec<Expression>, span: Span)
    ensures
        (Expression::ArrayLiteral { elements: v, span })@ == (ExprV::Array { elements: exprs_view(v@), span }),
{
    let ev = (Expression::ArrayLiteral { elements: v, span })@;
    assert(ev->elements.len() == v@.len());
    assert forall|i: int| 0 <= i < v@.len() implies ev->elements[i] == #[trigger] v@[i]@ by {
        assert(ev->elements[i] == crate::ast::view_at(v@, i, span));
        assert(crate::ast::view_at(v@, i, span) == crate::ast::expr_view(v@[i]));
    }
    assert(ev->elements =~= exprs_view(v@));
}

proof fn lemma_call_view(callee: Expression, v: Vec<Expression>, span: Span)
    ensures
        (Expression::Call { callee: Box::new(callee), arguments: v, span })@
            == (ExprV::Call { callee: Box::new(callee@), arguments: exprs_view(v@), span }),
{
    let ev = (Expression::Call { callee: Box::new(callee), arguments: v, span })@;
    assert(ev->arguments.len() == v@.len());
    assert forall|i: int| 0 <= i < v@.len() implies ev->arguments[i] == #[trigger] v@[i]@ by {
        assert(ev->arguments[i] == crate::ast::view_at(v@, i, span));
        assert(crate::ast::view_at(v@, i, span) == crate::ast::expr_view(v@[i]));
    }
    assert(ev->arguments =~= exprs_view(v@));
}

proof fn lemma_object_view(v: Vec<ObjectEntry>, span: Span)
    ensures
        (Expression::ObjectLiteral { entries: v, span })@ == (ExprV::Object { entries: entries_view(v@), span }),
{
    let ev = (Expression::ObjectLiteral { entries: v, span })@;
    assert(ev->entries.len() == v@.len());
    assert forall|i: int| 0 <= i < v@.len() implies ev->entries[i] == #[trigger] v@[i]@ by {
        assert(ev->entries[i] == crate::ast::entry_view_at(v@, i, span));
        assert(crate::ast::entry_view_at(v@, i, span) == crate::ast::entry_view(v@[i]));
    }
    assert(ev->entries =~= entries_view(v@));
}

impl Parser {
    fn parse_expression(&mut self) -> (r: Option<Expression>)
        requires
            old(self).wf(),
        ensures
            final(self).follows(*old(self), expression(old(self).ts(), old(self).pos())),
            opt_expr(r) == expression(old(self).ts(), old(self).pos()).value,
        decreases eof_index(old(self).tokens@) - old(self).current, 100int,
    {
        self.parse_binary(6)
    }

    fn parse_binary(&mut self, level: u8) -> (r: Option<Expression>)
        requires
            old(self).wf(),
            level <= 6,
        ensures
            final(self).follows(*old(self), binary(old(self).ts(), old(self).pos(), level as nat)),
            opt_expr(r) == binary(old(self).ts(), old(self).pos(), level as nat).value,
        decreases eof_index(old(self).tokens@) - old(self).current, 11 + 2 * level,
    {
        if level == 0 {
            return self.parse_unary();
        }
        let p = self.current;
        let ghost base = dviews(self.diagnostics@);
        let left = self.parse_binary(level - 1);
        match left {
            None => None,
            Some(l) => {
                if p <= self.current {
                    let ghost acc = binary(old(self).ts(), p as int, (level - 1) as nat).diags;
                    self.parse_binary_rest(level, l, Ghost(base), Ghost(acc))
                } else {
                    Some(l)
                }
            },
        }
    }

    fn parse_binary_rest(
        &mut self,
        level: u8,
        left_in: Expression,
        base: Ghost<Seq<DiagnosticView>>,
        acc_in: Ghost<Seq<DiagnosticView>>,
    ) -> (r: Option<Expression>)
        requires
            old(self).wf(),
            1 <= level <= 6,
            dviews(old(self).diagnostics@) == base@ + acc_in@,
        ensures
            final(self).wf(),
            final(self).tokens@ == old(self).tokens@,
            final(self).current == binary_rest(old(self).ts(), old(self).pos(), level as nat, left_in@, acc_in@).pos,
            dviews(final(self).diagnostics@) == base@ + binary_rest(old(self).ts(), old(self).pos(), level as nat, left_in@, acc_in@).diags,
            opt_expr(r) == binary_rest(old(self).ts(), old(self).pos(), level as nat, left_in@, acc_in@).value,
        decreases eof_index(old(self).tokens@) - old(self).current, 10 + 2 * level,
    {
        let ghost ts = self.tokens@;
        let ghost p0 = self.current as int;
        let ghost left0 = left_in@;
        let mut left = left_in;
        let ghost acc0 = acc_in@;
        let ghost mut acc = acc_in@;
        loop
            invariant
                self.wf(),
                self.tokens@ == ts,
                ts == old(self).tokens@,
                p0 == old(self).current,
                1 <= level <= 6,
                p0 <= self.current,
                acc0 == acc_in@,
                left0 == left_in@,
                dviews(self.diagnostics@) == base@ + acc,
                binary_rest(ts, p0, level as nat, left0, acc0) == binary_rest(ts, self.current as int, level as nat, left@, acc),
            decreases eof_index(ts) - self.current,
        {
            proof {
                lemma_eof_index(ts);
            }
            let op = binary_operator_of(level, self.kind());
            match op {
                None => {
                    assert(binary_operator(level as nat, ts[self.current as int].kind) is None);
                    assert(valid_pos(ts, self.current as int));
                    assert(binary_rest(ts, self.current as int, level as nat, left@, acc).pos == self.current);
                    assert(binary_rest(ts, p0, level as nat, left0, acc0).pos == self.current);
                    assert(binary_rest(old(self).ts(), old(self).pos(), level as nat, left0, acc0).pos == self.current);

                    return Some(left);
                },
                Some(op) => {
                    if self.is_eof() {
                        return Some(left);
                    }
                    let p = self.current;
                    self.advance();
                    let right = self.parse_binary(level - 1);
                    let ghost rr = binary(ts, p + 1, (level - 1) as nat);
                    match right {
                        None => {
                            return None;
                        },
                        Some(r) => {
                            let span = join_spans(left.span(), r.span());
                            let combined = Expression::Binary {
                                left: Box::new(left),
                                operator: op,
                                right: Box::new(r),
                                span,
                            };
                            if p < self.current {
                                left = combined;
                                proof {
                                    acc = acc + rr.diags;
                                }
                            } else {
                                return Some(combined);
                            }
                        },
                    }
                },
            }
        }
    }

    fn parse_unary(&mut self) -> (r: Option<Expression>)
        requires
            old(self).wf(),
        ensures
            final(self).follows(*old(self), unary(old(self).ts(), old(self).pos())),
            opt_expr(r) == unary(old(self).ts(), old(self).pos()).value,
        decreases eof_index(old(self).tokens@) - old(self).current, 5int,
    {
        proof {
            lemma_eof_index(self.tokens@);
        }
        match unary_operator_of(self.kind()) {
            Some(op) => {
                let op_span = self.span();
                self.advance();
                let operand = self.parse_unary();
                match operand {
                    None => None,
                    Some(o) => {
                        let span = join_spans(&op_span, o.span());
                        Some(Expression::Unary { operator: op, operand: Box::new(o), span })
                    },
                }
            },
            None => self.parse_postfix(),
        }
    }

    fn parse_postfix(&mut self) -> (r: Option<Expression>)
        requires
            old(self).wf(),
        ensures
            final(self).follows(*old(self), postfix(old(self).ts(), old(self).pos())),
            opt_expr(r) == postfix(old(self).ts(), old(self).pos()).value,
        decreases eof_index(old(self).tokens@) - old(self).current, 4int,
    {
        let p = self.current;
        let ghost base = dviews(self.diagnostics@);
        let b = self.parse_primary();
        match b {
            None => None,
            Some(b) => {
                if p <= self.current {
                    let ghost acc = primary(old(self).ts(), p as int).diags;
                    self.parse_postfix_rest(b, Ghost(base), Ghost(acc))
                } else {
                    Some(b)
                }
            },
        }
    }

    fn parse_postfix_rest(
        &mut self,
        target_in: Expression,
        base: Ghost<Seq<DiagnosticView>>,
        acc_in: Ghost<Seq<DiagnosticView>>,
    ) -> (r: Option<Expression>)
        requires
            old(self).wf(),
            dviews(old(self).diagnostics@) == base@ + acc_in@,
        ensures
            final(self).wf(),
            final(self).tokens@ == old(self).tokens@,
            final(self).current == postfix_rest(old(self).ts(), old(self).pos(), target_in@, acc_in@).pos,
            dviews(final(self).diagnostics@) == base@ + postfix_rest(old(self).ts(), old(self).pos(), target_in@, acc_in@).diags,
            opt_expr(r) == postfix_rest(old(self).ts(), old(self).pos(), target_in@, acc_in@).value,
        decreases eof_index(old(self).tokens@) - old(self).current, 3int,
    {
        let ghost ts = self.tokens@;
        let ghost p0 = self.current as int;
        let ghost target0 = target_in@;
        let mut target = target_in;
        let ghost acc0 = acc_in@;
        let ghost mut acc = acc_in@;
        loop
            invariant
                self.wf(),
                self.tokens@ == ts,
                ts == old(self).tokens@,
                p0 == old(self).current,
                p0 <= self.current,
                acc0 == acc_in@,
                target0 == target_in@,
                dviews(self.diagnostics@) == base@ + acc,
                postfix_rest(ts, p0, target0, acc0) == postfix_rest(ts, self.current as int, target@, acc),
            decreases eof_index(ts) - self.current,
        {
            proof {
                lemma_eof_index(ts);
            }
            let p = self.current;
            match self.kind() {
                TokenKind::Dot => {
                    self.advance();
                    let member = self.expect_identifier("expected a member name after `.`");
                    match member {
                        None => {
                            return None;
                        },
                        Some((name, name_span)) => {
                            let span = join_spans(target.span(), &name_span);
                            target = Expression::MemberAccess {
                                object: Box::new(target),
                                member: name,
                                member_span: name_span,
                                span,
                            };
                            assert(dviews(self.diagnostics@) =~= base@ + acc);
                        },
                    }
                },
                TokenKind::LeftParen => {
                    self.advance();
                    let ghost before_args = dviews(self.diagnostics@);
                    let args = self.parse_list(&TokenKind::RightParen);
                    let ghost ra = list(ts, p + 1, TokenKind::RightParen, seq![], seq![]);
                    match args {
                        None => {
                            return None;
                        },
                        Some(arguments) => {
                            let close = self.expect_kind(&TokenKind::RightParen, "expected `)` to close the argument list");
                            match close {
                                None => {
                                    return None;
                                },
                                Some(close_span) => {
                                    let span = join_spans(target.span(), &close_span);
                                    proof {
                                        lemma_call_view(target, arguments, span);
                                    }
                                    let call = Expression::Call { callee: Box::new(target), arguments, span };
                                    if p < self.current {
                                        target = call;
                                        proof {
                                            acc = acc + ra.diags;
                                            assert(dviews(self.diagnostics@) =~= base@ + acc);
                                        }
                                    } else {
                                        return None;
                                    }
                                },
                            }
                        },
                    }
                },
                TokenKind::LeftBracket => {
                    self.advance();
                    let index = self.parse_expression();
                    let ghost ri = expression(ts, p + 1);
                    match index {
                        None => {
                            return None;
                        },
                        Some(i) => {
                            let close = self.expect_kind(&TokenKind::RightBracket, "expected `]` to close the index");
                            match close {
                                None => {
                                    return None;
                                },
                                Some(close_span) => {
                                    let span = join_spans(target.span(), &close_span);
                                    let ix = Expression::Index { object: Box::new(target), index: Box::new(i), span };
                                    if p < self.current {
                                        target = ix;
                                        proof {
                                            acc = acc + ri.diags;
                                            assert(dviews(self.diagnostics@) =~= base@ + acc);
                                        }
                                    } else {
                                        return None;
                                    }
                                },
                            }
                        },
                    }
                },
                _ => {
                    return Some(target);
                },
            }
        }
    }

    fn parse_list(&mut self, closer: &TokenKind) -> (r: Option<Vec<Expression>>)
        requires
            old(self).wf(),
        ensures
            final(self).follows(*old(self), list(old(self).ts(), old(self).pos(), *closer, seq![], seq![])),
            match r {
                Some(v) => list(old(self).ts(), old(self).pos(), *closer, seq![], seq![]).value == Some(exprs_view(v@)),
                None => list(old(self).ts(), old(self).pos(), *closer, seq![], seq![]).value is None,
            },
        decreases eof_index(old(self).tokens@) - old(self).current, 102int,
    {
        let ghost ts = self.tokens@;
        let ghost p0 = self.current as int;
        let ghost base = dviews(self.diagnostics@);
        let mut items: Vec<Expression> = Vec::new();
        let ghost mut acc: Seq<DiagnosticView> = seq![];
        assert(base + acc =~= base);
        assert(exprs_view(items@) =~= seq![]);
        loop
            invariant
                self.wf(),
                self.tokens@ == ts,
                ts == old(self).tokens@,
                p0 == old(self).current,
                p0 <= self.current,
                base == dviews(old(self).diagnostics@),
                dviews(self.diagnostics@) == base + acc,
                list(ts, p0, *closer, seq![], seq![]) == list(ts, self.current as int, *closer, exprs_view(items@), acc),
            decreases eof_index(ts) - self.current,
        {
            proof {
                lemma_eof_index(ts);
            }
            if self.at(closer) {
                return Some(items);
            }
            let p = self.current;
            let item = self.parse_expression();
            let ghost ri = expression(ts, p as int);
            match item {
                None => {
                    assert(dviews(self.diagnostics@) =~= base + (acc + ri.diags));
                    return None;
                },
                Some(e) => {
                    let ghost old_items = items@;
                    items.push(e);
                    assert(exprs_view(items@) =~= exprs_view(old_items).push(e@));
                    proof {
                        acc = acc + ri.diags;
                        assert(dviews(self.diagnostics@) =~= base + acc);
                    }
                    if self.at(&TokenKind::Comma) && p <= self.current {
                        self.advance();
                    } else {
                        return Some(items);
                    }
                },
            }
        }
    }

    fn parse_entry(&mut self) -> (r: Option<ObjectEntry>)
        requires
            old(self).wf(),
        ensures
            final(self).follows(*old(self), entry(old(self).ts(), old(self).pos())),
            match r {
                Some(e) => entry(old(self).ts(), old(self).pos()).value == Some(e@),
                None => entry(old(self).ts(), old(self).pos()).value is None,
            },
        decreases eof_index(old(self).tokens@) - old(self).current, 101int,
    {
        proof {
            lemma_eof_index(self.tokens@);
        }
        let key = self.expect_identifier("expected an object key");
        match key {
            None => None,
            Some((name, key_span)) => {
                let colon = self.expect_kind(&TokenKind::Colon, "expected `:` after the object key");
                match colon {
                    None => {
                        assert(dviews(self.diagnostics@) =~= dviews(old(self).diagnostics@) + expect_kind(old(self).ts(), old(self).pos() + 1, TokenKind::Colon, "expected `:` after the object key"@).diags);
                        None
                    },
                    Some(_) => {
                        let value = self.parse_expression();
                        match value {
                            None => {
                                assert(dviews(self.diagnostics@) =~= dviews(old(self).diagnostics@) + expression(old(self).ts(), old(self).pos() + 2).diags);
                                None
                            },
                            Some(v) => {
                                assert(dviews(self.diagnostics@) =~= dviews(old(self).diagnostics@) + expression(old(self).ts(), old(self).pos() + 2).diags);
                                let span = join_spans(&key_span, v.span());
                                Some(ObjectEntry { key: name, key_span, value: v, span })
                            },
                        }
                    },
                }
            },
        }
    }

    fn parse_entries(&mut self) -> (r: Option<Vec<ObjectEntry>>)
        requires
            old(self).wf(),
        ensures
            final(self).follows(*old(self), entries(old(self).ts(), old(self).pos(), seq![], seq![])),
            match r {
                Some(v) => entries(old(self).ts(), old(self).pos(), seq![], seq![]).value == Some(entries_view(v@)),
                None => entries(old(self).ts(), old(self).pos(), seq![], seq![]).value is None,
            },
        decreases eof_index(old(self).tokens@) - old(self).current, 102int,
    {
        let ghost ts = self.tokens@;
        let ghost p0 = self.current as int;
        let ghost base = dviews(self.diagnostics@);
        let mut items: Vec<ObjectEntry> = Vec::new();
        let ghost mut acc: Seq<DiagnosticView> = seq![];
        assert(base + acc =~= base);
        assert(entries_view(items@) =~= seq![]);
        loop
            invariant
                self.wf(),
                self.tokens@ == ts,
                ts == old(self).tokens@,
                p0 == old(self).current,
                p0 <= self.current,
                base == dviews(old(self).diagnostics@),
                dviews(self.diagnostics@) == base + acc,
                entries(ts, p0, seq![], seq![]) == entries(ts, self.current as int, entries_view(items@), acc),
            decreases eof_index(ts) - self.current,
        {
            proof {
                lemma_eof_index(ts);
            }
            if self.at(&TokenKind::RightBrace) {
                return Some(items);
            }
            let p = self.current;
            let e = self.parse_entry();
            let ghost re = entry(ts, p as int);
            match e {
                None => {
                    assert(dviews(self.diagnostics@) =~= base + (acc + re.diags));
                    return None;
                },
                Some(x) => {
                    let ghost old_items = items@;
                    items.push(x);
                    assert(entries_view(items@) =~= entries_view(old_items).push(x@));
                    proof {
                        acc = acc + re.diags;
                        assert(dviews(self.diagnostics@) =~= base + acc);
                    }
                    if self.at(&TokenKind::Comma) && p <= self.current {
                        self.advance();
                    } else {
                        return Some(items);
                    }
                },
            }
        }
    }

    fn parse_primary(&mut self) -> (r: Option<Expression>)
        requires
            old(self).wf(),
        ensures
            final(self).follows(*old(self), primary(old(self).ts(), old(self).pos())),
            opt_expr(r) == primary(old(self).ts(), old(self).pos()).value,
        decreases eof_index(old(self).tokens@) - old(self).current, 2int,
    {
        proof {
            lemma_eof_index(self.tokens@);
        }
        let ghost ts = self.tokens@;
        let ghost p = self.current as int;
        let span = self.span();
        let literal = match self.kind() {
            TokenKind::StringLiteral(value) => Some(Expression::StringLiteral { value: value.clone(), span }),
            TokenKind::IntegerLiteral(value) => Some(Expression::IntegerLiteral { value: *value, span }),
            TokenKind::True => Some(Expression::BooleanLiteral { value: true, span }),
            TokenKind::False => Some(Expression::BooleanLiteral { value: false, span }),
            TokenKind::Null => Some(Expression::NullLiteral { span }),
            _ => None,
        };
        assert(literal is Some <==> (
            ts[p].kind is StringLiteral || ts[p].kind is IntegerLiteral || ts[p].kind is True
                || ts[p].kind is False || ts[p].kind is Null));
        assert(literal is Some ==> opt_expr(literal) == primary(ts, p).value);
        match literal {
            Some(e) => {
                self.advance();
                assert(dviews(self.diagnostics@) =~= dviews(old(self).diagnostics@) + seq![]);
                return Some(e);
            },
            None => {},
        }
        let open = self.span();
        match self.kind() {
            TokenKind::LeftParen => {
                self.advance();
                let inner = self.parse_expression();
                match inner {
                    None => None,
                    Some(e) => {
                        let close = self.expect_kind(&TokenKind::RightParen, "expected `)` to close the grouped expression");
                        match close {
                            None => {
                                assert(dviews(self.diagnostics@) =~= dviews(old(self).diagnostics@) + primary(ts, p).diags);
                                None
                            },
                            Some(c) => {
                                let span = join_spans(&open, &c);
                                assert(dviews(self.diagnostics@) =~= dviews(old(self).diagnostics@) + expression(ts, p + 1).diags);
                                Some(Expression::Grouped { expression: Box::new(e), span })
                            },
                        }
                    },
                }
            },
            TokenKind::LeftBracket => {
                self.advance();
                let items = self.parse_list(&TokenKind::RightBracket);
                match items {
                    None => None,
                    Some(elements) => {
                        let close = self.expect_kind(&TokenKind::RightBracket, "expected `]` to close the array");
                        match close {
                            None => {
                                assert(dviews(self.diagnostics@) =~= dviews(old(self).diagnostics@) + primary(ts, p).diags);
                                None
                            },
                            Some(c) => {
                                let span = join_spans(&open, &c);
                                proof {
                                    lemma_array_view(elements, span);
                                }
                                assert(dviews(self.diagnostics@) =~= dviews(old(self).diagnostics@) + list(ts, p + 1, TokenKind::RightBracket, seq![], seq![]).diags);
                                Some(Expression::ArrayLiteral { elements, span })
                            },
                        }
                    },
                }
            },
            TokenKind::LeftBrace => {
                self.advance();
                let items = self.parse_entries();
                match items {
                    None => None,
                    Some(es) => {
                        let close = self.expect_kind(&TokenKind::RightBrace, "expected `}` to close the object");
                        match close {
                            None => {
                                assert(dviews(self.diagnostics@) =~= dviews(old(self).diagnostics@) + primary(ts, p).diags);
                                None
                            },
                            Some(c) => {
                                let span = join_spans(&open, &c);
                                proof {
                                    lemma_object_view(es, span);
                                }
                                assert(dviews(self.diagnostics@) =~= dviews(old(self).diagnostics@) + entries(ts, p + 1, seq![], seq![]).diags);
                                Some(Expression::ObjectLiteral { entries: es, span })
                            },
                        }
                    },
                }
            },
            _ => match name_text(self.kind()) {
                Some(name) => {
                    self.advance();
                    assert(dviews(self.diagnostics@) =~= dviews(old(self).diagnostics@) + seq![]);
                    Some(Expression::Identifier { name, span: open })
                },
                None => {
                    let d = Diagnostic::error("expected an expression", self.span()).with_help(
                        "use a literal, a name, an array `[...]`, an object `{...}`, or a parenthesized expression",
                    );
                    self.report(d);
                    self.advance();
                    None
                },
            },
        }
    }
}

pub open spec fn params_view(ps: Seq<Parameter>) -> Seq<ParamV> {
    ps.map_values(|x: Parameter| x@)
}

pub open spec fn fields_view(fs: Seq<ModelField>) -> Seq<FieldV> {
    fs.map_values(|x: ModelField| x@)
}

pub open spec fn opt_type_view(t: Option<TypeReference>) -> Option<TypeRefV> {
    match t {
        Some(x) => Some(x@),
        None => None,
    }
}

pub open spec fn stmts_view(ss: Seq<Statement>) -> Seq<StmtV> {
    ss.map_values(|x: Statement| x@)
}

pub open spec fn opt_stmt(s: Option<Statement>) -> Option<StmtV> {
    match s {
        Some(x) => Some(x@),
        None => None,
    }
}

/// The messages of a declaration with methods, as string slices.
struct Messages {
    name: &'static str,
    target: Option<(TokenKind, &'static str, &'static str)>,
    open: &'static str,
    method: &'static str,
    close: &'static str,
}

impl Messages {
    spec fn spec_of(&self) -> MethodsMessages {
        MethodsMessages {
            name: self.name@,
            target: match self.target {
                Some((k, a, b)) => Some((k, a@, b@)),
                None => None,
            },
            open: self.open@,
            method: self.method@,
            close: self.close@,
        }
    }
}

fn messages(which: u8) -> (m: Messages)
    ensures
        m.spec_of() == messages_for(which as nat),
{
    if which == 2 {
        Messages {
            name: "expected a controller name",
            target: None,
            open: "expected `{` after the controller name",
            method: "expected a controller method name",
            close: "expected `}` to close the controller",
        }
    } else if which == 3 {
        Messages {
            name: "expected a middleware name",
            target: None,
            open: "expected `{` after the middleware name",
            method: "expected a middleware method name",
            close: "expected `}` to close the middleware",
        }
    } else if which == 4 {
        Messages {
            name: "expected a migration name",
            target: None,
            open: "expected `{` after the migration name",
            method: "expected a migration method name",
            close: "expected `}` to close the migration",
        }
    } else if which == 5 {
        Messages {
            name: "expected a policy name",
            target: Some((TokenKind::For, "expected `for` after the policy name", "expected a model name after `for`")),
            open: "expected `{` after the policy target",
            method: "expected a policy method name",
            close: "expected `}` to close the policy",
        }
    } else if which == 7 {
        Messages {
            name: "expected a listener name",
            target: Some((TokenKind::Listens, "expected `listens` after the listener name", "expected an event name after `listens`")),
            open: "expected `{` after the listened event",
            method: "expected a listener method name",
            close: "expected `}` to close the listener",
        }
    } else if which == 8 {
        Messages {
            name: "expected a notification name",
            target: None,
            open: "expected `{` after the notification name",
            method: "expected a notification method name",
            close: "expected `}` to close the notification",
        }
    } else {
        Messages {
            name: "expected a mail name",
            target: None,
            open: "expected `{` after the mail name",
            method: "expected a mail method name",
            close: "expected `}` to close the mail",
        }
    }
}

fn declaration_keyword_of(k: &TokenKind) -> (w: u8)
    ensures
        w == declaration_keyword(*k),
{
    match k {
        TokenKind::Model => 1,
        TokenKind::Controller => 2,
        TokenKind::Middleware => 3,
        TokenKind::Migration => 4,
        TokenKind::Policy => 5,
        TokenKind::Event => 6,
        TokenKind::Listener => 7,
        TokenKind::Notification => 8,
        TokenKind::Mail => 9,
        _ => 0,
    }
}

impl Parser {
    fn parse_let(&mut self) -> (r: Option<Statement>)
        requires
            old(self).wf(),
            old(self).tokens@[old(self).current as int].kind is Let,
        ensures
            final(self).follows(*old(self), let_statement(old(self).ts(), old(self).pos())),
            opt_stmt(r) == let_statement(old(self).ts(), old(self).pos()).value,
    {
        let start = self.span();
        self.advance();
        let name = self.expect_identifier("expected a variable name after `let`");
        match name {
            None => None,
            Some((n, name_span)) => {
                let eq = self.expect_kind(&TokenKind::Equal, "expected `=` after the variable name");
                match eq {
                    None => None,
                    Some(_) => {
                        let init = self.parse_expression();
                        match init {
                            None => None,
                            Some(e) => {
                                let span = join_spans(&start, e.span());
                                Some(Statement::Let(LetStatement { name: n, name_span, initializer: e, span }))
                            },
                        }
                    },
                }
            },
        }
    }

    fn parse_return(&mut self) -> (r: Option<Statement>)
        requires
            old(self).wf(),
            old(self).tokens@[old(self).current as int].kind is Return,
        ensures
            final(self).follows(*old(self), return_statement(old(self).ts(), old(self).pos())),
            opt_stmt(r) == return_statement(old(self).ts(), old(self).pos()).value,
    {
        let start = self.span();
        self.advance();
        let e = self.parse_expression();
        match e {
            None => None,
            Some(x) => {
                let span = join_spans(&start, x.span());
                Some(Statement::Return(ReturnStatement { expression: x, span }))
            },
        }
    }

    fn parse_statements(&mut self) -> (r: Vec<Statement>)
        requires
            old(self).wf(),
        ensures
            final(self).follows(*old(self), statements(old(self).ts(), old(self).pos(), seq![], seq![])),
            statements(old(self).ts(), old(self).pos(), seq![], seq![]).value == Some(stmts_view(r@)),
    {
        let ghost ts = self.tokens@;
        let ghost p0 = self.current as int;
        let ghost base = dviews(self.diagnostics@);
        let mut items: Vec<Statement> = Vec::new();
        let ghost mut acc: Seq<DiagnosticView> = seq![];
        assert(base + acc =~= base);
        assert(stmts_view(items@) =~= seq![]);
        loop
            invariant
                self.wf(),
                self.tokens@ == ts,
                ts == old(self).tokens@,
                p0 == old(self).current,
                base == dviews(old(self).diagnostics@),
                dviews(self.diagnostics@) == base + acc,
                statements(ts, p0, seq![], seq![]) == statements(ts, self.current as int, stmts_view(items@), acc),
            decreases eof_index(ts) - self.current,
        {
            proof {
                lemma_eof_index(ts);
            }
            if self.at(&TokenKind::RightBrace) || self.is_eof() {
                return items;
            }
            let p = self.current;
            let is_let = match self.kind() {
                TokenKind::Let => true,
                _ => false,
            };
            let is_return = match self.kind() {
                TokenKind::Return => true,
                _ => false,
            };
            if is_let || is_return {
                let st = if is_let { self.parse_let() } else { self.parse_return() };
                let ghost rs = if is_let { let_statement(ts, p as int) } else { return_statement(ts, p as int) };
                let ghost old_items = items@;
                match st {
                    Some(x) => {
                        items.push(x);
                        assert(stmts_view(items@) =~= stmts_view(old_items).push(x@));
                    },
                    None => {},
                }
                proof {
                    acc = acc + rs.diags;
                    assert(dviews(self.diagnostics@) =~= base + acc);
                }
                if !(p < self.current) {
                    return items;
                }
            } else {
                let d = Diagnostic::error("expected a statement", self.span()).with_help(
                    "method bodies support `let` and `return` statements",
                );
                self.report(d);
                self.advance();
                proof {
                    acc = acc.push(d@);
                    assert(dviews(self.diagnostics@) =~= base + acc);
                }
            }
        }
    }

    fn parse_block(&mut self) -> (r: Option<(Vec<Statement>, Span)>)
        requires
            old(self).wf(),
        ensures
            final(self).follows(*old(self), block(old(self).ts(), old(self).pos())),
            match r {
                Some((v, span)) => block(old(self).ts(), old(self).pos()).value == Some((stmts_view(v@), span)),
                None => block(old(self).ts(), old(self).pos()).value is None,
            },
    {
        let ghost ts = self.tokens@;
        let ghost p = self.current as int;
        let open = self.expect_kind(&TokenKind::LeftBrace, "expected `{` to start the method body");
        match open {
            None => None,
            Some(open_span) => {
                let body = self.parse_statements();
                let close = self.expect_kind(&TokenKind::RightBrace, "expected `}` to close the method body");
                assert(dviews(self.diagnostics@) =~= dviews(old(self).diagnostics@) + block(ts, p).diags);
                match close {
                    None => None,
                    Some(close_span) => Some((body, join_spans(&open_span, &close_span))),
                }
            },
        }
    }

    fn parse_parameter_list(&mut self) -> (r: Option<Vec<Parameter>>)
        requires
            old(self).wf(),
        ensures
            final(self).follows(*old(self), parameter_list(old(self).ts(), old(self).pos(), seq![])),
            match r {
                Some(v) => parameter_list(old(self).ts(), old(self).pos(), seq![]).value == Some(params_view(v@)),
                None => parameter_list(old(self).ts(), old(self).pos(), seq![]).value is None,
            },
    {
        let ghost ts = self.tokens@;
        let ghost p0 = self.current as int;
        let mut items: Vec<Parameter> = Vec::new();
        assert(params_view(items@) =~= seq![]);
        loop
            invariant
                self.wf(),
                self.tokens@ == ts,
                ts == old(self).tokens@,
                p0 == old(self).current,
                dviews(self.diagnostics@) == dviews(old(self).diagnostics@),
                parameter_list(ts, p0, seq![]) == parameter_list(ts, self.current as int, params_view(items@)),
            decreases eof_index(ts) - self.current,
        {
            proof {
                lemma_eof_index(ts);
            }
            let p = self.current;
            let name = self.expect_identifier("expected a parameter name");
            match name {
                None => {
                    return None;
                },
                Some((n, name_span)) => {
                    let param = if self.at(&TokenKind::Colon) {
                        self.advance();
                        let ty = self.expect_identifier("expected a parameter type");
                        match ty {
                            None => {
                                return None;
                            },
                            Some((ty_name, ty_span)) => {
                                let span = join_spans(&name_span, &ty_span);
                                Parameter {
                                    name: n,
                                    name_span,
                                    type_reference: Some(TypeReference { name: ty_name, span: ty_span }),
                                    span,
                                }
                            },
                        }
                    } else {
                        let span = name_span.duplicate();
                        Parameter { name: n, name_span, type_reference: None, span }
                    };
                    let ghost old_items = items@;
                    items.push(param);
                    assert(params_view(items@) =~= params_view(old_items).push(param@));
                    if self.at(&TokenKind::Comma) && p <= self.current {
                        self.advance();
                    } else {
                        return Some(items);
                    }
                },
            }
        }
    }

    fn parse_parameters(&mut self) -> (r: Option<Vec<Parameter>>)
        requires
            old(self).wf(),
        ensures
            final(self).follows(*old(self), parameters(old(self).ts(), old(self).pos())),
            match r {
                Some(v) => parameters(old(self).ts(), old(self).pos()).value == Some(params_view(v@)),
                None => parameters(old(self).ts(), old(self).pos()).value is None,
            },
    {
        if self.at(&TokenKind::RightParen) {
            assert(dviews(self.diagnostics@) =~= dviews(old(self).diagnostics@) + seq![]);
            let v: Vec<Parameter> = Vec::new();
            assert(params_view(v@) =~= seq![]);
            Some(v)
        } else {
            self.parse_parameter_list()
        }
    }

    fn parse_method(&mut self, name_message: &str) -> (r: Option<ControllerMethod>)
        requires
            old(self).wf(),
        ensures
            final(self).follows(*old(self), method(old(self).ts(), old(self).pos(), name_message@)),
            match r {
                Some(m) => method(old(self).ts(), old(self).pos(), name_message@).value == Some(m@),
                None => method(old(self).ts(), old(self).pos(), name_message@).value is None,
            },
    {
        let ghost ts = self.tokens@;
        let ghost p = self.current as int;
        let ghost before = dviews(self.diagnostics@);
        let name = self.expect_identifier(name_message);
        match name {
            None => {
                assert(dviews(self.diagnostics@) =~= before + method(ts, p, name_message@).diags);
                None
            },
            Some((n, name_span)) => {
                let open = self.expect_kind(&TokenKind::LeftParen, "expected `(` after the method name");
                match open {
                    None => {
                assert(dviews(self.diagnostics@) =~= before + method(ts, p, name_message@).diags);
                None
            },
                    Some(_) => {
                        let params = self.parse_parameters();
                        match params {
                            None => {
                assert(dviews(self.diagnostics@) =~= before + method(ts, p, name_message@).diags);
                None
            },
                            Some(ps) => {
                                let close = self.expect_kind(&TokenKind::RightParen, "expected `)` after the method parameters");
                                match close {
                                    None => {
                assert(dviews(self.diagnostics@) =~= before + method(ts, p, name_message@).diags);
                None
            },
                                    Some(_) => {
                                        let body = self.parse_block();
                                        match body {
                                            None => {
                assert(dviews(self.diagnostics@) =~= before + method(ts, p, name_message@).diags);
                None
            },
                                            Some((stmts, block_span)) => {
                                                let span = join_spans(&name_span, &block_span);
                                                let m = ControllerMethod { name: n, name_span, parameters: ps, body: stmts, span };
                                                assert(m@.body =~= stmts_view(m.body@));
                                                assert(m@.parameters =~= params_view(m.parameters@));
                                                assert(dviews(self.diagnostics@) =~= before + method(ts, p, name_message@).diags);
                                                Some(m)
                                            },
                                        }
                                    },
                                }
                            },
                        }
                    },
                }
            },
        }
    }

    fn skip_member(&mut self)
        requires
            old(self).wf(),
        ensures
            final(self).wf(),
            final(self).tokens@ == old(self).tokens@,
            final(self).diagnostics@ == old(self).diagnostics@,
            final(self).current == skip_member(old(self).ts(), old(self).pos(), 0),
    {
        let ghost ts = self.tokens@;
        let ghost p0 = self.current as int;
        let mut depth: usize = 0;
        loop
            invariant
                self.wf(),
                self.tokens@ == ts,
                ts == old(self).tokens@,
                self.diagnostics@ == old(self).diagnostics@,
                depth <= self.current,
                skip_member(ts, p0, 0) == skip_member(ts, self.current as int, depth as nat),
                p0 == old(self).current,
            decreases eof_index(ts) - self.current,
        {
            proof {
                lemma_eof_index(ts);
            }
            if self.is_eof() {
                return;
            }
            match self.kind() {
                TokenKind::LeftBrace => {
                    depth = depth + 1;
                    self.advance();
                },
                TokenKind::RightBrace => {
                    if depth > 0 {
                        depth = depth - 1;
                        self.advance();
                    } else {
                        return;
                    }
                },
                TokenKind::Identifier(_) => {
                    if depth == 0 {
                        return;
                    }
                    self.advance();
                },
                _ => {
                    self.advance();
                },
            }
        }
    }

    #[verifier::rlimit(40)]
    fn parse_methods(&mut self, name_message: &str) -> (r: Vec<ControllerMethod>)
        requires
            old(self).wf(),
        ensures
            final(self).follows(*old(self), methods(old(self).ts(), old(self).pos(), name_message@, seq![], seq![])),
            methods(old(self).ts(), old(self).pos(), name_message@, seq![], seq![]).value == Some(methods_view(r)),
    {
        let ghost ts = self.tokens@;
        let ghost p0 = self.current as int;
        let ghost base = dviews(self.diagnostics@);
        let mut items: Vec<ControllerMethod> = Vec::new();
        let ghost mut acc: Seq<DiagnosticView> = seq![];
        assert(base + acc =~= base);
        assert(methods_view(items) =~= seq![]);
        loop
            invariant
                self.wf(),
                self.tokens@ == ts,
                ts == old(self).tokens@,
                p0 == old(self).current,
                base == dviews(old(self).diagnostics@),
                dviews(self.diagnostics@) == base + acc,
                methods(ts, p0, name_message@, seq![], seq![]) == methods(ts, self.current as int, name_message@, methods_view(items), acc),
            decreases eof_index(ts) - self.current,
        {
            proof {
                lemma_eof_index(ts);
            }
            if self.at(&TokenKind::RightBrace) || self.is_eof() {
                return items;
            }
            let p = self.current;
            let m = self.parse_method(name_message);
            let ghost rm = method(ts, p as int, name_message@);
            let ghost old_items = items;
            match m {
                Some(x) => {
                    items.push(x);
                    assert(methods_view(items) =~= methods_view(old_items).push(x@));
                },
                None => {
                    self.skip_member();
                },
            }
            proof {
                acc = acc + rm.diags;
                assert(dviews(self.diagnostics@) =~= base + acc);
            }
            if !(p < self.current) {
                return items;
            }
        }
    }

    fn parse_field(&mut self, owner: &String) -> (r: Option<ModelField>)
        requires
            old(self).wf(),
        ensures
            final(self).follows(*old(self), field(old(self).ts(), old(self).pos(), owner@)),
            match r {
                Some(f) => field(old(self).ts(), old(self).pos(), owner@).value == Some(f@),
                None => field(old(self).ts(), old(self).pos(), owner@).value is None,
            },
    {
        let name = self.expect_identifier("expected a field name");
        match name {
            None => None,
            Some((n, name_span)) => {
                let colon = self.expect_kind(&TokenKind::Colon, "expected `:` after the field name");
                match colon {
                    None => None,
                    Some(_) => {
                        proof {
                            lemma_eof_index(self.tokens@);
                        }
                        let ty_span = self.span();
                        match name_text(self.kind()) {
                            Some(ty_name) => {
                                self.advance();
                                assert(dviews(self.diagnostics@) =~= dviews(old(self).diagnostics@) + seq![]);
                                let span = join_spans(&name_span, &ty_span);
                                Some(ModelField {
                                    name: n,
                                    name_span,
                                    type_reference: TypeReference { name: ty_name, span: ty_span },
                                    span,
                                })
                            },
                            None => {
                                let mut help = owned("try `");
                                push_str(&mut help, n.as_str());
                                push_str(&mut help, ": string` on `");
                                push_str(&mut help, owner.as_str());
                                push_str(&mut help, "`");
                                let d = Diagnostic::error("expected a field type", ty_span).with_help_owned(help);
                                assert(help@ =~= "try `"@ + n@ + ": string` on `"@ + owner@ + "`"@);
                                self.report(d);
                                self.advance();
                                None
                            },
                        }
                    },
                }
            },
        }
    }

    fn skip_field(&mut self)
        requires
            old(self).wf(),
        ensures
            final(self).wf(),
            final(self).tokens@ == old(self).tokens@,
            final(self).diagnostics@ == old(self).diagnostics@,
            final(self).current == skip_field(old(self).ts(), old(self).pos()),
    {
        let ghost ts = self.tokens@;
        let ghost p0 = self.current as int;
        loop
            invariant
                self.wf(),
                self.tokens@ == ts,
                ts == old(self).tokens@,
                self.diagnostics@ == old(self).diagnostics@,
                p0 == old(self).current,
                skip_field(ts, p0) == skip_field(ts, self.current as int),
            decreases eof_index(ts) - self.current,
        {
            proof {
                lemma_eof_index(ts);
            }
            let stop = match self.kind() {
                TokenKind::Eof | TokenKind::RightBrace => true,
                TokenKind::Identifier(_) => true,
                _ => false,
            };
            if stop {
                return;
            }
            self.advance();
        }
    }

    fn parse_fields(&mut self, owner: &String) -> (r: Vec<ModelField>)
        requires
            old(self).wf(),
        ensures
            final(self).follows(*old(self), fields(old(self).ts(), old(self).pos(), owner@, seq![], seq![])),
            fields(old(self).ts(), old(self).pos(), owner@, seq![], seq![]).value == Some(fields_view(r@)),
    {
        let ghost ts = self.tokens@;
        let ghost p0 = self.current as int;
        let ghost base = dviews(self.diagnostics@);
        let mut items: Vec<ModelField> = Vec::new();
        let ghost mut acc: Seq<DiagnosticView> = seq![];
        assert(base + acc =~= base);
        assert(fields_view(items@) =~= seq![]);
        loop
            invariant
                self.wf(),
                self.tokens@ == ts,
                ts == old(self).tokens@,
                p0 == old(self).current,
                base == dviews(old(self).diagnostics@),
                dviews(self.diagnostics@) == base + acc,
                fields(ts, p0, owner@, seq![], seq![]) == fields(ts, self.current as int, owner@, fields_view(items@), acc),
            decreases eof_index(ts) - self.current,
        {
            proof {
                lemma_eof_index(ts);
            }
            if self.at(&TokenKind::RightBrace) || self.is_eof() {
                return items;
            }
            let p = self.current;
            let f = self.parse_field(owner);
            let ghost rf = field(ts, p as int, owner@);
            match f {
                Some(x) => {
                    let ghost old_items = items@;
                    items.push(x);
                    assert(fields_view(items@) =~= fields_view(old_items).push(x@));
                },
                None => {
                    self.skip_field();
                },
            }
            proof {
                acc = acc + rf.diags;
                assert(dviews(self.diagnostics@) =~= base + acc);
            }
            if !(p < self.current) {
                return items;
            }
        }
    }
}

pub open spec fn target_spec(t: Option<(TokenKind, &'static str, &'static str)>) -> Option<(TokenKind, Seq<char>, Seq<char>)> {
    match t {
        Some((k, a, b)) => Some((k, a@, b@)),
        None => None,
    }
}

impl Parser {
    fn parse_fields_declaration(
        &mut self,
        name_message: &str,
        open_message: &str,
        close_message: &str,
    ) -> (r: Option<(String, Span, Vec<ModelField>, Span)>)
        requires
            old(self).wf(),
            !at_eof(old(self).tokens@, old(self).current as int),
        ensures
            final(self).follows(
                *old(self),
                fields_declaration(old(self).ts(), old(self).pos(), name_message@, open_message@, close_message@),
            ),
            match r {
                Some((n, ns, fs, sp)) => fields_declaration(
                    old(self).ts(),
                    old(self).pos(),
                    name_message@,
                    open_message@,
                    close_message@,
                ).value == Some(FieldsV { name: n@, name_span: ns, fields: fields_view(fs@), span: sp }),
                None => fields_declaration(
                    old(self).ts(),
                    old(self).pos(),
                    name_message@,
                    open_message@,
                    close_message@,
                ).value is None,
            },
    {
        let ghost ts = self.tokens@;
        let ghost p = self.current as int;
        let ghost before = dviews(self.diagnostics@);
        let start = self.span();
        self.advance();
        let name = self.expect_identifier(name_message);
        match name {
            None => None,
            Some((n, name_span)) => {
                let open = self.expect_kind(&TokenKind::LeftBrace, open_message);
                match open {
                    None => None,
                    Some(_) => {
                        let body = self.parse_fields(&n);
                        let close = self.expect_kind(&TokenKind::RightBrace, close_message);
                        assert(dviews(self.diagnostics@) =~= before + fields_declaration(ts, p, name_message@, open_message@, close_message@).diags);
                        match close {
                            None => None,
                            Some(close_span) => {
                                let span = join_spans(&start, &close_span);
                                Some((n, name_span, body, span))
                            },
                        }
                    },
                }
            },
        }
    }

    fn parse_target(&mut self, target: &Option<(TokenKind, &'static str, &'static str)>) -> (r: Option<Option<TypeReference>>)
        requires
            old(self).wf(),
        ensures
            final(self).follows(*old(self), declaration_target(old(self).ts(), old(self).pos(), target_spec(*target))),
            match r {
                Some(t) => declaration_target(old(self).ts(), old(self).pos(), target_spec(*target)).value
                    == Some(opt_type_view(t)),
                None => declaration_target(old(self).ts(), old(self).pos(), target_spec(*target)).value is None,
            },
    {
        match target {
            None => {
                assert(dviews(self.diagnostics@) =~= dviews(old(self).diagnostics@) + seq![]);
                Some(None)
            },
            Some((keyword, keyword_message, name_message)) => {
                let k = self.expect_kind(keyword, keyword_message);
                match k {
                    None => None,
                    Some(_) => {
                        let t = self.expect_identifier(name_message);
                        match t {
                            None => None,
                            Some((n, span)) => {
                                assert(dviews(self.diagnostics@) =~= dviews(old(self).diagnostics@) + seq![]);
                                Some(Some(TypeReference { name: n, span }))
                            },
                        }
                    },
                }
            },
        }
    }

    fn parse_methods_declaration(&mut self, msgs: &Messages) -> (r: Option<(String, Span, Option<TypeReference>, Vec<ControllerMethod>, Span)>)
        requires
            old(self).wf(),
            !at_eof(old(self).tokens@, old(self).current as int),
        ensures
            final(self).follows(*old(self), methods_declaration(old(self).ts(), old(self).pos(), msgs.spec_of())),
            match r {
                Some((n, ns, t, ms, sp)) => methods_declaration(old(self).ts(), old(self).pos(), msgs.spec_of()).value
                    == Some(MethodsV { name: n@, name_span: ns, target: opt_type_view(t), methods: methods_view(ms), span: sp }),
                None => methods_declaration(old(self).ts(), old(self).pos(), msgs.spec_of()).value is None,
            },
    {
        let ghost ts = self.tokens@;
        let ghost p = self.current as int;
        let ghost before = dviews(self.diagnostics@);
        let start = self.span();
        self.advance();
        let name = self.expect_identifier(msgs.name);
        match name {
            None => None,
            Some((n, name_span)) => {
                proof {
                    assert(target_spec(msgs.target) == msgs.spec_of().target);
                }
                let target = self.parse_target(&msgs.target);
                match target {
                    None => None,
                    Some(t) => {
                        let open = self.expect_kind(&TokenKind::LeftBrace, msgs.open);
                        match open {
                            None => {
                                assert(dviews(self.diagnostics@) =~= before + methods_declaration(ts, p, msgs.spec_of()).diags);
                                None
                            },
                            Some(_) => {
                                let body = self.parse_methods(msgs.method);
                                let close = self.expect_kind(&TokenKind::RightBrace, msgs.close);
                                assert(dviews(self.diagnostics@) =~= before + methods_declaration(ts, p, msgs.spec_of()).diags);
                                match close {
                                    None => None,
                                    Some(close_span) => {
                                        let span = join_spans(&start, &close_span);
                                        Some((n, name_span, t, body, span))
                                    },
                                }
                            },
                        }
                    },
                }
            },
        }
    }

    fn parse_declaration(&mut self) -> (r: Option<Declaration>)
        requires
            old(self).wf(),
            declaration_keyword(old(self).tokens@[old(self).current as int].kind) != 0,
        ensures
            final(self).follows(*old(self), declaration(old(self).ts(), old(self).pos())),
            match r {
                Some(d) => declaration(old(self).ts(), old(self).pos()).value == Some(d@),
                None => declaration(old(self).ts(), old(self).pos()).value is None,
            },
    {
        let which = declaration_keyword_of(self.kind());
        if which == 1 || which == 6 {
            let r = if which == 1 {
                self.parse_fields_declaration(
                    "expected a model name",
                    "expected `{` after the model name",
                    "expected `}` to close the model",
                )
            } else {
                self.parse_fields_declaration(
                    "expected an event name",
                    "expected `{` after the event name",
                    "expected `}` to close the event",
                )
            };
            match r {
                None => None,
                Some((name, name_span, fields, span)) => {
                    if which == 1 {
                        Some(Declaration::Model(ModelDefinition { name, name_span, fields, span }))
                    } else {
                        Some(Declaration::Event(EventDefinition { name, name_span, fields, span }))
                    }
                },
            }
        } else {
            let msgs = messages(which);
            let r = self.parse_methods_declaration(&msgs);
            match r {
                None => None,
                Some((name, name_span, target, methods, span)) => {
                    if which == 2 {
                        Some(Declaration::Controller(ControllerDefinition { name, name_span, methods, span }))
                    } else if which == 3 {
                        Some(Declaration::Middleware(MiddlewareDefinition { name, name_span, methods, span }))
                    } else if which == 4 {
                        Some(Declaration::Migration(MigrationDefinition { name, name_span, methods, span }))
                    } else if which == 5 {
                        match target {
                            Some(t) => Some(Declaration::Policy(PolicyDefinition { name, name_span, target: t, methods, span })),
                            None => None,
                        }
                    } else if which == 7 {
                        match target {
                            Some(t) => Some(Declaration::Listener(ListenerDefinition { name, name_span, event: t, methods, span })),
                            None => None,
                        }
                    } else if which == 8 {
                        Some(Declaration::Notification(NotificationDefinition { name, name_span, methods, span }))
                    } else {
                        Some(Declaration::Mail(MailDefinition { name, name_span, methods, span }))
                    }
                },
            }
        }
    }

    #[verifier::rlimit(50)]
    fn parse_declarations(&mut self) -> (r: Vec<Declaration>)
        requires
            old(self).wf(),
        ensures
            final(self).follows(*old(self), declarations(old(self).ts(), old(self).pos(), seq![], seq![])),
            declarations(old(self).ts(), old(self).pos(), seq![], seq![]).value == Some((Program { declarations: r })@),
    {
        let ghost ts = self.tokens@;
        let ghost p0 = self.current as int;
        let ghost base = dviews(self.diagnostics@);
        let mut items: Vec<Declaration> = Vec::new();
        let ghost mut acc: Seq<DiagnosticView> = seq![];
        assert(base + acc =~= base);
        assert((Program { declarations: items })@ =~= seq![]);
        loop
            invariant
                self.wf(),
                self.tokens@ == ts,
                ts == old(self).tokens@,
                p0 == old(self).current,
                base == dviews(old(self).diagnostics@),
                dviews(self.diagnostics@) == base + acc,
                declarations(ts, p0, seq![], seq![]) == declarations(ts, self.current as int, (Program { declarations: items })@, acc),
            decreases eof_index(ts) - self.current,
        {
            proof {
                lemma_eof_index(ts);
            }
            if self.is_eof() {
                return items;
            }
            let p = self.current;
            if declaration_keyword_of(self.kind()) != 0 {
                let d = self.parse_declaration();
                let ghost rd = declaration(ts, p as int);
                let ghost old_items = items;
                match d {
                    Some(x) => {
                        items.push(x);
                        assert((Program { declarations: items })@ =~= (Program { declarations: old_items })@.push(x@));
                    },
                    None => {},
                }
                proof {
                    acc = acc + rd.diags;
                    assert(dviews(self.diagnostics@) =~= base + acc);
                }
                if !(p < self.current) {
                    return items;
                }
            } else {
                let d = Diagnostic::error("expected a top-level declaration", self.span()).with_help(
                    "start a top-level declaration with `model`, `controller`, `middleware`, `migration`, `policy`, `event`, `listener`, `notification`, or `mail`",
                );
                self.report(d);
                self.advance();
                proof {
                    acc = acc.push(d@);
                    assert(dviews(self.diagnostics@) =~= base + acc);
                }
            }
        }
    }
}

} // verus!
