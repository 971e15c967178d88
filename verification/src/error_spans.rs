use vstd::prelude::*;
use crate::ast::{EntryV, ExprV, MethodV, FieldV, FieldsV, MethodsV, StmtV, ParamV, DeclV};
use crate::diagnostic::{DiagnosticView, with_help_view};
use crate::parser::{
    Parsed, MethodsMessages, binary, binary_operator, binary_rest, block, declaration,
    declaration_keyword, declaration_target, declarations, entries, entry, eof_index, error_at,
    expect_identifier, expect_kind, expression, field, fields, fields_declaration, has_eof,
    lemma_eof_index, let_statement, list, messages_for, method, methods, methods_declaration,
    parameter_list, parameters, parse_spec, postfix, postfix_rest, primary, return_statement,
    skip_field, skip_member, statements, unary, unary_operator, valid_pos, at_eof, at_kind,
};
use crate::token::{Span, Token, TokenKind};
use crate::ast::TypeRefV;
use crate::diagnostic::{error_view, with_note_view};
use crate::semantic::{
    analysis, body_upto, bindings_before, builtin_type, decl_diags, decls_upto, declares, entries_upto,
    expr_diags, exprs_upto, field_diags, field_keys, fields_upto, first_method, global_diags,
    globals_upto, handle_diags, key_diags, last_named, listener_target_diags, location, method_diags,
    methods_upto, param_diags, params_upto, policy_target_diags, require_method, resolves, stmt_diags,
    type_diags,
};

verus! {

// ---------------------------------------------------------------------------
// Where the parser reports its errors
// ---------------------------------------------------------------------------

/// `s` is the span of one of the tokens `ts`.
pub open spec fn is_token_span(s: Span, ts: Seq<Token>) -> bool {
    exists|i: int| 0 <= i < ts.len() && ts[i].span == s
}

/// Each of `ds` is reported at the span of one of the tokens `ts`.
pub open spec fn reported_at_tokens(ds: Seq<DiagnosticView>, ts: Seq<Token>) -> bool {
    forall|k: int| 0 <= k < ds.len() ==> is_token_span(#[trigger] ds[k].span, ts)
}

/// A parse step from `p` stayed between `p` and the end of input, and
/// reported its errors at token spans.
pub open spec fn sound<T>(r: Parsed<T>, ts: Seq<Token>, p: int) -> bool {
    &&& p <= r.pos <= eof_index(ts)
    &&& reported_at_tokens(r.diags, ts)
}

proof fn lemma_concat(a: Seq<DiagnosticView>, b: Seq<DiagnosticView>, ts: Seq<Token>)
    requires
        reported_at_tokens(a, ts),
        reported_at_tokens(b, ts),
    ensures
        reported_at_tokens(a + b, ts),
{
    assert forall|k: int| 0 <= k < (a + b).len() implies is_token_span(#[trigger] (a + b)[k].span, ts) by {
        if k < a.len() {
            assert((a + b)[k] == a[k]);
        } else {
            assert((a + b)[k] == b[k - a.len()]);
        }
    }
}

proof fn lemma_error(ts: Seq<Token>, p: int, message: Seq<char>, help: Option<Seq<char>>)
    requires
        valid_pos(ts, p),
    ensures
        reported_at_tokens(
            seq![
                match help {
                    Some(h) => with_help_view(error_at(ts, p, message), h),
                    None => error_at(ts, p, message),
                },
            ],
            ts,
        ),
{
    let d = match help {
        Some(h) => with_help_view(error_at(ts, p, message), h),
        None => error_at(ts, p, message),
    };
    assert(seq![d][0] == d);
    assert(ts[p].span == d.span);
}

proof fn lemma_push(ds: Seq<DiagnosticView>, ts: Seq<Token>, p: int, message: Seq<char>, help: Seq<char>)
    requires
        valid_pos(ts, p),
        reported_at_tokens(ds, ts),
    ensures
        reported_at_tokens(ds.push(with_help_view(error_at(ts, p, message), help)), ts),
{
    lemma_error(ts, p, message, Some(help));
    lemma_concat(ds, seq![with_help_view(error_at(ts, p, message), help)], ts);
    assert(ds.push(with_help_view(error_at(ts, p, message), help)) =~= ds + seq![
        with_help_view(error_at(ts, p, message), help),
    ]);
}

proof fn lemma_all_push<T>(items: Seq<T>, x: T, good: spec_fn(T) -> bool)
    requires
        forall|i: int| 0 <= i < items.len() ==> good(#[trigger] items[i]),
        good(x),
    ensures
        forall|i: int| 0 <= i < items.push(x).len() ==> good(#[trigger] items.push(x)[i]),
{
    assert forall|i: int| 0 <= i < items.push(x).len() implies good(#[trigger] items.push(x)[i]) by {
        if i < items.len() {
            assert(items.push(x)[i] == items[i]);
        }
    }
}

/// Not at the end of input, the next position is still one the parser can
/// stand at.
proof fn lemma_next(ts: Seq<Token>, p: int)
    requires
        valid_pos(ts, p),
        !at_eof(ts, p),
    ensures
        valid_pos(ts, p + 1),
{
    lemma_eof_index(ts);
}

proof fn lemma_expect_identifier(ts: Seq<Token>, p: int, message: Seq<char>)
    requires
        valid_pos(ts, p),
    ensures
        sound(expect_identifier(ts, p, message), ts, p),
        expect_identifier(ts, p, message).value matches Some((_, span)) ==> is_token_span(span, ts),
{
    lemma_eof_index(ts);
    lemma_error(ts, p, message, None);
    assert(ts[p].span == ts[p].span);
}

proof fn lemma_expect_kind(ts: Seq<Token>, p: int, k: TokenKind, message: Seq<char>)
    requires
        valid_pos(ts, p),
    ensures
        sound(expect_kind(ts, p, k, message), ts, p),
{
    lemma_eof_index(ts);
    lemma_error(ts, p, message, None);
}

// --- expressions -------------------------------------------------------------

proof fn lemma_expression(ts: Seq<Token>, p: int)
    requires
        valid_pos(ts, p),
    ensures
        sound(expression(ts, p), ts, p),
        expression(ts, p).value matches Some(e) ==> expr_names_at(e, ts),
    decreases eof_index(ts) - p, 100int,
{
    lemma_binary(ts, p, 6);
}

proof fn lemma_binary(ts: Seq<Token>, p: int, level: nat)
    requires
        valid_pos(ts, p),
    ensures
        sound(binary(ts, p, level), ts, p),
        binary(ts, p, level).value matches Some(e) ==> expr_names_at(e, ts),
    decreases eof_index(ts) - p, 11 + 2 * level,
{
    if level == 0 {
        lemma_unary(ts, p);
    } else {
        let left = binary(ts, p, (level - 1) as nat);
        lemma_binary(ts, p, (level - 1) as nat);
        match left.value {
            None => {},
            Some(l) => if p <= left.pos <= eof_index(ts) {
                lemma_binary_rest(ts, left.pos, level, l, left.diags);
            },
        }
    }
}

proof fn lemma_binary_rest(ts: Seq<Token>, p: int, level: nat, left: ExprV, diags: Seq<DiagnosticView>)
    requires
        valid_pos(ts, p),
        reported_at_tokens(diags, ts),
        expr_names_at(left, ts),
    ensures
        sound(binary_rest(ts, p, level, left, diags), ts, p),
        binary_rest(ts, p, level, left, diags).value matches Some(e) ==> expr_names_at(e, ts),
    decreases eof_index(ts) - p, 10 + 2 * level,
{
    if level != 0 {
        match binary_operator(level, ts[p].kind) {
            None => {},
            Some(op) => if !at_eof(ts, p) {
                lemma_next(ts, p);
                let right = binary(ts, p + 1, (level - 1) as nat);
                lemma_binary(ts, p + 1, (level - 1) as nat);
                lemma_concat(diags, right.diags, ts);
                match right.value {
                    None => {},
                    Some(r) => {
                        let combined = ExprV::Binary {
                            left: Box::new(left),
                            operator: op,
                            right: Box::new(r),
                            span: crate::parser::join(crate::ast::expr_span(left), crate::ast::expr_span(r)),
                        };
                        if p < right.pos <= eof_index(ts) {
                            lemma_binary_rest(ts, right.pos, level, combined, diags + right.diags);
                        }
                    },
                }
            },
        }
    }
}

proof fn lemma_unary(ts: Seq<Token>, p: int)
    requires
        valid_pos(ts, p),
    ensures
        sound(unary(ts, p), ts, p),
        unary(ts, p).value matches Some(e) ==> expr_names_at(e, ts),
    decreases eof_index(ts) - p, 5int,
{
    match unary_operator(ts[p].kind) {
        Some(_) => {
            lemma_eof_index(ts);
            lemma_next(ts, p);
            lemma_unary(ts, p + 1);
        },
        None => {
            lemma_postfix(ts, p);
        },
    }
}

proof fn lemma_postfix(ts: Seq<Token>, p: int)
    requires
        valid_pos(ts, p),
    ensures
        sound(postfix(ts, p), ts, p),
        postfix(ts, p).value matches Some(e) ==> expr_names_at(e, ts),
    decreases eof_index(ts) - p, 4int,
{
    let base = primary(ts, p);
    lemma_primary(ts, p);
    match base.value {
        None => {},
        Some(b) => if p <= base.pos <= eof_index(ts) {
            lemma_postfix_rest(ts, base.pos, b, base.diags);
        },
    }
}

proof fn lemma_postfix_rest(ts: Seq<Token>, p: int, target: ExprV, diags: Seq<DiagnosticView>)
    requires
        valid_pos(ts, p),
        reported_at_tokens(diags, ts),
        expr_names_at(target, ts),
    ensures
        sound(postfix_rest(ts, p, target, diags), ts, p),
        postfix_rest(ts, p, target, diags).value matches Some(e) ==> expr_names_at(e, ts),
    decreases eof_index(ts) - p, 3int,
{
    lemma_eof_index(ts);
    if ts[p].kind is Dot {
        lemma_next(ts, p);
        let member = expect_identifier(ts, p + 1, "expected a member name after `.`"@);
        lemma_expect_identifier(ts, p + 1, "expected a member name after `.`"@);
        lemma_concat(diags, member.diags, ts);
        match member.value {
            None => {},
            Some((name, name_span)) => {
                lemma_postfix_rest(
                    ts,
                    member.pos,
                    ExprV::Member {
                        object: Box::new(target),
                        member: name,
                        member_span: name_span,
                        span: crate::parser::join(crate::ast::expr_span(target), name_span),
                    },
                    diags,
                );
            },
        }
    } else if ts[p].kind is LeftParen {
        lemma_next(ts, p);
        let args = list(ts, p + 1, TokenKind::RightParen, seq![], seq![]);
        lemma_list(ts, p + 1, TokenKind::RightParen, seq![], seq![]);
        lemma_concat(diags, args.diags, ts);
        match args.value {
            None => {},
            Some(arguments) => {
                let close = expect_kind(ts, args.pos, TokenKind::RightParen, "expected `)` to close the argument list"@);
                lemma_expect_kind(ts, args.pos, TokenKind::RightParen, "expected `)` to close the argument list"@);
                lemma_concat(diags + args.diags, close.diags, ts);
                match close.value {
                    None => {},
                    Some(close_span) => if p < close.pos <= eof_index(ts) {
                        lemma_postfix_rest(
                            ts,
                            close.pos,
                            ExprV::Call {
                                callee: Box::new(target),
                                arguments,
                                span: crate::parser::join(crate::ast::expr_span(target), close_span),
                            },
                            diags + args.diags,
                        );
                    },
                }
            },
        }
    } else if ts[p].kind is LeftBracket {
        lemma_next(ts, p);
        let index = expression(ts, p + 1);
        lemma_expression(ts, p + 1);
        lemma_concat(diags, index.diags, ts);
        match index.value {
            None => {},
            Some(i) => {
                let close = expect_kind(ts, index.pos, TokenKind::RightBracket, "expected `]` to close the index"@);
                lemma_expect_kind(ts, index.pos, TokenKind::RightBracket, "expected `]` to close the index"@);
                lemma_concat(diags + index.diags, close.diags, ts);
                match close.value {
                    None => {},
                    Some(close_span) => if p < close.pos <= eof_index(ts) {
                        lemma_postfix_rest(
                            ts,
                            close.pos,
                            ExprV::Index {
                                object: Box::new(target),
                                index: Box::new(i),
                                span: crate::parser::join(crate::ast::expr_span(target), close_span),
                            },
                            diags + index.diags,
                        );
                    },
                }
            },
        }
    }
}

proof fn lemma_list(ts: Seq<Token>, p: int, closer: TokenKind, items: Seq<ExprV>, diags: Seq<DiagnosticView>)
    requires
        valid_pos(ts, p),
        reported_at_tokens(diags, ts),
        forall|i: int| 0 <= i < items.len() ==> expr_names_at(#[trigger] items[i], ts),
    ensures
        sound(list(ts, p, closer, items, diags), ts, p),
        list(ts, p, closer, items, diags).value matches Some(es) ==> forall|i: int|
            0 <= i < es.len() ==> expr_names_at(#[trigger] es[i], ts),
    decreases eof_index(ts) - p, 102int,
{
    lemma_eof_index(ts);
    if !at_kind(ts, p, closer) {
        let item = expression(ts, p);
        lemma_expression(ts, p);
        lemma_concat(diags, item.diags, ts);
        match item.value {
            None => {},
            Some(e) => {
                assert forall|i: int| 0 <= i < items.push(e).len() implies expr_names_at(#[trigger] items.push(e)[i], ts) by {
                    if i < items.len() {
                        assert(items.push(e)[i] == items[i]);
                    }
                }
                if valid_pos(ts, item.pos) && at_kind(ts, item.pos, TokenKind::Comma) && p < item.pos + 1 <= eof_index(ts) {
                    lemma_list(ts, item.pos + 1, closer, items.push(e), diags + item.diags);
                }
            },
        }
    }
}

proof fn lemma_entry(ts: Seq<Token>, p: int)
    requires
        valid_pos(ts, p),
    ensures
        sound(entry(ts, p), ts, p),
        entry(ts, p).value matches Some(x) ==> is_token_span(x.key_span, ts) && expr_names_at(x.value, ts),
    decreases eof_index(ts) - p, 101int,
{
    let key = expect_identifier(ts, p, "expected an object key"@);
    lemma_expect_identifier(ts, p, "expected an object key"@);
    match key.value {
        None => {},
        Some(_) => {
            let colon = expect_kind(ts, key.pos, TokenKind::Colon, "expected `:` after the object key"@);
            lemma_expect_kind(ts, key.pos, TokenKind::Colon, "expected `:` after the object key"@);
            match colon.value {
                None => {},
                Some(_) => {
                    lemma_expression(ts, colon.pos);
                },
            }
        },
    }
}

proof fn lemma_entries(ts: Seq<Token>, p: int, items: Seq<EntryV>, diags: Seq<DiagnosticView>)
    requires
        valid_pos(ts, p),
        reported_at_tokens(diags, ts),
        forall|i: int| 0 <= i < items.len() ==> is_token_span((#[trigger] items[i]).key_span, ts) && expr_names_at(items[i].value, ts),
    ensures
        sound(entries(ts, p, items, diags), ts, p),
        entries(ts, p, items, diags).value matches Some(es) ==> forall|i: int|
            0 <= i < es.len() ==> is_token_span((#[trigger] es[i]).key_span, ts) && expr_names_at(es[i].value, ts),
    decreases eof_index(ts) - p, 102int,
{
    lemma_eof_index(ts);
    if !(ts[p].kind is RightBrace) {
        let e = entry(ts, p);
        lemma_entry(ts, p);
        lemma_concat(diags, e.diags, ts);
        match e.value {
            None => {},
            Some(x) => {
                assert forall|i: int| 0 <= i < items.push(x).len() implies is_token_span((#[trigger] items.push(x)[i]).key_span, ts)
                    && expr_names_at(items.push(x)[i].value, ts) by {
                    if i < items.len() {
                        assert(items.push(x)[i] == items[i]);
                    }
                }
                if valid_pos(ts, e.pos) && at_kind(ts, e.pos, TokenKind::Comma) && p < e.pos + 1 <= eof_index(ts) {
                    lemma_entries(ts, e.pos + 1, items.push(x), diags + e.diags);
                }
            },
        }
    }
}

proof fn lemma_primary(ts: Seq<Token>, p: int)
    requires
        valid_pos(ts, p),
    ensures
        sound(primary(ts, p), ts, p),
        primary(ts, p).value matches Some(e) ==> expr_names_at(e, ts),
    decreases eof_index(ts) - p, 2int,
{
    lemma_eof_index(ts);
    let t = ts[p];
    match t.kind {
        TokenKind::LeftParen => {
            lemma_next(ts, p);
            let inner = expression(ts, p + 1);
            lemma_expression(ts, p + 1);
            match inner.value {
                None => {},
                Some(_) => {
                    let close = expect_kind(ts, inner.pos, TokenKind::RightParen, "expected `)` to close the grouped expression"@);
                    lemma_expect_kind(ts, inner.pos, TokenKind::RightParen, "expected `)` to close the grouped expression"@);
                    lemma_concat(inner.diags, close.diags, ts);
                },
            }
        },
        TokenKind::LeftBracket => {
            lemma_next(ts, p);
            let items = list(ts, p + 1, TokenKind::RightBracket, seq![], seq![]);
            lemma_list(ts, p + 1, TokenKind::RightBracket, seq![], seq![]);
            match items.value {
                None => {},
                Some(_) => {
                    let close = expect_kind(ts, items.pos, TokenKind::RightBracket, "expected `]` to close the array"@);
                    lemma_expect_kind(ts, items.pos, TokenKind::RightBracket, "expected `]` to close the array"@);
                    lemma_concat(items.diags, close.diags, ts);
                },
            }
        },
        TokenKind::LeftBrace => {
            lemma_next(ts, p);
            let items = entries(ts, p + 1, seq![], seq![]);
            lemma_entries(ts, p + 1, seq![], seq![]);
            match items.value {
                None => {},
                Some(_) => {
                    let close = expect_kind(ts, items.pos, TokenKind::RightBrace, "expected `}` to close the object"@);
                    lemma_expect_kind(ts, items.pos, TokenKind::RightBrace, "expected `}` to close the object"@);
                    lemma_concat(items.diags, close.diags, ts);
                },
            }
        },
        _ => {
            assert(ts[p].span == t.span);
            lemma_error(
                ts,
                p,
                "expected an expression"@,
                Some("use a literal, a name, an array `[...]`, an object `{...}`, or a parenthesized expression"@),
            );
        },
    }
}

// --- statements, methods and fields -----------------------------------------------

proof fn lemma_let(ts: Seq<Token>, p: int)
    requires
        valid_pos(ts, p),
        ts[p].kind is Let,
    ensures
        sound(let_statement(ts, p), ts, p),
        let_statement(ts, p).value matches Some(st) ==> stmt_names_at(st, ts),
{
    lemma_eof_index(ts);
    lemma_next(ts, p);
    let name = expect_identifier(ts, p + 1, "expected a variable name after `let`"@);
    lemma_expect_identifier(ts, p + 1, "expected a variable name after `let`"@);
    match name.value {
        None => {},
        Some(_) => {
            let eq = expect_kind(ts, name.pos, TokenKind::Equal, "expected `=` after the variable name"@);
            lemma_expect_kind(ts, name.pos, TokenKind::Equal, "expected `=` after the variable name"@);
            match eq.value {
                None => {},
                Some(_) => {
                    lemma_expression(ts, eq.pos);
                },
            }
        },
    }
}

proof fn lemma_return(ts: Seq<Token>, p: int)
    requires
        valid_pos(ts, p),
        ts[p].kind is Return,
    ensures
        sound(return_statement(ts, p), ts, p),
        return_statement(ts, p).value matches Some(st) ==> stmt_names_at(st, ts),
{
    lemma_eof_index(ts);
    lemma_next(ts, p);
    lemma_expression(ts, p + 1);
}

proof fn lemma_statements(ts: Seq<Token>, p: int, items: Seq<StmtV>, diags: Seq<DiagnosticView>)
    requires
        valid_pos(ts, p),
        reported_at_tokens(diags, ts),
        forall|i: int| 0 <= i < items.len() ==> stmt_names_at(#[trigger] items[i], ts),
    ensures
        sound(statements(ts, p, items, diags), ts, p),
        statements(ts, p, items, diags).value matches Some(ss) ==> forall|i: int|
            0 <= i < ss.len() ==> stmt_names_at(#[trigger] ss[i], ts),
    decreases eof_index(ts) - p,
{
    lemma_eof_index(ts);
    if ts[p].kind is RightBrace || at_eof(ts, p) {
    } else if ts[p].kind is Let || ts[p].kind is Return {
        let st = if ts[p].kind is Let {
            lemma_let(ts, p);
            let_statement(ts, p)
        } else {
            lemma_return(ts, p);
            return_statement(ts, p)
        };
        lemma_concat(diags, st.diags, ts);
        if st.value is Some {
            lemma_all_push(items, st.value->0, |x: StmtV| stmt_names_at(x, ts));
        }
        let items2 = match st.value {
            Some(x) => items.push(x),
            None => items,
        };
        if p < st.pos <= eof_index(ts) {
            lemma_statements(ts, st.pos, items2, diags + st.diags);
        }
    } else {
        lemma_next(ts, p);
        lemma_push(diags, ts, p, "expected a statement"@, "method bodies support `let` and `return` statements"@);
        lemma_statements(
            ts,
            p + 1,
            items,
            diags.push(with_help_view(
                error_at(ts, p, "expected a statement"@),
                "method bodies support `let` and `return` statements"@,
            )),
        );
    }
}

proof fn lemma_block(ts: Seq<Token>, p: int)
    requires
        valid_pos(ts, p),
    ensures
        sound(block(ts, p), ts, p),
        block(ts, p).value matches Some((ss, _)) ==> forall|i: int| 0 <= i < ss.len() ==> stmt_names_at(#[trigger] ss[i], ts),
{
    let open = expect_kind(ts, p, TokenKind::LeftBrace, "expected `{` to start the method body"@);
    lemma_expect_kind(ts, p, TokenKind::LeftBrace, "expected `{` to start the method body"@);
    match open.value {
        None => {},
        Some(_) => {
            let body = statements(ts, open.pos, seq![], seq![]);
            lemma_statements(ts, open.pos, seq![], seq![]);
            match body.value {
                None => {},
                Some(_) => {
                    let close = expect_kind(ts, body.pos, TokenKind::RightBrace, "expected `}` to close the method body"@);
                    lemma_expect_kind(ts, body.pos, TokenKind::RightBrace, "expected `}` to close the method body"@);
                    lemma_concat(body.diags, close.diags, ts);
                },
            }
        },
    }
}

proof fn lemma_parameter_list(ts: Seq<Token>, p: int, items: Seq<ParamV>)
    requires
        valid_pos(ts, p),
        forall|i: int| 0 <= i < items.len() ==> param_names_at(#[trigger] items[i], ts),
    ensures
        sound(parameter_list(ts, p, items), ts, p),
        parameter_list(ts, p, items).value matches Some(ps) ==> forall|i: int|
            0 <= i < ps.len() ==> param_names_at(#[trigger] ps[i], ts),
    decreases eof_index(ts) - p,
{
    lemma_eof_index(ts);
    let name = expect_identifier(ts, p, "expected a parameter name"@);
    lemma_expect_identifier(ts, p, "expected a parameter name"@);
    match name.value {
        None => {},
        Some((n, name_span)) => {
            let q = name.pos;
            let typed = valid_pos(ts, q) && ts[q].kind is Colon;
            let ty = expect_identifier(ts, q + 1, "expected a parameter type"@);
            if typed {
                lemma_next(ts, q);
                lemma_expect_identifier(ts, q + 1, "expected a parameter type"@);
            }
            if typed && ty.value is None {
            } else {
                let (ty_name, type_span) = ty.value->0;
                let param = if typed {
                    ParamV {
                        name: n,
                        name_span,
                        type_reference: Some(crate::ast::TypeRefV { name: ty_name, span: type_span }),
                        span: crate::parser::join(name_span, type_span),
                    }
                } else {
                    ParamV { name: n, name_span, type_reference: None, span: name_span }
                };
                let r = if typed { ty.pos } else { q };
                lemma_all_push(items, param, |x: ParamV| param_names_at(x, ts));
                if valid_pos(ts, r) && ts[r].kind is Comma && p < r + 1 <= eof_index(ts) {
                    lemma_parameter_list(ts, r + 1, items.push(param));
                }
            }
        },
    }
}

proof fn lemma_parameters(ts: Seq<Token>, p: int)
    requires
        valid_pos(ts, p),
    ensures
        sound(parameters(ts, p), ts, p),
        parameters(ts, p).value matches Some(ps) ==> forall|i: int| 0 <= i < ps.len() ==> param_names_at(#[trigger] ps[i], ts),
{
    if !(ts[p].kind is RightParen) {
        lemma_parameter_list(ts, p, seq![]);
    }
}

proof fn lemma_method(ts: Seq<Token>, p: int, name_message: Seq<char>)
    requires
        valid_pos(ts, p),
    ensures
        sound(method(ts, p, name_message), ts, p),
        method(ts, p, name_message).value matches Some(m) ==> method_names_at(m, ts),
{
    let name = expect_identifier(ts, p, name_message);
    lemma_expect_identifier(ts, p, name_message);
    match name.value {
        None => {},
        Some(_) => {
            let open = expect_kind(ts, name.pos, TokenKind::LeftParen, "expected `(` after the method name"@);
            lemma_expect_kind(ts, name.pos, TokenKind::LeftParen, "expected `(` after the method name"@);
            match open.value {
                None => {},
                Some(_) => {
                    let params = parameters(ts, open.pos);
                    lemma_parameters(ts, open.pos);
                    match params.value {
                        None => {},
                        Some(_) => {
                            let close = expect_kind(ts, params.pos, TokenKind::RightParen, "expected `)` after the method parameters"@);
                            lemma_expect_kind(ts, params.pos, TokenKind::RightParen, "expected `)` after the method parameters"@);
                            lemma_concat(params.diags, close.diags, ts);
                            match close.value {
                                None => {},
                                Some(_) => {
                                    let body = block(ts, close.pos);
                                    lemma_block(ts, close.pos);
                                    lemma_concat(params.diags, body.diags, ts);
                                },
                            }
                        },
                    }
                },
            }
        },
    }
}

proof fn lemma_skip_member(ts: Seq<Token>, p: int, depth: nat)
    requires
        valid_pos(ts, p),
    ensures
        p <= skip_member(ts, p, depth) <= eof_index(ts),
    decreases eof_index(ts) - p,
{
    lemma_eof_index(ts);
    if !at_eof(ts, p) {
        lemma_next(ts, p);
        match ts[p].kind {
            TokenKind::LeftBrace => lemma_skip_member(ts, p + 1, depth + 1),
            TokenKind::RightBrace => if depth > 0 {
                lemma_skip_member(ts, p + 1, (depth - 1) as nat);
            },
            TokenKind::Identifier(_) => if depth != 0 {
                lemma_skip_member(ts, p + 1, depth);
            },
            _ => lemma_skip_member(ts, p + 1, depth),
        }
    }
}

proof fn lemma_methods(ts: Seq<Token>, p: int, name_message: Seq<char>, items: Seq<MethodV>, diags: Seq<DiagnosticView>)
    requires
        valid_pos(ts, p),
        reported_at_tokens(diags, ts),
        forall|i: int| 0 <= i < items.len() ==> method_names_at(#[trigger] items[i], ts),
    ensures
        sound(methods(ts, p, name_message, items, diags), ts, p),
        methods(ts, p, name_message, items, diags).value matches Some(ms) ==> forall|i: int|
            0 <= i < ms.len() ==> method_names_at(#[trigger] ms[i], ts),
    decreases eof_index(ts) - p,
{
    if !(ts[p].kind is RightBrace || at_eof(ts, p)) {
        let m = method(ts, p, name_message);
        lemma_method(ts, p, name_message);
        lemma_concat(diags, m.diags, ts);
        if m.value is Some {
            lemma_all_push(items, m.value->0, |x: MethodV| method_names_at(x, ts));
        }
        let items2 = match m.value {
            Some(x) => items.push(x),
            None => items,
        };
        if m.value is None {
            lemma_skip_member(ts, m.pos, 0);
        }
        let next = match m.value {
            Some(_) => m.pos,
            None => skip_member(ts, m.pos, 0),
        };
        if p < next <= eof_index(ts) {
            lemma_methods(ts, next, name_message, items2, diags + m.diags);
        }
    }
}

proof fn lemma_field(ts: Seq<Token>, p: int, owner: Seq<char>)
    requires
        valid_pos(ts, p),
    ensures
        sound(field(ts, p, owner), ts, p),
        field(ts, p, owner).value matches Some(f) ==> field_names_at(f, ts),
{
    lemma_eof_index(ts);
    let name = expect_identifier(ts, p, "expected a field name"@);
    lemma_expect_identifier(ts, p, "expected a field name"@);
    match name.value {
        None => {},
        Some((n, _)) => {
            let colon = expect_kind(ts, name.pos, TokenKind::Colon, "expected `:` after the field name"@);
            lemma_expect_kind(ts, name.pos, TokenKind::Colon, "expected `:` after the field name"@);
            match colon.value {
                None => {},
                Some(_) => {
                    lemma_error(
                        ts,
                        colon.pos,
                        "expected a field type"@,
                        Some("try `"@ + n + ": string` on `"@ + owner + "`"@),
                    );
                },
            }
        },
    }
}

proof fn lemma_skip_field(ts: Seq<Token>, p: int)
    requires
        valid_pos(ts, p),
    ensures
        p <= skip_field(ts, p) <= eof_index(ts),
    decreases eof_index(ts) - p,
{
    lemma_eof_index(ts);
    if !(at_eof(ts, p) || ts[p].kind is RightBrace || ts[p].kind is Identifier) {
        lemma_next(ts, p);
        lemma_skip_field(ts, p + 1);
    }
}

proof fn lemma_fields(ts: Seq<Token>, p: int, owner: Seq<char>, items: Seq<FieldV>, diags: Seq<DiagnosticView>)
    requires
        valid_pos(ts, p),
        reported_at_tokens(diags, ts),
        forall|i: int| 0 <= i < items.len() ==> field_names_at(#[trigger] items[i], ts),
    ensures
        sound(fields(ts, p, owner, items, diags), ts, p),
        fields(ts, p, owner, items, diags).value matches Some(fs) ==> forall|i: int|
            0 <= i < fs.len() ==> field_names_at(#[trigger] fs[i], ts),
    decreases eof_index(ts) - p,
{
    if !(ts[p].kind is RightBrace || at_eof(ts, p)) {
        let f = field(ts, p, owner);
        lemma_field(ts, p, owner);
        lemma_concat(diags, f.diags, ts);
        if f.value is Some {
            lemma_all_push(items, f.value->0, |x: FieldV| field_names_at(x, ts));
        }
        let items2 = match f.value {
            Some(x) => items.push(x),
            None => items,
        };
        if f.value is None {
            lemma_skip_field(ts, f.pos);
        }
        let next = match f.value {
            Some(_) => f.pos,
            None => skip_field(ts, f.pos),
        };
        if p < next <= eof_index(ts) {
            lemma_fields(ts, next, owner, items2, diags + f.diags);
        }
    }
}

// --- declarations --------------------------------------------------------------

proof fn lemma_fields_declaration(
    ts: Seq<Token>,
    p: int,
    name_message: Seq<char>,
    open_message: Seq<char>,
    close_message: Seq<char>,
)
    requires
        valid_pos(ts, p),
        !at_eof(ts, p),
    ensures
        sound(fields_declaration(ts, p, name_message, open_message, close_message), ts, p),
        fields_declaration(ts, p, name_message, open_message, close_message).value matches Some(d)
            ==> fields_decl_names_at(d, ts),
{
    lemma_next(ts, p);
    let name = expect_identifier(ts, p + 1, name_message);
    lemma_expect_identifier(ts, p + 1, name_message);
    match name.value {
        None => {},
        Some((n, _)) => {
            let open = expect_kind(ts, name.pos, TokenKind::LeftBrace, open_message);
            lemma_expect_kind(ts, name.pos, TokenKind::LeftBrace, open_message);
            match open.value {
                None => {},
                Some(_) => {
                    let body = fields(ts, open.pos, n, seq![], seq![]);
                    lemma_fields(ts, open.pos, n, seq![], seq![]);
                    match body.value {
                        None => {},
                        Some(_) => {
                            let close = expect_kind(ts, body.pos, TokenKind::RightBrace, close_message);
                            lemma_expect_kind(ts, body.pos, TokenKind::RightBrace, close_message);
                            lemma_concat(body.diags, close.diags, ts);
                        },
                    }
                },
            }
        },
    }
}

proof fn lemma_declaration_target(ts: Seq<Token>, p: int, target: Option<(TokenKind, Seq<char>, Seq<char>)>)
    requires
        valid_pos(ts, p),
    ensures
        sound(declaration_target(ts, p, target), ts, p),
        declaration_target(ts, p, target).value matches Some(Some(t)) ==> is_token_span(t.span, ts),
{
    match target {
        None => {},
        Some((keyword, keyword_message, name_message)) => {
            let k = expect_kind(ts, p, keyword, keyword_message);
            lemma_expect_kind(ts, p, keyword, keyword_message);
            match k.value {
                None => {},
                Some(_) => {
                    lemma_expect_identifier(ts, k.pos, name_message);
                },
            }
        },
    }
}

proof fn lemma_methods_declaration(ts: Seq<Token>, p: int, msgs: MethodsMessages)
    requires
        valid_pos(ts, p),
        !at_eof(ts, p),
    ensures
        sound(methods_declaration(ts, p, msgs), ts, p),
        methods_declaration(ts, p, msgs).value matches Some(d) ==> methods_decl_names_at(d, ts),
{
    lemma_next(ts, p);
    let name = expect_identifier(ts, p + 1, msgs.name);
    lemma_expect_identifier(ts, p + 1, msgs.name);
    match name.value {
        None => {},
        Some(_) => {
            let target = declaration_target(ts, name.pos, msgs.target);
            lemma_declaration_target(ts, name.pos, msgs.target);
            match target.value {
                None => {},
                Some(_) => {
                    let open = expect_kind(ts, target.pos, TokenKind::LeftBrace, msgs.open);
                    lemma_expect_kind(ts, target.pos, TokenKind::LeftBrace, msgs.open);
                    match open.value {
                        None => {},
                        Some(_) => {
                            let body = methods(ts, open.pos, msgs.method, seq![], seq![]);
                            lemma_methods(ts, open.pos, msgs.method, seq![], seq![]);
                            match body.value {
                                None => {},
                                Some(_) => {
                                    let close = expect_kind(ts, body.pos, TokenKind::RightBrace, msgs.close);
                                    lemma_expect_kind(ts, body.pos, TokenKind::RightBrace, msgs.close);
                                    lemma_concat(body.diags, close.diags, ts);
                                },
                            }
                        },
                    }
                },
            }
        },
    }
}

proof fn lemma_declaration(ts: Seq<Token>, p: int)
    requires
        valid_pos(ts, p),
        declaration_keyword(ts[p].kind) != 0,
    ensures
        sound(declaration(ts, p), ts, p),
        declaration(ts, p).value matches Some(d) ==> decl_names_at(d, ts),
{
    let which = declaration_keyword(ts[p].kind);
    if which == 1 {
        lemma_fields_declaration(
            ts,
            p,
            "expected a model name"@,
            "expected `{` after the model name"@,
            "expected `}` to close the model"@,
        );
    } else if which == 6 {
        lemma_fields_declaration(
            ts,
            p,
            "expected an event name"@,
            "expected `{` after the event name"@,
            "expected `}` to close the event"@,
        );
    } else {
        lemma_methods_declaration(ts, p, messages_for(which));
    }
}

proof fn lemma_declarations(ts: Seq<Token>, p: int, items: Seq<DeclV>, diags: Seq<DiagnosticView>)
    requires
        valid_pos(ts, p),
        reported_at_tokens(diags, ts),
        program_names_at(items, ts),
    ensures
        sound(declarations(ts, p, items, diags), ts, p),
        declarations(ts, p, items, diags).value matches Some(ds) ==> program_names_at(ds, ts),
    decreases eof_index(ts) - p,
{
    lemma_eof_index(ts);
    if !at_eof(ts, p) {
        if declaration_keyword(ts[p].kind) != 0 {
            let d = declaration(ts, p);
            lemma_declaration(ts, p);
            lemma_concat(diags, d.diags, ts);
            if d.value is Some {
                lemma_all_push(items, d.value->0, |x: DeclV| decl_names_at(x, ts));
            }
            let items2 = match d.value {
                Some(x) => items.push(x),
                None => items,
            };
            if p < d.pos <= eof_index(ts) {
                lemma_declarations(ts, d.pos, items2, diags + d.diags);
            }
        } else {
            lemma_next(ts, p);
            let message = "expected a top-level declaration"@;
            let help = "start a top-level declaration with `model`, `controller`, `middleware`, `migration`, `policy`, `event`, `listener`, `notification`, or `mail`"@;
            lemma_push(diags, ts, p, message, help);
            lemma_declarations(ts, p + 1, items, diags.push(with_help_view(error_at(ts, p, message), help)));
        }
    }
}

/// Every syntax error is reported at the span of one of the tokens that were
/// parsed, so it points back to the source those tokens came from; and every
/// name and type reference of the parsed program keeps the span of the token
/// that spelled it.
pub proof fn syntax_errors_point_at_tokens(ts: Seq<Token>)
    requires
        has_eof(ts),
    ensures
        reported_at_tokens(parse_spec(ts).diags, ts),
        parse_spec(ts).value matches Some(ds) ==> program_names_at(ds, ts),
{
    lemma_eof_index(ts);
    lemma_declarations(ts, 0, seq![], seq![]);
}

// ---------------------------------------------------------------------------
// Where the names of a program come from
// ---------------------------------------------------------------------------

/// Every name in `e` (the identifiers and object keys, at any depth) stands
/// at the span of one of the tokens `ts`.
pub open spec fn expr_names_at(e: ExprV, ts: Seq<Token>) -> bool
    decreases e,
{
    match e {
        ExprV::Ident { span, .. } => is_token_span(span, ts),
        ExprV::Array { elements, .. } => forall|i: int|
            0 <= i < elements.len() ==> expr_names_at(#[trigger] elements[i], ts),
        ExprV::Object { entries, .. } => forall|i: int|
            0 <= i < entries.len() ==> is_token_span((#[trigger] entries[i]).key_span, ts) && expr_names_at(
                entries[i].value,
                ts,
            ),
        ExprV::Grouped { expression, .. } => expr_names_at(*expression, ts),
        ExprV::Unary { operand, .. } => expr_names_at(*operand, ts),
        ExprV::Binary { left, right, .. } => expr_names_at(*left, ts) && expr_names_at(*right, ts),
        ExprV::Member { object, .. } => expr_names_at(*object, ts),
        ExprV::Call { callee, arguments, .. } => expr_names_at(*callee, ts) && forall|i: int|
            0 <= i < arguments.len() ==> expr_names_at(#[trigger] arguments[i], ts),
        ExprV::Index { object, index, .. } => expr_names_at(*object, ts) && expr_names_at(*index, ts),
        _ => true,
    }
}

pub open spec fn stmt_names_at(st: StmtV, ts: Seq<Token>) -> bool {
    match st {
        StmtV::Let { name_span, initializer, .. } => is_token_span(name_span, ts) && expr_names_at(initializer, ts),
        StmtV::Return { expression, .. } => expr_names_at(expression, ts),
    }
}

pub open spec fn param_names_at(p: ParamV, ts: Seq<Token>) -> bool {
    &&& is_token_span(p.name_span, ts)
    &&& p.type_reference matches Some(t) ==> is_token_span(t.span, ts)
}

pub open spec fn method_names_at(m: MethodV, ts: Seq<Token>) -> bool {
    &&& is_token_span(m.name_span, ts)
    &&& forall|i: int| 0 <= i < m.parameters.len() ==> param_names_at(#[trigger] m.parameters[i], ts)
    &&& forall|i: int| 0 <= i < m.body.len() ==> stmt_names_at(#[trigger] m.body[i], ts)
}

pub open spec fn field_names_at(f: FieldV, ts: Seq<Token>) -> bool {
    is_token_span(f.name_span, ts) && is_token_span(f.type_reference.span, ts)
}

pub open spec fn fields_decl_names_at(d: FieldsV, ts: Seq<Token>) -> bool {
    &&& is_token_span(d.name_span, ts)
    &&& forall|i: int| 0 <= i < d.fields.len() ==> field_names_at(#[trigger] d.fields[i], ts)
}

pub open spec fn methods_decl_names_at(d: MethodsV, ts: Seq<Token>) -> bool {
    &&& is_token_span(d.name_span, ts)
    &&& d.target matches Some(t) ==> is_token_span(t.span, ts)
    &&& forall|i: int| 0 <= i < d.methods.len() ==> method_names_at(#[trigger] d.methods[i], ts)
}

/// Every name of a declaration, and every type it refers to, stands at the
/// span of one of the tokens `ts`.
pub open spec fn decl_names_at(d: DeclV, ts: Seq<Token>) -> bool {
    match d {
        DeclV::Model(f) => fields_decl_names_at(f, ts),
        DeclV::Event(f) => fields_decl_names_at(f, ts),
        DeclV::Controller(m) => methods_decl_names_at(m, ts),
        DeclV::Middleware(m) => methods_decl_names_at(m, ts),
        DeclV::Migration(m) => methods_decl_names_at(m, ts),
        DeclV::Policy(m) => methods_decl_names_at(m, ts),
        DeclV::Listener(m) => methods_decl_names_at(m, ts),
        DeclV::Notification(m) => methods_decl_names_at(m, ts),
        DeclV::Mail(m) => methods_decl_names_at(m, ts),
    }
}

pub open spec fn program_names_at(decls: Seq<DeclV>, ts: Seq<Token>) -> bool {
    forall|i: int| 0 <= i < decls.len() ==> decl_names_at(#[trigger] decls[i], ts)
}

// ---------------------------------------------------------------------------
// Where the analysis reports its errors
// ---------------------------------------------------------------------------

proof fn lemma_one(d: DiagnosticView, ts: Seq<Token>)
    requires
        is_token_span(d.span, ts),
    ensures
        reported_at_tokens(seq![d], ts),
{
    assert(seq![d][0] == d);
}

proof fn lemma_type_diags(t: TypeRefV, decls: Seq<DeclV>, ts: Seq<Token>)
    requires
        is_token_span(t.span, ts),
    ensures
        reported_at_tokens(type_diags(t, decls), ts),
{
    if !(builtin_type(t.name) || declares(decls, t.name, 1) || declares(decls, t.name, 6)) {
        lemma_one(type_diags(t, decls)[0], ts);
    }
}

proof fn lemma_fields_upto(kind: Seq<char>, owner: Seq<char>, fs: Seq<FieldV>, n: int, decls: Seq<DeclV>, ts: Seq<Token>)
    requires
        n <= fs.len(),
        forall|i: int| 0 <= i < fs.len() ==> field_names_at(#[trigger] fs[i], ts),
    ensures
        reported_at_tokens(fields_upto(kind, owner, fs, n, decls), ts),
    decreases n,
{
    if n > 0 {
        lemma_fields_upto(kind, owner, fs, n - 1, decls, ts);
        let f = fs[n - 1];
        assert(field_names_at(f, ts));
        let dup = match last_named(field_keys(fs), f.name, n - 1) {
            None => seq![],
            Some(j) => seq![with_note_view(
                error_view("duplicate field `"@ + f.name + "` on "@ + kind, f.name_span),
                "`"@ + f.name + "` is already declared on `"@ + owner + "` at "@ + location(fs[j].name_span),
            )],
        };
        if dup.len() > 0 {
            lemma_one(dup[0], ts);
            assert(dup =~= seq![dup[0]]);
        }
        lemma_type_diags(f.type_reference, decls, ts);
        lemma_concat(dup, type_diags(f.type_reference, decls), ts);
        lemma_concat(fields_upto(kind, owner, fs, n - 1, decls), field_diags(kind, owner, fs, n - 1, decls), ts);
    }
}

proof fn lemma_expr_diags(e: ExprV, bs: Seq<(Seq<char>, Span)>, decls: Seq<DeclV>, ts: Seq<Token>)
    requires
        expr_names_at(e, ts),
    ensures
        reported_at_tokens(expr_diags(e, bs, decls), ts),
    decreases e, 0int,
{
    match e {
        ExprV::Ident { name, span } => {
            if !resolves(bs, name, decls) {
                lemma_one(expr_diags(e, bs, decls)[0], ts);
            }
        },
        ExprV::Array { elements, .. } => {
            lemma_exprs_upto(elements, elements.len() as int, bs, decls, ts);
        },
        ExprV::Object { entries, .. } => {
            lemma_entries_upto(entries, entries.len() as int, bs, decls, ts);
        },
        ExprV::Grouped { expression, .. } => {
            lemma_expr_diags(*expression, bs, decls, ts);
        },
        ExprV::Unary { operand, .. } => {
            lemma_expr_diags(*operand, bs, decls, ts);
        },
        ExprV::Binary { left, right, .. } => {
            lemma_expr_diags(*left, bs, decls, ts);
            lemma_expr_diags(*right, bs, decls, ts);
            lemma_concat(expr_diags(*left, bs, decls), expr_diags(*right, bs, decls), ts);
        },
        ExprV::Member { object, .. } => {
            lemma_expr_diags(*object, bs, decls, ts);
        },
        ExprV::Call { callee, arguments, .. } => {
            lemma_expr_diags(*callee, bs, decls, ts);
            lemma_exprs_upto(arguments, arguments.len() as int, bs, decls, ts);
            lemma_concat(
                expr_diags(*callee, bs, decls),
                exprs_upto(arguments, arguments.len() as int, bs, decls),
                ts,
            );
        },
        ExprV::Index { object, index, .. } => {
            lemma_expr_diags(*object, bs, decls, ts);
            lemma_expr_diags(*index, bs, decls, ts);
            lemma_concat(expr_diags(*object, bs, decls), expr_diags(*index, bs, decls), ts);
        },
        _ => {},
    }
}

proof fn lemma_exprs_upto(es: Seq<ExprV>, n: int, bs: Seq<(Seq<char>, Span)>, decls: Seq<DeclV>, ts: Seq<Token>)
    requires
        forall|i: int| 0 <= i < es.len() ==> expr_names_at(#[trigger] es[i], ts),
    ensures
        reported_at_tokens(exprs_upto(es, n, bs, decls), ts),
    decreases es, n,
{
    if 0 < n <= es.len() {
        lemma_exprs_upto(es, n - 1, bs, decls, ts);
        lemma_expr_diags(es[n - 1], bs, decls, ts);
        lemma_concat(exprs_upto(es, n - 1, bs, decls), expr_diags(es[n - 1], bs, decls), ts);
    }
}

proof fn lemma_entries_upto(es: Seq<EntryV>, n: int, bs: Seq<(Seq<char>, Span)>, decls: Seq<DeclV>, ts: Seq<Token>)
    requires
        forall|i: int| 0 <= i < es.len() ==> is_token_span((#[trigger] es[i]).key_span, ts) && expr_names_at(es[i].value, ts),
    ensures
        reported_at_tokens(entries_upto(es, n, bs, decls), ts),
    decreases es, n,
{
    if 0 < n <= es.len() {
        lemma_entries_upto(es, n - 1, bs, decls, ts);
        assert(is_token_span(es[n - 1].key_span, ts));
        let keys = key_diags(es, n - 1);
        if keys.len() > 0 {
            lemma_one(keys[0], ts);
            assert(keys =~= seq![keys[0]]);
        }
        lemma_expr_diags(es[n - 1].value, bs, decls, ts);
        lemma_concat(entries_upto(es, n - 1, bs, decls), keys, ts);
        lemma_concat(entries_upto(es, n - 1, bs, decls) + keys, expr_diags(es[n - 1].value, bs, decls), ts);
    }
}

proof fn lemma_singleton_or_empty(ds: Seq<DiagnosticView>, ts: Seq<Token>)
    requires
        ds.len() <= 1,
        ds.len() == 1 ==> is_token_span(ds[0].span, ts),
    ensures
        reported_at_tokens(ds, ts),
{
}

proof fn lemma_stmt_diags(st: StmtV, bs: Seq<(Seq<char>, Span)>, decls: Seq<DeclV>, ts: Seq<Token>)
    requires
        stmt_names_at(st, ts),
    ensures
        reported_at_tokens(stmt_diags(st, bs, decls), ts),
{
    match st {
        StmtV::Let { name, name_span, initializer, .. } => {
            lemma_expr_diags(initializer, bs, decls, ts);
            let dup = match last_named(bs, name, bs.len() as int) {
                None => seq![],
                Some(j) => seq![with_note_view(
                    error_view("duplicate local binding `"@ + name + "`"@, name_span),
                    "`"@ + name + "` is already bound at "@ + location(bs[j].1),
                )],
            };
            lemma_singleton_or_empty(dup, ts);
            lemma_concat(expr_diags(initializer, bs, decls), dup, ts);
        },
        StmtV::Return { expression, .. } => {
            lemma_expr_diags(expression, bs, decls, ts);
        },
    }
}

proof fn lemma_body_upto(m: MethodV, n: int, decls: Seq<DeclV>, ts: Seq<Token>)
    requires
        method_names_at(m, ts),
    ensures
        reported_at_tokens(body_upto(m, n, decls), ts),
    decreases n,
{
    if 0 < n <= m.body.len() {
        lemma_body_upto(m, n - 1, decls, ts);
        assert(stmt_names_at(m.body[n - 1], ts));
        lemma_stmt_diags(m.body[n - 1], bindings_before(m, n - 1), decls, ts);
        lemma_concat(body_upto(m, n - 1, decls), stmt_diags(m.body[n - 1], bindings_before(m, n - 1), decls), ts);
    }
}

proof fn lemma_params_upto(m: MethodV, n: int, decls: Seq<DeclV>, ts: Seq<Token>)
    requires
        method_names_at(m, ts),
    ensures
        reported_at_tokens(params_upto(m, n, decls), ts),
    decreases n,
{
    if 0 < n <= m.parameters.len() {
        lemma_params_upto(m, n - 1, decls, ts);
        let p = m.parameters[n - 1];
        assert(param_names_at(p, ts));
        let dup = match last_named(crate::semantic::param_keys(m.parameters), p.name, n - 1) {
            None => seq![],
            Some(j) => seq![with_note_view(
                error_view("duplicate parameter `"@ + p.name + "`"@, p.name_span),
                "`"@ + p.name + "` was already declared in method `"@ + m.name + "` at "@
                    + location(m.parameters[j].name_span),
            )],
        };
        lemma_singleton_or_empty(dup, ts);
        let ty = match p.type_reference {
            Some(t) => type_diags(t, decls),
            None => seq![],
        };
        if p.type_reference is Some {
            lemma_type_diags(p.type_reference->0, decls, ts);
        }
        lemma_concat(dup, ty, ts);
        lemma_concat(params_upto(m, n - 1, decls), param_diags(m, n - 1, decls), ts);
    }
}

proof fn lemma_methods_upto(kind: Seq<char>, owner: Seq<char>, ms: Seq<MethodV>, n: int, decls: Seq<DeclV>, ts: Seq<Token>)
    requires
        forall|i: int| 0 <= i < ms.len() ==> method_names_at(#[trigger] ms[i], ts),
    ensures
        reported_at_tokens(methods_upto(kind, owner, ms, n, decls), ts),
    decreases n,
{
    if 0 < n <= ms.len() {
        lemma_methods_upto(kind, owner, ms, n - 1, decls, ts);
        let m = ms[n - 1];
        assert(method_names_at(m, ts));
        let dup = match last_named(crate::semantic::method_keys(ms), m.name, n - 1) {
            None => seq![],
            Some(j) => seq![with_note_view(
                error_view("duplicate "@ + kind + " method `"@ + m.name + "`"@, m.name_span),
                "`"@ + m.name + "` is already declared on `"@ + owner + "` at "@ + location(ms[j].name_span),
            )],
        };
        lemma_singleton_or_empty(dup, ts);
        lemma_params_upto(m, m.parameters.len() as int, decls, ts);
        lemma_body_upto(m, m.body.len() as int, decls, ts);
        lemma_concat(dup, params_upto(m, m.parameters.len() as int, decls), ts);
        lemma_concat(dup + params_upto(m, m.parameters.len() as int, decls), body_upto(m, m.body.len() as int, decls), ts);
        lemma_concat(methods_upto(kind, owner, ms, n - 1, decls), method_diags(kind, owner, ms, n - 1, decls), ts);
    }
}

proof fn lemma_handle_diags(d: MethodsV, event: Seq<char>, ts: Seq<Token>)
    requires
        methods_decl_names_at(d, ts),
    ensures
        reported_at_tokens(handle_diags(d, event), ts),
{
    match first_method(d.methods, "handle"@, d.methods.len() as int) {
        None => {},
        Some(k) => {
            crate::semantic::lemma_first_method_bounds(d.methods, "handle"@, d.methods.len() as int);
            let h = d.methods[k];
            assert(method_names_at(h, ts));
            if h.parameters.len() > 0 {
                assert(param_names_at(h.parameters[0], ts));
            }
        },
    }
}

proof fn lemma_decl_diags(d: DeclV, decls: Seq<DeclV>, ts: Seq<Token>)
    requires
        decl_names_at(d, ts),
    ensures
        reported_at_tokens(decl_diags(d, decls), ts),
{
    match d {
        DeclV::Model(f) => {
            lemma_fields_upto("model"@, f.name, f.fields, f.fields.len() as int, decls, ts);
        },
        DeclV::Event(f) => {
            lemma_fields_upto("event"@, f.name, f.fields, f.fields.len() as int, decls, ts);
        },
        DeclV::Controller(m) => {
            lemma_methods_upto("controller"@, m.name, m.methods, m.methods.len() as int, decls, ts);
        },
        DeclV::Middleware(m) => {
            lemma_methods_upto("middleware"@, m.name, m.methods, m.methods.len() as int, decls, ts);
            lemma_concat(
                methods_upto("middleware"@, m.name, m.methods, m.methods.len() as int, decls),
                require_method("middleware"@, m.name, m.name_span, m.methods, "handle"@, "add `handle(request) { ... }` as the middleware entry point"@),
                ts,
            );
        },
        DeclV::Migration(m) => {
            lemma_methods_upto("migration"@, m.name, m.methods, m.methods.len() as int, decls, ts);
            lemma_concat(
                methods_upto("migration"@, m.name, m.methods, m.methods.len() as int, decls),
                require_method("migration"@, m.name, m.name_span, m.methods, "up"@, "add `up() { ... }` to describe the forward migration"@),
                ts,
            );
        },
        DeclV::Policy(m) => {
            lemma_methods_upto("policy"@, m.name, m.methods, m.methods.len() as int, decls, ts);
            lemma_concat(
                policy_target_diags(m, decls),
                methods_upto("policy"@, m.name, m.methods, m.methods.len() as int, decls),
                ts,
            );
        },
        DeclV::Listener(m) => {
            lemma_methods_upto("listener"@, m.name, m.methods, m.methods.len() as int, decls, ts);
            lemma_concat(
                listener_target_diags(m, decls),
                methods_upto("listener"@, m.name, m.methods, m.methods.len() as int, decls),
                ts,
            );
            match m.target {
                Some(t) => {
                    lemma_handle_diags(m, t.name, ts);
                    lemma_concat(
                        listener_target_diags(m, decls) + methods_upto("listener"@, m.name, m.methods, m.methods.len() as int, decls),
                        handle_diags(m, t.name),
                        ts,
                    );
                },
                None => {
                    assert(decl_diags(d, decls) =~= listener_target_diags(m, decls) + methods_upto("listener"@, m.name, m.methods, m.methods.len() as int, decls));
                },
            }
        },
        DeclV::Notification(m) => {
            lemma_methods_upto("notification"@, m.name, m.methods, m.methods.len() as int, decls, ts);
            let a = methods_upto("notification"@, m.name, m.methods, m.methods.len() as int, decls);
            let b = require_method("notification"@, m.name, m.name_span, m.methods, "channels"@, "add `channels() { return [...] }` to declare delivery channels"@);
            let c = require_method("notification"@, m.name, m.name_span, m.methods, "message"@, "add `message(...) { ... }` to define notification content"@);
            lemma_concat(a, b, ts);
            lemma_concat(a + b, c, ts);
        },
        DeclV::Mail(m) => {
            lemma_methods_upto("mail"@, m.name, m.methods, m.methods.len() as int, decls, ts);
            let a = methods_upto("mail"@, m.name, m.methods, m.methods.len() as int, decls);
            let b = require_method("mail"@, m.name, m.name_span, m.methods, "subject"@, "add `subject() { ... }` to define the mail subject"@);
            let c = require_method("mail"@, m.name, m.name_span, m.methods, "body"@, "add `body(...) { ... }` to define the mail body"@);
            lemma_concat(a, b, ts);
            lemma_concat(a + b, c, ts);
        },
    }
}

proof fn lemma_globals_upto(decls: Seq<DeclV>, n: int, ts: Seq<Token>)
    requires
        n <= decls.len(),
        program_names_at(decls, ts),
    ensures
        reported_at_tokens(globals_upto(decls, n), ts),
    decreases n,
{
    if n > 0 {
        lemma_globals_upto(decls, n - 1, ts);
        assert(decl_names_at(decls[n - 1], ts));
        lemma_concat(globals_upto(decls, n - 1), global_diags(decls, n - 1), ts);
    }
}

proof fn lemma_decls_upto(decls: Seq<DeclV>, n: int, ts: Seq<Token>)
    requires
        program_names_at(decls, ts),
    ensures
        reported_at_tokens(decls_upto(decls, n), ts),
    decreases n,
{
    if 0 < n <= decls.len() {
        lemma_decls_upto(decls, n - 1, ts);
        lemma_decl_diags(decls[n - 1], decls, ts);
        lemma_concat(decls_upto(decls, n - 1), decl_diags(decls[n - 1], decls), ts);
    }
}

/// Every error the analysis reports stands at the span of a name or type
/// written in the program: where those come from tokens, so do the errors.
pub proof fn semantic_errors_point_at_names(decls: Seq<DeclV>, ts: Seq<Token>)
    requires
        program_names_at(decls, ts),
    ensures
        reported_at_tokens(analysis(decls), ts),
{
    lemma_globals_upto(decls, decls.len() as int, ts);
    lemma_decls_upto(decls, decls.len() as int, ts);
    lemma_concat(globals_upto(decls, decls.len() as int), decls_upto(decls, decls.len() as int), ts);
}

} // verus!
