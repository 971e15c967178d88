use vstd::prelude::*;
use crate::ast::Program;
use crate::diagnostic::Diagnostic;
use crate::lexer::{
    LexOutput, diag_is, diags_are, lex, lex_output_is, lex_spec, lex_tokens_are_ordered_and_end_with_eof,
    span_is, token_is, tokens_are,
};
use crate::error_spans::{is_token_span, semantic_errors_point_at_names, syntax_errors_point_at_tokens};
use crate::parser::{dviews, lexer_output_can_be_parsed, parse, parse_spec, parsing_always_yields_a_program};
use crate::semantic::{analysis, analyze};
use crate::token::{Span, Token};

verus! {

/// `span` lies in the file `file`, whose text is `s`: it covers characters
/// `a..b` of it for some `a <= b`.
pub open spec fn in_source(span: Span, s: Seq<char>, file: Seq<char>) -> bool {
    exists|a: int, b: int| 0 <= a <= b <= s.len() && #[trigger] span_is(span, s, file, a, b)
}

/// The lexical errors of a source file, the syntax errors in the tokens it
/// lexes into, and the semantic errors of the program parsed from them, all
/// point at text of that file.
pub proof fn front_end_errors_point_into_the_source(out: LexOutput, s: Seq<char>, file: Seq<char>)
    requires
        lex_output_is(out, s, file),
    ensures
        forall|k: int| 0 <= k < out.diagnostics@.len() ==> in_source(#[trigger] out.diagnostics@[k]@.span, s, file),
        forall|k: int|
            0 <= k < parse_spec(out.tokens@).diags.len() ==> in_source(#[trigger] parse_spec(out.tokens@).diags[k].span, s, file),
        forall|k: int|
            0 <= k < analysis(parse_spec(out.tokens@).value->0).len() ==> in_source(
                #[trigger] analysis(parse_spec(out.tokens@).value->0)[k].span,
                s,
                file,
            ),
{
    let (ls, lds) = lex_spec(s);
    lex_tokens_are_ordered_and_end_with_eof(s);
    assert forall|k: int| 0 <= k < out.diagnostics@.len() implies in_source(#[trigger] out.diagnostics@[k]@.span, s, file) by {
        assert(diag_is(out.diagnostics@[k]@, lds[k], s, file));
        assert(span_is(out.diagnostics@[k]@.span, s, file, lds[k].start, lds[k].end));
    }
    lexer_output_can_be_parsed(out, s, file);
    let ts = out.tokens@;
    syntax_errors_point_at_tokens(ts);
    let ds = parse_spec(ts).diags;
    assert forall|k: int| 0 <= k < ds.len() implies in_source(#[trigger] ds[k].span, s, file) by {
        lemma_token_span_in_source(out, s, file, ds[k].span);
    }
    parsing_always_yields_a_program(ts);
    semantic_errors_point_at_names(parse_spec(ts).value->0, ts);
    let sem = analysis(parse_spec(ts).value->0);
    assert forall|k: int| 0 <= k < sem.len() implies in_source(#[trigger] sem[k].span, s, file) by {
        lemma_token_span_in_source(out, s, file, sem[k].span);
    }
}

proof fn lemma_token_span_in_source(out: LexOutput, s: Seq<char>, file: Seq<char>, span: Span)
    requires
        lex_output_is(out, s, file),
        is_token_span(span, out.tokens@),
    ensures
        in_source(span, s, file),
{
    let ts = out.tokens@;
    let ls = lex_spec(s).0;
    lex_tokens_are_ordered_and_end_with_eof(s);
    let i = choose|i: int| 0 <= i < ts.len() && ts[i].span == span;
    assert(token_is(ts[i], ls[i], s, file));
    assert(span_is(span, s, file, ls[i].start, ls[i].end));
}

/// What checking gives once the source has lexed cleanly into `ts`: the
/// syntax errors if there are any, else the semantic errors if there are
/// any, else the program.
pub open spec fn checked_after_lexing(ts: Seq<Token>, r: Result<Program, Vec<Diagnostic>>) -> bool {
    let parsed = parse_spec(ts);
    if parsed.diags.len() > 0 {
        r matches Err(ds) && dviews(ds@) == parsed.diags
    } else {
        let semantic = analysis(parsed.value->0);
        if semantic.len() > 0 {
            r matches Err(ds) && dviews(ds@) == semantic
        } else {
            r matches Ok(program) && program@ == parsed.value->0
        }
    }
}

/// Runs the front end on one source file (named `file`) and stops at the
/// first stage that reports anything: lexical errors, then syntax errors,
/// then semantic errors. Returns the checked program when no stage objects.
pub fn check(source: &str, file: &str) -> (r: Result<Program, Vec<Diagnostic>>)
    ensures
        lex_spec(source@).1.len() > 0 ==> (r matches Err(ds) && diags_are(ds@, lex_spec(source@).1, source@, file@)),
        lex_spec(source@).1.len() == 0 ==> exists|ts: Seq<Token>|
            tokens_are(ts, lex_spec(source@).0, source@, file@) && #[trigger] checked_after_lexing(ts, r),
        r matches Err(ds) ==> forall|k: int| 0 <= k < ds@.len() ==> in_source(#[trigger] ds@[k]@.span, source@, file@),
{
    let lexed = lex(source, file);
    proof {
        front_end_errors_point_into_the_source(lexed, source@, file@);
    }
    if lexed.diagnostics.len() > 0 {
        return Err(lexed.diagnostics);
    }
    let ghost ts = lexed.tokens@;
    proof {
        lexer_output_can_be_parsed(lexed, source@, file@);
        parsing_always_yields_a_program(ts);
    }
    let parsed = parse(lexed.tokens);
    if parsed.diagnostics.len() > 0 {
        assert(checked_after_lexing(ts, Err(parsed.diagnostics)));
        assert forall|k: int| 0 <= k < parsed.diagnostics@.len() implies in_source(
            #[trigger] parsed.diagnostics@[k]@.span,
            source@,
            file@,
        ) by {
            assert(dviews(parsed.diagnostics@)[k] == parsed.diagnostics@[k]@);
        }
        return Err(parsed.diagnostics);
    }
    let semantic = analyze(&parsed.program);
    if semantic.len() > 0 {
        assert(checked_after_lexing(ts, Err(semantic)));
        assert forall|k: int| 0 <= k < semantic@.len() implies in_source(#[trigger] semantic@[k]@.span, source@, file@) by {
            assert(dviews(semantic@)[k] == semantic@[k]@);
        }
        return Err(semantic);
    }
    let r = Ok(parsed.program);
    assert(checked_after_lexing(ts, r));
    r
}

} // verus!
