use vstd::prelude::*;
use crate::token::Span;
use crate::text::{
    byte_len, chars_of, decimal, decimal_width, owned, push_chars, push_decimal, push_repeat, push_str,
    repeat, utf8_len, char_len_utf8, lemma_utf8_len_push, lemma_utf8_len_prefix, lemma_utf8_len_split,
};

verus! {

/// How serious a diagnostic is.
#[derive(Debug, Clone, Copy, PartialEq, Eq, Structural)]
pub enum Severity {
    Error,
    Warning,
    Note,
}

/// The word that introduces a rendered diagnostic of this severity.
pub open spec fn severity_text(s: Severity) -> Seq<char> {
    match s {
        Severity::Error => "error"@,
        Severity::Warning => "warning"@,
        Severity::Note => "note"@,
    }
}

impl Severity {
    fn as_str(self) -> (t: &'static str)
        ensures
            t@ == severity_text(self),
    {
        match self {
            Severity::Error => "error",
            Severity::Warning => "warning",
            Severity::Note => "note",
        }
    }
}

/// A source-aware message about a problem in Densleaf source.
#[derive(Debug, Clone, PartialEq, Eq)]
pub struct Diagnostic {
    pub severity: Severity,
    pub message: String,
    pub span: Span,
    pub help: Option<String>,
    pub note: Option<String>,
}

/// The content of a diagnostic, with its texts as character sequences.
pub struct DiagnosticView {
    pub severity: Severity,
    pub message: Seq<char>,
    pub span: Span,
    pub help: Option<Seq<char>>,
    pub note: Option<Seq<char>>,
}

pub open spec fn text_opt(o: Option<String>) -> Option<Seq<char>> {
    match o {
        Some(s) => Some(s@),
        None => None,
    }
}

impl View for Diagnostic {
    type V = DiagnosticView;

    open spec fn view(&self) -> DiagnosticView {
        DiagnosticView {
            severity: self.severity,
            message: self.message@,
            span: self.span,
            help: text_opt(self.help),
            note: text_opt(self.note),
        }
    }
}

/// An error diagnostic with the given message and span and no help or note.
pub open spec fn error_view(message: Seq<char>, span: Span) -> DiagnosticView {
    DiagnosticView { severity: Severity::Error, message, span, help: None, note: None }
}

/// `d` with its help text set to `help`.
pub open spec fn with_help_view(d: DiagnosticView, help: Seq<char>) -> DiagnosticView {
    DiagnosticView { help: Some(help), ..d }
}

/// `d` with its note text set to `note`.
pub open spec fn with_note_view(d: DiagnosticView, note: Seq<char>) -> DiagnosticView {
    DiagnosticView { note: Some(note), ..d }
}

impl Diagnostic {
    pub fn error(message: &str, span: Span) -> (d: Self)
        ensures
            d@ == error_view(message@, span),
    {
        Diagnostic { severity: Severity::Error, message: owned(message), span, help: None, note: None }
    }

    /// An error diagnostic that takes ownership of an already built message.
    pub fn error_owned(message: String, span: Span) -> (d: Self)
        ensures
            d@ == error_view(message@, span),
    {
        Diagnostic { severity: Severity::Error, message, span, help: None, note: None }
    }

    pub fn with_help(self, help: &str) -> (d: Self)
        ensures
            d@ == with_help_view(self@, help@),
    {
        let mut d = self;
        d.help = Some(owned(help));
        d
    }

    pub fn with_help_owned(self, help: String) -> (d: Self)
        ensures
            d@ == with_help_view(self@, help@),
    {
        let mut d = self;
        d.help = Some(help);
        d
    }

    pub fn with_note(self, note: &str) -> (d: Self)
        ensures
            d@ == with_note_view(self@, note@),
    {
        let mut d = self;
        d.note = Some(owned(note));
        d
    }

    pub fn with_note_owned(self, note: String) -> (d: Self)
        ensures
            d@ == with_note_view(self@, note@),
    {
        let mut d = self;
        d.note = Some(note);
        d
    }
}

/// The index of the first `\n` at or after `j`, or the length of `s`.
pub open spec fn next_newline(s: Seq<char>, j: int) -> int
    decreases s.len() - j,
{
    if j >= s.len() {
        s.len() as int
    } else if s[j] == '\n' {
        j
    } else {
        next_newline(s, j + 1)
    }
}

pub proof fn lemma_next_newline_bounds(s: Seq<char>, j: int)
    requires
        0 <= j <= s.len(),
    ensures
        j <= next_newline(s, j) <= s.len(),
        next_newline(s, j) < s.len() ==> s[next_newline(s, j)] == '\n',
    decreases s.len() - j,
{
    if j < s.len() && s[j] != '\n' {
        lemma_next_newline_bounds(s, j + 1);
    }
}

/// The line that starts at `p` and whose terminator (if any) is at `k`, without
/// its line ending: a `\r` right before the `\n` belongs to the line ending.
pub open spec fn line_text(s: Seq<char>, p: int, k: int) -> Seq<char> {
    if k < s.len() && k > p && s[k - 1] == '\r' {
        s.subrange(p, k - 1)
    } else {
        s.subrange(p, k)
    }
}

/// The `n`-th line (0-based) of the text that starts at `p`, as `str::lines`
/// yields it: lines end at `\n` or `\r\n`, and a final line ending does not
/// start another line.
pub open spec fn nth_line_from(s: Seq<char>, p: int, n: nat) -> Option<Seq<char>>
    decreases s.len() - p,
{
    if p < 0 || p >= s.len() {
        None
    } else {
        let k = next_newline(s, p);
        proof {
            lemma_next_newline_bounds(s, p);
        }
        if n == 0 {
            Some(line_text(s, p, k))
        } else if k < s.len() {
            nth_line_from(s, k + 1, (n - 1) as nat)
        } else {
            None
        }
    }
}

pub open spec fn max_nat(a: int, b: int) -> int {
    if a >= b { a } else { b }
}

pub open spec fn min_nat(a: int, b: int) -> int {
    if a <= b { a } else { b }
}

/// The text of `d` rendered against the source `source`: a header with the
/// severity and message, the location, the source line with a caret marker
/// under the span, and the help and note texts if present.
pub open spec fn rendered(d: DiagnosticView, source: Seq<char>) -> Seq<char> {
    let line_number = max_nat(d.span.start.line as int, 1);
    let column = max_nat(d.span.start.column as int, 1);
    let source_line = match nth_line_from(source, 0, (line_number - 1) as nat) {
        Some(l) => l,
        None => Seq::<char>::empty(),
    };
    let width = max_nat(d.span.end.offset - d.span.start.offset, 1);
    let caret_width = min_nat(width, max_nat(utf8_len(source_line) - (column - 1), 1));
    let gutter = decimal(line_number as nat).len();
    let body = severity_text(d.severity) + ": "@ + d.message + "\n\n --> "@ + d.span.file@ + ":"@
        + decimal(line_number as nat) + ":"@ + decimal(column as nat) + "\n"@
        + repeat(' ', gutter) + " |\n"@ + decimal(line_number as nat) + " | "@ + source_line
        + "\n"@ + repeat(' ', gutter) + " | "@ + repeat(' ', (column - 1) as nat)
        + repeat('^', caret_width as nat) + " "@ + d.message;
    let with_help = match d.help {
        Some(h) => body + "\n\nhelp: "@ + h,
        None => body,
    };
    match d.note {
        Some(n) => with_help + "\n\nnote: "@ + n,
        None => with_help,
    }
}

/// Help and a note never change how the rest of a diagnostic renders: each
/// adds its own section at the end, the help before the note.
pub proof fn help_and_note_append_sections(d: DiagnosticView, help: Seq<char>, note: Seq<char>, source: Seq<char>)
    requires
        d.help is None,
        d.note is None,
    ensures
        rendered(with_help_view(d, help), source) == rendered(d, source) + "\n\nhelp: "@ + help,
        rendered(with_note_view(d, note), source) == rendered(d, source) + "\n\nnote: "@ + note,
        rendered(with_note_view(with_help_view(d, help), note), source)
            == rendered(d, source) + "\n\nhelp: "@ + help + "\n\nnote: "@ + note,
{
}

/// The position of the first `\n` at or after `j`.
fn find_newline(chars: &Vec<char>, j: usize) -> (k: usize)
    requires
        j <= chars@.len(),
    ensures
        k == next_newline(chars@, j as int),
        j <= k <= chars@.len(),
{
    let mut k = j;
    while k < chars.len() && chars[k] != '\n'
        invariant
            j <= k <= chars@.len(),
            next_newline(chars@, j as int) == next_newline(chars@, k as int),
        decreases chars@.len() - k,
    {
        k = k + 1;
    }
    k
}

/// The bounds of the `n`-th line of `chars`, if it has one.
fn nth_line_bounds(chars: &Vec<char>, n: usize) -> (r: Option<(usize, usize)>)
    ensures
        match r {
            None => nth_line_from(chars@, 0, n as nat) is None,
            Some((a, b)) => a <= b <= chars@.len() && nth_line_from(chars@, 0, n as nat)
                == Some(chars@.subrange(a as int, b as int)),
        },
{
    let mut p: usize = 0;
    let mut remaining = n;
    loop
        invariant
            p <= chars@.len(),
            nth_line_from(chars@, 0, n as nat) == nth_line_from(chars@, p as int, remaining as nat),
        decreases chars@.len() - p,
    {
        if p == chars.len() {
            return None;
        }
        let k = find_newline(chars, p);
        if remaining == 0 {
            let end = if k < chars.len() && k > p && chars[k - 1] == '\r' { k - 1 } else { k };
            return Some((p, end));
        }
        if k < chars.len() {
            p = k + 1;
            remaining = remaining - 1;
        } else {
            return None;
        }
    }
}

/// The number of bytes in the UTF-8 encoding of `chars[a..b]`.
fn utf8_len_of(chars: &Vec<char>, a: usize, b: usize, bound: usize) -> (n: usize)
    requires
        a <= b <= chars@.len(),
        utf8_len(chars@.subrange(a as int, b as int)) <= bound,
    ensures
        n == utf8_len(chars@.subrange(a as int, b as int)),
{
    let mut n: usize = 0;
    let mut i = a;
    while i < b
        invariant
            a <= i <= b <= chars@.len(),
            utf8_len(chars@.subrange(a as int, b as int)) <= bound,
            n == utf8_len(chars@.subrange(a as int, i as int)),
        decreases b - i,
    {
        proof {
            let t = chars@.subrange(a as int, b as int);
            assert(chars@.subrange(a as int, i + 1) =~= chars@.subrange(a as int, i as int).push(chars@[i as int]));
            lemma_utf8_len_push(chars@.subrange(a as int, i as int), chars@[i as int]);
            assert(t.take(i + 1 - a) =~= chars@.subrange(a as int, i + 1));
            lemma_utf8_len_prefix(t, i + 1 - a);
        }
        n = n + char_len_utf8(chars[i]);
        i = i + 1;
    }
    n
}

impl Diagnostic {
    /// Renders this diagnostic against the source text it refers to.
    pub fn render(&self, source: &str) -> (out: String)
        ensures
            out@ == rendered(self@, source@),
    {
        let line_number = if self.span.start.line >= 1 { self.span.start.line } else { 1 };
        let column = if self.span.start.column >= 1 { self.span.start.column } else { 1 };
        let chars = chars_of(source);
        let bytes_len = byte_len(source);
        let (la, lb) = match nth_line_bounds(&chars, line_number - 1) {
            Some((a, b)) => (a, b),
            None => (0, 0),
        };
        proof {
            let t = chars@.subrange(la as int, lb as int);
            let pre = chars@.take(lb as int);
            assert(pre.skip(la as int) =~= t);
            lemma_utf8_len_prefix(chars@, lb as int);
            lemma_utf8_len_split(pre, la as int);
            assert(utf8_len(chars@) == bytes_len);
        }
        let line_bytes = utf8_len_of(&chars, la, lb, bytes_len);
        let width = if self.span.end.offset > self.span.start.offset {
            self.span.end.offset - self.span.start.offset
        } else {
            1
        };
        let avail = if line_bytes > column - 1 { line_bytes - (column - 1) } else { 1 };
        let caret_width = if width <= avail { width } else { avail };
        let gutter = decimal_width(line_number);

        let mut out = String::new();
        push_str(&mut out, self.severity.as_str());
        push_str(&mut out, ": ");
        push_str(&mut out, self.message.as_str());
        push_str(&mut out, "\n\n --> ");
        push_str(&mut out, self.span.file.as_str());
        push_str(&mut out, ":");
        push_decimal(&mut out, line_number);
        push_str(&mut out, ":");
        push_decimal(&mut out, column);
        push_str(&mut out, "\n");
        push_repeat(&mut out, ' ', gutter);
        push_str(&mut out, " |\n");
        push_decimal(&mut out, line_number);
        push_str(&mut out, " | ");
        push_chars(&mut out, &chars, la, lb);
        push_str(&mut out, "\n");
        push_repeat(&mut out, ' ', gutter);
        push_str(&mut out, " | ");
        push_repeat(&mut out, ' ', column - 1);
        push_repeat(&mut out, '^', caret_width);
        push_str(&mut out, " ");
        push_str(&mut out, self.message.as_str());
        match &self.help {
            Some(h) => {
                push_str(&mut out, "\n\nhelp: ");
                push_str(&mut out, h.as_str());
            },
            None => {},
        }
        match &self.note {
            Some(n) => {
                push_str(&mut out, "\n\nnote: ");
                push_str(&mut out, n.as_str());
            },
            None => {},
        }
        out
    }
}

/// Diagnostics rendered one after another, each on its own lines and
/// separated by a blank line, as a command-line report shows them.
pub open spec fn rendered_all(ds: Seq<DiagnosticView>, source: Seq<char>) -> Seq<char>
    decreases ds.len(),
{
    if ds.len() == 0 {
        Seq::empty()
    } else if ds.len() == 1 {
        rendered(ds[0], source) + "\n"@
    } else {
        rendered_all(ds.drop_last(), source) + "\n"@ + rendered(ds.last(), source) + "\n"@
    }
}

/// Renders each of `diagnostics` against `source`, separated by blank lines.
pub fn render_all(diagnostics: &Vec<Diagnostic>, source: &str) -> (out: String)
    ensures
        out@ == rendered_all(diagnostics@.map_values(|d: Diagnostic| d@), source@),
{
    let ghost dv = diagnostics@.map_values(|d: Diagnostic| d@);
    let mut out = String::new();
    let mut k: usize = 0;
    while k < diagnostics.len()
        invariant
            k <= diagnostics@.len(),
            dv == diagnostics@.map_values(|d: Diagnostic| d@),
            out@ == rendered_all(dv.take(k as int), source@),
        decreases diagnostics@.len() - k,
    {
        if k > 0 {
            push_str(&mut out, "\n");
        }
        let r = diagnostics[k].render(source);
        push_str(&mut out, r.as_str());
        push_str(&mut out, "\n");
        assert(dv.take(k + 1).drop_last() =~= dv.take(k as int));
        assert(dv.take(k + 1).last() == diagnostics@[k as int]@);
        if k == 0 {
            assert(out@ =~= rendered_all(dv.take(1), source@));
        } else {
            assert(out@ =~= rendered_all(dv.take(k + 1), source@));
        }
        k = k + 1;
    }
    assert(dv.take(diagnostics@.len() as int) =~= dv);
    out
}

} // verus!
