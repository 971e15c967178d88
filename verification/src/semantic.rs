use vstd::prelude::*;
use crate::ast::{
    ControllerMethod, Declaration, DeclV, EntryV, ExprV, Expression, FieldV, MethodV,
    MethodsV, ModelField, ObjectEntry, ParamV, Program, Statement, StmtV, TypeRefV,
    TypeReference, methods_view, view_at, entry_view_at,
};
use crate::diagnostic::{Diagnostic, DiagnosticView, Severity, error_view, with_help_view, with_note_view};
use crate::parser::{dviews, fields_view, params_view, stmts_view};
use crate::text::{decimal, owned, push_decimal, push_str};
use crate::token::Span;

verus! {

// ---------------------------------------------------------------------------
// What the analysis reports, as functions of the program's view
// ---------------------------------------------------------------------------

/// Which declaration a view is: 1 model, 2 controller, 3 middleware,
/// 4 migration, 5 policy, 6 event, 7 listener, 8 notification, 9 mail.
pub open spec fn decl_kind(d: DeclV) -> nat {
    match d {
        DeclV::Model(_) => 1,
        DeclV::Controller(_) => 2,
        DeclV::Middleware(_) => 3,
        DeclV::Migration(_) => 4,
        DeclV::Policy(_) => 5,
        DeclV::Event(_) => 6,
        DeclV::Listener(_) => 7,
        DeclV::Notification(_) => 8,
        DeclV::Mail(_) => 9,
    }
}

/// The keyword of a declaration kind.
pub open spec fn kind_label(k: nat) -> Seq<char> {
    if k == 1 {
        "model"@
    } else if k == 2 {
        "controller"@
    } else if k == 3 {
        "middleware"@
    } else if k == 4 {
        "migration"@
    } else if k == 5 {
        "policy"@
    } else if k == 6 {
        "event"@
    } else if k == 7 {
        "listener"@
    } else if k == 8 {
        "notification"@
    } else {
        "mail"@
    }
}

pub open spec fn decl_name(d: DeclV) -> Seq<char> {
    match d {
        DeclV::Model(f) => f.name,
        DeclV::Event(f) => f.name,
        DeclV::Controller(m) => m.name,
        DeclV::Middleware(m) => m.name,
        DeclV::Migration(m) => m.name,
        DeclV::Policy(m) => m.name,
        DeclV::Listener(m) => m.name,
        DeclV::Notification(m) => m.name,
        DeclV::Mail(m) => m.name,
    }
}

pub open spec fn decl_name_span(d: DeclV) -> Span {
    match d {
        DeclV::Model(f) => f.name_span,
        DeclV::Event(f) => f.name_span,
        DeclV::Controller(m) => m.name_span,
        DeclV::Middleware(m) => m.name_span,
        DeclV::Migration(m) => m.name_span,
        DeclV::Policy(m) => m.name_span,
        DeclV::Listener(m) => m.name_span,
        DeclV::Notification(m) => m.name_span,
        DeclV::Mail(m) => m.name_span,
    }
}

/// `file:line:column` of the start of a span.
pub open spec fn location(s: Span) -> Seq<char> {
    s.file@ + ":"@ + decimal(s.start.line as nat) + ":"@ + decimal(s.start.column as nat)
}

/// Some declaration is named `name`; with `which` other than 0, one of that kind.
pub open spec fn declares(decls: Seq<DeclV>, name: Seq<char>, which: nat) -> bool {
    exists|j: int|
        0 <= j < decls.len() && #[trigger] decl_name(decls[j]) == name && (which == 0
            || decl_kind(decls[j]) == which)
}

/// The index of the first of `decls[0..n]` named `name`.
pub open spec fn first_named(decls: Seq<DeclV>, name: Seq<char>, n: int) -> Option<int>
    decreases n,
{
    if n <= 0 {
        None
    } else {
        match first_named(decls, name, n - 1) {
            Some(j) => Some(j),
            None => if decl_name(decls[n - 1]) == name {
                Some(n - 1)
            } else {
                None
            },
        }
    }
}

/// The diagnostic for `decls[i]` when an earlier declaration took its name.
pub open spec fn global_diags(decls: Seq<DeclV>, i: int) -> Seq<DiagnosticView> {
    let d = decls[i];
    let name = decl_name(d);
    match first_named(decls, name, i) {
        None => seq![],
        Some(j) => {
            let prev = decls[j];
            let message = if decl_kind(prev) == decl_kind(d) {
                "duplicate "@ + kind_label(decl_kind(d)) + " `"@ + name + "`"@
            } else {
                "duplicate top-level declaration `"@ + name + "`"@
            };
            seq![with_note_view(
                error_view(message, decl_name_span(d)),
                "`"@ + name + "` was already declared as a "@ + kind_label(decl_kind(prev)) + " at "@
                    + location(decl_name_span(prev)),
            )]
        },
    }
}

/// The duplicate top-level names among `decls[0..n]`, in order.
pub open spec fn globals_upto(decls: Seq<DeclV>, n: int) -> Seq<DiagnosticView>
    decreases n,
{
    if n <= 0 {
        seq![]
    } else {
        globals_upto(decls, n - 1) + global_diags(decls, n - 1)
    }
}

/// The index of the last of `keys[0..n]` (names with the spans that declared
/// them, in order) named `name`.
pub open spec fn last_named(keys: Seq<(Seq<char>, Span)>, name: Seq<char>, n: int) -> Option<int>
    decreases n,
{
    if n <= 0 {
        None
    } else if keys[n - 1].0 == name {
        Some(n - 1)
    } else {
        last_named(keys, name, n - 1)
    }
}

pub open spec fn field_keys(fs: Seq<FieldV>) -> Seq<(Seq<char>, Span)> {
    fs.map_values(|f: FieldV| (f.name, f.name_span))
}

pub open spec fn method_keys(ms: Seq<MethodV>) -> Seq<(Seq<char>, Span)> {
    ms.map_values(|m: MethodV| (m.name, m.name_span))
}

pub open spec fn param_keys(ps: Seq<ParamV>) -> Seq<(Seq<char>, Span)> {
    ps.map_values(|p: ParamV| (p.name, p.name_span))
}

pub open spec fn entry_keys(es: Seq<EntryV>) -> Seq<(Seq<char>, Span)> {
    es.map_values(|e: EntryV| (e.key, e.key_span))
}

pub open spec fn builtin_type(name: Seq<char>) -> bool {
    name == "id"@ || name == "int"@ || name == "bool"@ || name == "string"@
}

/// A type reference must name a built-in type, a model or an event.
pub open spec fn type_diags(t: TypeRefV, decls: Seq<DeclV>) -> Seq<DiagnosticView> {
    if builtin_type(t.name) || declares(decls, t.name, 1) || declares(decls, t.name, 6) {
        seq![]
    } else {
        seq![with_help_view(
            error_view("unknown type `"@ + t.name + "`"@, t.span),
            "use a built-in type (id, int, bool, string), declared model, or declared event type"@,
        )]
    }
}

// --- fields ------------------------------------------------------------------

pub open spec fn field_diags(kind: Seq<char>, owner: Seq<char>, fs: Seq<FieldV>, i: int, decls: Seq<DeclV>) -> Seq<DiagnosticView> {
    let f = fs[i];
    let dup = match last_named(field_keys(fs), f.name, i) {
        None => seq![],
        Some(j) => seq![with_note_view(
            error_view("duplicate field `"@ + f.name + "` on "@ + kind, f.name_span),
            "`"@ + f.name + "` is already declared on `"@ + owner + "` at "@ + location(fs[j].name_span),
        )],
    };
    dup + type_diags(f.type_reference, decls)
}

pub open spec fn fields_upto(kind: Seq<char>, owner: Seq<char>, fs: Seq<FieldV>, n: int, decls: Seq<DeclV>) -> Seq<DiagnosticView>
    decreases n,
{
    if n <= 0 {
        seq![]
    } else {
        fields_upto(kind, owner, fs, n - 1, decls) + field_diags(kind, owner, fs, n - 1, decls)
    }
}

// --- expressions -------------------------------------------------------------

/// The bindings in scope hold `name`, or a declaration is named `name`.
pub open spec fn resolves(bs: Seq<(Seq<char>, Span)>, name: Seq<char>, decls: Seq<DeclV>) -> bool {
    last_named(bs, name, bs.len() as int) is Some || declares(decls, name, 0)
}

/// Unknown names and duplicate object keys in `e`, in source order.
pub open spec fn expr_diags(e: ExprV, bs: Seq<(Seq<char>, Span)>, decls: Seq<DeclV>) -> Seq<DiagnosticView>
    decreases e, 0int,
{
    match e {
        ExprV::Ident { name, span } => if resolves(bs, name, decls) {
            seq![]
        } else {
            seq![with_help_view(
                error_view("unknown name `"@ + name + "`"@, span),
                "declare the name with `let`, add it as a parameter, or reference a declared top-level symbol"@,
            )]
        },
        ExprV::Array { elements, .. } => exprs_upto(elements, elements.len() as int, bs, decls),
        ExprV::Object { entries, .. } => entries_upto(entries, entries.len() as int, bs, decls),
        ExprV::Grouped { expression, .. } => expr_diags(*expression, bs, decls),
        ExprV::Unary { operand, .. } => expr_diags(*operand, bs, decls),
        ExprV::Binary { left, right, .. } => expr_diags(*left, bs, decls) + expr_diags(*right, bs, decls),
        ExprV::Member { object, .. } => expr_diags(*object, bs, decls),
        ExprV::Call { callee, arguments, .. } => expr_diags(*callee, bs, decls) + exprs_upto(
            arguments,
            arguments.len() as int,
            bs,
            decls,
        ),
        ExprV::Index { object, index, .. } => expr_diags(*object, bs, decls) + expr_diags(*index, bs, decls),
        _ => seq![],
    }
}

pub open spec fn exprs_upto(es: Seq<ExprV>, n: int, bs: Seq<(Seq<char>, Span)>, decls: Seq<DeclV>) -> Seq<DiagnosticView>
    decreases es, n,
{
    if n <= 0 || n > es.len() {
        seq![]
    } else {
        exprs_upto(es, n - 1, bs, decls) + expr_diags(es[n - 1], bs, decls)
    }
}

pub open spec fn key_diags(es: Seq<EntryV>, i: int) -> Seq<DiagnosticView> {
    let key = es[i].key;
    match last_named(entry_keys(es), key, i) {
        None => seq![],
        Some(j) => seq![with_note_view(
            error_view("duplicate object key `"@ + key + "`"@, es[i].key_span),
            "`"@ + key + "` was already defined at "@ + location(es[j].key_span),
        )],
    }
}

pub open spec fn entries_upto(es: Seq<EntryV>, n: int, bs: Seq<(Seq<char>, Span)>, decls: Seq<DeclV>) -> Seq<DiagnosticView>
    decreases es, n,
{
    if n <= 0 || n > es.len() {
        seq![]
    } else {
        entries_upto(es, n - 1, bs, decls) + key_diags(es, n - 1) + expr_diags(es[n - 1].value, bs, decls)
    }
}

// --- methods -----------------------------------------------------------------

/// The bindings in scope before statement `k` of `m`: its parameters, then
/// the `let` names of the statements before `k`, in order.
pub open spec fn bindings_before(m: MethodV, k: int) -> Seq<(Seq<char>, Span)>
    decreases k,
{
    if k <= 0 || k > m.body.len() {
        param_keys(m.parameters)
    } else {
        let prev = bindings_before(m, k - 1);
        match m.body[k - 1] {
            StmtV::Let { name, name_span, .. } => prev.push((name, name_span)),
            StmtV::Return { .. } => prev,
        }
    }
}

pub open spec fn stmt_diags(st: StmtV, bs: Seq<(Seq<char>, Span)>, decls: Seq<DeclV>) -> Seq<DiagnosticView> {
    match st {
        StmtV::Let { name, name_span, initializer, .. } => expr_diags(initializer, bs, decls) + match last_named(
            bs,
            name,
            bs.len() as int,
        ) {
            None => seq![],
            Some(j) => seq![with_note_view(
                error_view("duplicate local binding `"@ + name + "`"@, name_span),
                "`"@ + name + "` is already bound at "@ + location(bs[j].1),
            )],
        },
        StmtV::Return { expression, .. } => expr_diags(expression, bs, decls),
    }
}

pub open spec fn body_upto(m: MethodV, n: int, decls: Seq<DeclV>) -> Seq<DiagnosticView>
    decreases n,
{
    if n <= 0 || n > m.body.len() {
        seq![]
    } else {
        body_upto(m, n - 1, decls) + stmt_diags(m.body[n - 1], bindings_before(m, n - 1), decls)
    }
}

pub open spec fn param_diags(m: MethodV, i: int, decls: Seq<DeclV>) -> Seq<DiagnosticView> {
    let p = m.parameters[i];
    let dup = match last_named(param_keys(m.parameters), p.name, i) {
        None => seq![],
        Some(j) => seq![with_note_view(
            error_view("duplicate parameter `"@ + p.name + "`"@, p.name_span),
            "`"@ + p.name + "` was already declared in method `"@ + m.name + "` at "@
                + location(m.parameters[j].name_span),
        )],
    };
    dup + match p.type_reference {
        Some(t) => type_diags(t, decls),
        None => seq![],
    }
}

pub open spec fn params_upto(m: MethodV, n: int, decls: Seq<DeclV>) -> Seq<DiagnosticView>
    decreases n,
{
    if n <= 0 || n > m.parameters.len() {
        seq![]
    } else {
        params_upto(m, n - 1, decls) + param_diags(m, n - 1, decls)
    }
}

pub open spec fn method_diags(kind: Seq<char>, owner: Seq<char>, ms: Seq<MethodV>, i: int, decls: Seq<DeclV>) -> Seq<DiagnosticView> {
    let m = ms[i];
    let dup = match last_named(method_keys(ms), m.name, i) {
        None => seq![],
        Some(j) => seq![with_note_view(
            error_view("duplicate "@ + kind + " method `"@ + m.name + "`"@, m.name_span),
            "`"@ + m.name + "` is already declared on `"@ + owner + "` at "@ + location(ms[j].name_span),
        )],
    };
    dup + params_upto(m, m.parameters.len() as int, decls) + body_upto(m, m.body.len() as int, decls)
}

pub open spec fn methods_upto(kind: Seq<char>, owner: Seq<char>, ms: Seq<MethodV>, n: int, decls: Seq<DeclV>) -> Seq<DiagnosticView>
    decreases n,
{
    if n <= 0 || n > ms.len() {
        seq![]
    } else {
        methods_upto(kind, owner, ms, n - 1, decls) + method_diags(kind, owner, ms, n - 1, decls)
    }
}

// --- declarations --------------------------------------------------------------

/// The index of the first method in `ms` named `name`.
pub open spec fn first_method(ms: Seq<MethodV>, name: Seq<char>, n: int) -> Option<int>
    decreases n,
{
    if n <= 0 {
        None
    } else {
        match first_method(ms, name, n - 1) {
            Some(j) => Some(j),
            None => if ms[n - 1].name == name {
                Some(n - 1)
            } else {
                None
            },
        }
    }
}

pub proof fn lemma_first_method_bounds(ms: Seq<MethodV>, name: Seq<char>, n: int)
    ensures
        first_method(ms, name, n) matches Some(k) ==> 0 <= k < n && ms[k].name == name,
    decreases n,
{
    if n > 0 {
        lemma_first_method_bounds(ms, name, n - 1);
    }
}

/// The `kind` named `owner` must define a method `name`.
pub open spec fn require_method(
    kind: Seq<char>,
    owner: Seq<char>,
    owner_span: Span,
    methods: Seq<MethodV>,
    name: Seq<char>,
    help: Seq<char>,
) -> Seq<DiagnosticView> {
    if first_method(methods, name, methods.len() as int) is Some {
        seq![]
    } else {
        seq![with_help_view(
            error_view(kind + " `"@ + owner + "` must define `"@ + name + "`"@, owner_span),
            help,
        )]
    }
}

pub open spec fn policy_target_diags(d: MethodsV, decls: Seq<DeclV>) -> Seq<DiagnosticView> {
    match d.target {
        Some(t) => if declares(decls, t.name, 1) {
            seq![]
        } else {
            seq![with_help_view(
                error_view("policy `"@ + d.name + "` targets unknown model `"@ + t.name + "`"@, t.span),
                "the name after `for` must refer to a declared model"@,
            )]
        },
        None => seq![],
    }
}

pub open spec fn listener_target_diags(d: MethodsV, decls: Seq<DeclV>) -> Seq<DiagnosticView> {
    match d.target {
        Some(t) => if declares(decls, t.name, 6) {
            seq![]
        } else {
            seq![with_help_view(
                error_view("listener `"@ + d.name + "` listens to unknown event `"@ + t.name + "`"@, t.span),
                "the name after `listens` must refer to a declared event"@,
            )]
        },
        None => seq![],
    }
}

/// A listener's first `handle` method must take the event first.
pub open spec fn handle_diags(d: MethodsV, event: Seq<char>) -> Seq<DiagnosticView> {
    match first_method(d.methods, "handle"@, d.methods.len() as int) {
        None => seq![with_help_view(
            error_view("listener `"@ + d.name + "` must define `handle`"@, d.name_span),
            "add `handle(event) { ... }` as the listener entry point"@,
        )],
        Some(k) => {
            let h = d.methods[k];
            if h.parameters.len() == 0 {
                seq![with_help_view(
                    error_view("listener `"@ + d.name + "` handle method must accept the event"@, h.name_span),
                    "add a first parameter such as `event: "@ + event + "`"@,
                )]
            } else {
                match h.parameters[0].type_reference {
                    Some(t) => if t.name != event {
                        seq![with_help_view(
                            error_view(
                                "listener `"@ + d.name + "` handles `"@ + event + "`, not `"@ + t.name + "`"@,
                                t.span,
                            ),
                            "type the first handle parameter as `"@ + event + "` or leave it inferred"@,
                        )]
                    } else {
                        seq![]
                    },
                    None => seq![],
                }
            }
        },
    }
}

/// What analysing one declaration reports.
pub open spec fn decl_diags(d: DeclV, decls: Seq<DeclV>) -> Seq<DiagnosticView> {
    match d {
        DeclV::Model(f) => fields_upto("model"@, f.name, f.fields, f.fields.len() as int, decls),
        DeclV::Event(f) => fields_upto("event"@, f.name, f.fields, f.fields.len() as int, decls),
        DeclV::Controller(m) => methods_upto("controller"@, m.name, m.methods, m.methods.len() as int, decls),
        DeclV::Middleware(m) => methods_upto("middleware"@, m.name, m.methods, m.methods.len() as int, decls)
            + require_method("middleware"@, m.name, m.name_span, m.methods, "handle"@, "add `handle(request) { ... }` as the middleware entry point"@),
        DeclV::Migration(m) => methods_upto("migration"@, m.name, m.methods, m.methods.len() as int, decls)
            + require_method("migration"@, m.name, m.name_span, m.methods, "up"@, "add `up() { ... }` to describe the forward migration"@),
        DeclV::Policy(m) => policy_target_diags(m, decls)
            + methods_upto("policy"@, m.name, m.methods, m.methods.len() as int, decls),
        DeclV::Listener(m) => listener_target_diags(m, decls)
            + methods_upto("listener"@, m.name, m.methods, m.methods.len() as int, decls)
            + match m.target {
                Some(t) => handle_diags(m, t.name),
                None => seq![],
            },
        DeclV::Notification(m) => methods_upto("notification"@, m.name, m.methods, m.methods.len() as int, decls)
            + require_method("notification"@, m.name, m.name_span, m.methods, "channels"@, "add `channels() { return [...] }` to declare delivery channels"@)
            + require_method("notification"@, m.name, m.name_span, m.methods, "message"@, "add `message(...) { ... }` to define notification content"@),
        DeclV::Mail(m) => methods_upto("mail"@, m.name, m.methods, m.methods.len() as int, decls)
            + require_method("mail"@, m.name, m.name_span, m.methods, "subject"@, "add `subject() { ... }` to define the mail subject"@)
            + require_method("mail"@, m.name, m.name_span, m.methods, "body"@, "add `body(...) { ... }` to define the mail body"@),
    }
}

pub open spec fn decls_upto(decls: Seq<DeclV>, n: int) -> Seq<DiagnosticView>
    decreases n,
{
    if n <= 0 || n > decls.len() {
        seq![]
    } else {
        decls_upto(decls, n - 1) + decl_diags(decls[n - 1], decls)
    }
}

/// Everything the analysis reports on a program: duplicate top-level names
/// first, then each declaration's own problems, in source order.
pub open spec fn analysis(decls: Seq<DeclV>) -> Seq<DiagnosticView> {
    globals_upto(decls, decls.len() as int) + decls_upto(decls, decls.len() as int)
}

// ---------------------------------------------------------------------------
// Laws of the analysis
// ---------------------------------------------------------------------------

/// No two declarations of `decls` share a name.
pub open spec fn names_distinct(decls: Seq<DeclV>) -> bool {
    forall|i: int, j: int| 0 <= i < j < decls.len() ==> decl_name(decls[i]) != decl_name(decls[j])
}

proof fn lemma_first_named_none(decls: Seq<DeclV>, name: Seq<char>, n: int)
    requires
        0 <= n <= decls.len(),
    ensures
        first_named(decls, name, n) is None <==> forall|j: int| 0 <= j < n ==> decl_name(decls[j]) != name,
    decreases n,
{
    if n > 0 {
        lemma_first_named_none(decls, name, n - 1);
    }
}

proof fn lemma_globals_upto_empty(decls: Seq<DeclV>, n: int)
    requires
        0 <= n <= decls.len(),
    ensures
        globals_upto(decls, n).len() == 0 <==> forall|i: int, j: int|
            0 <= i < j < n ==> decl_name(decls[i]) != decl_name(decls[j]),
    decreases n,
{
    if n > 0 {
        lemma_globals_upto_empty(decls, n - 1);
        lemma_first_named_none(decls, decl_name(decls[n - 1]), n - 1);
        if globals_upto(decls, n).len() == 0 {
            assert forall|i: int, j: int| 0 <= i < j < n implies decl_name(decls[i]) != decl_name(decls[j]) by {
                if j == n - 1 {
                    assert(global_diags(decls, n - 1).len() == 0);
                }
            }
        }
    }
}

/// The analysis reports a repeated top-level name exactly when two
/// declarations share a name: its leading part, the top-level duplicates,
/// is empty if and only if the names are pairwise distinct.
pub proof fn top_level_duplicates_iff_shared_names(decls: Seq<DeclV>)
    ensures
        globals_upto(decls, decls.len() as int) == Seq::<DiagnosticView>::empty() <==> names_distinct(decls),
{
    lemma_globals_upto_empty(decls, decls.len() as int);
    if globals_upto(decls, decls.len() as int).len() == 0 {
        assert(globals_upto(decls, decls.len() as int) =~= Seq::<DiagnosticView>::empty());
    }
}

/// A type that names a model or an event of the program is known, wherever
/// that declaration stands, before or after the reference.
pub proof fn declared_models_and_events_are_known_types(decls: Seq<DeclV>, t: TypeRefV, j: int)
    requires
        0 <= j < decls.len(),
        decls[j] is Model || decls[j] is Event,
        decl_name(decls[j]) == t.name,
    ensures
        type_diags(t, decls) == Seq::<DiagnosticView>::empty(),
{
    assert(decls[j] is Model ==> decl_kind(decls[j]) == 1);
    assert(decls[j] is Event ==> decl_kind(decls[j]) == 6);
    assert(declares(decls, t.name, decl_kind(decls[j])));
}

/// A name bound in scope (a parameter or an earlier `let`), or declared at the
/// top level anywhere in the program, is never reported as unknown.
pub proof fn bound_and_declared_names_resolve(
    bs: Seq<(Seq<char>, Span)>,
    decls: Seq<DeclV>,
    name: Seq<char>,
    span: Span,
    j: int,
)
    requires
        (0 <= j < bs.len() && bs[j].0 == name) || (0 <= j < decls.len() && decl_name(decls[j]) == name),
    ensures
        expr_diags(ExprV::Ident { name, span }, bs, decls) == Seq::<DiagnosticView>::empty(),
{
    if 0 <= j < bs.len() && bs[j].0 == name {
        lemma_last_named_found(bs, name, bs.len() as int, j);
    } else {
        assert(declares(decls, name, 0));
    }
}

proof fn lemma_last_named_found(keys: Seq<(Seq<char>, Span)>, name: Seq<char>, n: int, j: int)
    requires
        0 <= j < n <= keys.len(),
        keys[j].0 == name,
    ensures
        last_named(keys, name, n) matches Some(k) && j <= k < n && keys[k].0 == name,
    decreases n,
{
    if keys[n - 1].0 != name {
        lemma_last_named_found(keys, name, n - 1, j);
    }
}

/// A type reference that names neither a built-in type (`id`, `int`, `bool`,
/// `string`) nor any model or event of the program is reported, once, as an
/// unknown type at its own span; other declarations (a controller, a policy,
/// ...) of that name do not make it a type.
pub proof fn undeclared_types_are_unknown(decls: Seq<DeclV>, t: TypeRefV)
    requires
        t.name != "id"@,
        t.name != "int"@,
        t.name != "bool"@,
        t.name != "string"@,
        forall|j: int|
            0 <= j < decls.len() && (decls[j] is Model || decls[j] is Event) ==> #[trigger] decl_name(decls[j]) != t.name,
    ensures
        type_diags(t, decls).len() == 1,
        type_diags(t, decls)[0].message == "unknown type `"@ + t.name + "`"@,
        type_diags(t, decls)[0].span == t.span,
        type_diags(t, decls)[0].severity == Severity::Error,
{
    assert(!declares(decls, t.name, 1)) by {
        if declares(decls, t.name, 1) {
            let j = choose|j: int|
                0 <= j < decls.len() && #[trigger] decl_name(decls[j]) == t.name && (1nat == 0 || decl_kind(decls[j]) == 1);
            assert(decls[j] is Model);
        }
    }
    assert(!declares(decls, t.name, 6)) by {
        if declares(decls, t.name, 6) {
            let j = choose|j: int|
                0 <= j < decls.len() && #[trigger] decl_name(decls[j]) == t.name && (6nat == 0 || decl_kind(decls[j]) == 6);
            assert(decls[j] is Event);
        }
    }
}

proof fn lemma_first_method_at(ms: Seq<MethodV>, name: Seq<char>, k: int, n: int)
    requires
        0 <= k < n <= ms.len(),
        ms[k].name == name,
        forall|j: int| 0 <= j < k ==> #[trigger] ms[j].name != name,
    ensures
        first_method(ms, name, n) == Some(k),
    decreases n,
{
    if n > k + 1 {
        lemma_first_method_at(ms, name, k, n - 1);
    } else {
        assert(first_method(ms, name, k) is None) by {
            lemma_first_method_none(ms, name, k);
        }
    }
}

proof fn lemma_first_method_none(ms: Seq<MethodV>, name: Seq<char>, k: int)
    requires
        0 <= k <= ms.len(),
        forall|j: int| 0 <= j < k ==> #[trigger] ms[j].name != name,
    ensures
        first_method(ms, name, k) is None,
    decreases k,
{
    if k > 0 {
        lemma_first_method_none(ms, name, k - 1);
    }
}

/// The handle check of a listener looks only at the first parameter of its
/// first `handle` method: it reports nothing when that parameter is untyped
/// or typed with the listened event, whatever parameters follow, and
/// otherwise one error at that parameter's type.
pub proof fn handle_check_reads_the_first_parameter(d: MethodsV, event: Seq<char>, k: int)
    requires
        0 <= k < d.methods.len(),
        d.methods[k].name == "handle"@,
        forall|j: int| 0 <= j < k ==> #[trigger] d.methods[j].name != "handle"@,
        d.methods[k].parameters.len() > 0,
    ensures
        (d.methods[k].parameters[0].type_reference matches Some(t) && t.name != event)
            <==> handle_diags(d, event).len() > 0,
        d.methods[k].parameters[0].type_reference is Some && d.methods[k].parameters[0].type_reference->0.name
            != event ==> handle_diags(d, event).len() == 1 && handle_diags(d, event)[0].span
            == d.methods[k].parameters[0].type_reference->0.span,
{
    lemma_first_method_at(d.methods, "handle"@, k, d.methods.len() as int);
}

/// A listener without a `handle` method gets exactly one error, at its name.
pub proof fn listener_without_handle_is_reported(d: MethodsV, event: Seq<char>)
    requires
        forall|j: int| 0 <= j < d.methods.len() ==> #[trigger] d.methods[j].name != "handle"@,
    ensures
        handle_diags(d, event).len() == 1,
        handle_diags(d, event)[0].span == d.name_span,
{
    lemma_first_method_none(d.methods, "handle"@, d.methods.len() as int);
}

/// Every one of `ds` is an error.
pub open spec fn all_errors(ds: Seq<DiagnosticView>) -> bool {
    forall|k: int| 0 <= k < ds.len() ==> (#[trigger] ds[k]).severity == Severity::Error
}

proof fn lemma_all_errors_concat(a: Seq<DiagnosticView>, b: Seq<DiagnosticView>)
    requires
        all_errors(a),
        all_errors(b),
    ensures
        all_errors(a + b),
{
    assert forall|k: int| 0 <= k < (a + b).len() implies (#[trigger] (a + b)[k]).severity == Severity::Error by {
        if k < a.len() {
            assert((a + b)[k] == a[k]);
        } else {
            assert((a + b)[k] == b[k - a.len()]);
        }
    }
}

proof fn lemma_fields_errors(kind: Seq<char>, owner: Seq<char>, fs: Seq<FieldV>, n: int, decls: Seq<DeclV>)
    ensures
        all_errors(fields_upto(kind, owner, fs, n, decls)),
    decreases n,
{
    if n > 0 {
        lemma_fields_errors(kind, owner, fs, n - 1, decls);
        let f = fs[n - 1];
        let dup = match last_named(field_keys(fs), f.name, n - 1) {
            None => seq![],
            Some(j) => seq![with_note_view(
                error_view("duplicate field `"@ + f.name + "` on "@ + kind, f.name_span),
                "`"@ + f.name + "` is already declared on `"@ + owner + "` at "@ + location(fs[j].name_span),
            )],
        };
        assert(all_errors(dup));
        assert(all_errors(type_diags(f.type_reference, decls)));
        lemma_all_errors_concat(dup, type_diags(f.type_reference, decls));
        lemma_all_errors_concat(fields_upto(kind, owner, fs, n - 1, decls), field_diags(kind, owner, fs, n - 1, decls));
    }
}

proof fn lemma_expr_errors(e: ExprV, bs: Seq<(Seq<char>, Span)>, decls: Seq<DeclV>)
    ensures
        all_errors(expr_diags(e, bs, decls)),
    decreases e, 0int,
{
    match e {
        ExprV::Array { elements, .. } => lemma_exprs_errors(elements, elements.len() as int, bs, decls),
        ExprV::Object { entries, .. } => lemma_entries_errors(entries, entries.len() as int, bs, decls),
        ExprV::Grouped { expression, .. } => lemma_expr_errors(*expression, bs, decls),
        ExprV::Unary { operand, .. } => lemma_expr_errors(*operand, bs, decls),
        ExprV::Binary { left, right, .. } => {
            lemma_expr_errors(*left, bs, decls);
            lemma_expr_errors(*right, bs, decls);
            lemma_all_errors_concat(expr_diags(*left, bs, decls), expr_diags(*right, bs, decls));
        },
        ExprV::Member { object, .. } => lemma_expr_errors(*object, bs, decls),
        ExprV::Call { callee, arguments, .. } => {
            lemma_expr_errors(*callee, bs, decls);
            lemma_exprs_errors(arguments, arguments.len() as int, bs, decls);
            lemma_all_errors_concat(expr_diags(*callee, bs, decls), exprs_upto(arguments, arguments.len() as int, bs, decls));
        },
        ExprV::Index { object, index, .. } => {
            lemma_expr_errors(*object, bs, decls);
            lemma_expr_errors(*index, bs, decls);
            lemma_all_errors_concat(expr_diags(*object, bs, decls), expr_diags(*index, bs, decls));
        },
        _ => {},
    }
}

proof fn lemma_exprs_errors(es: Seq<ExprV>, n: int, bs: Seq<(Seq<char>, Span)>, decls: Seq<DeclV>)
    ensures
        all_errors(exprs_upto(es, n, bs, decls)),
    decreases es, n,
{
    if 0 < n <= es.len() {
        lemma_exprs_errors(es, n - 1, bs, decls);
        lemma_expr_errors(es[n - 1], bs, decls);
        lemma_all_errors_concat(exprs_upto(es, n - 1, bs, decls), expr_diags(es[n - 1], bs, decls));
    }
}

proof fn lemma_entries_errors(es: Seq<EntryV>, n: int, bs: Seq<(Seq<char>, Span)>, decls: Seq<DeclV>)
    ensures
        all_errors(entries_upto(es, n, bs, decls)),
    decreases es, n,
{
    if 0 < n <= es.len() {
        lemma_entries_errors(es, n - 1, bs, decls);
        lemma_expr_errors(es[n - 1].value, bs, decls);
        assert(all_errors(key_diags(es, n - 1)));
        lemma_all_errors_concat(entries_upto(es, n - 1, bs, decls), key_diags(es, n - 1));
        lemma_all_errors_concat(entries_upto(es, n - 1, bs, decls) + key_diags(es, n - 1), expr_diags(es[n - 1].value, bs, decls));
    }
}

proof fn lemma_stmt_errors(st: StmtV, bs: Seq<(Seq<char>, Span)>, decls: Seq<DeclV>)
    ensures
        all_errors(stmt_diags(st, bs, decls)),
{
    match st {
        StmtV::Let { name, name_span, initializer, .. } => {
            lemma_expr_errors(initializer, bs, decls);
            let dup = match last_named(bs, name, bs.len() as int) {
                None => seq![],
                Some(j) => seq![with_note_view(
                    error_view("duplicate local binding `"@ + name + "`"@, name_span),
                    "`"@ + name + "` is already bound at "@ + location(bs[j].1),
                )],
            };
            assert(all_errors(dup));
            lemma_all_errors_concat(expr_diags(initializer, bs, decls), dup);
        },
        StmtV::Return { expression, .. } => lemma_expr_errors(expression, bs, decls),
    }
}

proof fn lemma_method_errors(kind: Seq<char>, owner: Seq<char>, ms: Seq<MethodV>, n: int, decls: Seq<DeclV>)
    ensures
        all_errors(methods_upto(kind, owner, ms, n, decls)),
    decreases n,
{
    if 0 < n <= ms.len() {
        lemma_method_errors(kind, owner, ms, n - 1, decls);
        let m = ms[n - 1];
        let dup = match last_named(method_keys(ms), m.name, n - 1) {
            None => seq![],
            Some(j) => seq![with_note_view(
                error_view("duplicate "@ + kind + " method `"@ + m.name + "`"@, m.name_span),
                "`"@ + m.name + "` is already declared on `"@ + owner + "` at "@ + location(ms[j].name_span),
            )],
        };
        assert(all_errors(dup));
        lemma_params_errors(m, m.parameters.len() as int, decls);
        lemma_body_errors(m, m.body.len() as int, decls);
        let ps = params_upto(m, m.parameters.len() as int, decls);
        let bd = body_upto(m, m.body.len() as int, decls);
        lemma_all_errors_concat(dup, ps);
        lemma_all_errors_concat(dup + ps, bd);
        lemma_all_errors_concat(methods_upto(kind, owner, ms, n - 1, decls), method_diags(kind, owner, ms, n - 1, decls));
    }
}

proof fn lemma_params_errors(m: MethodV, n: int, decls: Seq<DeclV>)
    ensures
        all_errors(params_upto(m, n, decls)),
    decreases n,
{
    if 0 < n <= m.parameters.len() {
        lemma_params_errors(m, n - 1, decls);
        let p = m.parameters[n - 1];
        let dup = match last_named(param_keys(m.parameters), p.name, n - 1) {
            None => seq![],
            Some(j) => seq![with_note_view(
                error_view("duplicate parameter `"@ + p.name + "`"@, p.name_span),
                "`"@ + p.name + "` was already declared in method `"@ + m.name + "` at "@
                    + location(m.parameters[j].name_span),
            )],
        };
        let ty = match p.type_reference {
            Some(t) => type_diags(t, decls),
            None => seq![],
        };
        assert(all_errors(dup));
        assert(all_errors(ty));
        lemma_all_errors_concat(dup, ty);
        lemma_all_errors_concat(params_upto(m, n - 1, decls), param_diags(m, n - 1, decls));
    }
}

proof fn lemma_body_errors(m: MethodV, n: int, decls: Seq<DeclV>)
    ensures
        all_errors(body_upto(m, n, decls)),
    decreases n,
{
    if 0 < n <= m.body.len() {
        lemma_body_errors(m, n - 1, decls);
        lemma_stmt_errors(m.body[n - 1], bindings_before(m, n - 1), decls);
        lemma_all_errors_concat(body_upto(m, n - 1, decls), stmt_diags(m.body[n - 1], bindings_before(m, n - 1), decls));
    }
}

proof fn lemma_decl_errors(d: DeclV, decls: Seq<DeclV>)
    ensures
        all_errors(decl_diags(d, decls)),
{
    match d {
        DeclV::Model(f) => lemma_fields_errors("model"@, f.name, f.fields, f.fields.len() as int, decls),
        DeclV::Event(f) => lemma_fields_errors("event"@, f.name, f.fields, f.fields.len() as int, decls),
        DeclV::Controller(m) => lemma_method_errors("controller"@, m.name, m.methods, m.methods.len() as int, decls),
        DeclV::Middleware(m) => {
            let a = methods_upto("middleware"@, m.name, m.methods, m.methods.len() as int, decls);
            lemma_method_errors("middleware"@, m.name, m.methods, m.methods.len() as int, decls);
            let b = require_method("middleware"@, m.name, m.name_span, m.methods, "handle"@, "add `handle(request) { ... }` as the middleware entry point"@);
            assert(all_errors(b));
            lemma_all_errors_concat(a, b);
        },
        DeclV::Migration(m) => {
            let a = methods_upto("migration"@, m.name, m.methods, m.methods.len() as int, decls);
            lemma_method_errors("migration"@, m.name, m.methods, m.methods.len() as int, decls);
            let b = require_method("migration"@, m.name, m.name_span, m.methods, "up"@, "add `up() { ... }` to describe the forward migration"@);
            assert(all_errors(b));
            lemma_all_errors_concat(a, b);
        },
        DeclV::Policy(m) => {
            let a = policy_target_diags(m, decls);
            assert(all_errors(a));
            lemma_method_errors("policy"@, m.name, m.methods, m.methods.len() as int, decls);
            lemma_all_errors_concat(a, methods_upto("policy"@, m.name, m.methods, m.methods.len() as int, decls));
        },
        DeclV::Listener(m) => {
            let a = listener_target_diags(m, decls);
            assert(all_errors(a));
            let b = methods_upto("listener"@, m.name, m.methods, m.methods.len() as int, decls);
            lemma_method_errors("listener"@, m.name, m.methods, m.methods.len() as int, decls);
            lemma_all_errors_concat(a, b);
            match m.target {
                Some(t) => {
                    assert(all_errors(handle_diags(m, t.name)));
                    lemma_all_errors_concat(a + b, handle_diags(m, t.name));
                },
                None => {
                    assert(decl_diags(d, decls) =~= a + b);
                },
            }
        },
        DeclV::Notification(m) => {
            let a = methods_upto("notification"@, m.name, m.methods, m.methods.len() as int, decls);
            lemma_method_errors("notification"@, m.name, m.methods, m.methods.len() as int, decls);
            let b = require_method("notification"@, m.name, m.name_span, m.methods, "channels"@, "add `channels() { return [...] }` to declare delivery channels"@);
            let c = require_method("notification"@, m.name, m.name_span, m.methods, "message"@, "add `message(...) { ... }` to define notification content"@);
            assert(all_errors(b));
            assert(all_errors(c));
            lemma_all_errors_concat(a, b);
            lemma_all_errors_concat(a + b, c);
        },
        DeclV::Mail(m) => {
            let a = methods_upto("mail"@, m.name, m.methods, m.methods.len() as int, decls);
            lemma_method_errors("mail"@, m.name, m.methods, m.methods.len() as int, decls);
            let b = require_method("mail"@, m.name, m.name_span, m.methods, "subject"@, "add `subject() { ... }` to define the mail subject"@);
            let c = require_method("mail"@, m.name, m.name_span, m.methods, "body"@, "add `body(...) { ... }` to define the mail body"@);
            assert(all_errors(b));
            assert(all_errors(c));
            lemma_all_errors_concat(a, b);
            lemma_all_errors_concat(a + b, c);
        },
    }
}

proof fn lemma_globals_errors(decls: Seq<DeclV>, n: int)
    ensures
        all_errors(globals_upto(decls, n)),
    decreases n,
{
    if n > 0 {
        lemma_globals_errors(decls, n - 1);
        assert(all_errors(global_diags(decls, n - 1)));
        lemma_all_errors_concat(globals_upto(decls, n - 1), global_diags(decls, n - 1));
    }
}

proof fn lemma_decls_errors(decls: Seq<DeclV>, n: int)
    ensures
        all_errors(decls_upto(decls, n)),
    decreases n,
{
    if 0 < n <= decls.len() {
        lemma_decls_errors(decls, n - 1);
        lemma_decl_errors(decls[n - 1], decls);
        lemma_all_errors_concat(decls_upto(decls, n - 1), decl_diags(decls[n - 1], decls));
    }
}

/// Everything the analysis reports about any program, whatever its
/// duplicate, unknown or missing names, is an error.
pub proof fn analysis_reports_only_errors(decls: Seq<DeclV>)
    ensures
        all_errors(analysis(decls)),
{
    lemma_globals_errors(decls, decls.len() as int);
    lemma_decls_errors(decls, decls.len() as int);
    lemma_all_errors_concat(globals_upto(decls, decls.len() as int), decls_upto(decls, decls.len() as int));
}

// ---------------------------------------------------------------------------
// The analysis
// ---------------------------------------------------------------------------

pub open spec fn decls_view(ds: Seq<Declaration>) -> Seq<DeclV> {
    ds.map_values(|d: Declaration| d@)
}

/// The view of a table of names and the spans that declared them.
pub open spec fn keys_view(ks: Seq<(String, Span)>) -> Seq<(Seq<char>, Span)> {
    ks.map_values(|k: (String, Span)| (k.0@, k.1))
}

pub open spec fn index_opt(r: Option<usize>) -> Option<int> {
    match r {
        Some(i) => Some(i as int),
        None => None,
    }
}

fn report(out: &mut Vec<Diagnostic>, d: Diagnostic)
    ensures
        dviews(final(out)@) == dviews(old(out)@) + seq![d@],
{
    out.push(d);
    assert(dviews(out@) =~= dviews(old(out)@) + seq![d@]);
}

/// Appends `file:line:column` of the start of `span`.
fn push_location(s: &mut String, span: &Span)
    ensures
        final(s)@ == old(s)@ + location(*span),
{
    push_str(s, span.file.as_str());
    push_str(s, ":");
    push_decimal(s, span.start.line);
    push_str(s, ":");
    push_decimal(s, span.start.column);
    assert(s@ =~= old(s)@ + location(*span));
}

fn kind_text(k: u8) -> (t: &'static str)
    ensures
        t@ == kind_label(k as nat),
{
    if k == 1 {
        "model"
    } else if k == 2 {
        "controller"
    } else if k == 3 {
        "middleware"
    } else if k == 4 {
        "migration"
    } else if k == 5 {
        "policy"
    } else if k == 6 {
        "event"
    } else if k == 7 {
        "listener"
    } else if k == 8 {
        "notification"
    } else {
        "mail"
    }
}

/// The name, the span of the name and the kind of a declaration.
fn decl_parts(d: &Declaration) -> (r: (&String, &Span, u8))
    ensures
        r.0@ == decl_name(d@),
        *r.1 == decl_name_span(d@),
        r.2 == decl_kind(d@),
{
    match d {
        Declaration::Model(x) => (&x.name, &x.name_span, 1),
        Declaration::Controller(x) => (&x.name, &x.name_span, 2),
        Declaration::Middleware(x) => (&x.name, &x.name_span, 3),
        Declaration::Migration(x) => (&x.name, &x.name_span, 4),
        Declaration::Policy(x) => (&x.name, &x.name_span, 5),
        Declaration::Event(x) => (&x.name, &x.name_span, 6),
        Declaration::Listener(x) => (&x.name, &x.name_span, 7),
        Declaration::Notification(x) => (&x.name, &x.name_span, 8),
        Declaration::Mail(x) => (&x.name, &x.name_span, 9),
    }
}

/// The index of the first of `decls[0..n]` named `name`.
fn find_first_named(decls: &Vec<Declaration>, name: &String, n: usize) -> (r: Option<usize>)
    requires
        n <= decls.len(),
    ensures
        index_opt(r) == first_named(decls_view(decls@), name@, n as int),
        r matches Some(j) ==> j < n,
{
    let ghost dv = decls_view(decls@);
    let mut j: usize = 0;
    while j < n
        invariant
            j <= n <= decls.len(),
            dv == decls_view(decls@),
            first_named(dv, name@, j as int) is None,
        decreases n - j,
    {
        let (nm, _, _) = decl_parts(&decls[j]);
        if *nm == *name {
            assert(first_named(dv, name@, j + 1) == Some(j as int));
            proof {
                lemma_first_named_stays(dv, name@, j + 1, n as int);
            }
            return Some(j);
        }
        j = j + 1;
    }
    None
}

/// Once found among the first `m` declarations, a name stays found there.
proof fn lemma_first_named_stays(decls: Seq<DeclV>, name: Seq<char>, m: int, n: int)
    requires
        m <= n,
        first_named(decls, name, m) is Some,
    ensures
        first_named(decls, name, n) == first_named(decls, name, m),
    decreases n - m,
{
    if m < n {
        lemma_first_named_stays(decls, name, m, n - 1);
    }
}

/// Whether some declaration is named `name` (of kind `which`, unless 0).
fn find_declared(decls: &Vec<Declaration>, name: &String, which: u8) -> (b: bool)
    ensures
        b == declares(decls_view(decls@), name@, which as nat),
{
    let ghost dv = decls_view(decls@);
    let mut j: usize = 0;
    while j < decls.len()
        invariant
            j <= decls.len(),
            dv == decls_view(decls@),
            forall|i: int| 0 <= i < j ==> !(#[trigger] decl_name(dv[i]) == name@ && (which == 0
                || decl_kind(dv[i]) == which)),
        decreases decls.len() - j,
    {
        let (nm, _, k) = decl_parts(&decls[j]);
        if *nm == *name && (which == 0 || k == which) {
            assert(decl_name(dv[j as int]) == name@);
            return true;
        }
        j = j + 1;
    }
    false
}

/// The index of the last entry of `keys` named `name`.
fn find_last_named(keys: &Vec<(String, Span)>, name: &String) -> (r: Option<usize>)
    ensures
        index_opt(r) == last_named(keys_view(keys@), name@, keys@.len() as int),
        r matches Some(j) ==> j < keys@.len(),
{
    let ghost kv = keys_view(keys@);
    let mut j: usize = keys.len();
    while j > 0
        invariant
            j <= keys@.len(),
            kv == keys_view(keys@),
            last_named(kv, name@, keys@.len() as int) == last_named(kv, name@, j as int),
        decreases j,
    {
        if keys[j - 1].0 == *name {
            return Some(j - 1);
        }
        j = j - 1;
    }
    None
}

proof fn lemma_last_named_prefix(a: Seq<(Seq<char>, Span)>, b: Seq<(Seq<char>, Span)>, name: Seq<char>, n: int)
    requires
        0 <= n <= a.len(),
        n <= b.len(),
        forall|j: int| 0 <= j < n ==> a[j] == b[j],
    ensures
        last_named(a, name, n) == last_named(b, name, n),
    decreases n,
{
    if n > 0 {
        lemma_last_named_prefix(a, b, name, n - 1);
    }
}

fn is_builtin_type(name: &String) -> (b: bool)
    ensures
        b == builtin_type(name@),
{
    *name == owned("id") || *name == owned("int") || *name == owned("bool") || *name == owned("string")
}

fn check_type(t: &TypeReference, decls: &Vec<Declaration>, out: &mut Vec<Diagnostic>)
    ensures
        dviews(final(out)@) == dviews(old(out)@) + type_diags(t@, decls_view(decls@)),
{
    if is_builtin_type(&t.name) || find_declared(decls, &t.name, 1) || find_declared(decls, &t.name, 6) {
        assert(dviews(out@) =~= dviews(old(out)@) + seq![]);
    } else {
        let mut message = owned("unknown type `");
        push_str(&mut message, t.name.as_str());
        push_str(&mut message, "`");
        let d = Diagnostic::error_owned(message, t.span.duplicate()).with_help(
            "use a built-in type (id, int, bool, string), declared model, or declared event type",
        );
        report(out, d);
    }
}

/// Reports the fields of the `kind` named `owner` that repeat an earlier
/// field's name, and the field types that name nothing known.
fn analyze_fields(
    kind: &str,
    owner: &String,
    fields: &Vec<ModelField>,
    decls: &Vec<Declaration>,
    out: &mut Vec<Diagnostic>,
)
    ensures
        dviews(final(out)@) == dviews(old(out)@) + fields_upto(
            kind@,
            owner@,
            fields_view(fields@),
            fields@.len() as int,
            decls_view(decls@),
        ),
{
    let ghost fv = fields_view(fields@);
    let ghost dv = decls_view(decls@);
    let mut seen: Vec<(String, Span)> = Vec::new();
    let mut k: usize = 0;
    while k < fields.len()
        invariant
            k <= fields@.len(),
            fv == fields_view(fields@),
            dv == decls_view(decls@),
            keys_view(seen@) == field_keys(fv).subrange(0, k as int),
            dviews(out@) == dviews(old(out)@) + fields_upto(kind@, owner@, fv, k as int, dv),
        decreases fields@.len() - k,
    {
        let ghost before = dviews(out@);
        let f = &fields[k];
        proof {
            lemma_last_named_prefix(field_keys(fv), keys_view(seen@), f.name@, k as int);
        }
        match find_last_named(&seen, &f.name) {
            Some(j) => {
                let mut message = owned("duplicate field `");
                push_str(&mut message, f.name.as_str());
                push_str(&mut message, "` on ");
                push_str(&mut message, kind);
                let mut note = owned("`");
                push_str(&mut note, f.name.as_str());
                push_str(&mut note, "` is already declared on `");
                push_str(&mut note, owner.as_str());
                push_str(&mut note, "` at ");
                push_location(&mut note, &seen[j].1);
                assert(keys_view(seen@)[j as int] == field_keys(fv)[j as int]);
                let d = Diagnostic::error_owned(message, f.name_span.duplicate()).with_note_owned(note);
                report(out, d);
            },
            None => {},
        }
        check_type(&f.type_reference, decls, out);
        seen.push((f.name.clone(), f.name_span.duplicate()));
        assert(keys_view(seen@) =~= field_keys(fv).subrange(0, k + 1));
        assert(dviews(out@) =~= before + field_diags(kind@, owner@, fv, k as int, dv));
        k = k + 1;
    }
}

/// Reports the names in `e` that neither the bindings `bs` nor a declaration
/// resolve, and the repeated keys of its object literals.
fn analyze_expression(
    e: &Expression,
    bs: &Vec<(String, Span)>,
    decls: &Vec<Declaration>,
    out: &mut Vec<Diagnostic>,
)
    ensures
        dviews(final(out)@) == dviews(old(out)@) + expr_diags(e@, keys_view(bs@), decls_view(decls@)),
    decreases e,
{
    let ghost bv = keys_view(bs@);
    let ghost dv = decls_view(decls@);
    match e {
        Expression::Identifier { name, span } => {
            if find_last_named(bs, name).is_some() || find_declared(decls, name, 0) {
                assert(dviews(out@) =~= dviews(old(out)@) + expr_diags(e@, bv, dv));
            } else {
                let mut message = owned("unknown name `");
                push_str(&mut message, name.as_str());
                push_str(&mut message, "`");
                let d = Diagnostic::error_owned(message, span.duplicate()).with_help(
                    "declare the name with `let`, add it as a parameter, or reference a declared top-level symbol",
                );
                report(out, d);
            }
        },
        Expression::ArrayLiteral { elements, span } => {
            analyze_expressions(elements, span, bs, decls, out);
            assert(e@ matches ExprV::Array { elements: a, .. } && a =~= Seq::new(
                elements@.len(),
                |i: int| view_at(elements@, i, *span),
            ));
            assert(dviews(out@) =~= dviews(old(out)@) + expr_diags(e@, bv, dv));
        },
        Expression::ObjectLiteral { entries, span } => {
            analyze_entries(entries, span, bs, decls, out);
            assert(e@ matches ExprV::Object { entries: a, .. } && a =~= Seq::new(
                entries@.len(),
                |i: int| entry_view_at(entries@, i, *span),
            ));
            assert(dviews(out@) =~= dviews(old(out)@) + expr_diags(e@, bv, dv));
        },
        Expression::Grouped { expression, .. } => {
            analyze_expression(expression, bs, decls, out);
            assert(dviews(out@) =~= dviews(old(out)@) + expr_diags(e@, bv, dv));
        },
        Expression::Unary { operand, .. } => {
            analyze_expression(operand, bs, decls, out);
            assert(dviews(out@) =~= dviews(old(out)@) + expr_diags(e@, bv, dv));
        },
        Expression::Binary { left, right, .. } => {
            analyze_expression(left, bs, decls, out);
            analyze_expression(right, bs, decls, out);
            assert(dviews(out@) =~= dviews(old(out)@) + expr_diags(e@, bv, dv));
        },
        Expression::MemberAccess { object, .. } => {
            analyze_expression(object, bs, decls, out);
            assert(dviews(out@) =~= dviews(old(out)@) + expr_diags(e@, bv, dv));
        },
        Expression::Call { callee, arguments, span } => {
            analyze_expression(callee, bs, decls, out);
            analyze_expressions(arguments, span, bs, decls, out);
            assert(e@ matches ExprV::Call { arguments: a, .. } && a =~= Seq::new(
                arguments@.len(),
                |i: int| view_at(arguments@, i, *span),
            ));
            assert(dviews(out@) =~= dviews(old(out)@) + expr_diags(e@, bv, dv));
        },
        Expression::Index { object, index, .. } => {
            analyze_expression(object, bs, decls, out);
            analyze_expression(index, bs, decls, out);
            assert(dviews(out@) =~= dviews(old(out)@) + expr_diags(e@, bv, dv));
        },
        _ => {
            assert(dviews(out@) =~= dviews(old(out)@) + expr_diags(e@, bv, dv));
        },
    }
}

/// `analyze_expression` on each of `es`, in order.
fn analyze_expressions(
    es: &Vec<Expression>,
    span: &Span,
    bs: &Vec<(String, Span)>,
    decls: &Vec<Declaration>,
    out: &mut Vec<Diagnostic>,
)
    ensures
        dviews(final(out)@) == dviews(old(out)@) + exprs_upto(
            Seq::new(es@.len(), |i: int| view_at(es@, i, *span)),
            es@.len() as int,
            keys_view(bs@),
            decls_view(decls@),
        ),
    decreases es, 0int,
{
    let ghost ev = Seq::new(es@.len(), |i: int| view_at(es@, i, *span));
    let ghost bv = keys_view(bs@);
    let ghost dv = decls_view(decls@);
    let mut k: usize = 0;
    while k < es.len()
        invariant
            k <= es@.len(),
            ev == Seq::new(es@.len(), |i: int| view_at(es@, i, *span)),
            bv == keys_view(bs@),
            dv == decls_view(decls@),
            dviews(out@) == dviews(old(out)@) + exprs_upto(ev, k as int, bv, dv),
        decreases es@.len() - k,
    {
        let ghost before = dviews(out@);
        proof {
            assert(decreases_to!(es => es@));
            assert(decreases_to!(es@ => es@[k as int]));
        }
        analyze_expression(&es[k], bs, decls, out);
        assert(ev[k as int] == es@[k as int]@);
        assert(dviews(out@) =~= before + expr_diags(ev[k as int], bv, dv));
        k = k + 1;
        assert(dviews(out@) =~= dviews(old(out)@) + exprs_upto(ev, k as int, bv, dv));
    }
}

/// Reports repeated keys of an object literal and analyses its values.
fn analyze_entries(
    es: &Vec<ObjectEntry>,
    span: &Span,
    bs: &Vec<(String, Span)>,
    decls: &Vec<Declaration>,
    out: &mut Vec<Diagnostic>,
)
    ensures
        dviews(final(out)@) == dviews(old(out)@) + entries_upto(
            Seq::new(es@.len(), |i: int| entry_view_at(es@, i, *span)),
            es@.len() as int,
            keys_view(bs@),
            decls_view(decls@),
        ),
    decreases es, 0int,
{
    let ghost ev = Seq::new(es@.len(), |i: int| entry_view_at(es@, i, *span));
    let ghost bv = keys_view(bs@);
    let ghost dv = decls_view(decls@);
    let mut seen: Vec<(String, Span)> = Vec::new();
    let mut k: usize = 0;
    while k < es.len()
        invariant
            k <= es@.len(),
            ev == Seq::new(es@.len(), |i: int| entry_view_at(es@, i, *span)),
            bv == keys_view(bs@),
            dv == decls_view(decls@),
            keys_view(seen@) == entry_keys(ev).subrange(0, k as int),
            dviews(out@) == dviews(old(out)@) + entries_upto(ev, k as int, bv, dv),
        decreases es@.len() - k,
    {
        let ghost before = dviews(out@);
        let entry = &es[k];
        assert(ev[k as int] == entry@);
        proof {
            lemma_last_named_prefix(entry_keys(ev), keys_view(seen@), entry.key@, k as int);
        }
        match find_last_named(&seen, &entry.key) {
            Some(j) => {
                let mut message = owned("duplicate object key `");
                push_str(&mut message, entry.key.as_str());
                push_str(&mut message, "`");
                let mut note = owned("`");
                push_str(&mut note, entry.key.as_str());
                push_str(&mut note, "` was already defined at ");
                push_location(&mut note, &seen[j].1);
                assert(keys_view(seen@)[j as int] == entry_keys(ev)[j as int]);
                let d = Diagnostic::error_owned(message, entry.key_span.duplicate()).with_note_owned(note);
                report(out, d);
            },
            None => {},
        }
        let ghost middle = dviews(out@);
        assert(middle =~= before + key_diags(ev, k as int));
        proof {
            assert(decreases_to!(es => es@));
            assert(decreases_to!(es@ => es@[k as int]));
            assert(decreases_to!(es@[k as int] => es@[k as int].value));
        }
        analyze_expression(&entry.value, bs, decls, out);
        seen.push((entry.key.clone(), entry.key_span.duplicate()));
        assert(keys_view(seen@) =~= entry_keys(ev).subrange(0, k + 1));
        assert(dviews(out@) =~= before + key_diags(ev, k as int) + expr_diags(ev[k as int].value, bv, dv));
        k = k + 1;
        assert(dviews(out@) =~= dviews(old(out)@) + entries_upto(ev, k as int, bv, dv));
    }
}

/// Reports repeated parameters and unknown parameter types of `m`, then
/// analyses its statements with the bindings in scope at each.
fn analyze_method(m: &ControllerMethod, decls: &Vec<Declaration>, out: &mut Vec<Diagnostic>)
    ensures
        dviews(final(out)@) == dviews(old(out)@) + params_upto(
            m@,
            m@.parameters.len() as int,
            decls_view(decls@),
        ) + body_upto(m@, m@.body.len() as int, decls_view(decls@)),
{
    let ghost mv = m@;
    let ghost dv = decls_view(decls@);
    let mut bindings: Vec<(String, Span)> = Vec::new();
    let mut k: usize = 0;
    assert(mv.parameters == params_view(m.parameters@));
    while k < m.parameters.len()
        invariant
            k <= m.parameters@.len(),
            mv == m@,
            mv.parameters == params_view(m.parameters@),
            dv == decls_view(decls@),
            keys_view(bindings@) == param_keys(mv.parameters).subrange(0, k as int),
            dviews(out@) == dviews(old(out)@) + params_upto(mv, k as int, dv),
        decreases m.parameters@.len() - k,
    {
        let ghost before = dviews(out@);
        let p = &m.parameters[k];
        assert(mv.parameters[k as int] == p@);
        proof {
            lemma_last_named_prefix(param_keys(mv.parameters), keys_view(bindings@), p.name@, k as int);
        }
        match find_last_named(&bindings, &p.name) {
            Some(j) => {
                let mut message = owned("duplicate parameter `");
                push_str(&mut message, p.name.as_str());
                push_str(&mut message, "`");
                let mut note = owned("`");
                push_str(&mut note, p.name.as_str());
                push_str(&mut note, "` was already declared in method `");
                push_str(&mut note, m.name.as_str());
                push_str(&mut note, "` at ");
                push_location(&mut note, &bindings[j].1);
                assert(keys_view(bindings@)[j as int] == param_keys(mv.parameters)[j as int]);
                let d = Diagnostic::error_owned(message, p.name_span.duplicate()).with_note_owned(note);
                report(out, d);
            },
            None => {},
        }
        let ghost middle = dviews(out@);
        match &p.type_reference {
            Some(t) => {
                check_type(t, decls, out);
            },
            None => {},
        }
        bindings.push((p.name.clone(), p.name_span.duplicate()));
        assert(keys_view(bindings@) =~= param_keys(mv.parameters).subrange(0, k + 1));
        assert(dviews(out@) =~= before + param_diags(mv, k as int, dv));
        k = k + 1;
    }
    assert(keys_view(bindings@) =~= bindings_before(mv, 0));
    let ghost params_part = dviews(out@);
    let mut k: usize = 0;
    assert(mv.body == stmts_view(m.body@));
    while k < m.body.len()
        invariant
            k <= m.body@.len(),
            mv == m@,
            mv.body == stmts_view(m.body@),
            dv == decls_view(decls@),
            keys_view(bindings@) == bindings_before(mv, k as int),
            dviews(out@) == params_part + body_upto(mv, k as int, dv),
        decreases m.body@.len() - k,
    {
        let ghost before = dviews(out@);
        let ghost bs = keys_view(bindings@);
        assert(mv.body[k as int] == m.body@[k as int]@);
        match &m.body[k] {
            Statement::Let(l) => {
                analyze_expression(&l.initializer, &bindings, decls, out);
                match find_last_named(&bindings, &l.name) {
                    Some(j) => {
                        let mut message = owned("duplicate local binding `");
                        push_str(&mut message, l.name.as_str());
                        push_str(&mut message, "`");
                        let mut note = owned("`");
                        push_str(&mut note, l.name.as_str());
                        push_str(&mut note, "` is already bound at ");
                        push_location(&mut note, &bindings[j].1);
                        let d = Diagnostic::error_owned(message, l.name_span.duplicate()).with_note_owned(note);
                        report(out, d);
                    },
                    None => {},
                }
                bindings.push((l.name.clone(), l.name_span.duplicate()));
                assert(keys_view(bindings@) =~= bs.push((l.name@, l.name_span)));
            },
            Statement::Return(r) => {
                analyze_expression(&r.expression, &bindings, decls, out);
            },
        }
        assert(dviews(out@) =~= before + stmt_diags(mv.body[k as int], bs, dv));
        k = k + 1;
    }
}

/// Reports the methods of the `kind` named `owner` that repeat an earlier
/// method's name, and analyses each method.
fn analyze_methods(
    kind: &str,
    owner: &String,
    methods: &Vec<ControllerMethod>,
    decls: &Vec<Declaration>,
    out: &mut Vec<Diagnostic>,
)
    ensures
        dviews(final(out)@) == dviews(old(out)@) + methods_upto(
            kind@,
            owner@,
            methods_view(*methods),
            methods@.len() as int,
            decls_view(decls@),
        ),
{
    let ghost mv = methods_view(*methods);
    let ghost dv = decls_view(decls@);
    let mut seen: Vec<(String, Span)> = Vec::new();
    let mut k: usize = 0;
    while k < methods.len()
        invariant
            k <= methods@.len(),
            mv == methods_view(*methods),
            dv == decls_view(decls@),
            keys_view(seen@) == method_keys(mv).subrange(0, k as int),
            dviews(out@) == dviews(old(out)@) + methods_upto(kind@, owner@, mv, k as int, dv),
        decreases methods@.len() - k,
    {
        let ghost before = dviews(out@);
        let m = &methods[k];
        assert(mv[k as int] == m@);
        proof {
            lemma_last_named_prefix(method_keys(mv), keys_view(seen@), m.name@, k as int);
        }
        match find_last_named(&seen, &m.name) {
            Some(j) => {
                let mut message = owned("duplicate ");
                push_str(&mut message, kind);
                push_str(&mut message, " method `");
                push_str(&mut message, m.name.as_str());
                push_str(&mut message, "`");
                let mut note = owned("`");
                push_str(&mut note, m.name.as_str());
                push_str(&mut note, "` is already declared on `");
                push_str(&mut note, owner.as_str());
                push_str(&mut note, "` at ");
                push_location(&mut note, &seen[j].1);
                assert(keys_view(seen@)[j as int] == method_keys(mv)[j as int]);
                let d = Diagnostic::error_owned(message, m.name_span.duplicate()).with_note_owned(note);
                report(out, d);
            },
            None => {},
        }
        analyze_method(m, decls, out);
        seen.push((m.name.clone(), m.name_span.duplicate()));
        assert(keys_view(seen@) =~= method_keys(mv).subrange(0, k + 1));
        assert(dviews(out@) =~= before + method_diags(kind@, owner@, mv, k as int, dv));
        k = k + 1;
    }
}

/// The index of the first of `methods` named `name`.
fn find_first_method(methods: &Vec<ControllerMethod>, name: &String) -> (r: Option<usize>)
    ensures
        index_opt(r) == first_method(methods_view(*methods), name@, methods@.len() as int),
        r matches Some(k) ==> k < methods@.len(),
{
    let ghost mv = methods_view(*methods);
    let mut j: usize = 0;
    while j < methods.len()
        invariant
            j <= methods@.len(),
            mv == methods_view(*methods),
            first_method(mv, name@, j as int) is None,
        decreases methods@.len() - j,
    {
        assert(mv[j as int] == methods@[j as int]@);
        if methods[j].name == *name {
            assert(first_method(mv, name@, j + 1) == Some(j as int));
            proof {
                lemma_first_method_stays(mv, name@, j + 1, methods@.len() as int);
            }
            return Some(j);
        }
        j = j + 1;
    }
    None
}

proof fn lemma_first_method_stays(ms: Seq<MethodV>, name: Seq<char>, m: int, n: int)
    requires
        m <= n,
        first_method(ms, name, m) is Some,
    ensures
        first_method(ms, name, n) == first_method(ms, name, m),
    decreases n - m,
{
    if m < n {
        lemma_first_method_stays(ms, name, m, n - 1);
    }
}

/// Reports the `kind` named `owner` when none of its methods is named `name`.
fn require_method_named(
    kind: &str,
    owner: &String,
    owner_span: &Span,
    methods: &Vec<ControllerMethod>,
    name: &str,
    help: &str,
    out: &mut Vec<Diagnostic>,
)
    ensures
        dviews(final(out)@) == dviews(old(out)@) + require_method(
            kind@,
            owner@,
            *owner_span,
            methods_view(*methods),
            name@,
            help@,
        ),
{
    let wanted = owned(name);
    if find_first_method(methods, &wanted).is_some() {
        assert(dviews(out@) =~= dviews(old(out)@) + seq![]);
    } else {
        let mut message = owned(kind);
        push_str(&mut message, " `");
        push_str(&mut message, owner.as_str());
        push_str(&mut message, "` must define `");
        push_str(&mut message, name);
        push_str(&mut message, "`");
        let d = Diagnostic::error_owned(message, owner_span.duplicate()).with_help(help);
        report(out, d);
    }
}

/// Checks the event a listener names and the first `handle` method of its
/// `methods` (after the methods themselves were analysed).
fn analyze_handle(
    name: &String,
    name_span: &Span,
    event: &TypeReference,
    methods: &Vec<ControllerMethod>,
    out: &mut Vec<Diagnostic>,
)
    ensures
        dviews(final(out)@) == dviews(old(out)@) + handle_diags(
            MethodsV { name: name@, name_span: *name_span, target: Some(event@), methods: methods_view(*methods), span: *name_span },
            event.name@,
        ),
{
    let ghost mv = methods_view(*methods);
    let handle = owned("handle");
    match find_first_method(methods, &handle) {
        None => {
            let mut message = owned("listener `");
            push_str(&mut message, name.as_str());
            push_str(&mut message, "` must define `handle`");
            let d = Diagnostic::error_owned(message, name_span.duplicate()).with_help(
                "add `handle(event) { ... }` as the listener entry point",
            );
            report(out, d);
        },
        Some(k) => {
            let h = &methods[k];
            assert(mv[k as int] == h@);
            assert(h@.parameters == params_view(h.parameters@));
            if h.parameters.len() == 0 {
                let mut message = owned("listener `");
                push_str(&mut message, name.as_str());
                push_str(&mut message, "` handle method must accept the event");
                let mut help = owned("add a first parameter such as `event: ");
                push_str(&mut help, event.name.as_str());
                push_str(&mut help, "`");
                let d = Diagnostic::error_owned(message, h.name_span.duplicate()).with_help_owned(help);
                report(out, d);
            } else {
                assert(h@.parameters[0] == h.parameters@[0]@);
                match &h.parameters[0].type_reference {
                    Some(t) => {
                        if t.name != event.name {
                            let mut message = owned("listener `");
                            push_str(&mut message, name.as_str());
                            push_str(&mut message, "` handles `");
                            push_str(&mut message, event.name.as_str());
                            push_str(&mut message, "`, not `");
                            push_str(&mut message, t.name.as_str());
                            push_str(&mut message, "`");
                            let mut help = owned("type the first handle parameter as `");
                            push_str(&mut help, event.name.as_str());
                            push_str(&mut help, "` or leave it inferred");
                            let d = Diagnostic::error_owned(message, t.span.duplicate()).with_help_owned(help);
                            report(out, d);
                        } else {
                            assert(dviews(out@) =~= dviews(old(out)@) + seq![]);
                        }
                    },
                    None => {
                        assert(dviews(out@) =~= dviews(old(out)@) + seq![]);
                    },
                }
            }
        },
    }
}

/// Reports a `policy ... for` or `listener ... listens` whose target is not
/// a declared model (`which` 1) or event (`which` 6).
fn check_target(
    name: &String,
    target: &TypeReference,
    which: u8,
    decls: &Vec<Declaration>,
    out: &mut Vec<Diagnostic>,
)
    requires
        which == 1 || which == 6,
    ensures
        dviews(final(out)@) == dviews(old(out)@) + if which == 1 {
            policy_target_diags(
                MethodsV { name: name@, name_span: target.span, target: Some(target@), methods: seq![], span: target.span },
                decls_view(decls@),
            )
        } else {
            listener_target_diags(
                MethodsV { name: name@, name_span: target.span, target: Some(target@), methods: seq![], span: target.span },
                decls_view(decls@),
            )
        },
{
    if find_declared(decls, &target.name, which) {
        assert(dviews(out@) =~= dviews(old(out)@) + seq![]);
    } else {
        let mut message = if which == 1 {
            owned("policy `")
        } else {
            owned("listener `")
        };
        push_str(&mut message, name.as_str());
        if which == 1 {
            push_str(&mut message, "` targets unknown model `");
        } else {
            push_str(&mut message, "` listens to unknown event `");
        }
        push_str(&mut message, target.name.as_str());
        push_str(&mut message, "`");
        let help = if which == 1 {
            "the name after `for` must refer to a declared model"
        } else {
            "the name after `listens` must refer to a declared event"
        };
        let d = Diagnostic::error_owned(message, target.span.duplicate()).with_help(help);
        report(out, d);
    }
}

/// Analyses one declaration of the program whose declarations are `decls`.
#[verifier::rlimit(80)]
fn analyze_declaration(d: &Declaration, decls: &Vec<Declaration>, out: &mut Vec<Diagnostic>)
    ensures
        dviews(final(out)@) == dviews(old(out)@) + decl_diags(d@, decls_view(decls@)),
{
    let ghost dv = decls_view(decls@);
    let ghost start = dviews(out@);
    match d {
        Declaration::Model(x) => {
            analyze_fields("model", &x.name, &x.fields, decls, out);
        },
        Declaration::Event(x) => {
            analyze_fields("event", &x.name, &x.fields, decls, out);
        },
        Declaration::Controller(x) => {
            analyze_methods("controller", &x.name, &x.methods, decls, out);
        },
        Declaration::Middleware(x) => {
            analyze_methods("middleware", &x.name, &x.methods, decls, out);
            require_method_named(
                "middleware",
                &x.name,
                &x.name_span,
                &x.methods,
                "handle",
                "add `handle(request) { ... }` as the middleware entry point",
                out,
            );
            assert(dviews(out@) =~= start + decl_diags(d@, dv));
        },
        Declaration::Migration(x) => {
            analyze_methods("migration", &x.name, &x.methods, decls, out);
            require_method_named(
                "migration",
                &x.name,
                &x.name_span,
                &x.methods,
                "up",
                "add `up() { ... }` to describe the forward migration",
                out,
            );
            assert(dviews(out@) =~= start + decl_diags(d@, dv));
        },
        Declaration::Policy(x) => {
            check_target(&x.name, &x.target, 1, decls, out);
            analyze_methods("policy", &x.name, &x.methods, decls, out);
            assert(dviews(out@) =~= start + decl_diags(d@, dv));
        },
        Declaration::Listener(x) => {
            check_target(&x.name, &x.event, 6, decls, out);
            analyze_methods("listener", &x.name, &x.methods, decls, out);
            analyze_handle(&x.name, &x.name_span, &x.event, &x.methods, out);
            assert(dviews(out@) =~= start + decl_diags(d@, dv));
        },
        Declaration::Notification(x) => {
            analyze_methods("notification", &x.name, &x.methods, decls, out);
            require_method_named(
                "notification",
                &x.name,
                &x.name_span,
                &x.methods,
                "channels",
                "add `channels() { return [...] }` to declare delivery channels",
                out,
            );
            require_method_named(
                "notification",
                &x.name,
                &x.name_span,
                &x.methods,
                "message",
                "add `message(...) { ... }` to define notification content",
                out,
            );
            assert(dviews(out@) =~= start + decl_diags(d@, dv));
        },
        Declaration::Mail(x) => {
            analyze_methods("mail", &x.name, &x.methods, decls, out);
            require_method_named(
                "mail",
                &x.name,
                &x.name_span,
                &x.methods,
                "subject",
                "add `subject() { ... }` to define the mail subject",
                out,
            );
            require_method_named(
                "mail",
                &x.name,
                &x.name_span,
                &x.methods,
                "body",
                "add `body(...) { ... }` to define the mail body",
                out,
            );
            assert(dviews(out@) =~= start + decl_diags(d@, dv));
        },
    }
}

/// Checks a parsed program: repeated top-level names, then for each
/// declaration in order its repeated fields, methods, parameters, bindings
/// and object keys, unknown names and types, and the methods and targets
/// its kind requires. Returns the diagnostics in that order.
pub fn analyze(program: &Program) -> (out: Vec<Diagnostic>)
    ensures
        dviews(out@) == analysis(program@),
        forall|k: int| 0 <= k < out@.len() ==> (#[trigger] out@[k]).severity == Severity::Error,
{
    let decls = &program.declarations;
    let ghost dv = decls_view(decls@);
    assert(program@ == dv);
    let mut out: Vec<Diagnostic> = Vec::new();
    let mut i: usize = 0;
    assert(dviews(out@) =~= globals_upto(dv, 0));
    while i < decls.len()
        invariant
            i <= decls@.len(),
            dv == decls_view(decls@),
            dviews(out@) == globals_upto(dv, i as int),
        decreases decls@.len() - i,
    {
        let ghost before = dviews(out@);
        let (name, name_span, kind) = decl_parts(&decls[i]);
        assert(dv[i as int] == decls@[i as int]@);
        match find_first_named(decls, name, i) {
            Some(j) => {
                let (_, prev_span, prev_kind) = decl_parts(&decls[j]);
                assert(dv[j as int] == decls@[j as int]@);
                let mut message = if prev_kind == kind {
                    let mut m = owned("duplicate ");
                    push_str(&mut m, kind_text(kind));
                    push_str(&mut m, " `");
                    m
                } else {
                    owned("duplicate top-level declaration `")
                };
                push_str(&mut message, name.as_str());
                push_str(&mut message, "`");
                let mut note = owned("`");
                push_str(&mut note, name.as_str());
                push_str(&mut note, "` was already declared as a ");
                push_str(&mut note, kind_text(prev_kind));
                push_str(&mut note, " at ");
                push_location(&mut note, prev_span);
                let d = Diagnostic::error_owned(message, name_span.duplicate()).with_note_owned(note);
                report(&mut out, d);
            },
            None => {},
        }
        assert(dviews(out@) =~= before + global_diags(dv, i as int));
        i = i + 1;
    }
    let ghost globals = dviews(out@);
    let mut i: usize = 0;
    assert(globals + decls_upto(dv, 0) =~= globals);
    while i < decls.len()
        invariant
            i <= decls@.len(),
            dv == decls_view(decls@),
            dviews(out@) == globals + decls_upto(dv, i as int),
        decreases decls@.len() - i,
    {
        let ghost before = dviews(out@);
        assert(dv[i as int] == decls@[i as int]@);
        analyze_declaration(&decls[i], decls, &mut out);
        i = i + 1;
        assert(dviews(out@) =~= globals + decls_upto(dv, i as int));
    }
    proof {
        analysis_reports_only_errors(dv);
        assert forall|k: int| 0 <= k < out@.len() implies (#[trigger] out@[k]).severity == Severity::Error by {
            assert(dviews(out@)[k] == out@[k]@);
        }
    }
    out
}

} // verus!
