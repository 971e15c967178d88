use vstd::prelude::*;
use crate::token::Span;

verus! {

/// A Densleaf source file: its top-level declarations in source order.
#[derive(Debug, Clone, PartialEq, Eq, Default)]
pub struct Program {
    pub declarations: Vec<Declaration>,
}

/// A top-level declaration.
#[derive(Debug, Clone, PartialEq, Eq)]
pub enum Declaration {
    Model(ModelDefinition),
    Controller(ControllerDefinition),
    Middleware(MiddlewareDefinition),
    Migration(MigrationDefinition),
    Policy(PolicyDefinition),
    Event(EventDefinition),
    Listener(ListenerDefinition),
    Notification(NotificationDefinition),
    Mail(MailDefinition),
}

/// `model Name { field: type ... }`
#[derive(Debug, Clone, PartialEq, Eq)]
pub struct ModelDefinition {
    pub name: String,
    pub name_span: Span,
    pub fields: Vec<ModelField>,
    pub span: Span,
}

/// `event Name { field: type ... }`
#[derive(Debug, Clone, PartialEq, Eq)]
pub struct EventDefinition {
    pub name: String,
    pub name_span: Span,
    pub fields: Vec<ModelField>,
    pub span: Span,
}

/// A `name: type` field of a model or an event.
#[derive(Debug, Clone, PartialEq, Eq)]
pub struct ModelField {
    pub name: String,
    pub name_span: Span,
    pub type_reference: TypeReference,
    pub span: Span,
}

/// `controller Name { methods }`
#[derive(Debug, Clone, PartialEq, Eq)]
pub struct ControllerDefinition {
    pub name: String,
    pub name_span: Span,
    pub methods: Vec<ControllerMethod>,
    pub span: Span,
}

/// `middleware Name { methods }`
#[derive(Debug, Clone, PartialEq, Eq)]
pub struct MiddlewareDefinition {
    pub name: String,
    pub name_span: Span,
    pub methods: Vec<ControllerMethod>,
    pub span: Span,
}

/// `migration Name { methods }`
#[derive(Debug, Clone, PartialEq, Eq)]
pub struct MigrationDefinition {
    pub name: String,
    pub name_span: Span,
    pub methods: Vec<ControllerMethod>,
    pub span: Span,
}

/// `policy Name for Model { methods }`
#[derive(Debug, Clone, PartialEq, Eq)]
pub struct PolicyDefinition {
    pub name: String,
    pub name_span: Span,
    pub target: TypeReference,
    pub methods: Vec<ControllerMethod>,
    pub span: Span,
}

/// `listener Name listens Event { methods }`
#[derive(Debug, Clone, PartialEq, Eq)]
pub struct ListenerDefinition {
    pub name: String,
    pub name_span: Span,
    pub event: TypeReference,
    pub methods: Vec<ControllerMethod>,
    pub span: Span,
}

/// `notification Name { methods }`
#[derive(Debug, Clone, PartialEq, Eq)]
pub struct NotificationDefinition {
    pub name: String,
    pub name_span: Span,
    pub methods: Vec<ControllerMethod>,
    pub span: Span,
}

/// `mail Name { methods }`
#[derive(Debug, Clone, PartialEq, Eq)]
pub struct MailDefinition {
    pub name: String,
    pub name_span: Span,
    pub methods: Vec<ControllerMethod>,
    pub span: Span,
}

/// A method: `name(parameters) { statements }`.
#[derive(Debug, Clone, PartialEq, Eq)]
pub struct ControllerMethod {
    pub name: String,
    pub name_span: Span,
    pub parameters: Vec<Parameter>,
    pub body: Vec<Statement>,
    pub span: Span,
}

/// A method parameter, `name` or `name: type`.
#[derive(Debug, Clone, PartialEq, Eq)]
pub struct Parameter {
    pub name: String,
    pub name_span: Span,
    pub type_reference: Option<TypeReference>,
    pub span: Span,
}

/// A statement of a method body.
#[derive(Debug, Clone, PartialEq, Eq)]
pub enum Statement {
    Let(LetStatement),
    Return(ReturnStatement),
}

/// `let name = initializer`
#[derive(Debug, Clone, PartialEq, Eq)]
pub struct LetStatement {
    pub name: String,
    pub name_span: Span,
    pub initializer: Expression,
    pub span: Span,
}

/// `return expression`
#[derive(Debug, Clone, PartialEq, Eq)]
pub struct ReturnStatement {
    pub expression: Expression,
    pub span: Span,
}

/// `key: value` inside an object literal.
#[derive(Debug, PartialEq, Eq)]
pub struct ObjectEntry {
    pub key: String,
    pub key_span: Span,
    pub value: Expression,
    pub span: Span,
}

/// A prefix operator: `!` or `-`.
#[derive(Debug, Clone, Copy, PartialEq, Eq, Structural)]
pub enum UnaryOperator {
    Not,
    Negate,
}

/// An infix operator.
#[derive(Debug, Clone, Copy, PartialEq, Eq, Structural)]
pub enum BinaryOperator {
    Add,
    Subtract,
    Multiply,
    Divide,
    Remainder,
    Equal,
    NotEqual,
    Less,
    LessEqual,
    Greater,
    GreaterEqual,
    And,
    Or,
}

/// An expression, with the span of the source text it covers.
#[derive(Debug, PartialEq, Eq)]
pub enum Expression {
    StringLiteral { value: String, span: Span },
    IntegerLiteral { value: i64, span: Span },
    BooleanLiteral { value: bool, span: Span },
    NullLiteral { span: Span },
    Identifier { name: String, span: Span },
    ArrayLiteral { elements: Vec<Expression>, span: Span },
    ObjectLiteral { entries: Vec<ObjectEntry>, span: Span },
    Grouped { expression: Box<Expression>, span: Span },
    Unary { operator: UnaryOperator, operand: Box<Expression>, span: Span },
    Binary { left: Box<Expression>, operator: BinaryOperator, right: Box<Expression>, span: Span },
    MemberAccess { object: Box<Expression>, member: String, member_span: Span, span: Span },
    Call { callee: Box<Expression>, arguments: Vec<Expression>, span: Span },
    Index { object: Box<Expression>, index: Box<Expression>, span: Span },
}

/// A named type, as written in a field, parameter, policy or listener.
#[derive(Debug, Clone, PartialEq, Eq)]
pub struct TypeReference {
    pub name: String,
    pub span: Span,
}

// ---------------------------------------------------------------------------
// Views: the same trees with sequences in place of vectors
// ---------------------------------------------------------------------------

/// The view of an expression: names and texts as character sequences,
/// element lists as sequences.
pub enum ExprV {
    Str { value: Seq<char>, span: Span },
    Int { value: i64, span: Span },
    Bool { value: bool, span: Span },
    Null { span: Span },
    Ident { name: Seq<char>, span: Span },
    Array { elements: Seq<ExprV>, span: Span },
    Object { entries: Seq<EntryV>, span: Span },
    Grouped { expression: Box<ExprV>, span: Span },
    Unary { operator: UnaryOperator, operand: Box<ExprV>, span: Span },
    Binary { left: Box<ExprV>, operator: BinaryOperator, right: Box<ExprV>, span: Span },
    Member { object: Box<ExprV>, member: Seq<char>, member_span: Span, span: Span },
    Call { callee: Box<ExprV>, arguments: Seq<ExprV>, span: Span },
    Index { object: Box<ExprV>, index: Box<ExprV>, span: Span },
}

/// The view of an object entry.
pub struct EntryV {
    pub key: Seq<char>,
    pub key_span: Span,
    pub value: ExprV,
    pub span: Span,
}

/// The view of an expression.
pub open spec fn expr_view(e: Expression) -> ExprV
    decreases e, 1int,
{
    match e {
        Expression::StringLiteral { value, span } => ExprV::Str { value: value@, span },
        Expression::IntegerLiteral { value, span } => ExprV::Int { value, span },
        Expression::BooleanLiteral { value, span } => ExprV::Bool { value, span },
        Expression::NullLiteral { span } => ExprV::Null { span },
        Expression::Identifier { name, span } => ExprV::Ident { name: name@, span },
        Expression::ArrayLiteral { elements, span } => ExprV::Array {
            elements: Seq::new(elements@.len(), |i: int| view_at(elements@, i, span)),
            span,
        },
        Expression::ObjectLiteral { entries, span } => ExprV::Object {
            entries: Seq::new(entries@.len(), |i: int| entry_view_at(entries@, i, span)),
            span,
        },
        Expression::Grouped { expression, span } => ExprV::Grouped {
            expression: Box::new(expr_view(*expression)),
            span,
        },
        Expression::Unary { operator, operand, span } => ExprV::Unary {
            operator,
            operand: Box::new(expr_view(*operand)),
            span,
        },
        Expression::Binary { left, operator, right, span } => ExprV::Binary {
            left: Box::new(expr_view(*left)),
            operator,
            right: Box::new(expr_view(*right)),
            span,
        },
        Expression::MemberAccess { object, member, member_span, span } => ExprV::Member {
            object: Box::new(expr_view(*object)),
            member: member@,
            member_span,
            span,
        },
        Expression::Call { callee, arguments, span } => ExprV::Call {
            callee: Box::new(expr_view(*callee)),
            arguments: Seq::new(arguments@.len(), |i: int| view_at(arguments@, i, span)),
            span,
        },
        Expression::Index { object, index, span } => ExprV::Index {
            object: Box::new(expr_view(*object)),
            index: Box::new(expr_view(*index)),
            span,
        },
    }
}

/// The view of `s[i]` (or a placeholder outside the bounds of `s`).
pub open spec fn view_at(s: Seq<Expression>, i: int, span: Span) -> ExprV
    decreases s, 0int,
{
    if 0 <= i < s.len() {
        expr_view(s[i])
    } else {
        ExprV::Null { span }
    }
}

/// The view of `s[i]` (or a placeholder outside the bounds of `s`).
pub open spec fn entry_view_at(s: Seq<ObjectEntry>, i: int, span: Span) -> EntryV
    decreases s, 0int,
{
    if 0 <= i < s.len() {
        entry_view(s[i])
    } else {
        EntryV { key: Seq::empty(), key_span: span, value: ExprV::Null { span }, span }
    }
}

/// The view of an object entry.
pub open spec fn entry_view(e: ObjectEntry) -> EntryV
    decreases e, 1int,
{
    EntryV { key: e.key@, key_span: e.key_span, value: expr_view(e.value), span: e.span }
}

impl View for Expression {
    type V = ExprV;

    open spec fn view(&self) -> ExprV {
        expr_view(*self)
    }
}

/// A copy of `e`, with the same view.
pub fn clone_expression(e: &Expression) -> (r: Expression)
    ensures
        r@ == e@,
    decreases e, 1int,
{
    match e {
        Expression::StringLiteral { value, span } => Expression::StringLiteral { value: value.clone(), span: span.duplicate() },
        Expression::IntegerLiteral { value, span } => Expression::IntegerLiteral { value: *value, span: span.duplicate() },
        Expression::BooleanLiteral { value, span } => Expression::BooleanLiteral { value: *value, span: span.duplicate() },
        Expression::NullLiteral { span } => Expression::NullLiteral { span: span.duplicate() },
        Expression::Identifier { name, span } => Expression::Identifier { name: name.clone(), span: span.duplicate() },
        Expression::ArrayLiteral { elements, span } => {
            let copy = clone_expressions(elements);
            assert forall|i: int| 0 <= i < elements@.len() implies view_at(copy@, i, *span) == view_at(elements@, i, *span) by {
                assert(copy@[i]@ == elements@[i]@);
            }
            let r = Expression::ArrayLiteral { elements: copy, span: span.duplicate() };
            let ghost ev = Seq::new(elements@.len(), |i: int| view_at(elements@, i, *span));
            assert(e@ matches ExprV::Array { elements: a, span: sp } && a =~= ev && sp == *span);
            assert(r@ matches ExprV::Array { elements: a, span: sp } && a =~= ev && sp == *span);
            r
        },
        Expression::ObjectLiteral { entries, span } => {
            let copy = clone_entries(entries);
            assert forall|i: int| 0 <= i < entries@.len() implies entry_view_at(copy@, i, *span) == entry_view_at(entries@, i, *span) by {
                assert(copy@[i]@ == entries@[i]@);
            }
            let r = Expression::ObjectLiteral { entries: copy, span: span.duplicate() };
            let ghost ev = Seq::new(entries@.len(), |i: int| entry_view_at(entries@, i, *span));
            assert(e@ matches ExprV::Object { entries: a, span: sp } && a =~= ev && sp == *span);
            assert(r@ matches ExprV::Object { entries: a, span: sp } && a =~= ev && sp == *span);
            r
        },
        Expression::Grouped { expression, span } => Expression::Grouped {
            expression: Box::new(clone_expression(expression)),
            span: span.duplicate(),
        },
        Expression::Unary { operator, operand, span } => Expression::Unary {
            operator: *operator,
            operand: Box::new(clone_expression(operand)),
            span: span.duplicate(),
        },
        Expression::Binary { left, operator, right, span } => Expression::Binary {
            left: Box::new(clone_expression(left)),
            operator: *operator,
            right: Box::new(clone_expression(right)),
            span: span.duplicate(),
        },
        Expression::MemberAccess { object, member, member_span, span } => Expression::MemberAccess {
            object: Box::new(clone_expression(object)),
            member: member.clone(),
            member_span: member_span.duplicate(),
            span: span.duplicate(),
        },
        Expression::Call { callee, arguments, span } => {
            let c = clone_expression(callee);
            let copy = clone_expressions(arguments);
            assert forall|i: int| 0 <= i < arguments@.len() implies view_at(copy@, i, *span) == view_at(arguments@, i, *span) by {
                assert(copy@[i]@ == arguments@[i]@);
            }
            let r = Expression::Call { callee: Box::new(c), arguments: copy, span: span.duplicate() };
            let ghost ev = Seq::new(arguments@.len(), |i: int| view_at(arguments@, i, *span));
            assert(e@ matches ExprV::Call { arguments: a, span: sp, .. } && a =~= ev && sp == *span);
            assert(r@ matches ExprV::Call { arguments: a, span: sp, .. } && a =~= ev && sp == *span);
            r
        },
        Expression::Index { object, index, span } => Expression::Index {
            object: Box::new(clone_expression(object)),
            index: Box::new(clone_expression(index)),
            span: span.duplicate(),
        },
    }
}

/// Copies of `es`, element by element, with the same views.
fn clone_expressions(es: &Vec<Expression>) -> (r: Vec<Expression>)
    ensures
        r@.len() == es@.len(),
        forall|i: int| 0 <= i < es@.len() ==> (#[trigger] r@[i])@ == es@[i]@,
    decreases es, 0int,
{
    let mut r: Vec<Expression> = Vec::new();
    let mut k: usize = 0;
    while k < es.len()
        invariant
            k <= es@.len(),
            r@.len() == k,
            forall|i: int| 0 <= i < k ==> (#[trigger] r@[i])@ == es@[i]@,
        decreases es@.len() - k,
    {
        proof {
            assert(decreases_to!(es => es@));
            assert(decreases_to!(es@ => es@[k as int]));
        }
        let c = clone_expression(&es[k]);
        r.push(c);
        k = k + 1;
    }
    r
}

/// Copies of `es`, entry by entry, with the same views.
fn clone_entries(es: &Vec<ObjectEntry>) -> (r: Vec<ObjectEntry>)
    ensures
        r@.len() == es@.len(),
        forall|i: int| 0 <= i < es@.len() ==> (#[trigger] r@[i])@ == es@[i]@,
    decreases es, 0int,
{
    let mut r: Vec<ObjectEntry> = Vec::new();
    let mut k: usize = 0;
    while k < es.len()
        invariant
            k <= es@.len(),
            r@.len() == k,
            forall|i: int| 0 <= i < k ==> (#[trigger] r@[i])@ == es@[i]@,
        decreases es@.len() - k,
    {
        let e = &es[k];
        proof {
            assert(decreases_to!(es => es@));
            assert(decreases_to!(es@ => es@[k as int]));
            assert(decreases_to!(es@[k as int] => es@[k as int].value));
        }
        let c = ObjectEntry {
            key: e.key.clone(),
            key_span: e.key_span.duplicate(),
            value: clone_expression(&e.value),
            span: e.span.duplicate(),
        };
        r.push(c);
        k = k + 1;
    }
    r
}

impl Clone for Expression {
    fn clone(&self) -> (r: Self)
        ensures
            r@ == self@,
    {
        clone_expression(self)
    }
}

impl Clone for ObjectEntry {
    fn clone(&self) -> (r: Self)
        ensures
            r@ == self@,
    {
        ObjectEntry {
            key: self.key.clone(),
            key_span: self.key_span.duplicate(),
            value: clone_expression(&self.value),
            span: self.span.duplicate(),
        }
    }
}

impl View for ObjectEntry {
    type V = EntryV;

    open spec fn view(&self) -> EntryV {
        entry_view(*self)
    }
}

/// The span of an expression view.
pub open spec fn expr_span(e: ExprV) -> Span {
    match e {
        ExprV::Str { span, .. } => span,
        ExprV::Int { span, .. } => span,
        ExprV::Bool { span, .. } => span,
        ExprV::Null { span } => span,
        ExprV::Ident { span, .. } => span,
        ExprV::Array { span, .. } => span,
        ExprV::Object { span, .. } => span,
        ExprV::Grouped { span, .. } => span,
        ExprV::Unary { span, .. } => span,
        ExprV::Binary { span, .. } => span,
        ExprV::Member { span, .. } => span,
        ExprV::Call { span, .. } => span,
        ExprV::Index { span, .. } => span,
    }
}

impl Expression {
    /// The span of the source text this expression covers.
    pub fn span(&self) -> (s: &Span)
        ensures
            *s == expr_span(self@),
    {
        match self {
            Expression::StringLiteral { span, .. } => span,
            Expression::IntegerLiteral { span, .. } => span,
            Expression::BooleanLiteral { span, .. } => span,
            Expression::NullLiteral { span } => span,
            Expression::Identifier { span, .. } => span,
            Expression::ArrayLiteral { span, .. } => span,
            Expression::ObjectLiteral { span, .. } => span,
            Expression::Grouped { span, .. } => span,
            Expression::Unary { span, .. } => span,
            Expression::Binary { span, .. } => span,
            Expression::MemberAccess { span, .. } => span,
            Expression::Call { span, .. } => span,
            Expression::Index { span, .. } => span,
        }
    }
}

/// The view of a statement.
pub enum StmtV {
    Let { name: Seq<char>, name_span: Span, initializer: ExprV, span: Span },
    Return { expression: ExprV, span: Span },
}

impl View for Statement {
    type V = StmtV;

    open spec fn view(&self) -> StmtV {
        match *self {
            Statement::Let(l) => StmtV::Let {
                name: l.name@,
                name_span: l.name_span,
                initializer: l.initializer@,
                span: l.span,
            },
            Statement::Return(r) => StmtV::Return { expression: r.expression@, span: r.span },
        }
    }
}

/// The view of a type reference.
pub struct TypeRefV {
    pub name: Seq<char>,
    pub span: Span,
}

impl View for TypeReference {
    type V = TypeRefV;

    open spec fn view(&self) -> TypeRefV {
        TypeRefV { name: self.name@, span: self.span }
    }
}

/// The view of a parameter.
pub struct ParamV {
    pub name: Seq<char>,
    pub name_span: Span,
    pub type_reference: Option<TypeRefV>,
    pub span: Span,
}

impl View for Parameter {
    type V = ParamV;

    open spec fn view(&self) -> ParamV {
        ParamV {
            name: self.name@,
            name_span: self.name_span,
            type_reference: match self.type_reference {
                Some(t) => Some(t@),
                None => None,
            },
            span: self.span,
        }
    }
}

/// The view of a field.
pub struct FieldV {
    pub name: Seq<char>,
    pub name_span: Span,
    pub type_reference: TypeRefV,
    pub span: Span,
}

impl View for ModelField {
    type V = FieldV;

    open spec fn view(&self) -> FieldV {
        FieldV { name: self.name@, name_span: self.name_span, type_reference: self.type_reference@, span: self.span }
    }
}

/// The view of a method.
pub struct MethodV {
    pub name: Seq<char>,
    pub name_span: Span,
    pub parameters: Seq<ParamV>,
    pub body: Seq<StmtV>,
    pub span: Span,
}

impl View for ControllerMethod {
    type V = MethodV;

    open spec fn view(&self) -> MethodV {
        MethodV {
            name: self.name@,
            name_span: self.name_span,
            parameters: self.parameters@.map_values(|p: Parameter| p@),
            body: self.body@.map_values(|s: Statement| s@),
            span: self.span,
        }
    }
}

/// The views of a declaration's methods.
pub open spec fn methods_view(ms: Vec<ControllerMethod>) -> Seq<MethodV> {
    ms@.map_values(|m: ControllerMethod| m@)
}

/// A declaration with fields (a model or an event).
pub struct FieldsV {
    pub name: Seq<char>,
    pub name_span: Span,
    pub fields: Seq<FieldV>,
    pub span: Span,
}

/// A declaration with methods, and the type it names after `for` or `listens`
/// where it has one.
pub struct MethodsV {
    pub name: Seq<char>,
    pub name_span: Span,
    pub target: Option<TypeRefV>,
    pub methods: Seq<MethodV>,
    pub span: Span,
}

/// The view of a declaration.
pub enum DeclV {
    Model(FieldsV),
    Controller(MethodsV),
    Middleware(MethodsV),
    Migration(MethodsV),
    Policy(MethodsV),
    Event(FieldsV),
    Listener(MethodsV),
    Notification(MethodsV),
    Mail(MethodsV),
}

impl View for Declaration {
    type V = DeclV;

    open spec fn view(&self) -> DeclV {
        match *self {
            Declaration::Model(d) => DeclV::Model(
                FieldsV { name: d.name@, name_span: d.name_span, fields: d.fields@.map_values(|f: ModelField| f@), span: d.span },
            ),
            Declaration::Event(d) => DeclV::Event(
                FieldsV { name: d.name@, name_span: d.name_span, fields: d.fields@.map_values(|f: ModelField| f@), span: d.span },
            ),
            Declaration::Controller(d) => DeclV::Controller(
                MethodsV { name: d.name@, name_span: d.name_span, target: None, methods: methods_view(d.methods), span: d.span },
            ),
            Declaration::Middleware(d) => DeclV::Middleware(
                MethodsV { name: d.name@, name_span: d.name_span, target: None, methods: methods_view(d.methods), span: d.span },
            ),
            Declaration::Migration(d) => DeclV::Migration(
                MethodsV { name: d.name@, name_span: d.name_span, target: None, methods: methods_view(d.methods), span: d.span },
            ),
            Declaration::Policy(d) => DeclV::Policy(
                MethodsV { name: d.name@, name_span: d.name_span, target: Some(d.target@), methods: methods_view(d.methods), span: d.span },
            ),
            Declaration::Listener(d) => DeclV::Listener(
                MethodsV { name: d.name@, name_span: d.name_span, target: Some(d.event@), methods: methods_view(d.methods), span: d.span },
            ),
            Declaration::Notification(d) => DeclV::Notification(
                MethodsV { name: d.name@, name_span: d.name_span, target: None, methods: methods_view(d.methods), span: d.span },
            ),
            Declaration::Mail(d) => DeclV::Mail(
                MethodsV { name: d.name@, name_span: d.name_span, target: None, methods: methods_view(d.methods), span: d.span },
            ),
        }
    }
}

impl View for Program {
    type V = Seq<DeclV>;

    open spec fn view(&self) -> Seq<DeclV> {
        self.declarations@.map_values(|d: Declaration| d@)
    }
}

} // verus!
