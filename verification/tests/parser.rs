use densleaf::ast::{BinaryOperator, Declaration, Expression, Statement, UnaryOperator};
use densleaf::lexer::lex;
use densleaf::parser::{ParseOutput, parse};

fn parse_source(source: &str) -> ParseOutput {
    let lexed = lex(source, "test.dl");
    assert!(lexed.diagnostics.is_empty(), "{:?}", lexed.diagnostics);
    parse(lexed.tokens)
}

#[test]
fn parses_model_declarations() {
    let output = parse_source("model User { id: id name: string }");
    assert!(output.diagnostics.is_empty(), "{:?}", output.diagnostics);
    let Declaration::Model(model) = &output.program.declarations[0] else {
        panic!("expected model")
    };
    assert_eq!(model.name, "User");
    assert_eq!(model.fields.len(), 2);
    assert_eq!(model.fields[1].type_reference.name, "string");
}

#[test]
fn parses_controllers_methods_parameters_and_returns() {
    let output =
        parse_source("controller UserController { show(id: id, verbose: bool) { return true } }");
    assert!(output.diagnostics.is_empty(), "{:?}", output.diagnostics);
    let Declaration::Controller(controller) = &output.program.declarations[0] else {
        panic!("expected controller")
    };
    assert_eq!(controller.methods[0].parameters.len(), 2);
    assert!(matches!(
        controller.methods[0].body[0],
        Statement::Return(_)
    ));
}

#[test]
fn parses_variables_arrays_objects_null_and_grouping() {
    let output = parse_source(
        r#"controller Api {
            index() {
                let users = [{ name: "Justin" }, { name: "John" }]
                let empty = []
                let options = {}
                let nothing = null
                return (users)
            }
        }"#,
    );
    assert!(output.diagnostics.is_empty(), "{:?}", output.diagnostics);

    let Declaration::Controller(controller) = &output.program.declarations[0] else {
        panic!("expected controller")
    };
    let body = &controller.methods[0].body;
    assert_eq!(body.len(), 5);

    let Statement::Let(users) = &body[0] else {
        panic!("expected let statement")
    };
    let Expression::ArrayLiteral { elements, .. } = &users.initializer else {
        panic!("expected array literal")
    };
    assert_eq!(elements.len(), 2);
    assert!(matches!(elements[0], Expression::ObjectLiteral { .. }));

    let Statement::Let(nothing) = &body[3] else {
        panic!("expected let statement")
    };
    assert!(matches!(
        nothing.initializer,
        Expression::NullLiteral { .. }
    ));

    let Statement::Return(return_statement) = &body[4] else {
        panic!("expected return statement")
    };
    assert!(matches!(
        return_statement.expression,
        Expression::Grouped { .. }
    ));
}

#[test]
fn parses_operator_precedence() {
    let output =
        parse_source("controller Api { index() { return 1 + 2 * 3 >= 7 && !false || false } }");
    assert!(output.diagnostics.is_empty(), "{:?}", output.diagnostics);

    let Declaration::Controller(controller) = &output.program.declarations[0] else {
        panic!("expected controller")
    };
    let Statement::Return(return_statement) = &controller.methods[0].body[0] else {
        panic!("expected return")
    };

    let Expression::Binary {
        operator: BinaryOperator::Or,
        left,
        ..
    } = &return_statement.expression
    else {
        panic!("expected logical OR at the root")
    };

    let Expression::Binary {
        operator: BinaryOperator::And,
        left: comparison,
        right,
        ..
    } = left.as_ref()
    else {
        panic!("expected logical AND before OR")
    };
    assert!(matches!(
        right.as_ref(),
        Expression::Unary {
            operator: UnaryOperator::Not,
            ..
        }
    ));

    let Expression::Binary {
        operator: BinaryOperator::GreaterEqual,
        left: additive,
        ..
    } = comparison.as_ref()
    else {
        panic!("expected comparison")
    };

    let Expression::Binary {
        operator: BinaryOperator::Add,
        right: multiplied,
        ..
    } = additive.as_ref()
    else {
        panic!("expected addition")
    };
    assert!(matches!(
        multiplied.as_ref(),
        Expression::Binary {
            operator: BinaryOperator::Multiply,
            ..
        }
    ));
}

#[test]
fn parses_member_calls_indexes_and_chains() {
    let output = parse_source(
        r#"controller Api {
            show(id) {
                let result = User.find(id).items[0].name
                return result
            }
        }"#,
    );
    assert!(output.diagnostics.is_empty(), "{:?}", output.diagnostics);

    let Declaration::Controller(controller) = &output.program.declarations[0] else {
        panic!("expected controller")
    };
    let Statement::Let(result) = &controller.methods[0].body[0] else {
        panic!("expected let statement")
    };

    let Expression::MemberAccess { member, object, .. } = &result.initializer else {
        panic!("expected final member access")
    };
    assert_eq!(member, "name");

    let Expression::Index { object, .. } = object.as_ref() else {
        panic!("expected index before final member")
    };
    assert!(matches!(
        object.as_ref(),
        Expression::MemberAccess { member, .. } if member == "items"
    ));
}

#[test]
fn accepts_trailing_commas_in_arrays_objects_and_calls() {
    let output = parse_source(
        r#"controller Api {
            index() {
                let values = [1, 2, 3,]
                let result = User.find(1, true,)
                return { values: values, result: result, }
            }
        }"#,
    );
    assert!(output.diagnostics.is_empty(), "{:?}", output.diagnostics);
}

#[test]
fn reports_malformed_model_fields() {
    let output = parse_source("model User { email: }");
    assert!(!output.diagnostics.is_empty());
    assert!(output.diagnostics[0].message.contains("field type"));
}

#[test]
fn parses_middleware_migration_and_policy_declarations() {
    let output = parse_source(
        r#"
        model User { id: id }

        middleware AuthMiddleware {
            handle(request) { return request }
        }

        migration CreateUsers {
            up() {}
            down() {}
        }

        policy UserPolicy for User {
            view(actor: User, target: User) { return true }
        }
        "#,
    );
    assert!(output.diagnostics.is_empty(), "{:?}", output.diagnostics);
    assert!(matches!(
        output.program.declarations[1],
        Declaration::Middleware(_)
    ));
    assert!(matches!(
        output.program.declarations[2],
        Declaration::Migration(_)
    ));

    let Declaration::Policy(policy) = &output.program.declarations[3] else {
        panic!("expected policy")
    };
    assert_eq!(policy.target.name, "User");
    assert_eq!(policy.methods[0].name, "view");
}

#[test]
fn parses_messaging_declarations() {
    let output = parse_source(
        r#"
        event UserCreated { user: User }
        listener SendWelcomeMail listens UserCreated {
            handle(event: UserCreated) { return event }
        }
        notification WelcomeNotification {
            channels() { return ["mail"] }
            message(user: User) { return "Welcome" }
        }
        mail WelcomeMail {
            subject() { return "Welcome" }
            body(user: User) { return "Hello" }
        }
        "#,
    );
    assert!(output.diagnostics.is_empty(), "{:?}", output.diagnostics);
    let Declaration::Event(event) = &output.program.declarations[0] else {
        panic!("expected event")
    };
    assert_eq!(event.fields[0].type_reference.name, "User");
    let Declaration::Listener(listener) = &output.program.declarations[1] else {
        panic!("expected listener")
    };
    assert_eq!(listener.event.name, "UserCreated");
    assert!(matches!(output.program.declarations[2], Declaration::Notification(_)));
    assert!(matches!(output.program.declarations[3], Declaration::Mail(_)));
}

#[test]
fn a_malformed_field_type_is_consumed_and_explained() {
    let output = parse_source("model User { email: }");
    let messages: Vec<&str> = output.diagnostics.iter().map(|d| d.message.as_str()).collect();
    assert_eq!(messages, vec!["expected a field type", "expected `}` to close the model"]);
    assert_eq!(output.diagnostics[0].help.as_deref(), Some("try `email: string` on `User`"));
    assert_eq!(output.diagnostics[0].span.start.offset, 20);
    assert!(output.program.declarations.is_empty());
}

#[test]
fn stray_top_level_tokens_are_reported_one_by_one() {
    let output = parse_source("return 1 model User {}");
    assert_eq!(output.diagnostics.len(), 2);
    assert!(output.diagnostics.iter().all(|d| d.message == "expected a top-level declaration"));
    assert_eq!(output.program.declarations.len(), 1);
}

#[test]
fn a_missing_expression_consumes_the_token_in_its_place() {
    let output = parse_source("controller Api { index() { return } }");
    let messages: Vec<&str> = output.diagnostics.iter().map(|d| d.message.as_str()).collect();
    assert_eq!(messages, vec!["expected an expression", "expected `}` to close the controller"]);
    assert!(output.program.declarations.is_empty());
    let output = parse_source("controller Api { index() { return ] } }");
    assert_eq!(output.diagnostics.len(), 1);
    let Declaration::Controller(controller) = &output.program.declarations[0] else {
        panic!("expected controller")
    };
    assert!(controller.methods[0].body.is_empty());
}

#[test]
fn a_missing_name_consumes_the_token_in_its_place() {
    let output = parse_source("controller Api { 1() {} show() { return 1 } }");
    assert_eq!(output.diagnostics.len(), 1);
    assert_eq!(output.diagnostics[0].message, "expected a controller method name");
    let Declaration::Controller(controller) = &output.program.declarations[0] else {
        panic!("expected controller")
    };
    assert_eq!(controller.methods.len(), 1);
    assert_eq!(controller.methods[0].name, "show");
}

#[test]
fn binary_operators_associate_to_the_left() {
    let output = parse_source("controller Api { index() { return 10 - 4 - 3 } }");
    assert!(output.diagnostics.is_empty());
    let Declaration::Controller(controller) = &output.program.declarations[0] else {
        panic!("expected controller")
    };
    let Statement::Return(ret) = &controller.methods[0].body[0] else {
        panic!("expected return")
    };
    let Expression::Binary { left, right, operator: BinaryOperator::Subtract, span } = &ret.expression else {
        panic!("expected subtraction")
    };
    assert!(matches!(right.as_ref(), Expression::IntegerLiteral { value: 3, .. }));
    assert!(matches!(left.as_ref(), Expression::Binary { operator: BinaryOperator::Subtract, .. }));
    assert_eq!((span.start.column, span.end.column), (35, 45));
}

#[test]
fn unary_minus_nests() {
    let output = parse_source("controller Api { index() { return - -1 } }");
    assert!(output.diagnostics.is_empty());
    let Declaration::Controller(controller) = &output.program.declarations[0] else {
        panic!("expected controller")
    };
    let Statement::Return(ret) = &controller.methods[0].body[0] else {
        panic!("expected return")
    };
    let Expression::Unary { operator: UnaryOperator::Negate, operand, .. } = &ret.expression else {
        panic!("expected negation")
    };
    assert!(matches!(operand.as_ref(), Expression::Unary { operator: UnaryOperator::Negate, .. }));
}

#[test]
fn malformed_method_is_skipped_up_to_the_next_member() {
    let output = parse_source("controller Api { 1 { x } show() { return 1 } }");
    assert_eq!(output.diagnostics.len(), 1);
    assert_eq!(output.diagnostics[0].message, "expected a controller method name");
    let Declaration::Controller(controller) = &output.program.declarations[0] else {
        panic!("expected controller")
    };
    assert_eq!(controller.methods.len(), 1);
    assert_eq!(controller.methods[0].name, "show");
}

#[test]
fn event_names_a_listener_parameter_and_its_value() {
    let output = parse_source("listener L listens E { handle(event: E) { return event } }");
    assert!(output.diagnostics.is_empty(), "{:?}", output.diagnostics);
    let Declaration::Listener(listener) = &output.program.declarations[0] else {
        panic!("expected listener")
    };
    assert_eq!(listener.methods[0].parameters[0].name, "event");
    let Statement::Return(ret) = &listener.methods[0].body[0] else {
        panic!("expected return")
    };
    assert!(matches!(&ret.expression, Expression::Identifier { name, .. } if name == "event"));
}

#[test]
fn other_declaration_keywords_are_not_names() {
    let output = parse_source("model model {}");
    assert_eq!(output.diagnostics[0].message, "expected a model name");
    let output = parse_source("controller C { show() { return model } }");
    assert_eq!(output.diagnostics[0].message, "expected an expression");
}

#[test]
fn statement_keywords_are_not_names() {
    let output = parse_source("controller C { show(let) {} }");
    assert_eq!(output.diagnostics.len(), 1);
    assert_eq!(output.diagnostics[0].message, "expected a parameter name");
}
