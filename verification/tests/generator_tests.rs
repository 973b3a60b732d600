use texttools::context::Context;
use texttools::generator::{generate_html_tag, generate_html_template_var, render_line};
use texttools::parser::{
    get_conditional_data, ConditionData, Conditional, ContentType, ExpressionData, OperationType,
};

fn bob_context() -> Context {
    let mut context = Context::new();
    context.insert("name".to_string(), vec!["Bob".to_string()]);
    context.insert("city".to_string(), vec!["Boston".to_string()]);
    context
}

#[test]
fn check_literals() {
    let context = bob_context();

    let mut content = ExpressionData {
        expression: "{{name}}".to_string(),
        var_map: vec!["{{name}}".to_string()],
        gen_html: "".to_string(),
    };
    generate_html_template_var(&mut content, &context).unwrap();
    assert_eq!(content.gen_html, "Bob".to_string())
}

#[test]
fn check_if_tag() {
    let context = bob_context();

    assert_eq!(
        get_conditional_data("{% if name = Bob %} <h1> hello Bob </h1> {% endif %}")
            .expect("Input for test"),
        Conditional {
            condition: ConditionData {
                left_operand: "name".to_string(),
                operation: OperationType::Equal,
                right_operand: "Bob".to_string(),
            },
            expression: Box::new(ContentType::Literal("<h1> hello Bob </h1>".to_string()))
        }
    );

    assert_eq!(
        generate_html_tag(
            &get_conditional_data("{% if name = Bob %} <h1> hello Bob </h1> {% endif %}")
                .expect("Input for test"),
            &context
        )
        .unwrap(),
        "<h1> hello Bob </h1>".to_string()
    )
}

#[test]
fn check_if_tag_var() {
    let context = bob_context();

    assert_eq!(
        get_conditional_data("{% if name = Bob %} <h1> hello {{name}} </h1> {% endif %}")
            .expect("Input for test"),
        Conditional {
            condition: ConditionData {
                left_operand: "name".to_string(),
                operation: OperationType::Equal,
                right_operand: "Bob".to_string(),
            },
            expression: Box::new(ContentType::TemplateVariable(ExpressionData {
                expression: "<h1> hello {{name}} </h1>".to_string(),
                var_map: vec!["{{name}}".to_string()],
                gen_html: "".into()
            }))
        }
    );

    assert_eq!(
        generate_html_tag(
            &get_conditional_data("{% if name = Bob %} <h1> hello Bob </h1> {% endif %}")
                .expect("Input for test"),
            &context
        )
        .unwrap(),
        "<h1> hello Bob </h1>".to_string()
    )
}

#[test]
fn check_for_tag_one() {
    let mut context = Context::new();
    context.insert(
        "name".to_string(),
        vec!["Bob".to_string(), "Lisa".to_string()],
    );
    context.insert("city".to_string(), vec!["Boston".to_string()]);

    assert_eq!(
        generate_html_tag(
            &get_conditional_data("{% for costumer in name %} <li> {{customer}} </li> {% endfor %}")
                .expect("Hardcoded input"),
            &context
        )
        .unwrap(),
        "<li> Bob </li>\n<li> Lisa </li>\n".to_string()
    )
}

#[test]
fn variable_line_renders_with_substitution() {
    let context = bob_context();
    let out = render_line("Hi {{name}} ,welcome", &context).unwrap();
    assert_eq!(out, "Hi Bob ,welcome");
}

#[test]
fn if_tag_renders_on_match_and_blank_on_mismatch() {
    let line = "{% if name = Bob %} <h1> hello Bob </h1> {% endif %}";

    let context = bob_context();
    assert_eq!(render_line(line, &context).unwrap(), "<h1> hello Bob </h1>");

    let mut alice = Context::new();
    alice.insert("name".to_string(), vec!["Alice".to_string()]);
    assert_eq!(render_line(line, &alice).unwrap(), "");
}

#[test]
fn for_tag_renders_one_repetition_per_value() {
    let mut context = Context::new();
    context.insert(
        "name".to_string(),
        vec!["Bob".to_string(), "Lisa".to_string()],
    );
    let line = "{% for customer in name %} <li> {{customer}} </li> {% endfor %}";
    assert_eq!(
        render_line(line, &context).unwrap(),
        "<li> Bob </li>\n<li> Lisa </li>\n"
    );
}

#[test]
fn literal_output_reclassifies_as_literal() {
    let context = bob_context();
    let line = "plain text without markers";
    let out = render_line(line, &context).unwrap();
    assert_eq!(out, line);
    assert_eq!(
        texttools::parser::get_content_type(&out).unwrap(),
        ContentType::Literal(line.to_string())
    );
}

#[test]
fn equal_path_output_reclassifies_as_literal() {
    let context = bob_context();
    let line = "{% if name = Bob %} <h1> hello Bob </h1> {% endif %}";
    let out = render_line(line, &context).unwrap();
    assert_eq!(
        texttools::parser::get_content_type(&out).unwrap(),
        ContentType::Literal(out.clone())
    );

    let mut alice = Context::new();
    alice.insert("name".to_string(), vec!["Alice".to_string()]);
    let blank = render_line(line, &alice).unwrap();
    assert_eq!(
        texttools::parser::get_content_type(&blank).unwrap(),
        ContentType::Literal(blank.clone())
    );
}

#[test]
fn unbound_name_in_directive_renders_blank() {
    let context = Context::new();
    assert_eq!(
        render_line("{% if ghost = Bob %} body {% endif %}", &context).unwrap(),
        " "
    );
    assert_eq!(
        render_line("{% for x in ghosts %} body {% endfor %}", &context).unwrap(),
        " "
    );
}

#[test]
fn unbound_name_in_variable_line_is_hard_failure() {
    let context = Context::new();
    let res = render_line("Hi {{ghost}} !", &context);
    assert_eq!(res.unwrap_err(), "Variable not found in context");
}

#[test]
fn empty_binding_is_reported() {
    let mut context = Context::new();
    context.insert("name".to_string(), vec![]);
    let res = render_line("Hi {{name}} !", &context);
    assert_eq!(res.unwrap_err(), "Variable binding is empty");
}

#[test]
fn unrecognized_line_renders_marker() {
    let context = Context::new();
    assert_eq!(
        render_line("{% mystery %}", &context).unwrap(),
        "Unrecognized input"
    );
}

#[test]
fn shuffled_lines_render_to_shuffled_outputs() {
    let context = bob_context();
    let lines = vec![
        "plain one".to_string(),
        "Hi {{name}} ,welcome".to_string(),
        "{% if name = Bob %} <h1> hello Bob </h1> {% endif %}".to_string(),
        "{% if city = Boston %} home {% endif %}".to_string(),
    ];
    let perm = vec![2usize, 0, 3, 1];
    let shuffled: Vec<String> = perm.iter().map(|&j| lines[j].clone()).collect();

    let outputs: Vec<_> = lines.iter().map(|l| render_line(l, &context)).collect();
    let shuffled_outputs: Vec<_> = shuffled.iter().map(|l| render_line(l, &context)).collect();

    for (k, &j) in perm.iter().enumerate() {
        assert_eq!(shuffled_outputs[k], outputs[j]);
    }
}

#[test]
fn format_error_does_not_stop_later_lines() {
    let context = bob_context();
    let lines = ["{% if name = Bob %} broken", "Hi {{name}} ,welcome"];
    let results: Vec<_> = lines.iter().map(|l| render_line(l, &context)).collect();
    assert_eq!(results[0].clone().unwrap_err(), "Invalid input format");
    assert_eq!(results[1].clone().unwrap(), "Hi Bob ,welcome");
}

#[test]
fn unsupported_operator_message_flows_into_output() {
    let context = bob_context();
    let out = render_line("{% if a < b %} body {% endif %}", &context).unwrap();
    assert_eq!(out, "Unrecognized operator");
}

#[test]
fn substituted_markers_reclassify_as_variable() {
    // A bound value may itself carry placeholder markers; the rendered
    // output then reads as a template variable again, not as a literal.
    let mut context = Context::new();
    context.insert("v".to_string(), vec!["{{w}}".to_string()]);
    let line = "{% if v = {{w}} %} {{v}} {% endif %}";
    let out = render_line(line, &context).unwrap();
    assert_eq!(out, "{{w}}");
    match texttools::parser::get_content_type(&out).unwrap() {
        ContentType::TemplateVariable(_) => {}
        other => panic!("expected a template variable, got {:?}", other),
    }
}
