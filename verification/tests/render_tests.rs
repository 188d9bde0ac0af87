use templates_service::rendering::render_template;
use templates_service::vars::{VarMap, VarValue};

fn vars(entries: &[(&str, &str)]) -> VarMap {
    let mut m = VarMap::new();
    for (k, v) in entries {
        m.insert(k.to_string(), VarValue::Str(v.to_string()));
    }
    m
}

#[test]
fn test_render_simple_template() {
    let template = "Hello, {{name}}!";
    let context = vars(&[("name", "World")]);

    let result = render_template(template, &context);
    assert!(result.is_ok());
    assert_eq!(result.unwrap(), "Hello, World!");
}

#[test]
fn test_render_with_missing_variable() {
    let template = "Hello, {{name}}!";
    let context = vars(&[]);

    let result = render_template(template, &context);
    assert!(result.is_ok());
}

#[test]
fn test_render_json_template() {
    let template = r#"{"title": "{{title}}", "body": "{{body}}"}"#;
    let context = vars(&[("title", "Test Notification"), ("body", "This is a test")]);

    let result = render_template(template, &context);
    assert!(result.is_ok());
    let rendered = result.unwrap();
    assert!(rendered.contains("Test Notification"));
    assert!(rendered.contains("This is a test"));
}

#[test]
fn test_render_empty_template() {
    let template = "";
    let context = vars(&[]);

    let result = render_template(template, &context);
    assert!(result.is_ok());
    assert_eq!(result.unwrap(), "");
}

#[test]
fn test_render_no_variables() {
    let template = "Static content without variables";
    let context = vars(&[]);

    let result = render_template(template, &context);
    assert!(result.is_ok());
    assert_eq!(result.unwrap(), "Static content without variables");
}

#[test]
fn test_render_trims_placeholder_names() {
    let template = "Hello, {{ name }}!";
    let context = vars(&[("name", "World")]);

    assert_eq!(render_template(template, &context).unwrap(), "Hello, World!");
}

#[test]
fn test_render_unclosed_placeholder_fails() {
    let template = "Hello, {{name!";
    let context = vars(&[("name", "World")]);

    let result = render_template(template, &context);
    assert!(result.is_err());
}

#[test]
fn test_render_int_and_bool_values() {
    let mut context = VarMap::new();
    context.insert("n".to_string(), VarValue::Int(-42));
    context.insert("b".to_string(), VarValue::Bool(true));

    let result = render_template("{{n}} {{b}}", &context).unwrap();
    assert_eq!(result, "-42 true");
}
