use sha2::Digest;
use templates_service::config::Config;
use templates_service::error::AppError;
use templates_service::kv::KvCache;
use templates_service::models::template::{CreateTemplateRequest, TemplateType};
use templates_service::services::render_service::RenderService;
use templates_service::services::template_service::TemplateService;
use templates_service::vars::{VarMap, VarValue};

fn test_config() -> Config {
    Config {
        database_url: "postgres://localhost/templates".to_string(),
        redis_url: "redis://localhost".to_string(),
        server_host: "127.0.0.1".to_string(),
        server_port: 8080,
        jwt_secret: "SECRET-REDACTED".to_string(),
        max_rendered_size_kb: 64,
        template_cache_ttl_secs: 3600,
        rendered_cache_ttl_secs: 300,
    }
}

fn str_vars(entries: &[(&str, &str)]) -> VarMap {
    let mut m = VarMap::new();
    for (k, v) in entries {
        m.insert(k.to_string(), VarValue::Str(v.to_string()));
    }
    m
}

#[test]
fn test_render_html_template() {
    let mut template_service = TemplateService::new(3600);
    let mut render_service = RenderService::new(test_config());
    let mut cache = KvCache::new();

    let request = CreateTemplateRequest {
        template_code: "render_test".to_string(),
        template_type: "email_html".to_string(),
        language: "en".to_string(),
        content: "<h1>Hello {{name}}</h1>".to_string(),
        meta: None,
    };

    let template = template_service.create_template(&mut cache, request, 100).unwrap();

    let variables = str_vars(&[("name", "Alice")]);

    let rendered = render_service
        .render(
            &mut cache,
            &template.template_code,
            template.version,
            &template.language,
            &TemplateType::EmailHtml,
            &template.content,
            &variables,
            101,
        )
        .unwrap();

    let value: serde_json::Value = serde_json::from_str(&rendered.json).unwrap();
    assert_eq!(value["rendered"], "<h1>Hello Alice</h1>");
}

#[test]
fn test_render_push_json_template() {
    let mut template_service = TemplateService::new(3600);
    let mut render_service = RenderService::new(test_config());
    let mut cache = KvCache::new();

    let request = CreateTemplateRequest {
        template_code: "push_test".to_string(),
        template_type: "push_json".to_string(),
        language: "en".to_string(),
        content: r#"{"title": "Hello {{name}}", "body": "Welcome to our app"}"#.to_string(),
        meta: None,
    };

    let template = template_service.create_template(&mut cache, request, 100).unwrap();

    let variables = str_vars(&[("name", "Bob")]);

    let rendered = render_service
        .render(
            &mut cache,
            &template.template_code,
            template.version,
            &template.language,
            &TemplateType::PushJson,
            &template.content,
            &variables,
            101,
        )
        .unwrap();

    let value: serde_json::Value = serde_json::from_str(&rendered.json).unwrap();
    let rendered_obj = value["rendered"].as_object().unwrap();
    assert_eq!(rendered_obj["title"], "Hello Bob");
    assert_eq!(rendered_obj["body"], "Welcome to our app");
}

#[test]
fn test_canonicalization_is_insertion_order_independent() {
    let mut first = VarMap::new();
    first.insert("a".to_string(), VarValue::Int(1));
    first.insert("b".to_string(), VarValue::Int(2));

    let mut second = VarMap::new();
    second.insert("b".to_string(), VarValue::Int(2));
    second.insert("a".to_string(), VarValue::Int(1));

    assert_eq!(first.canonical_string(), r#"{"a":1,"b":2}"#);
    assert_eq!(first.canonical_string(), second.canonical_string());

    // Identical mappings render to identical cache keys and identical
    // output, whatever order they were built in.
    let mut render_service = RenderService::new(test_config());
    let mut cache = KvCache::new();
    let out_first = render_service
        .render(&mut cache, "canon", 1, "en", &TemplateType::EmailHtml, "{{a}}-{{b}}", &first, 10)
        .unwrap();
    let out_second = render_service
        .render(&mut cache, "canon", 1, "en", &TemplateType::EmailHtml, "{{a}}-{{b}}", &second, 11)
        .unwrap();
    assert_eq!(out_first.json, out_second.json);
}

#[test]
fn test_fingerprint_is_sha256_of_canonical_form() {
    let mut vars = VarMap::new();
    vars.insert("a".to_string(), VarValue::Int(1));

    let canon = vars.canonical_string();
    let expected = hex::encode(sha2::Sha256::digest(canon.as_bytes()));
    assert_eq!(templates_service::digest::fingerprint_of(&vars), expected);
}

#[test]
fn test_html_variables_are_escaped() {
    let mut render_service = RenderService::new(test_config());
    let mut cache = KvCache::new();
    let variables = str_vars(&[("x", "<script>alert(1)</script>")]);

    let rendered = render_service
        .render(&mut cache, "esc", 1, "en", &TemplateType::EmailHtml, "<p>{{x}}</p>", &variables, 10)
        .unwrap();

    let value: serde_json::Value = serde_json::from_str(&rendered.json).unwrap();
    let body = value["rendered"].as_str().unwrap();
    assert_eq!(body, "<p>&lt;script&gt;alert(1)&lt;/script&gt;</p>");
    assert!(!body.contains("<script"));
    assert!(body.contains("&lt;script&gt;"));
}

#[test]
fn test_push_payload_shape_is_enforced() {
    let mut render_service = RenderService::new(test_config());
    let mut cache = KvCache::new();

    let missing_body = render_service.render(
        &mut cache,
        "shape",
        1,
        "en",
        &TemplateType::PushJson,
        r#"{"title":"{{t}}"}"#,
        &str_vars(&[("t", "Hi")]),
        10,
    );
    assert!(matches!(missing_body, Err(AppError::RenderError(_))));

    let complete = render_service
        .render(
            &mut cache,
            "shape",
            2,
            "en",
            &TemplateType::PushJson,
            r#"{"title":"{{t}}","body":"{{b}}"}"#,
            &str_vars(&[("t", "Hi"), ("b", "Yo")]),
            11,
        )
        .unwrap();
    let value: serde_json::Value = serde_json::from_str(&complete.json).unwrap();
    assert_eq!(value["rendered"]["title"], "Hi");
    assert_eq!(value["rendered"]["body"], "Yo");
}

#[test]
fn test_rendered_size_ceiling() {
    let mut config = test_config();
    config.max_rendered_size_kb = 1;
    let mut render_service = RenderService::new(config);
    let mut cache = KvCache::new();

    let big = "a".repeat(3000);
    let result = render_service.render(
        &mut cache,
        "big",
        1,
        "en",
        &TemplateType::EmailHtml,
        &big,
        &str_vars(&[]),
        10,
    );
    assert!(matches!(result, Err(AppError::RenderedSizeExceeded)));

    let small = render_service.render(
        &mut cache,
        "small",
        1,
        "en",
        &TemplateType::EmailHtml,
        "<p>tiny</p>",
        &str_vars(&[]),
        11,
    );
    assert!(small.is_ok());
}

#[test]
fn test_render_survives_cache_outage() {
    let mut render_service = RenderService::new(test_config());
    let mut cache = KvCache::new();
    cache.set_available(false);

    let rendered = render_service
        .render(
            &mut cache,
            "outage_render",
            1,
            "en",
            &TemplateType::EmailHtml,
            "<p>{{x}}</p>",
            &str_vars(&[("x", "still works")]),
            10,
        )
        .unwrap();
    let value: serde_json::Value = serde_json::from_str(&rendered.json).unwrap();
    assert_eq!(value["rendered"], "<p>still works</p>");
}

#[test]
fn test_repeated_render_hits_cache_with_same_output() {
    let mut render_service = RenderService::new(test_config());
    let mut cache = KvCache::new();
    let variables = str_vars(&[("who", "cache")]);

    let first = render_service
        .render(&mut cache, "again", 1, "en", &TemplateType::EmailHtml, "hi {{who}}", &variables, 10)
        .unwrap();
    let second = render_service
        .render(&mut cache, "again", 1, "en", &TemplateType::EmailHtml, "hi {{who}}", &variables, 11)
        .unwrap();
    assert_eq!(first, second);
}

#[test]
fn test_invalidate_cache_forces_fresh_render() {
    let mut render_service = RenderService::new(test_config());
    let mut cache = KvCache::new();
    let variables = str_vars(&[("x", "v")]);

    let first = render_service
        .render(&mut cache, "inv", 1, "en", &TemplateType::EmailHtml, "{{x}}", &variables, 10)
        .unwrap();
    render_service.invalidate_cache(&mut cache, "inv", 1, "en");
    let second = render_service
        .render(&mut cache, "inv", 1, "en", &TemplateType::EmailHtml, "{{x}}", &variables, 11)
        .unwrap();
    assert_eq!(first, second);
}

#[test]
fn test_server_address_formatting() {
    let config = test_config();
    assert_eq!(config.server_address(), "127.0.0.1:8080");
}
