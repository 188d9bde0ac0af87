use templates_service::error::AppError;
use templates_service::kv::KvCache;
use templates_service::models::template::CreateTemplateRequest;
use templates_service::services::template_service::TemplateService;

fn request(code: &str, type_: &str, language: &str, content: &str) -> CreateTemplateRequest {
    CreateTemplateRequest {
        template_code: code.to_string(),
        template_type: type_.to_string(),
        language: language.to_string(),
        content: content.to_string(),
        meta: None,
    }
}

#[test]
fn test_create_and_fetch_template() {
    let mut service = TemplateService::new(3600);
    let mut cache = KvCache::new();

    let req = request("test_welcome", "email_html", "en", "<h1>Welcome {{name}}</h1>");
    let created = service.create_template(&mut cache, req, 1_700_000_000).unwrap();

    assert_eq!(created.template_code, "test_welcome");
    assert_eq!(created.version, 1);
    assert_eq!(created.language, "en");

    let fetched = service
        .get_template(&mut cache, "test_welcome", Some("en"), None, 1_700_000_001)
        .unwrap();

    assert_eq!(fetched.id, created.id);
    assert_eq!(fetched.content, "<h1>Welcome {{name}}</h1>");
}

#[test]
fn test_template_versioning() {
    let mut service = TemplateService::new(3600);
    let mut cache = KvCache::new();

    let v1 = service
        .create_template(
            &mut cache,
            request("versioned_template", "email_html", "en", "<h1>Version 1</h1>"),
            100,
        )
        .unwrap();
    assert_eq!(v1.version, 1);

    let v2 = service
        .create_template(
            &mut cache,
            request("versioned_template", "email_html", "en", "<h1>Version 2</h1>"),
            200,
        )
        .unwrap();
    assert_eq!(v2.version, 2);

    let versions = service.get_versions("versioned_template").unwrap();
    assert_eq!(versions.len(), 2);
}

#[test]
fn test_soft_delete_template() {
    let mut service = TemplateService::new(3600);
    let mut cache = KvCache::new();

    let created = service
        .create_template(
            &mut cache,
            request("delete_test", "email_html", "en", "<h1>To be deleted</h1>"),
            100,
        )
        .unwrap();

    service.soft_delete(&mut cache, "delete_test", created.version).unwrap();

    let result = service.get_template(&mut cache, "delete_test", Some("en"), None, 200);
    assert!(result.is_err());
}

#[test]
fn test_version_set_is_contiguous() {
    let mut service = TemplateService::new(3600);
    let mut cache = KvCache::new();

    let mut seen = Vec::new();
    for i in 0..3u64 {
        let t = service
            .create_template(
                &mut cache,
                request("burst", "email_html", "en", "<p>body</p>"),
                100 + i,
            )
            .unwrap();
        seen.push(t.version);
    }
    assert_eq!(seen, vec![1, 2, 3]);
}

#[test]
fn test_soft_delete_defeats_stale_cache_entry() {
    let mut service = TemplateService::new(3600);
    let mut cache = KvCache::new();

    let created = service
        .create_template(&mut cache, request("stale", "email_html", "en", "<p>old</p>"), 100)
        .unwrap();

    // Populate the cache with the record, then delete the version: the
    // invalidation must win over the entry written before it.
    let cached = service
        .get_template(&mut cache, "stale", Some("en"), Some(created.version), 101)
        .unwrap();
    assert_eq!(cached.version, created.version);

    service.soft_delete(&mut cache, "stale", created.version).unwrap();

    let result = service.get_template(&mut cache, "stale", Some("en"), Some(created.version), 102);
    assert!(matches!(result, Err(AppError::TemplateNotFound)));
}

#[test]
fn test_unversioned_get_sees_new_version_over_cached_latest() {
    let mut service = TemplateService::new(3600);
    let mut cache = KvCache::new();

    service
        .create_template(&mut cache, request("fresh", "email_html", "en", "<p>one</p>"), 100)
        .unwrap();

    // Cache a "latest" entry pointing at version 1.
    let latest = service.get_template(&mut cache, "fresh", Some("en"), None, 101).unwrap();
    assert_eq!(latest.version, 1);

    service
        .create_template(&mut cache, request("fresh", "email_html", "en", "<p>two</p>"), 102)
        .unwrap();

    let latest = service.get_template(&mut cache, "fresh", Some("en"), None, 103).unwrap();
    assert_eq!(latest.version, 2);
    assert_eq!(latest.content, "<p>two</p>");
}

#[test]
fn test_cached_record_round_trips() {
    let mut service = TemplateService::new(3600);
    let mut cache = KvCache::new();

    let mut req = request("roundtrip", "push_json", "de", r#"{"title": "x"}"#);
    req.meta = Some(r#"{"team":"growth"}"#.to_string());
    let created = service.create_template(&mut cache, req, 123).unwrap();

    // First get fills the cache; the second answers from it and must hand
    // back the identical record.
    let first = service
        .get_template(&mut cache, "roundtrip", Some("de"), Some(created.version), 124)
        .unwrap();
    let second = service
        .get_template(&mut cache, "roundtrip", Some("de"), Some(created.version), 125)
        .unwrap();
    assert_eq!(first, second);
    assert_eq!(second.meta.as_deref(), Some(r#"{"team":"growth"}"#));
    assert_eq!(second.created_at, 123);
}

#[test]
fn test_create_rejects_unknown_type() {
    let mut service = TemplateService::new(3600);
    let mut cache = KvCache::new();

    let result = service.create_template(&mut cache, request("bad", "sms", "en", "hi"), 100);
    assert!(matches!(result, Err(AppError::InvalidTemplateType)));
}

#[test]
fn test_create_rejects_invalid_content() {
    let mut service = TemplateService::new(3600);
    let mut cache = KvCache::new();

    let html_empty = service.create_template(&mut cache, request("bad2", "email_html", "en", ""), 100);
    assert!(matches!(html_empty, Err(AppError::InvalidContent(_))));

    let push_not_object =
        service.create_template(&mut cache, request("bad3", "push_json", "en", "[1,2]"), 100);
    assert!(matches!(push_not_object, Err(AppError::InvalidContent(_))));

    let push_garbage =
        service.create_template(&mut cache, request("bad4", "push_json", "en", "not json"), 100);
    assert!(matches!(push_garbage, Err(AppError::InvalidContent(_))));

    let push_null =
        service.create_template(&mut cache, request("bad5", "push_json", "en", "null"), 100);
    assert!(matches!(push_null, Err(AppError::InvalidContent(_))));
}

#[test]
fn test_get_missing_template_fails() {
    let service = TemplateService::new(3600);
    let mut cache = KvCache::new();

    let result = service.get_template(&mut cache, "absent", None, None, 100);
    assert!(matches!(result, Err(AppError::TemplateNotFound)));
}

#[test]
fn test_soft_delete_missing_version_fails() {
    let mut service = TemplateService::new(3600);
    let mut cache = KvCache::new();

    let result = service.soft_delete(&mut cache, "absent", 1);
    assert!(matches!(result, Err(AppError::TemplateNotFound)));
}

#[test]
fn test_versions_listing_order() {
    let mut service = TemplateService::new(3600);
    let mut cache = KvCache::new();

    service
        .create_template(&mut cache, request("order", "email_html", "en", "<p>a</p>"), 1)
        .unwrap();
    service
        .create_template(&mut cache, request("order", "email_html", "de", "<p>b</p>"), 2)
        .unwrap();
    service
        .create_template(&mut cache, request("order", "email_html", "en", "<p>c</p>"), 3)
        .unwrap();
    service.soft_delete(&mut cache, "order", 2).unwrap();

    // Version descending, then language ascending; soft-deleted rows stay
    // listed for version history.
    let versions = service.get_versions("order").unwrap();
    let summary: Vec<(i32, String, bool)> = versions
        .iter()
        .map(|t| (t.version, t.language.clone(), t.is_active))
        .collect();
    assert_eq!(
        summary,
        vec![
            (2, "en".to_string(), false),
            (1, "de".to_string(), true),
            (1, "en".to_string(), true),
        ]
    );
}

#[test]
fn test_store_reads_survive_cache_outage() {
    let mut service = TemplateService::new(3600);
    let mut cache = KvCache::new();

    let created = service
        .create_template(&mut cache, request("outage", "email_html", "en", "<p>x</p>"), 100)
        .unwrap();

    cache.set_available(false);
    let fetched = service
        .get_template(&mut cache, "outage", Some("en"), Some(created.version), 101)
        .unwrap();
    assert_eq!(fetched.content, "<p>x</p>");
}
