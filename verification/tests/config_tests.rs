use kuadrant_praxis::config::{KuadrantFilterConfig, KuadrantServices, NameMap, UpstreamConfig};

/// Reads the configuration fields the filter uses from a YAML document.
fn config_from_yaml(yaml: &str) -> KuadrantFilterConfig {
    let doc: serde_yaml::Value = serde_yaml::from_str(yaml).expect("should parse");
    let mut upstreams = NameMap::new();
    let ups = doc.get("upstreams").and_then(|u| u.as_mapping()).expect("upstreams");
    for (name, u) in ups {
        let cfg = UpstreamConfig::new(
            u.get("url").and_then(|v| v.as_str()).expect("url").to_string(),
            u.get("timeout").and_then(|v| v.as_u64()).expect("timeout"),
            u.get("max_connections").and_then(|v| v.as_u64()).expect("max_connections") as usize,
        );
        upstreams.insert(name.as_str().expect("name").to_string(), cfg);
    }
    let mut services = NameMap::new();
    let svcs = doc
        .get("kuadrant_config")
        .and_then(|k| k.get("services"))
        .and_then(|s| s.as_mapping())
        .expect("services");
    for (name, s) in svcs {
        let endpoint = s.get("endpoint").and_then(|v| v.as_str()).expect("endpoint");
        services.insert(name.as_str().expect("name").to_string(), endpoint.to_string());
    }
    KuadrantFilterConfig::new(upstreams, KuadrantServices::new(services))
}

#[test]
fn test_valid_config_with_single_upstream() {
    let yaml = r#"
upstreams:
  authorino:
    url: authorino.default.svc:50051
    timeout: 1000
    max_connections: 50
kuadrant_config:
  services:
    authorino:
      type: auth
      endpoint: authorino
      failureMode: deny
  actionSets:
    - name: test
      routeRuleConditions:
        hostnames: ["*.example.com"]
      actions:
        - service: authorino
          scope: auth
"#;

    let config = config_from_yaml(yaml);

    // Verify upstreams parsed correctly
    assert_eq!(config.upstreams().len(), 1);
    let upstream = config.get_upstream("authorino").expect("authorino upstream should exist");
    assert_eq!(upstream.url(), "authorino.default.svc:50051");
    assert_eq!(upstream.timeout(), 1000);
    assert_eq!(upstream.max_connections(), 50);

    // Verify kuadrant_config parsed correctly
    assert!(config.kuadrant_config().services.contains_key("authorino"));
}

#[test]
fn test_valid_config_with_multiple_upstreams() {
    let yaml = r#"
upstreams:
  authorino:
    url: authorino.default.svc:50051
    timeout: 1000
    max_connections: 50
  limitador:
    url: limitador.default.svc:8081
    timeout: 500
    max_connections: 20
kuadrant_config:
  services:
    auth-service:
      type: auth
      endpoint: authorino
      failureMode: deny
    rate-limit-service:
      type: ratelimit
      endpoint: limitador
      failureMode: allow
  actionSets: []
"#;

    let config = config_from_yaml(yaml);

    assert_eq!(config.upstreams().len(), 2);
    assert_eq!(config.kuadrant_config().services.len(), 2);

    // Verify both upstreams are accessible
    assert!(config.get_upstream("authorino").is_some());
    assert!(config.get_upstream("limitador").is_some());
}

#[test]
fn test_validate_service_endpoints_exist() {
    let yaml = r#"
upstreams:
  authorino:
    url: authorino.default.svc:50051
    timeout: 1000
    max_connections: 50
kuadrant_config:
  services:
    my-service:
      type: auth
      endpoint: authorino
      failureMode: deny
  actionSets: []
"#;

    let config = config_from_yaml(yaml);

    // This should pass validation
    let result = config.validate();
    assert!(result.is_ok(), "valid config should pass validation");
}

#[test]
fn test_validate_fails_on_missing_endpoint() {
    let yaml = r#"
upstreams:
  authorino:
    url: authorino.default.svc:50051
    timeout: 1000
    max_connections: 50
kuadrant_config:
  services:
    my-service:
      type: auth
      endpoint: nonexistent
      failureMode: deny
  actionSets: []
"#;

    let config = config_from_yaml(yaml);

    // This should fail validation
    let result = config.validate();
    assert!(result.is_err(), "should fail when service.endpoint references missing upstream");
    let err = result.unwrap_err();
    assert!(err.contains("nonexistent"), "error should mention the missing endpoint");
}

#[test]
fn test_validate_multiple_services_multiple_upstreams() {
    let yaml = r#"
upstreams:
  authorino:
    url: authorino.default.svc:50051
    timeout: 1000
    max_connections: 50
  limitador:
    url: limitador.default.svc:8081
    timeout: 500
    max_connections: 20
kuadrant_config:
  services:
    auth:
      type: auth
      endpoint: authorino
      failureMode: deny
    ratelimit:
      type: ratelimit
      endpoint: limitador
      failureMode: allow
  actionSets: []
"#;

    let config = config_from_yaml(yaml);
    let result = config.validate();
    assert!(result.is_ok(), "all endpoints should resolve");
}

#[test]
fn test_validate_empty_upstreams() {
    let yaml = r#"
upstreams: {}
kuadrant_config:
  services:
    auth:
      type: auth
      endpoint: authorino
      failureMode: deny
  actionSets: []
"#;

    let config = config_from_yaml(yaml);
    let result = config.validate();
    assert!(result.is_err(), "should fail when no upstreams defined but services reference them");
}

fn upstream(url: &str) -> UpstreamConfig {
    UpstreamConfig::new(url.to_string(), 100, 1)
}

#[test]
fn validate_error_message_names_service_and_endpoint() {
    let mut ups = NameMap::new();
    ups.insert("authorino".to_string(), upstream("a:1"));
    let mut svcs = NameMap::new();
    svcs.insert("rl".to_string(), "limitador".to_string());
    let config = KuadrantFilterConfig::new(ups, KuadrantServices::new(svcs));
    assert_eq!(
        config.validate(),
        Err("service 'rl' references non-existent upstream endpoint 'limitador'".to_string())
    );
}

#[test]
fn config_without_services_validates() {
    let config = KuadrantFilterConfig::new(NameMap::new(), KuadrantServices::new(NameMap::new()));
    assert_eq!(config.validate(), Ok(()));
    assert!(config.get_upstream("anything").is_none());
}

#[test]
fn adding_upstream_keeps_valid_config_valid() {
    let mut ups = NameMap::new();
    ups.insert("authorino".to_string(), upstream("a:1"));
    let mut svcs = NameMap::new();
    svcs.insert("auth".to_string(), "authorino".to_string());
    ups.insert("limitador".to_string(), upstream("l:2"));
    let config = KuadrantFilterConfig::new(ups, KuadrantServices::new(svcs));
    assert!(config.validate().is_ok());
}

#[test]
fn name_map_insert_replaces_and_reads_back() {
    let mut m: NameMap<UpstreamConfig> = NameMap::new();
    assert_eq!(m.len(), 0);
    m.insert("a".to_string(), upstream("first:1"));
    m.insert("b".to_string(), upstream("other:2"));
    m.insert("a".to_string(), upstream("second:3"));
    assert_eq!(m.len(), 2);
    assert_eq!(m.get("a").map(|c| c.url()), Some("second:3"));
    assert_eq!(m.get("b").map(|c| c.url()), Some("other:2"));
    assert!(m.contains_key("b"));
    assert!(!m.contains_key("c"));
    assert!(m.get("A").is_none());
}

#[test]
fn into_parts_keeps_both_parts() {
    let mut ups = NameMap::new();
    ups.insert("authorino".to_string(), upstream("a:1"));
    let mut svcs = NameMap::new();
    svcs.insert("auth".to_string(), "authorino".to_string());
    let config = KuadrantFilterConfig::new(ups, KuadrantServices::new(svcs));
    let (ups, services) = config.into_parts();
    assert_eq!(ups.get("authorino").map(|c| c.timeout()), Some(100));
    assert_eq!(services.services.get("auth").map(|e| e.as_str()), Some("authorino"));
}
