use svc_bootstrap::config::{CorsConfig, RateLimitConfig, Settings};
use svc_bootstrap::pipeline::{
    client_key, cors_allow_origin, fresh_request_id, make_trace_record, pipeline_stages,
    redact_headers, resolve_request_id, Pipeline, StageKind, TokenBucket,
};
use svc_bootstrap::wire::{find_header, Header, Request};

fn header(name: &str, value: &str) -> Header {
    Header { name: name.to_string(), value: value.to_string() }
}

fn get(path: &str, headers: Vec<Header>) -> Request {
    Request { method: "GET".to_string(), path: path.to_string(), headers }
}

fn dev_settings() -> Settings {
    Settings::from_values(None, None, None, None, None, None, None, None).expect("defaults load")
}

fn fresh_id() -> String {
    fresh_request_id()
}

#[test]
fn health_returns_200_and_ok_true() {
    let mut p = Pipeline::new(dev_settings());
    let res = p.handle(&get("/health", vec![]), fresh_id());
    assert_eq!(res.status, 200);
    let json: serde_json::Value = serde_json::from_str(&res.body).expect("body parses");
    assert_eq!(json["ok"], true);
    assert_eq!(json["env"], "development");
    assert_eq!(res.body, "{\"ok\":true,\"env\":\"development\"}");
    let rid = find_header(&res.headers, "x-request-id").expect("x-request-id must be present");
    assert!(!rid.is_empty(), "x-request-id must not be empty");
    let ct = find_header(&res.headers, "content-type").expect("content-type present");
    assert_eq!(ct, "application/json");
}

#[test]
fn request_id_is_generated_when_missing() {
    let mut p = Pipeline::new(dev_settings());
    let supplied = fresh_id();
    let res = p.handle(&get("/health", vec![]), supplied.clone());
    let rid = find_header(&res.headers, "x-request-id").expect("x-request-id must be present");
    assert!(!rid.is_empty(), "x-request-id must not be empty");
    assert_eq!(rid.len(), 36, "a generated id has the identifier shape");
    assert_eq!(*rid, supplied);
}

#[test]
fn request_id_is_propagated_when_provided() {
    let mut p = Pipeline::new(dev_settings());
    let res = p.handle(&get("/health", vec![header("x-request-id", "test-123")]), fresh_id());
    let rid = find_header(&res.headers, "x-request-id").expect("x-request-id must be present");
    assert_eq!(rid, "test-123");
}

#[test]
fn unknown_path_gets_404_with_request_id() {
    let mut p = Pipeline::new(dev_settings());
    let res = p.handle(&get("/nope", vec![]), fresh_id());
    assert_eq!(res.status, 404);
    let json: serde_json::Value = serde_json::from_str(&res.body).expect("body parses");
    assert_eq!(json["code"], "not_found");
    assert!(find_header(&res.headers, "x-request-id").is_some());
}

#[test]
fn rate_limit_rejects_past_burst_but_still_stamps_the_id() {
    let mut settings = dev_settings();
    settings.ratelimit = Some(RateLimitConfig { rps: 1, burst: 2, trust_proxy: false });
    let mut p = Pipeline::new(settings);
    assert_eq!(p.handle(&get("/health", vec![]), fresh_id()).status, 200);
    assert_eq!(p.handle(&get("/health", vec![]), fresh_id()).status, 200);
    let rejected = p.handle(&get("/health", vec![header("x-request-id", "rid-3")]), fresh_id());
    assert_eq!(rejected.status, 429);
    let rid = find_header(&rejected.headers, "x-request-id").expect("id present on rejection");
    assert_eq!(rid, "rid-3");
}

#[test]
fn token_bucket_admits_refills_and_caps() {
    let rl = RateLimitConfig { rps: 3, burst: 2, trust_proxy: false };
    let mut b = TokenBucket::new(&rl);
    assert_eq!(b.capacity, 2);
    assert_eq!(b.tokens, 2);
    assert!(b.try_admit());
    assert!(b.try_admit());
    assert!(!b.try_admit());
    assert_eq!(b.tokens, 0);
    b.refill(1);
    assert_eq!(b.tokens, 1);
    b.refill(100);
    assert_eq!(b.tokens, 2);
}

#[test]
fn stages_follow_the_fixed_order() {
    let plain = pipeline_stages(&dev_settings());
    assert_eq!(
        plain,
        vec![StageKind::SensitiveHeaders, StageKind::RequestId, StageKind::Trace]
    );
    let mut full = dev_settings();
    full.cors = CorsConfig::Any;
    full.ratelimit = Some(RateLimitConfig { rps: 1, burst: 1, trust_proxy: false });
    assert_eq!(
        pipeline_stages(&full),
        vec![
            StageKind::SensitiveHeaders,
            StageKind::RequestId,
            StageKind::Trace,
            StageKind::Cors,
            StageKind::RateLimit,
        ]
    );
}

#[test]
fn sensitive_headers_are_redacted_for_logging_only() {
    let hs = vec![
        header("authorization", "Bearer token-1"),
        header("cookie", "id=1"),
        header("set-cookie", "id=2"),
        header("accept", "text/plain"),
    ];
    let logged = redact_headers(&hs);
    assert_eq!(logged[0].value, "[redacted]");
    assert_eq!(logged[1].value, "[redacted]");
    assert_eq!(logged[2].value, "[redacted]");
    assert_eq!(logged[3].value, "text/plain");
    assert_eq!(hs[0].value, "Bearer token-1");
}

#[test]
fn cors_any_reflects_wildcard_on_every_response() {
    let mut settings = dev_settings();
    settings.cors = CorsConfig::Any;
    let mut p = Pipeline::new(settings);
    let res = p.handle(&get("/health", vec![]), fresh_id());
    let allow = find_header(&res.headers, "access-control-allow-origin").expect("cors header");
    assert_eq!(allow, "*");
}

#[test]
fn cors_allowlist_reflects_only_exact_matches() {
    let policy = CorsConfig::AllowList(vec![
        "https://a.example".to_string(),
        "https://b.example".to_string(),
    ]);
    let origin = "https://b.example".to_string();
    assert_eq!(cors_allow_origin(&policy, Some(&origin)), Some("https://b.example".to_string()));
    let other = "https://c.example".to_string();
    assert_eq!(cors_allow_origin(&policy, Some(&other)), None);
    assert_eq!(cors_allow_origin(&policy, None), None);
    assert_eq!(cors_allow_origin(&CorsConfig::Disabled, Some(&origin)), None);
}

#[test]
fn cors_allowlist_drives_the_response_header() {
    let mut settings = dev_settings();
    settings.cors = CorsConfig::AllowList(vec!["https://a.example".to_string()]);
    let mut p = Pipeline::new(settings);
    let allowed = p.handle(&get("/health", vec![header("origin", "https://a.example")]),
        fresh_id());
    assert_eq!(
        find_header(&allowed.headers, "access-control-allow-origin").map(|v| v.clone()),
        Some("https://a.example".to_string())
    );
    let denied = p.handle(&get("/health", vec![header("origin", "https://evil.example")]),
        fresh_id());
    assert!(find_header(&denied.headers, "access-control-allow-origin").is_none());
}

#[test]
fn client_key_trusts_the_proxy_only_when_told_to() {
    let fwd = "203.0.113.9".to_string();
    assert_eq!(client_key(true, Some(&fwd), "10.0.0.1:55555"), "203.0.113.9");
    assert_eq!(client_key(false, Some(&fwd), "10.0.0.1:55555"), "10.0.0.1:55555");
    assert_eq!(client_key(true, None, "10.0.0.1:55555"), "10.0.0.1:55555");
}

#[test]
fn trace_records_hold_method_route_status_latency() {
    let req = get("/health", vec![header("authorization", "secret")]);
    let rec = make_trace_record(&req, 200, 1234);
    assert_eq!(rec.method, "GET");
    assert_eq!(rec.path, "/health");
    assert_eq!(rec.status, 200);
    assert_eq!(rec.latency_us, 1234);
}

#[test]
fn resolve_request_id_prefers_the_inbound_header() {
    let hs = vec![header("x-request-id", "abc")];
    assert_eq!(resolve_request_id(&hs, "fresh".to_string()), "abc");
    assert_eq!(resolve_request_id(&vec![], "fresh".to_string()), "fresh");
}
