use svc_bootstrap::config::AppEnv;
use svc_bootstrap::dto::{health_response, EnvDto};
use svc_bootstrap::routes::{api_doc, default_registry, RouteRegistry};
use svc_bootstrap::state::AppState;
use svc_bootstrap::config::Settings;

#[test]
fn openapi_contains_health_path() {
    let reg = default_registry();
    let doc = api_doc(&reg);
    assert!(doc.paths.iter().any(|p| p == "/health"), "OpenAPI must include /health");
}

#[test]
fn doc_paths_match_registered_paths_exactly() {
    let mut reg = RouteRegistry::new();
    reg.register("GET", "/health", "Service is healthy").unwrap();
    reg.register("GET", "/ready", "Service is ready").unwrap();
    let doc = api_doc(&reg);
    let registered: Vec<String> = reg.routes.iter().map(|r| r.path.clone()).collect();
    assert_eq!(doc.paths, registered);
}

#[test]
fn duplicate_registration_is_an_error() {
    let mut reg = RouteRegistry::new();
    reg.register("GET", "/health", "one").unwrap();
    assert!(reg.register("POST", "/health", "different method").is_ok());
    let err = reg.register("GET", "/health", "again").unwrap_err();
    assert_eq!(err, "duplicate route registration");
    assert_eq!(reg.routes.len(), 2);
}

#[test]
fn health_response_reports_ok_and_environment() {
    let mut settings =
        Settings::from_values(None, None, None, None, None, None, None, None).expect("load");
    let state = AppState::new(settings.clone());
    let body = health_response(&state);
    assert!(body.ok);
    assert_eq!(body.env, EnvDto::Development);

    settings.app_env = AppEnv::Production;
    let prod_state = AppState::new(settings);
    assert_eq!(health_response(&prod_state).env, EnvDto::Production);
}
