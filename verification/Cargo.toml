[package]
name = "svc_bootstrap"
version = "0.1.0"
edition = "2021"
publish = false

[dependencies]
axum = "*"
serde = { version = "*", features = ["derive"] }
thiserror = "*"
tokio = { version = "*", features = ["full"] }
tower = { version = "*", features = ["util"] }
tower-http = { version = "*", features = ["trace", "sensitive-headers", "request-id", "cors", "util"] }
tracing = "*"
tracing-subscriber = { version = "*", features = ["env-filter", "json"] }
utoipa = { version = "*", features = ["axum_extras"] }
utoipa-swagger-ui = { version = "*", features = ["axum", "vendored"] }
uuid = { version = "*", features = ["v4"] }

[dev-dependencies]
serde_json = "*"
