//! Bootstrap kernel for an HTTP service: configuration loading and
//! validation, the request-pipeline semantics (sensitive-header redaction,
//! request-id propagation, trace records, CORS enforcement, token-bucket
//! rate limiting), the error taxonomy with its wire mapping, and the route
//! registry the API document is generated from. The asynchronous shell that
//! binds a listener and serves requests stays outside the library and calls
//! into these verified functions.

pub mod config;
pub mod dto;
pub mod error;
pub mod pipeline;
pub mod routes;
pub mod state;
pub mod text;
pub mod wire;
