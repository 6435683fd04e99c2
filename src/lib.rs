//! Consolidates service-mesh telemetry: pairs sidecar request/response logs, joins them with
//! tracing spans into realtime samples, aggregates the samples per endpoint, rebuilds the
//! endpoint dependency graph from span parentage, infers structural types of JSON samples, and
//! keeps the set of trace ids already consumed.
pub mod text;
pub mod request_type;
pub mod envoy_log;
pub mod endpoint_info;
pub mod endpoint_dependency;
pub mod trace;
pub mod dedup;
pub mod pattern;
pub mod url_matcher;
pub mod log_matcher;
pub mod realtime_data;
pub mod json_utils;
pub mod base;
pub mod record;
