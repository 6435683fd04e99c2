//! The record of the earlier sidecar log format.
use vstd::prelude::*;
use crate::request_type::{RecordType, RequestType};

verus! {

/// One sidecar log line in the earlier format, with a signed timestamp.
#[derive(Debug)]
pub struct Record {
    pub namespace: String,
    pub pod_name: String,
    pub request_id: String,
    pub trace_id: String,
    pub span_id: String,
    pub parent_span_id: String,
    pub record_type: RecordType,
    pub timestamp: i64,
    pub body: Option<String>,
    pub content_type: Option<String>,
    pub status: Option<String>,
    pub method: Option<RequestType>,
    pub path: Option<String>,
}

} // verus!
