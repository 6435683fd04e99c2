//! A service and an endpoint, as named across the pipeline.
use vstd::prelude::*;
use crate::request_type::RequestType;

verus! {

/// `unique_service_name` is `service \t namespace \t version`.
#[derive(Debug)]
pub struct Service {
    pub unique_service_name: String,
    pub service: String,
    pub namespace: String,
    pub version: String,
}

/// `unique_endpoint_name` is `unique_service_name \t METHOD \t url`.
#[derive(Debug)]
pub struct Endpoint {
    pub service: Service,
    pub method: RequestType,
    pub unique_endpoint_name: String,
}

pub trait ToService {
    fn to_service(&self) -> Service;
}

pub trait ToEndpoint: ToService {
    fn to_endpoint(&self) -> Endpoint;
}

} // verus!
