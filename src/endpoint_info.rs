//! The description of one HTTP endpoint of a service.
use vstd::prelude::*;
use crate::request_type::RequestType;
use crate::envoy_log::clone_text;

verus! {

#[derive(Debug)]
pub struct EndpointInfo {
    /// `service \t namespace \t version`
    pub unique_service_name: String,
    /// `unique_service_name \t METHOD \t url`
    pub unique_endpoint_name: String,
    pub label_name: Option<String>,
    pub service: String,
    pub namespace: String,
    pub version: String,
    /// The full request URL.
    pub url: String,
    pub host: String,
    pub path: String,
    pub port: String,
    pub method: RequestType,
    pub cluster_name: String,
}

impl Clone for EndpointInfo {
    fn clone(&self) -> (r: Self)
        ensures
            r == *self,
    {
        EndpointInfo {
            unique_service_name: self.unique_service_name.clone(),
            unique_endpoint_name: self.unique_endpoint_name.clone(),
            label_name: clone_text(&self.label_name),
            service: self.service.clone(),
            namespace: self.namespace.clone(),
            version: self.version.clone(),
            url: self.url.clone(),
            host: self.host.clone(),
            path: self.path.clone(),
            port: self.port.clone(),
            method: self.method,
            cluster_name: self.cluster_name.clone(),
        }
    }
}

} // verus!
