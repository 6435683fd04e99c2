use kmamiz_data_processor::endpoint_dependency::{EndpointDependency, EndpointDependencyItem};
use kmamiz_data_processor::endpoint_info::EndpointInfo;
use kmamiz_data_processor::request_type::{EndpointDependencyType, RequestType};
use kmamiz_data_processor::trace::{LocalEndpoint, Tags, Trace};
use kmamiz_data_processor::url_matcher::UrlMatcher;

fn info(name: &str) -> EndpointInfo {
    EndpointInfo {
        unique_service_name: format!("{name}\tns\tv1"),
        unique_endpoint_name: format!("{name}\tns\tv1\tGET\thttp://{name}/"),
        label_name: None,
        service: name.to_owned(),
        namespace: "ns".to_owned(),
        version: "v1".to_owned(),
        url: format!("http://{name}/"),
        host: name.to_owned(),
        path: "/".to_owned(),
        port: "80".to_owned(),
        method: RequestType::Get,
        cluster_name: "cluster.local".to_owned(),
    }
}

fn item(name: &str, distance: u32, ty: EndpointDependencyType) -> EndpointDependencyItem {
    EndpointDependencyItem { endpoint: info(name), distance, dep_type: ty }
}

fn dep(name: &str, on: Vec<EndpointDependencyItem>, by: Vec<EndpointDependencyItem>) -> EndpointDependency {
    EndpointDependency { _id: None, endpoint: info(name), depending_on: on, depending_by: by }
}

fn keys(items: &[EndpointDependencyItem]) -> Vec<(String, u32)> {
    items.iter().map(|i| (i.endpoint.service.clone(), i.distance)).collect()
}

#[test]
fn combine_keeps_each_dependency_once() {
    let server = EndpointDependencyType::Server;
    let client = EndpointDependencyType::Client;
    let dep1 = vec![dep("a", vec![item("b", 1, server), item("c", 2, server)], vec![item("z", 1, client)])];
    let dep2 = vec![
        dep("a", vec![item("b", 1, server), item("b", 2, server)], vec![item("z", 1, client), item("y", 1, client)]),
        dep("d", vec![], vec![item("a", 1, client)]),
        dep("d", vec![], vec![item("a", 1, client), item("a", 3, client)]),
    ];
    let res = EndpointDependency::combine(dep1, dep2);
    assert_eq!(res.len(), 2);
    assert_eq!(res[0].endpoint.service, "a");
    assert_eq!(
        keys(&res[0].depending_on),
        vec![("b".to_owned(), 1), ("c".to_owned(), 2), ("b".to_owned(), 2)]
    );
    assert_eq!(keys(&res[0].depending_by), vec![("z".to_owned(), 1), ("y".to_owned(), 1)]);
    assert_eq!(res[1].endpoint.service, "d");
    assert_eq!(keys(&res[1].depending_by), vec![("a".to_owned(), 1), ("a".to_owned(), 3)]);
    assert!(res[1].depending_on.is_empty());
}

#[test]
fn merge_dependencies_skips_known_items() {
    let server = EndpointDependencyType::Server;
    let mut to = vec![item("b", 1, server)];
    let from = vec![item("b", 1, server), item("b", 2, server), item("b", 2, server)];
    EndpointDependency::merge_dependencies(&from, &mut to);
    assert_eq!(keys(&to), vec![("b".to_owned(), 1), ("b".to_owned(), 2)]);
}

fn tags(service: &str, url: &str) -> Tags {
    Tags {
        component: String::new(),
        request_id: String::new(),
        http_method: "GET".to_owned(),
        http_protocol: String::new(),
        http_status_code: "200".to_owned(),
        http_url: url.to_owned(),
        istio_canonical_revision: String::new(),
        istio_canonical_service: service.to_owned(),
        istio_mesh_id: "mesh".to_owned(),
        istio_namespace: "ns".to_owned(),
        node_id: String::new(),
        peer_address: String::new(),
        request_size: String::new(),
        response_flags: String::new(),
        response_size: String::new(),
        upstream_cluster: String::new(),
        upstream_cluster_name: String::new(),
        user_agent: String::new(),
    }
}

fn span(id: &str, parent: Option<&str>, kind: &str, service: &str) -> Trace {
    Trace {
        trace_id: "t1".to_owned(),
        parent_id: parent.map(|p| p.to_owned()),
        id: id.to_owned(),
        kind: kind.to_owned(),
        name: format!("{service}.ns.svc.cluster.local:80/*"),
        timestamp: 1,
        duration: 1,
        local_endpoint: LocalEndpoint { service_name: service.to_owned(), ipv4: String::new() },
        annotations: vec![],
        tags: tags(service, &format!("http://{service}.ns:8080/api")),
    }
}

#[test]
fn endpoint_info_from_span() {
    let s = span("a", None, "SERVER", "user");
    let e = s.to_endpoint_info(&UrlMatcher::new()).unwrap();
    assert_eq!(e.service, "user");
    assert_eq!(e.namespace, "ns");
    assert_eq!(e.cluster_name, "cluster.local");
    assert_eq!(e.version, "NONE");
    assert_eq!(e.host, "user.ns");
    assert_eq!(e.port, ":8080");
    assert_eq!(e.path, "/api");
    assert_eq!(e.unique_service_name, "user\tns\tNONE");
    assert_eq!(e.unique_endpoint_name, "user\tns\tNONE\tGET\thttp://user.ns:8080/api");

    let mut g = span("g", None, "SERVER", "gateway");
    g.name = "istio-ingressgateway".to_owned();
    g.tags.http_url = "/index.html".to_owned();
    let e = g.to_endpoint_info(&UrlMatcher::new()).unwrap();
    assert_eq!(e.service, "gateway");
    assert_eq!(e.cluster_name, "mesh");
    assert_eq!(e.port, "80");
    assert_eq!(e.host, "");
    assert_eq!(e.path, "/index.html");

    let mut bad = span("b", None, "SERVER", "user");
    bad.tags.http_method = "BREW".to_owned();
    assert!(bad.to_endpoint_info(&UrlMatcher::new()).is_err());
}

#[test]
fn dependencies_pass_through_client_spans() {
    let spans = vec![vec![
        span("g", None, "SERVER", "gateway"),
        span("gc", Some("g"), "CLIENT", "gateway"),
        span("u", Some("gc"), "SERVER", "user"),
        span("uc", Some("u"), "CLIENT", "user"),
        span("d", Some("uc"), "SERVER", "db"),
    ]];
    let res = Trace::to_endpoint_dependencies(&spans, &UrlMatcher::new()).unwrap();
    assert_eq!(res.len(), 3);
    let names: Vec<&str> = res.iter().map(|d| d.endpoint.service.as_str()).collect();
    assert_eq!(names, vec!["gateway", "user", "db"]);

    assert!(res[0].depending_by.is_empty());
    assert_eq!(keys(&res[0].depending_on), vec![("user".to_owned(), 1), ("db".to_owned(), 2)]);
    assert!(res[0].depending_on.iter().all(|i| i.dep_type == EndpointDependencyType::Server));

    assert_eq!(keys(&res[1].depending_by), vec![("gateway".to_owned(), 1)]);
    assert_eq!(keys(&res[1].depending_on), vec![("db".to_owned(), 1)]);

    assert_eq!(keys(&res[2].depending_by), vec![("user".to_owned(), 1), ("gateway".to_owned(), 2)]);
    assert!(res[2].depending_by.iter().all(|i| i.dep_type == EndpointDependencyType::Client));
    assert!(res[2].depending_on.is_empty());
}

#[test]
fn dependency_walk_ends_on_a_cycle() {
    let spans = vec![vec![
        span("a", Some("b"), "SERVER", "one"),
        span("b", Some("a"), "SERVER", "two"),
    ]];
    let res = Trace::to_endpoint_dependencies(&spans, &UrlMatcher::new()).unwrap();
    assert_eq!(res.len(), 2);
    assert_eq!(keys(&res[0].depending_by), vec![("two".to_owned(), 1), ("one".to_owned(), 2)]);
}
