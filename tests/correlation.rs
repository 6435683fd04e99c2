use kmamiz_data_processor::dedup::{clean_up_traces, filter_traces, TraceCache};
use kmamiz_data_processor::envoy_log::{EnvoyLog, StructuredEnvoyLog, StructuredEnvoyLogTrace};
use kmamiz_data_processor::realtime_data::{
    count_replicas, extract_datatype, GroupSamples, PodService, RealtimeData, ReplicaCount,
};
use kmamiz_data_processor::request_type::{LogType, RequestType};
use kmamiz_data_processor::trace::{Annotation, LocalEndpoint, Tags, Trace};

fn log(rid: &str, span: &str, parent: &str, kind: LogType, ts: u64, body: Option<&str>) -> EnvoyLog {
    EnvoyLog {
        namespace: "ns".to_owned(),
        pod_name: "pod".to_owned(),
        request_id: rid.to_owned(),
        trace_id: "t1".to_owned(),
        span_id: span.to_owned(),
        parent_span_id: parent.to_owned(),
        log_type: kind,
        timestamp: ts,
        body: body.map(|b| b.to_owned()),
        content_type: Some("application/json".to_owned()),
        status: None,
        method: Some(RequestType::Get),
        path: None,
    }
}

fn tags(service: &str, method: &str, url: &str) -> Tags {
    Tags {
        component: String::new(),
        request_id: String::new(),
        http_method: method.to_owned(),
        http_protocol: String::new(),
        http_status_code: "200".to_owned(),
        http_url: url.to_owned(),
        istio_canonical_revision: "v1".to_owned(),
        istio_canonical_service: service.to_owned(),
        istio_mesh_id: "cluster.local".to_owned(),
        istio_namespace: "ns".to_owned(),
        node_id: String::new(),
        peer_address: String::new(),
        request_size: String::new(),
        response_flags: String::new(),
        response_size: String::new(),
        upstream_cluster: String::new(),
        upstream_cluster_name: String::new(),
        user_agent: String::new(),
    }
}

fn span(trace: &str, id: &str, parent: Option<&str>, kind: &str, ts: u64, duration: u64) -> Trace {
    Trace {
        trace_id: trace.to_owned(),
        parent_id: parent.map(|p| p.to_owned()),
        id: id.to_owned(),
        kind: kind.to_owned(),
        name: "user.ns.svc.cluster.local:80/*".to_owned(),
        timestamp: ts,
        duration,
        local_endpoint: LocalEndpoint { service_name: "user".to_owned(), ipv4: String::new() },
        annotations: vec![Annotation { timestamp: ts, value: "x".to_owned() }],
        tags: tags("user", "GET", "http://user.ns.svc.cluster.local/api/user"),
    }
}

#[test]
fn pairs_response_with_parent_request() {
    let logs = vec![
        log("r1", "s1", "x0", LogType::Req, 100, Some("{\"q\":1}")),
        log("r1", "s2", "s1", LogType::Res, 200, Some("{\"a\":2}")),
        log("r1", "s3", "zz", LogType::Res, 300, None),
        log("r2", "s9", "x9", LogType::Req, 400, None),
    ];
    let res = EnvoyLog::to_structure(logs);
    assert_eq!(res.len(), 2);
    assert_eq!(res[0].request_id, "r1");
    assert_eq!(res[0].traces.len(), 1);
    let t = &res[0].traces[0];
    assert_eq!(t.span_id, "s2");
    assert_eq!(t.parent_span_id, "s1");
    assert_eq!(t.trace_id, "t1");
    assert_eq!(t.request.timestamp, 100);
    assert_eq!(t.response.timestamp, 200);
    assert!(!t.is_fallback);
    assert_eq!(res[1].request_id, "r2");
    assert!(res[1].traces.is_empty());
}

#[test]
fn no_id_switches_to_stack_walk() {
    let logs = vec![
        log("r1", "NO_ID", "NO_ID", LogType::Req, 100, None),
        log("r1", "a", "NO_ID", LogType::Req, 110, None),
        log("r1", "b", "x", LogType::Res, 120, None),
        log("r1", "c", "x", LogType::Res, 130, None),
        log("", "d", "x", LogType::Req, 140, None),
        log("r1", "e", "x", LogType::Res, 150, None),
    ];
    let res = EnvoyLog::to_structure(logs);
    assert_eq!(res.len(), 1);
    assert_eq!(res[0].request_id, "r1");
    let traces = &res[0].traces;
    assert_eq!(traces.len(), 2);
    assert!(traces.iter().all(|t| t.is_fallback));
    assert_eq!(traces[0].span_id, "a");
    assert_eq!(traces[0].request.timestamp, 110);
    assert_eq!(traces[0].response.timestamp, 120);
    assert_eq!(traces[1].span_id, "NO_ID");
    assert_eq!(traces[1].request.timestamp, 100);
    assert_eq!(traces[1].response.timestamp, 130);
}

fn pair(span: &str, parent: &str, req_ts: u64) -> StructuredEnvoyLogTrace {
    StructuredEnvoyLogTrace {
        trace_id: "t1".to_owned(),
        span_id: span.to_owned(),
        parent_span_id: parent.to_owned(),
        request: log("r1", span, parent, LogType::Req, req_ts, None),
        response: log("r1", span, parent, LogType::Res, req_ts + 1, None),
        is_fallback: false,
    }
}

#[test]
fn combines_pods_and_orders_by_request_time() {
    let pod_a = vec![StructuredEnvoyLog {
        request_id: "r1".to_owned(),
        traces: vec![pair("s3", "p", 300), pair("s1", "p", 100)],
    }];
    let pod_b = vec![
        StructuredEnvoyLog { request_id: "r2".to_owned(), traces: vec![pair("x", "p", 5)] },
        StructuredEnvoyLog { request_id: "r1".to_owned(), traces: vec![pair("s2", "p", 200)] },
    ];
    let res = EnvoyLog::combine_structured_logs(vec![pod_a, pod_b]);
    assert_eq!(res.len(), 2);
    assert_eq!(res[0].request_id, "r1");
    let order: Vec<&str> = res[0].traces.iter().map(|t| t.span_id.as_str()).collect();
    assert_eq!(order, vec!["s1", "s2", "s3"]);
    assert_eq!(res[1].request_id, "r2");
    assert_eq!(res[1].traces.len(), 1);
}

#[test]
fn fills_missing_parent_ids() {
    let logs = vec![
        StructuredEnvoyLog {
            request_id: "r1".to_owned(),
            traces: vec![pair("s1", "NO_ID", 1), pair("s2", "", 2)],
        },
        StructuredEnvoyLog { request_id: "r1".to_owned(), traces: vec![pair("s1", "root", 3)] },
        StructuredEnvoyLog { request_id: "r2".to_owned(), traces: vec![pair("s2", "other", 4)] },
    ];
    let res = EnvoyLog::fill_missing_ids(logs);
    assert_eq!(res[0].traces[0].parent_span_id, "root");
    assert_eq!(res[0].traces[1].parent_span_id, "");
    assert_eq!(res[1].traces[0].parent_span_id, "root");
    assert_eq!(res[2].traces[0].parent_span_id, "other");
}

#[test]
fn combine_logs_runs_all_steps() {
    let pod_a = vec![log("r1", "s1", "x0", LogType::Req, 100, Some("{\"q\":1}"))];
    let pod_b = vec![
        log("r1", "s1", "x0", LogType::Req, 100, Some("{\"q\":1}")),
        log("r1", "s2", "s1", LogType::Res, 200, Some("{\"a\":2}")),
    ];
    let res = EnvoyLog::combine_logs(vec![pod_a, pod_b]);
    assert_eq!(res.len(), 1);
    assert_eq!(res[0].request_id, "r1");
    assert_eq!(res[0].traces.len(), 1);
    assert_eq!(res[0].traces[0].span_id, "s2");
}

fn replica() -> ReplicaCount {
    ReplicaCount {
        unique_service_name: "user\tns\tv1".to_owned(),
        service: "user".to_owned(),
        namespace: "ns".to_owned(),
        version: "v1".to_owned(),
        replicas: 2,
    }
}

#[test]
fn joins_span_with_log_and_replicas() {
    let logs = vec![
        log("r1", "s1", "x0", LogType::Req, 100, Some("{\"q\":1}")),
        log("r1", "s2", "s1", LogType::Res, 200, Some("{\"a\":2}")),
    ];
    let s_logs = EnvoyLog::combine_logs(vec![logs]);
    let traces = vec![vec![
        span("t1", "s2", Some("s1"), "SERVER", 1_672_725_818_005_000, 1500),
        span("t1", "s1", None, "CLIENT", 1_672_725_818_004_000, 2000),
    ]];
    let data = Trace::combine_to_realtime_data(&traces, s_logs, &vec![replica()]).unwrap();
    assert_eq!(data.len(), 1);
    let d = &data[0];
    assert_eq!(d.timestamp, 1_672_725_818_005);
    assert_eq!(d.latency, 1500);
    assert_eq!(d.method, RequestType::Get);
    assert_eq!(d.unique_service_name, "user\tns\tv1");
    assert_eq!(d.unique_endpoint_name, "user\tns\tv1\tGET\thttp://user.ns.svc.cluster.local/api/user");
    assert_eq!(d.replica, Some(2));
    assert_eq!(d.request_body, Some("{\"q\":1}".to_owned()));
    assert_eq!(d.response_body, Some("{\"a\":2}".to_owned()));
    assert_eq!(d.status, "200");

    let combined = RealtimeData::partial_combine(data);
    assert_eq!(combined.len(), 1);
    assert_eq!(combined[0].combined, 1);
    assert_eq!(combined[0].total_replicas, 2);
    assert_eq!(combined[0].total_latency, 1500);
    assert_eq!(combined[0].latest_timestamp / 1000, 1_672_725_818);

    let samples = vec![GroupSamples {
        request_sample: Some("{\"q\":1}".to_owned()),
        request_schema: Some("type Root = {\n  q: number;\n};\n".to_owned()),
        response_sample: None,
        response_schema: None,
    }];
    let types = extract_datatype(&combined, &samples);
    assert_eq!(types.len(), 1);
    assert_eq!(types[0].schemas.len(), 1);
    assert_eq!(types[0].schemas[0].time, 1_672_725_818);
    assert_eq!(types[0].schemas[0].status, "200");
    assert_eq!(types[0].schemas[0].request_sample, Some("{\"q\":1}".to_owned()));
    assert_eq!(types[0].schemas[0].request_content_type, Some("application/json".to_owned()));
    assert_eq!(types[0].unique_endpoint_name, combined[0].unique_endpoint_name);
}

#[test]
fn unknown_method_is_an_error() {
    let mut s = span("t1", "s2", None, "SERVER", 1000, 10);
    s.tags.http_method = "BREW".to_owned();
    let res = Trace::combine_to_realtime_data(&vec![vec![s]], vec![], &vec![]);
    assert!(res.is_err());
}

#[test]
fn falls_back_to_parent_pair() {
    let logs = vec![
        log("r1", "NO_ID", "NO_ID", LogType::Req, 100, Some("{\"q\":1}")),
        log("r1", "NO_ID", "NO_ID", LogType::Res, 200, Some("{\"a\":2}")),
    ];
    let s_logs = EnvoyLog::combine_logs(vec![logs]);
    let traces = vec![vec![span("t1", "s2", Some("NO_ID"), "SERVER", 5000, 10)]];
    let data = Trace::combine_to_realtime_data(&traces, s_logs, &vec![]).unwrap();
    assert_eq!(data[0].request_body, Some("{\"q\":1}".to_owned()));
    assert_eq!(data[0].replica, None);
}

fn sample(latency: u64, ts: i64, status: &str, body: Option<&str>, replica: Option<u32>) -> RealtimeData {
    RealtimeData {
        unique_service_name: "user\tns\tv1".to_owned(),
        unique_endpoint_name: "user\tns\tv1\tGET\t/api".to_owned(),
        timestamp: ts,
        method: RequestType::Get,
        service: "user".to_owned(),
        namespace: "ns".to_owned(),
        version: "v1".to_owned(),
        latency,
        status: status.to_owned(),
        request_body: body.map(|b| b.to_owned()),
        request_content_type: None,
        response_body: None,
        response_content_type: Some("application/json".to_owned()),
        replica,
    }
}

#[test]
fn latency_sums_for_three_samples() {
    let data = vec![
        sample(10, 5, "200", Some("{}"), Some(1)),
        sample(20, 9, "200", None, None),
        sample(30, 7, "200", Some("[]"), Some(3)),
    ];
    let res = RealtimeData::partial_combine(data);
    assert_eq!(res.len(), 1);
    let g = &res[0];
    assert_eq!(g.combined, 3);
    assert_eq!(g.total_latency, 60);
    assert_eq!(g.total_squares, 1400);
    assert_eq!(g.total_replicas, 4);
    assert_eq!(g.latest_timestamp, 9);
    assert_eq!(g.request_body, vec!["{}".to_owned(), "[]".to_owned()]);
    assert!(g.response_body.is_empty());
    assert_eq!(g.request_content_type, None);
}

#[test]
fn groups_by_status() {
    let data = vec![
        sample(10, 1, "200", None, None),
        sample(20, 2, "500", None, None),
        sample(30, 3, "200", None, None),
    ];
    let res = RealtimeData::partial_combine(data);
    assert_eq!(res.len(), 2);
    assert_eq!(res[0].status, "200");
    assert_eq!(res[0].combined, 2);
    assert_eq!(res[0].total_latency, 40);
    assert_eq!(res[1].status, "500");
    assert_eq!(res[1].combined, 1);
    assert_eq!(RealtimeData::partial_combine(vec![]).len(), 0);
}

#[test]
fn squares_of_the_largest_latency_fit() {
    let res = RealtimeData::partial_combine(vec![sample(u64::MAX, 1, "200", None, None)]);
    assert_eq!(res[0].total_latency, u64::MAX as u128);
    assert_eq!(res[0].total_squares, (u64::MAX as u128) * (u64::MAX as u128));
    let res = RealtimeData::partial_combine(vec![
        sample(u64::MAX, 1, "200", None, None),
        sample(u64::MAX, 1, "200", None, None),
    ]);
    assert_eq!(res[0].total_squares, u128::MAX);
    assert_eq!(res[0].total_latency, 2 * (u64::MAX as u128));
}

#[test]
fn namespaces_once_each() {
    let mut a = span("t1", "a", None, "SERVER", 1, 1);
    a.tags.istio_namespace = "x".to_owned();
    let b = span("t1", "b", None, "SERVER", 1, 1);
    let mut c = span("t2", "c", None, "SERVER", 1, 1);
    c.tags.istio_namespace = "x".to_owned();
    let res = Trace::extract_namespaces(&vec![vec![a, b], vec![c]]);
    assert_eq!(res, vec!["x".to_owned(), "ns".to_owned()]);
}

#[test]
fn filtering_a_trace_twice_keeps_it_once() {
    let mut cache = TraceCache::new();
    let batch = vec![
        vec![span("t1", "a", None, "SERVER", 5_000_000, 1)],
        vec![],
        vec![span("t1", "b", None, "SERVER", 6_000_000, 1)],
        vec![span("t2", "c", None, "SERVER", 7_000_000, 1)],
    ];
    let (kept, total, new) = filter_traces(batch, &mut cache);
    assert_eq!((total, new), (4, 2));
    assert_eq!(kept[0][0].id, "a");
    assert_eq!(kept[1][0].id, "c");
    assert_eq!(cache.entries, vec![("t1".to_owned(), 5000), ("t2".to_owned(), 7000)]);

    let again = vec![vec![span("t1", "a", None, "SERVER", 5_000_000, 1)]];
    let (kept, total, new) = filter_traces(again, &mut cache);
    assert_eq!((total, new), (1, 0));
    assert!(kept.is_empty());
}

#[test]
fn eviction_drops_old_entries() {
    let mut cache = TraceCache::new();
    cache.entries = vec![("old".to_owned(), 1000), ("edge".to_owned(), 4000), ("new".to_owned(), 9000)];
    clean_up_traces(&mut cache, 5000, 9000);
    assert_eq!(cache.entries, vec![("edge".to_owned(), 4000), ("new".to_owned(), 9000)]);
    clean_up_traces(&mut cache, 0, 9000);
    assert_eq!(cache.entries, vec![("new".to_owned(), 9000)]);
}

#[test]
fn counts_pods_per_service() {
    let pod = |s: &str, v: &str| PodService {
        service: s.to_owned(),
        namespace: "ns".to_owned(),
        version: v.to_owned(),
    };
    let res = count_replicas(&vec![pod("user", "v1"), pod("db", "v1"), pod("user", "v1"), pod("user", "v2")]);
    assert_eq!(res.len(), 3);
    assert_eq!(res[0].unique_service_name, "user\tns\tv1");
    assert_eq!(res[0].replicas, 2);
    assert_eq!(res[1].unique_service_name, "db\tns\tv1");
    assert_eq!(res[1].replicas, 1);
    assert_eq!(res[2].version, "v2");
    assert_eq!(res[2].replicas, 1);
    assert!(count_replicas(&vec![]).is_empty());
}

#[test]
fn latest_timestamp_is_the_group_maximum() {
    let res = RealtimeData::partial_combine(vec![sample(10, -5, "200", None, None)]);
    assert_eq!(res[0].latest_timestamp, -5);
    let res = RealtimeData::partial_combine(vec![
        sample(10, -9, "200", None, None),
        sample(10, -3, "200", None, None),
        sample(10, -7, "200", None, None),
    ]);
    assert_eq!(res[0].latest_timestamp, -3);
}
