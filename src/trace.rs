//! Spans from the tracing backend, and what is derived from them: realtime samples and the
//! endpoint dependency graph.
use vstd::prelude::*;
use crate::envoy_log::{clone_text, StructuredEnvoyLog, StructuredEnvoyLogTrace};
use crate::realtime_data::{RealtimeData, ReplicaCount};
use crate::request_type::{method_named, RequestType, RequestTypeParseError};
use crate::text::{concat_tab, contains_str, contains_text, eq_str, has_substring, join2, text_views, upper_of};
use crate::endpoint_info::EndpointInfo;
use crate::endpoint_dependency::{merged_items, EndpointDependency, EndpointDependencyItem};
use crate::request_type::EndpointDependencyType;
use crate::url_matcher::{service_of, url_part, UrlMatcher};

verus! {

/// One span of a distributed trace.
#[derive(Debug)]
pub struct Trace {
    pub trace_id: String,
    pub parent_id: Option<String>,
    pub id: String,
    /// `CLIENT`, `SERVER`, ...
    pub kind: String,
    pub name: String,
    /// Microseconds since the epoch.
    pub timestamp: u64,
    /// Microseconds.
    pub duration: u64,
    pub local_endpoint: LocalEndpoint,
    pub annotations: Vec<Annotation>,
    pub tags: Tags,
}

#[derive(Debug)]
pub struct LocalEndpoint {
    pub service_name: String,
    pub ipv4: String,
}

#[derive(Debug)]
pub struct Annotation {
    pub timestamp: u64,
    pub value: String,
}

/// The tags the mesh writes on each span.
#[derive(Debug)]
pub struct Tags {
    pub component: String,
    pub request_id: String,
    pub http_method: String,
    pub http_protocol: String,
    pub http_status_code: String,
    pub http_url: String,
    pub istio_canonical_revision: String,
    pub istio_canonical_service: String,
    pub istio_mesh_id: String,
    pub istio_namespace: String,
    pub node_id: String,
    pub peer_address: String,
    pub request_size: String,
    pub response_flags: String,
    pub response_size: String,
    pub upstream_cluster: String,
    pub upstream_cluster_name: String,
    pub user_agent: String,
}


/// The spans of the first `n` groups, in order.
pub open spec fn flat_spans(traces: Seq<Vec<Trace>>, n: int) -> Seq<Trace>
    decreases n,
{
    if n <= 0 {
        Seq::empty()
    } else {
        flat_spans(traces, n - 1) + traces[n - 1]@
    }
}

pub open spec fn all_spans(traces: Seq<Vec<Trace>>) -> Seq<Trace> {
    flat_spans(traces, traces.len() as int)
}

/// The namespaces of `spans`, each once, in order of first appearance.
pub open spec fn namespaces_of(spans: Seq<Trace>) -> Seq<Seq<char>>
    decreases spans.len(),
{
    if spans.len() == 0 {
        Seq::empty()
    } else {
        let a = namespaces_of(spans.drop_last());
        if a.contains(spans.last().tags.istio_namespace@) {
            a
        } else {
            a.push(spans.last().tags.istio_namespace@)
        }
    }
}

pub open spec fn is_server(t: Trace) -> bool {
    t.kind@ == "SERVER"@
}

pub open spec fn is_client(t: Trace) -> bool {
    t.kind@ == "CLIENT"@
}

/// The SERVER spans, in order.
pub open spec fn server_spans(spans: Seq<Trace>) -> Seq<Trace> {
    spans.filter(|t: Trace| is_server(t))
}

/// The replica count of the last entry for a service.
pub open spec fn replica_for(replicas: Seq<ReplicaCount>, usn: Seq<char>) -> Option<u32>
    decreases replicas.len(),
{
    if replicas.len() == 0 {
        None
    } else if replicas.last().unique_service_name@ == usn {
        Some(replicas.last().replicas)
    } else {
        replica_for(replicas.drop_last(), usn)
    }
}

/// The last pair with span id `sid` in a list of pairs.
pub open spec fn pair_in(ts: Seq<StructuredEnvoyLogTrace>, sid: Seq<char>) -> Option<
    StructuredEnvoyLogTrace,
>
    decreases ts.len(),
{
    if ts.len() == 0 {
        None
    } else if ts.last().span_id@ == sid {
        Some(ts.last())
    } else {
        pair_in(ts.drop_last(), sid)
    }
}

/// The pair a log index from trace id to span id to pair keeps for (`tid`, `sid`): requests
/// are filed under the trace id of their first pair, and the last pair filed wins.
pub open spec fn pair_for(s_logs: Seq<StructuredEnvoyLog>, tid: Seq<char>, sid: Seq<char>) -> Option<
    StructuredEnvoyLogTrace,
>
    decreases s_logs.len(),
{
    if s_logs.len() == 0 {
        None
    } else {
        let e = s_logs.last();
        if e.traces@.len() > 0 && e.traces@[0].trace_id@ == tid && pair_in(e.traces@, sid).is_some() {
            pair_in(e.traces@, sid)
        } else {
            pair_for(s_logs.drop_last(), tid, sid)
        }
    }
}

/// The pair correlated with a span: the one under its own id, or under its parent's id
/// where there is none or it came from the stack walk and the span has a parent.
pub open spec fn pair_of_span(s_logs: Seq<StructuredEnvoyLog>, t: Trace) -> Option<
    StructuredEnvoyLogTrace,
> {
    let own = pair_for(s_logs, t.trace_id@, t.id@);
    if (own.is_none() || own.unwrap().is_fallback) && t.parent_id.is_some() {
        pair_for(s_logs, t.trace_id@, t.parent_id.unwrap()@)
    } else {
        own
    }
}

pub open spec fn service_name_of(t: Trace) -> Seq<char> {
    join2(join2(t.tags.istio_canonical_service@, t.tags.istio_namespace@), t.tags.istio_canonical_revision@)
}

pub open spec fn opt_field(o: Option<Option<String>>) -> Option<Seq<char>> {
    match o {
        Some(Some(s)) => Some(s@),
        _ => None,
    }
}

/// The sample built from a SERVER span, its correlated pair and the replica counts.
pub open spec fn sample_of(
    s_logs: Seq<StructuredEnvoyLog>,
    replicas: Seq<ReplicaCount>,
    t: Trace,
    d: RealtimeData,
) -> bool {
    let p = pair_of_span(s_logs, t);
    let usn = service_name_of(t);
    &&& d.service@ == t.tags.istio_canonical_service@
    &&& d.namespace@ == t.tags.istio_namespace@
    &&& d.version@ == t.tags.istio_canonical_revision@
    &&& Some(d.method) == method_named(upper_of(t.tags.http_method@))
    &&& d.status@ == t.tags.http_status_code@
    &&& d.latency == t.duration
    &&& d.timestamp == t.timestamp / 1000
    &&& d.unique_service_name@ == usn
    &&& d.unique_endpoint_name@ == join2(join2(usn, t.tags.http_method@), t.tags.http_url@)
    &&& d.replica == replica_for(replicas, usn)
    &&& d.request_body == (match p { Some(x) => x.request.body, None => None })
    &&& d.request_content_type == (match p { Some(x) => x.request.content_type, None => None })
    &&& d.response_body == (match p { Some(x) => x.response.body, None => None })
    &&& d.response_content_type == (match p { Some(x) => x.response.content_type, None => None })
}

proof fn lemma_flat_step(traces: Seq<Vec<Trace>>, g: int, i: int)
    requires
        0 <= g < traces.len(),
        0 <= i < traces[g]@.len(),
    ensures
        flat_spans(traces, g) + traces[g]@.take(i + 1) == (flat_spans(traces, g) + traces[g]@.take(
            i,
        )).push(traces[g]@[i]),
{
    assert(flat_spans(traces, g) + traces[g]@.take(i + 1) =~= (flat_spans(traces, g) + traces[g]@.take(
        i,
    )).push(traces[g]@[i]));
}

proof fn lemma_flat_group(traces: Seq<Vec<Trace>>, g: int)
    requires
        0 <= g < traces.len(),
    ensures
        flat_spans(traces, g) + traces[g]@.take(traces[g]@.len() as int) == flat_spans(traces, g + 1),
{
    assert(traces[g]@.take(traces[g]@.len() as int) =~= traces[g]@);
}

fn find_replica(replicas: &Vec<ReplicaCount>, usn: &String) -> (r: Option<u32>)
    ensures
        r == replica_for(replicas@, usn@),
{
    let mut k: usize = replicas.len();
    assert(replicas@.take(k as int) =~= replicas@);
    while k > 0
        invariant
            k <= replicas.len(),
            replica_for(replicas@, usn@) == replica_for(replicas@.take(k as int), usn@),
        decreases k,
    {
        if replicas[k - 1].unique_service_name == *usn {
            return Some(replicas[k - 1].replicas);
        }
        assert(replicas@.take(k as int).drop_last() =~= replicas@.take(k - 1));
        k -= 1;
    }
    None
}

fn find_pair_in(ts: &Vec<StructuredEnvoyLogTrace>, sid: &String) -> (r: Option<usize>)
    ensures
        match r {
            Some(i) => i < ts@.len() && pair_in(ts@, sid@) == Some(ts@[i as int]),
            None => pair_in(ts@, sid@).is_none(),
        },
{
    let mut k: usize = ts.len();
    assert(ts@.take(k as int) =~= ts@);
    while k > 0
        invariant
            k <= ts.len(),
            pair_in(ts@, sid@) == pair_in(ts@.take(k as int), sid@),
        decreases k,
    {
        if ts[k - 1].span_id == *sid {
            return Some(k - 1);
        }
        assert(ts@.take(k as int).drop_last() =~= ts@.take(k - 1));
        k -= 1;
    }
    None
}

fn find_pair<'a>(s_logs: &'a Vec<StructuredEnvoyLog>, tid: &String, sid: &String) -> (r: Option<
    &'a StructuredEnvoyLogTrace,
>)
    ensures
        match r {
            Some(p) => pair_for(s_logs@, tid@, sid@) == Some(*p),
            None => pair_for(s_logs@, tid@, sid@).is_none(),
        },
{
    let mut k: usize = s_logs.len();
    assert(s_logs@.take(k as int) =~= s_logs@);
    while k > 0
        invariant
            k <= s_logs.len(),
            pair_for(s_logs@, tid@, sid@) == pair_for(s_logs@.take(k as int), tid@, sid@),
        decreases k,
    {
        let e = &s_logs[k - 1];
        if e.traces.len() > 0 && e.traces[0].trace_id == *tid {
            match find_pair_in(&e.traces, sid) {
                Some(i) => {
                    return Some(&e.traces[i]);
                },
                None => {},
            }
        }
        assert(s_logs@.take(k as int).drop_last() =~= s_logs@.take(k - 1));
        k -= 1;
    }
    None
}

fn sample_from_span(s_logs: &Vec<StructuredEnvoyLog>, replicas: &Vec<ReplicaCount>, t: &Trace) -> (r: Result<
    RealtimeData,
    RequestTypeParseError,
>)
    ensures
        match r {
            Ok(d) => sample_of(s_logs@, replicas@, *t, d),
            Err(_) => method_named(upper_of(t.tags.http_method@)).is_none(),
        },
{
    let method = match RequestType::from_str(t.tags.http_method.as_str()) {
        Ok(m) => m,
        Err(e) => {
            return Err(e);
        },
    };
    let usn = concat_tab(
        concat_tab(t.tags.istio_canonical_service.as_str(), t.tags.istio_namespace.as_str()).as_str(),
        t.tags.istio_canonical_revision.as_str(),
    );
    let uen = concat_tab(
        concat_tab(usn.as_str(), t.tags.http_method.as_str()).as_str(),
        t.tags.http_url.as_str(),
    );
    let own = find_pair(s_logs, &t.trace_id, &t.id);
    let use_parent = match own {
        Some(p) => p.is_fallback,
        None => true,
    };
    let pair = match &t.parent_id {
        Some(pid) => if use_parent {
            find_pair(s_logs, &t.trace_id, pid)
        } else {
            own
        },
        None => own,
    };
    let (request_body, request_content_type, response_body, response_content_type) = match pair {
        Some(p) => (
            clone_text(&p.request.body),
            clone_text(&p.request.content_type),
            clone_text(&p.response.body),
            clone_text(&p.response.content_type),
        ),
        None => (None, None, None, None),
    };
    let replica = find_replica(replicas, &usn);
    Ok(
        RealtimeData {
            unique_service_name: usn,
            unique_endpoint_name: uen,
            timestamp: (t.timestamp / 1000) as i64,
            method,
            service: t.tags.istio_canonical_service.clone(),
            namespace: t.tags.istio_namespace.clone(),
            version: t.tags.istio_canonical_revision.clone(),
            latency: t.duration,
            status: t.tags.http_status_code.clone(),
            request_body,
            request_content_type,
            response_body,
            response_content_type,
            replica,
        },
    )
}

impl Trace {
    /// The namespaces of all spans, each once, in order of first appearance.
    pub fn extract_namespaces(traces: &Vec<Vec<Trace>>) -> (r: Vec<String>)
        ensures
            text_views(r@) == namespaces_of(all_spans(traces@)),
    {
        let mut r: Vec<String> = Vec::new();
        let mut g: usize = 0;
        while g < traces.len()
            invariant
                g <= traces.len(),
                text_views(r@) == namespaces_of(flat_spans(traces@, g as int)),
            decreases traces.len() - g,
        {
            let group = &traces[g];
            let mut i: usize = 0;
            assert(flat_spans(traces@, g as int) + group@.take(0) =~= flat_spans(traces@, g as int));
            while i < group.len()
                invariant
                    g < traces.len(),
                    group == traces@[g as int],
                    i <= group.len(),
                    text_views(r@) == namespaces_of(flat_spans(traces@, g as int) + group@.take(i as int)),
                decreases group.len() - i,
            {
                proof {
                    lemma_flat_step(traces@, g as int, i as int);
                }
                let ns = &group[i].tags.istio_namespace;
                let found = contains_text(&r, ns);
                let ghost prefix = flat_spans(traces@, g as int) + group@.take(i as int);
                assert(prefix.push(group@[i as int]).drop_last() =~= prefix);
                if !found {
                    let ghost before = r@;
                    r.push(ns.clone());
                    assert(text_views(r@) =~= text_views(before).push(ns@));
                }
                i += 1;
            }
            proof {
                lemma_flat_group(traces@, g as int);
            }
            g += 1;
        }
        r
    }

    /// One realtime sample per SERVER span, in order, with the bodies and content types of
    /// its correlated log pair and the replica count of its service. Fails where a SERVER
    /// span's method is not an HTTP method.
    pub fn combine_to_realtime_data(
        traces: &Vec<Vec<Trace>>,
        s_logs: Vec<StructuredEnvoyLog>,
        replicas: &Vec<ReplicaCount>,
    ) -> (r: Result<Vec<RealtimeData>, RequestTypeParseError>)
        ensures
            match r {
                Ok(v) => {
                    &&& v@.len() == server_spans(all_spans(traces@)).len()
                    &&& forall|k: int|
                        0 <= k < v@.len() ==> sample_of(
                            s_logs@,
                            replicas@,
                            server_spans(all_spans(traces@))[k],
                            #[trigger] v@[k],
                        )
                },
                Err(_) => exists|k: int|
                    0 <= k < server_spans(all_spans(traces@)).len() && method_named(
                        upper_of((#[trigger] server_spans(all_spans(traces@))[k]).tags.http_method@),
                    ).is_none(),
            },
    {
        let mut out: Vec<RealtimeData> = Vec::new();
        let mut g: usize = 0;
        while g < traces.len()
            invariant
                g <= traces.len(),
                out@.len() == server_spans(flat_spans(traces@, g as int)).len(),
                forall|k: int|
                    0 <= k < out@.len() ==> sample_of(
                        s_logs@,
                        replicas@,
                        server_spans(flat_spans(traces@, g as int))[k],
                        #[trigger] out@[k],
                    ),
            decreases traces.len() - g,
        {
            let group = &traces[g];
            let mut i: usize = 0;
            assert(flat_spans(traces@, g as int) + group@.take(0) =~= flat_spans(traces@, g as int));
            while i < group.len()
                invariant
                    g < traces.len(),
                    group == traces@[g as int],
                    i <= group.len(),
                    out@.len() == server_spans(flat_spans(traces@, g as int) + group@.take(i as int)).len(),
                    forall|k: int|
                        0 <= k < out@.len() ==> sample_of(
                            s_logs@,
                            replicas@,
                            server_spans(flat_spans(traces@, g as int) + group@.take(i as int))[k],
                            #[trigger] out@[k],
                        ),
                decreases group.len() - i,
            {
                let ghost prefix = flat_spans(traces@, g as int) + group@.take(i as int);
                proof {
                    lemma_flat_step(traces@, g as int, i as int);
                    prefix.lemma_filter_push(group@[i as int], |t: Trace| is_server(t));
                }
                let t = &group[i];
                if eq_str(&t.kind, "SERVER") {
                    match sample_from_span(&s_logs, replicas, t) {
                        Ok(d) => {
                            out.push(d);
                        },
                        Err(e) => {
                            proof {
                                lemma_server_in_all(traces@, g as int, i as int);
                            }
                            return Err(e);
                        },
                    }
                }
                i += 1;
            }
            proof {
                lemma_flat_group(traces@, g as int);
            }
            g += 1;
        }
        Ok(out)
    }
}

proof fn lemma_flat_prefix(traces: Seq<Vec<Trace>>, g: int, n: int)
    requires
        0 <= g <= n <= traces.len(),
    ensures
        flat_spans(traces, n).take(flat_spans(traces, g).len() as int) == flat_spans(traces, g),
        flat_spans(traces, g).len() <= flat_spans(traces, n).len(),
    decreases n - g,
{
    if g < n {
        lemma_flat_prefix(traces, g, n - 1);
        assert(flat_spans(traces, n).take(flat_spans(traces, n - 1).len() as int) =~= flat_spans(traces, n - 1));
        assert(flat_spans(traces, n).take(flat_spans(traces, g).len() as int) =~= flat_spans(traces, n - 1).take(flat_spans(traces, g).len() as int));
    } else {
        assert(flat_spans(traces, n).take(flat_spans(traces, g).len() as int) =~= flat_spans(traces, g));
    }
}

/// A SERVER span of a group is one of the SERVER spans of all groups.
proof fn lemma_server_in_all(traces: Seq<Vec<Trace>>, g: int, i: int)
    requires
        0 <= g < traces.len(),
        0 <= i < traces[g]@.len(),
        is_server(traces[g]@[i]),
    ensures
        server_spans(all_spans(traces)).contains(traces[g]@[i]),
{
    broadcast use vstd::seq_lib::group_filter_ensures;

    lemma_flat_prefix(traces, g + 1, traces.len() as int);
    let all = all_spans(traces);
    let pre = flat_spans(traces, g + 1);
    let x = traces[g]@[i];
    let idx = flat_spans(traces, g).len() + i;
    assert(pre[idx] == x);
    assert(all[idx] == pre[idx]);
    assert(all.contains(x));
    assert(all.filter(|t: Trace| is_server(t)).contains(x));
}

impl Clone for LocalEndpoint {
    fn clone(&self) -> (r: Self)
        ensures
            r == *self,
    {
        LocalEndpoint { service_name: self.service_name.clone(), ipv4: self.ipv4.clone() }
    }
}

impl Clone for Annotation {
    fn clone(&self) -> (r: Self)
        ensures
            r == *self,
    {
        Annotation { timestamp: self.timestamp, value: self.value.clone() }
    }
}

impl Clone for Tags {
    fn clone(&self) -> (r: Self)
        ensures
            r == *self,
    {
        Tags {
            component: self.component.clone(),
            request_id: self.request_id.clone(),
            http_method: self.http_method.clone(),
            http_protocol: self.http_protocol.clone(),
            http_status_code: self.http_status_code.clone(),
            http_url: self.http_url.clone(),
            istio_canonical_revision: self.istio_canonical_revision.clone(),
            istio_canonical_service: self.istio_canonical_service.clone(),
            istio_mesh_id: self.istio_mesh_id.clone(),
            istio_namespace: self.istio_namespace.clone(),
            node_id: self.node_id.clone(),
            peer_address: self.peer_address.clone(),
            request_size: self.request_size.clone(),
            response_flags: self.response_flags.clone(),
            response_size: self.response_size.clone(),
            upstream_cluster: self.upstream_cluster.clone(),
            upstream_cluster_name: self.upstream_cluster_name.clone(),
            user_agent: self.user_agent.clone(),
        }
    }
}

fn clone_annotations(v: &Vec<Annotation>) -> (r: Vec<Annotation>)
    ensures
        r@ == v@,
{
    let mut r: Vec<Annotation> = Vec::new();
    let mut i: usize = 0;
    while i < v.len()
        invariant
            i <= v.len(),
            r@ == v@.take(i as int),
        decreases v.len() - i,
    {
        r.push(v[i].clone());
        i += 1;
        assert(r@ =~= v@.take(i as int));
    }
    assert(v@.take(v.len() as int) =~= v@);
    r
}

impl Clone for Trace {
    fn clone(&self) -> (r: Self)
        ensures
            r.trace_id == self.trace_id,
            r.parent_id == self.parent_id,
            r.id == self.id,
            r.kind == self.kind,
            r.name == self.name,
            r.timestamp == self.timestamp,
            r.duration == self.duration,
            r.local_endpoint == self.local_endpoint,
            r.annotations@ == self.annotations@,
            r.tags == self.tags,
    {
        Trace {
            trace_id: self.trace_id.clone(),
            parent_id: clone_text(&self.parent_id),
            id: self.id.clone(),
            kind: self.kind.clone(),
            name: self.name.clone(),
            timestamp: self.timestamp,
            duration: self.duration,
            local_endpoint: self.local_endpoint.clone(),
            annotations: clone_annotations(&self.annotations),
            tags: self.tags.clone(),
        }
    }
}

pub open spec fn text_or_empty(o: Option<Seq<char>>) -> Seq<char> {
    match o {
        Some(s) => s,
        None => Seq::empty(),
    }
}

/// Service, namespace and cluster of a span: read from its name where the name is a service
/// DNS name (holds `.svc.`), else the mesh tags.
pub open spec fn span_service(t: Trace) -> Option<(Seq<char>, Seq<char>, Option<Seq<char>>)> {
    if has_substring(t.name@, ".svc."@) {
        service_of(t.name@)
    } else {
        Some((t.tags.istio_canonical_service@, t.tags.istio_namespace@, Some(t.tags.istio_mesh_id@)))
    }
}

pub open spec fn version_of(t: Trace) -> Seq<char> {
    if t.tags.istio_canonical_revision@.len() == 0 {
        "NONE"@
    } else {
        t.tags.istio_canonical_revision@
    }
}

/// The endpoint description of a span.
pub open spec fn info_of(t: Trace, e: EndpointInfo) -> bool {
    let svc = span_service(t);
    let service = match svc {
        Some(x) => x.0,
        None => Seq::empty(),
    };
    let namespace = match svc {
        Some(x) => x.1,
        None => Seq::empty(),
    };
    let cluster = match svc {
        Some(x) => text_or_empty(x.2),
        None => Seq::empty(),
    };
    let usn = join2(join2(service, namespace), version_of(t));
    let url = t.tags.http_url@;
    &&& e.service@ == service
    &&& e.namespace@ == namespace
    &&& e.version@ == version_of(t)
    &&& e.cluster_name@ == cluster
    &&& e.url@ == url
    &&& e.host@ == text_or_empty(url_part(url, 1))
    &&& e.port@ == (match url_part(url, 2) {
        Some(p) => if p.len() > 0 {
            p
        } else {
            "80"@
        },
        None => "80"@,
    })
    &&& e.path@ == text_or_empty(url_part(url, 3))
    &&& Some(e.method) == method_named(upper_of(t.tags.http_method@))
    &&& e.unique_service_name@ == usn
    &&& e.unique_endpoint_name@ == join2(join2(usn, t.tags.http_method@), url)
    &&& e.label_name is None
}

fn or_empty(o: Option<String>) -> (r: String)
    ensures
        r@ == text_or_empty(crate::text::opt_text(o)),
{
    match o {
        Some(s) => s,
        None => String::new(),
    }
}

impl Trace {
    /// The endpoint this span served or called. Fails where its method is not an HTTP method.
    pub fn to_endpoint_info(&self, url_matcher: &UrlMatcher) -> (r: Result<EndpointInfo, RequestTypeParseError>)
        ensures
            match r {
                Ok(e) => info_of(*self, e),
                Err(_) => method_named(upper_of(self.tags.http_method@)).is_none(),
            },
    {
        let method = match RequestType::from_str(self.tags.http_method.as_str()) {
            Ok(m) => m,
            Err(e) => {
                return Err(e);
            },
        };
        let url = url_matcher.explode_url(self.tags.http_url.as_str(), false);
        let service_url = url_matcher.explode_url(self.name.as_str(), true);
        let (service, namespace, cluster) = if !contains_str(self.name.as_str(), ".svc.") {
            (
                self.tags.istio_canonical_service.clone(),
                self.tags.istio_namespace.clone(),
                self.tags.istio_mesh_id.clone(),
            )
        } else {
            (
                or_empty(service_url.service_name),
                or_empty(service_url.namespace),
                or_empty(service_url.cluster_name),
            )
        };
        let version = if self.tags.istio_canonical_revision.as_str().unicode_len() == 0 {
            "NONE".to_owned()
        } else {
            self.tags.istio_canonical_revision.clone()
        };
        let usn = concat_tab(concat_tab(service.as_str(), namespace.as_str()).as_str(), version.as_str());
        let uen = concat_tab(
            concat_tab(usn.as_str(), self.tags.http_method.as_str()).as_str(),
            self.tags.http_url.as_str(),
        );
        let port = match url.port {
            Some(p) => if p.as_str().unicode_len() > 0 {
                p
            } else {
                "80".to_owned()
            },
            None => "80".to_owned(),
        };
        Ok(
            EndpointInfo {
                unique_service_name: usn,
                unique_endpoint_name: uen,
                label_name: None,
                service,
                namespace,
                version,
                url: self.tags.http_url.clone(),
                host: or_empty(url.host),
                path: or_empty(url.path),
                port,
                method,
                cluster_name: cluster,
            },
        )
    }
}

/// The index of the last span with id `id`: the span an index by id keeps.
pub open spec fn span_at(all: Seq<Trace>, id: Seq<char>) -> Option<int>
    decreases all.len(),
{
    if all.len() == 0 {
        None
    } else if all.last().id@ == id {
        Some(all.len() - 1)
    } else {
        span_at(all.drop_last(), id)
    }
}

/// The non-CLIENT ancestors reached from parent id `pid`, each with its distance: CLIENT spans
/// are passed through without counting, the walk ends at a missing parent, after `fuel` steps,
/// or at the largest distance.
pub open spec fn ancestors(all: Seq<Trace>, pid: Option<String>, depth: int, fuel: nat) -> Seq<(int, int)>
    decreases fuel,
{
    if fuel == 0 {
        Seq::empty()
    } else {
        match pid {
            None => Seq::empty(),
            Some(id) => match span_at(all, id@) {
                None => Seq::empty(),
                Some(p) => if is_client(all[p]) {
                    ancestors(all, all[p].parent_id, depth, (fuel - 1) as nat)
                } else if depth >= u32::MAX {
                    seq![(p, depth)]
                } else {
                    seq![(p, depth)] + ancestors(all, all[p].parent_id, depth + 1, (fuel - 1) as nat)
                },
            },
        }
    }
}

/// The walk up from span `i`, at most one step per span.
pub open spec fn walk_of(all: Seq<Trace>, i: int) -> Seq<(int, int)> {
    ancestors(all, all[i].parent_id, 1, all.len() as nat)
}

/// A span that stands for its id: the last one with that id, of kind SERVER.
pub open spec fn is_rep(all: Seq<Trace>, i: int) -> bool {
    is_server(all[i]) && span_at(all, all[i].id@) == Some(i)
}

pub open spec fn rep_indices(all: Seq<Trace>, n: int) -> Seq<int>
    decreases n,
{
    if n <= 0 {
        Seq::empty()
    } else if is_rep(all, n - 1) {
        rep_indices(all, n - 1).push(n - 1)
    } else {
        rep_indices(all, n - 1)
    }
}

pub open spec fn dep_item(e: EndpointInfo, d: int, ty: EndpointDependencyType) -> EndpointDependencyItem {
    EndpointDependencyItem { endpoint: e, distance: d as u32, dep_type: ty }
}

/// One `Client` item per ancestor of a walk.
pub open spec fn upper_items(infos: Seq<EndpointInfo>, w: Seq<(int, int)>) -> Seq<EndpointDependencyItem>
    decreases w.len(),
{
    if w.len() == 0 {
        Seq::empty()
    } else {
        upper_items(infos, w.drop_last()).push(
            dep_item(infos[w.last().0], w.last().1, EndpointDependencyType::Client),
        )
    }
}

/// One `Server` item, for the span described by `e`, per step of its walk that reaches a span
/// with id `aid`.
pub open spec fn lower_items(all: Seq<Trace>, w: Seq<(int, int)>, aid: Seq<char>, e: EndpointInfo) -> Seq<
    EndpointDependencyItem,
>
    decreases w.len(),
{
    if w.len() == 0 {
        Seq::empty()
    } else if all[w.last().0].id@ == aid {
        lower_items(all, w.drop_last(), aid, e).push(
            dep_item(e, w.last().1, EndpointDependencyType::Server),
        )
    } else {
        lower_items(all, w.drop_last(), aid, e)
    }
}

/// The `Server` items of span `a` from the walks of the first `m` spans that stand for their id.
pub open spec fn lower_all(all: Seq<Trace>, infos: Seq<EndpointInfo>, a: int, m: int) -> Seq<
    EndpointDependencyItem,
>
    decreases m,
{
    if m <= 0 {
        Seq::empty()
    } else if is_rep(all, m - 1) {
        lower_all(all, infos, a, m - 1) + lower_items(all, walk_of(all, m - 1), all[a].id@, infos[m - 1])
    } else {
        lower_all(all, infos, a, m - 1)
    }
}

/// The dependency entry of span `i`: its endpoint, the endpoints above it as `depending_by`
/// and those below it as `depending_on`, each (endpoint, distance) once.
pub open spec fn dependency_of(all: Seq<Trace>, infos: Seq<EndpointInfo>, i: int, d: EndpointDependency) -> bool {
    let by = upper_items(infos, walk_of(all, i));
    let on = lower_all(all, infos, i, all.len() as int);
    &&& d._id is None
    &&& d.endpoint == infos[i]
    &&& d.depending_by@ == merged_items(Seq::empty(), by, by.len() as int)
    &&& d.depending_on@ == merged_items(Seq::empty(), on, on.len() as int)
}

/// One entry per span that stands for its id, in order.
pub open spec fn dependencies_from(all: Seq<Trace>, infos: Seq<EndpointInfo>, v: Seq<EndpointDependency>) -> bool {
    &&& v.len() == rep_indices(all, all.len() as int).len()
    &&& forall|k: int|
        0 <= k < v.len() ==> dependency_of(all, infos, rep_indices(all, all.len() as int)[k], #[trigger] v[k])
}

/// `infos` describes each span of `all`.
pub open spec fn infos_of(all: Seq<Trace>, infos: Seq<EndpointInfo>) -> bool {
    &&& infos.len() == all.len()
    &&& forall|i: int| 0 <= i < all.len() ==> info_of(all[i], #[trigger] infos[i])
}

pub open spec fn pairs_view(v: Seq<(usize, u32)>) -> Seq<(int, int)> {
    v.map_values(|p: (usize, u32)| (p.0 as int, p.1 as int))
}

/// Where each span of `all_spans` sits: group and index.
fn flat_positions(traces: &Vec<Vec<Trace>>) -> (pos: Vec<(usize, usize)>)
    ensures
        pos@.len() == all_spans(traces@).len(),
        forall|k: int|
            0 <= k < pos@.len() ==> {
                &&& (#[trigger] pos@[k]).0 < traces@.len()
                &&& pos@[k].1 < traces@[pos@[k].0 as int]@.len()
                &&& traces@[pos@[k].0 as int]@[pos@[k].1 as int] == all_spans(traces@)[k]
            },
{
    let mut pos: Vec<(usize, usize)> = Vec::new();
    let mut g: usize = 0;
    while g < traces.len()
        invariant
            g <= traces.len(),
            pos@.len() == flat_spans(traces@, g as int).len(),
            forall|k: int|
                0 <= k < pos@.len() ==> {
                    &&& (#[trigger] pos@[k]).0 < traces@.len()
                    &&& pos@[k].1 < traces@[pos@[k].0 as int]@.len()
                    &&& traces@[pos@[k].0 as int]@[pos@[k].1 as int] == flat_spans(traces@, g as int)[k]
                },
        decreases traces.len() - g,
    {
        let mut i: usize = 0;
        assert(flat_spans(traces@, g as int) + traces@[g as int]@.take(0) =~= flat_spans(traces@, g as int));
        while i < traces[g].len()
            invariant
                g < traces.len(),
                i <= traces@[g as int]@.len(),
                pos@.len() == (flat_spans(traces@, g as int) + traces@[g as int]@.take(i as int)).len(),
                forall|k: int|
                    0 <= k < pos@.len() ==> {
                        &&& (#[trigger] pos@[k]).0 < traces@.len()
                        &&& pos@[k].1 < traces@[pos@[k].0 as int]@.len()
                        &&& traces@[pos@[k].0 as int]@[pos@[k].1 as int] == (flat_spans(traces@, g as int)
                            + traces@[g as int]@.take(i as int))[k]
                    },
            decreases traces@[g as int]@.len() - i,
        {
            proof {
                lemma_flat_step(traces@, g as int, i as int);
            }
            pos.push((g, i));
            i += 1;
        }
        proof {
            lemma_flat_group(traces@, g as int);
        }
        g += 1;
    }
    pos
}

fn find_span(traces: &Vec<Vec<Trace>>, pos: &Vec<(usize, usize)>, id: &String) -> (r: Option<usize>)
    requires
        pos@.len() == all_spans(traces@).len(),
        forall|k: int|
            0 <= k < pos@.len() ==> {
                &&& (#[trigger] pos@[k]).0 < traces@.len()
                &&& pos@[k].1 < traces@[pos@[k].0 as int]@.len()
                &&& traces@[pos@[k].0 as int]@[pos@[k].1 as int] == all_spans(traces@)[k]
            },
    ensures
        opt_index_of(r) == span_at(all_spans(traces@), id@),
        r matches Some(i) ==> i < pos@.len(),
{
    let ghost all = all_spans(traces@);
    let mut k: usize = pos.len();
    assert(all.take(k as int) =~= all);
    while k > 0
        invariant
            k <= pos@.len(),
            pos@.len() == all.len(),
            all == all_spans(traces@),
            forall|q: int|
                0 <= q < pos@.len() ==> {
                    &&& (#[trigger] pos@[q]).0 < traces@.len()
                    &&& pos@[q].1 < traces@[pos@[q].0 as int]@.len()
                    &&& traces@[pos@[q].0 as int]@[pos@[q].1 as int] == all[q]
                },
            span_at(all, id@) == span_at(all.take(k as int), id@),
        decreases k,
    {
        let (g, i) = pos[k - 1];
        if traces[g][i].id == *id {
            return Some(k - 1);
        }
        assert(all.take(k as int).drop_last() =~= all.take(k - 1));
        k -= 1;
    }
    None
}

pub open spec fn opt_index_of(o: Option<usize>) -> Option<int> {
    match o {
        Some(i) => Some(i as int),
        None => None,
    }
}

proof fn lemma_span_at(all: Seq<Trace>, id: Seq<char>)
    ensures
        span_at(all, id) matches Some(p) ==> 0 <= p < all.len() && all[p].id@ == id,
    decreases all.len(),
{
    if all.len() > 0 {
        lemma_span_at(all.drop_last(), id);
    }
}

/// The walk up from span `i` as (index, distance) pairs.
fn walk_from(traces: &Vec<Vec<Trace>>, pos: &Vec<(usize, usize)>, i: usize) -> (r: Vec<(usize, u32)>)
    requires
        i < pos@.len(),
        pos@.len() == all_spans(traces@).len(),
        forall|k: int|
            0 <= k < pos@.len() ==> {
                &&& (#[trigger] pos@[k]).0 < traces@.len()
                &&& pos@[k].1 < traces@[pos@[k].0 as int]@.len()
                &&& traces@[pos@[k].0 as int]@[pos@[k].1 as int] == all_spans(traces@)[k]
            },
    ensures
        pairs_view(r@) == walk_of(all_spans(traces@), i as int),
        forall|q: int| 0 <= q < r@.len() ==> (#[trigger] r@[q]).0 < pos@.len(),
{
    let ghost all = all_spans(traces@);
    let (g0, i0) = pos[i];
    let mut pid: &Option<String> = &traces[g0][i0].parent_id;
    let mut depth: u32 = 1;
    let mut fuel: usize = pos.len();
    let mut out: Vec<(usize, u32)> = Vec::new();
    assert(pairs_view(out@) =~= Seq::<(int, int)>::empty());
    loop
        invariant_except_break
            pairs_view(out@) + ancestors(all, *pid, depth as int, fuel as nat) == walk_of(all, i as int),
        invariant
            pos@.len() == all.len(),
            all == all_spans(traces@),
            forall|k: int|
                0 <= k < pos@.len() ==> {
                    &&& (#[trigger] pos@[k]).0 < traces@.len()
                    &&& pos@[k].1 < traces@[pos@[k].0 as int]@.len()
                    &&& traces@[pos@[k].0 as int]@[pos@[k].1 as int] == all[k]
                },
            i < all.len(),
            depth >= 1,
            forall|q: int| 0 <= q < out@.len() ==> (#[trigger] out@[q]).0 < pos@.len(),
        ensures
            pairs_view(out@) == walk_of(all, i as int),
        decreases fuel,
    {
        if fuel == 0 {
            assert(pairs_view(out@) + Seq::<(int, int)>::empty() =~= pairs_view(out@));
            break ;
        }
        let id = match pid {
            Some(id) => id,
            None => {
                assert(pairs_view(out@) + Seq::<(int, int)>::empty() =~= pairs_view(out@));
                break ;
            },
        };
        let found = find_span(traces, pos, id);
        proof {
            lemma_span_at(all, id@);
        }
        let p = match found {
            Some(p) => p,
            None => {
                assert(pairs_view(out@) + Seq::<(int, int)>::empty() =~= pairs_view(out@));
                break ;
            },
        };
        let (g, k) = pos[p];
        let sp = &traces[g][k];
        if eq_str(&sp.kind, "CLIENT") {
            pid = &sp.parent_id;
            fuel -= 1;
        } else {
            let ghost before = out@;
            out.push((p, depth));
            assert(pairs_view(out@) =~= pairs_view(before).push((p as int, depth as int)));
            if depth == u32::MAX {
                assert(pairs_view(out@) =~= pairs_view(before) + seq![(p as int, depth as int)]);
                break ;
            }
            assert(pairs_view(before) + (seq![(p as int, depth as int)] + ancestors(
                all,
                sp.parent_id,
                depth + 1,
                (fuel - 1) as nat,
            )) =~= pairs_view(out@) + ancestors(all, sp.parent_id, depth + 1, (fuel - 1) as nat));
            pid = &sp.parent_id;
            depth += 1;
            fuel -= 1;
        }
    }
    out
}

fn upper_raw(infos: &Vec<EndpointInfo>, w: &Vec<(usize, u32)>) -> (r: Vec<EndpointDependencyItem>)
    requires
        forall|q: int| 0 <= q < w@.len() ==> (#[trigger] w@[q]).0 < infos@.len(),
    ensures
        r@ == upper_items(infos@, pairs_view(w@)),
{
    let ghost pv = pairs_view(w@);
    let mut r: Vec<EndpointDependencyItem> = Vec::new();
    let mut i: usize = 0;
    assert(pv.take(0) =~= Seq::<(int, int)>::empty());
    while i < w.len()
        invariant
            pv == pairs_view(w@),
            i <= w@.len(),
            forall|q: int| 0 <= q < w@.len() ==> (#[trigger] w@[q]).0 < infos@.len(),
            r@ == upper_items(infos@, pv.take(i as int)),
        decreases w.len() - i,
    {
        let (p, d) = w[i];
        assert(pv.take(i + 1).drop_last() =~= pv.take(i as int));
        assert(pv.take(i + 1).last() == (p as int, d as int));
        r.push(
            EndpointDependencyItem {
                endpoint: infos[p].clone(),
                distance: d,
                dep_type: EndpointDependencyType::Client,
            },
        );
        i += 1;
    }
    assert(pv.take(w@.len() as int) =~= pv);
    r
}

fn lower_raw(
    traces: &Vec<Vec<Trace>>,
    pos: &Vec<(usize, usize)>,
    w: &Vec<(usize, u32)>,
    aid: &String,
    e: &EndpointInfo,
    out: &mut Vec<EndpointDependencyItem>,
)
    requires
        pos@.len() == all_spans(traces@).len(),
        forall|k: int|
            0 <= k < pos@.len() ==> {
                &&& (#[trigger] pos@[k]).0 < traces@.len()
                &&& pos@[k].1 < traces@[pos@[k].0 as int]@.len()
                &&& traces@[pos@[k].0 as int]@[pos@[k].1 as int] == all_spans(traces@)[k]
            },
        forall|q: int| 0 <= q < w@.len() ==> (#[trigger] w@[q]).0 < pos@.len(),
    ensures
        final(out)@ == old(out)@ + lower_items(all_spans(traces@), pairs_view(w@), aid@, *e),
{
    let ghost all = all_spans(traces@);
    let ghost pv = pairs_view(w@);
    let mut i: usize = 0;
    assert(pv.take(0) =~= Seq::<(int, int)>::empty());
    assert(old(out)@ + Seq::<EndpointDependencyItem>::empty() =~= old(out)@);
    while i < w.len()
        invariant
            pv == pairs_view(w@),
            all == all_spans(traces@),
            i <= w@.len(),
            pos@.len() == all.len(),
            forall|k: int|
                0 <= k < pos@.len() ==> {
                    &&& (#[trigger] pos@[k]).0 < traces@.len()
                    &&& pos@[k].1 < traces@[pos@[k].0 as int]@.len()
                    &&& traces@[pos@[k].0 as int]@[pos@[k].1 as int] == all[k]
                },
            forall|q: int| 0 <= q < w@.len() ==> (#[trigger] w@[q]).0 < pos@.len(),
            out@ == old(out)@ + lower_items(all, pv.take(i as int), aid@, *e),
        decreases w.len() - i,
    {
        let (p, d) = w[i];
        assert(pv.take(i + 1).drop_last() =~= pv.take(i as int));
        assert(pv.take(i + 1).last() == (p as int, d as int));
        let (g, k) = pos[p];
        if traces[g][k].id == *aid {
            let ghost before = out@;
            out.push(
                EndpointDependencyItem {
                    endpoint: e.clone(),
                    distance: d,
                    dep_type: EndpointDependencyType::Server,
                },
            );
            assert(out@ =~= old(out)@ + lower_items(all, pv.take(i + 1), aid@, *e));
        }
        i += 1;
    }
    assert(pv.take(w@.len() as int) =~= pv);
}

impl Trace {
    /// The dependency graph of the spans: one entry per span id whose span (the last with that
    /// id) is a SERVER span, in order, listing the endpoints above it (`depending_by`, as
    /// `Client`) and below it (`depending_on`, as `Server`) with their distances, CLIENT spans
    /// not counting. Fails where a span's method is not an HTTP method.
    pub fn to_endpoint_dependencies(traces: &Vec<Vec<Trace>>, url_matcher: &UrlMatcher) -> (r: Result<
        Vec<EndpointDependency>,
        RequestTypeParseError,
    >)
        ensures
            match r {
                Ok(v) => exists|infos: Seq<EndpointInfo>|
                    #[trigger] infos_of(all_spans(traces@), infos) && dependencies_from(
                        all_spans(traces@),
                        infos,
                        v@,
                    ),
                Err(_) => exists|i: int|
                    0 <= i < all_spans(traces@).len() && method_named(
                        upper_of((#[trigger] all_spans(traces@)[i]).tags.http_method@),
                    ).is_none(),
            },
            r matches Ok(v) ==> crate::endpoint_dependency::lists_unique(v@),
    {
        let ghost all = all_spans(traces@);
        let pos = flat_positions(traces);
        let n = pos.len();
        let mut infos: Vec<EndpointInfo> = Vec::new();
        let mut k: usize = 0;
        while k < n
            invariant
                n == pos@.len(),
                pos@.len() == all.len(),
                all == all_spans(traces@),
                forall|q: int|
                    0 <= q < pos@.len() ==> {
                        &&& (#[trigger] pos@[q]).0 < traces@.len()
                        &&& pos@[q].1 < traces@[pos@[q].0 as int]@.len()
                        &&& traces@[pos@[q].0 as int]@[pos@[q].1 as int] == all[q]
                    },
                k <= n,
                infos@.len() == k,
                forall|i: int| 0 <= i < k ==> info_of(all[i], #[trigger] infos@[i]),
            decreases n - k,
        {
            let (g, i) = pos[k];
            match traces[g][i].to_endpoint_info(url_matcher) {
                Ok(e) => {
                    infos.push(e);
                },
                Err(e) => {
                    return Err(e);
                },
            }
            k += 1;
        }
        let mut reps: Vec<bool> = Vec::new();
        let mut walks: Vec<Vec<(usize, u32)>> = Vec::new();
        let mut k: usize = 0;
        while k < n
            invariant
                n == pos@.len(),
                pos@.len() == all.len(),
                all == all_spans(traces@),
                forall|q: int|
                    0 <= q < pos@.len() ==> {
                        &&& (#[trigger] pos@[q]).0 < traces@.len()
                        &&& pos@[q].1 < traces@[pos@[q].0 as int]@.len()
                        &&& traces@[pos@[q].0 as int]@[pos@[q].1 as int] == all[q]
                    },
                k <= n,
                reps@.len() == k,
                walks@.len() == k,
                forall|i: int| 0 <= i < k ==> #[trigger] reps@[i] == is_rep(all, i),
                forall|i: int|
                    0 <= i < k && reps@[i] ==> pairs_view(#[trigger] walks@[i]@) == walk_of(all, i),
                forall|i: int, q: int|
                    0 <= i < k && 0 <= q < walks@[i]@.len() ==> (#[trigger] walks@[i]@[q]).0 < n,
            decreases n - k,
        {
            let (g, i) = pos[k];
            let sp = &traces[g][i];
            let rep = eq_str(&sp.kind, "SERVER") && find_span(traces, &pos, &sp.id) == Some(k);
            reps.push(rep);
            if rep {
                walks.push(walk_from(traces, &pos, k));
            } else {
                walks.push(Vec::new());
            }
            k += 1;
        }
        let mut out: Vec<EndpointDependency> = Vec::new();
        let mut a: usize = 0;
        while a < n
            invariant
                n == pos@.len(),
                pos@.len() == all.len(),
                all == all_spans(traces@),
                forall|q: int|
                    0 <= q < pos@.len() ==> {
                        &&& (#[trigger] pos@[q]).0 < traces@.len()
                        &&& pos@[q].1 < traces@[pos@[q].0 as int]@.len()
                        &&& traces@[pos@[q].0 as int]@[pos@[q].1 as int] == all[q]
                    },
                a <= n,
                infos@.len() == n,
                forall|i: int| 0 <= i < n ==> info_of(all[i], #[trigger] infos@[i]),
                reps@.len() == n,
                walks@.len() == n,
                forall|i: int| 0 <= i < n ==> #[trigger] reps@[i] == is_rep(all, i),
                forall|i: int|
                    0 <= i < n && reps@[i] ==> pairs_view(#[trigger] walks@[i]@) == walk_of(all, i),
                forall|i: int, q: int|
                    0 <= i < n && 0 <= q < walks@[i]@.len() ==> (#[trigger] walks@[i]@[q]).0 < n,
                out@.len() == rep_indices(all, a as int).len(),
                forall|k: int|
                    0 <= k < out@.len() ==> dependency_of(
                        all,
                        infos@,
                        rep_indices(all, a as int)[k],
                        #[trigger] out@[k],
                    ),
                crate::endpoint_dependency::lists_unique(out@),
            decreases n - a,
        {
            if reps[a] {
                let raw_up = upper_raw(&infos, &walks[a]);
                let mut by: Vec<EndpointDependencyItem> = Vec::new();
                EndpointDependency::merge_dependencies(&raw_up, &mut by);
                let (ga, ia) = pos[a];
                let aid = &traces[ga][ia].id;
                let mut raw_low: Vec<EndpointDependencyItem> = Vec::new();
                let mut m: usize = 0;
                while m < n
                    invariant
                        n == pos@.len(),
                        pos@.len() == all.len(),
                        all == all_spans(traces@),
                        forall|q: int|
                            0 <= q < pos@.len() ==> {
                                &&& (#[trigger] pos@[q]).0 < traces@.len()
                                &&& pos@[q].1 < traces@[pos@[q].0 as int]@.len()
                                &&& traces@[pos@[q].0 as int]@[pos@[q].1 as int] == all[q]
                            },
                        a < n,
                        aid@ == all[a as int].id@,
                        m <= n,
                        infos@.len() == n,
                        reps@.len() == n,
                        walks@.len() == n,
                        forall|i: int| 0 <= i < n ==> #[trigger] reps@[i] == is_rep(all, i),
                        forall|i: int|
                            0 <= i < n && reps@[i] ==> pairs_view(#[trigger] walks@[i]@) == walk_of(all, i),
                        forall|i: int, q: int|
                            0 <= i < n && 0 <= q < walks@[i]@.len() ==> (#[trigger] walks@[i]@[q]).0 < n,
                        raw_low@ == lower_all(all, infos@, a as int, m as int),
                    decreases n - m,
                {
                    if reps[m] {
                        lower_raw(traces, &pos, &walks[m], aid, &infos[m], &mut raw_low);
                    }
                    m += 1;
                }
                let mut on: Vec<EndpointDependencyItem> = Vec::new();
                EndpointDependency::merge_dependencies(&raw_low, &mut on);
                let entry = EndpointDependency {
                    _id: None,
                    endpoint: infos[a].clone(),
                    depending_on: on,
                    depending_by: by,
                };
                proof {
                    crate::endpoint_dependency::lemma_merged_unique(Seq::empty(), raw_up@, raw_up@.len() as int);
                    crate::endpoint_dependency::lemma_merged_unique(Seq::empty(), raw_low@, raw_low@.len() as int);
                }
                let ghost before = out@;
                out.push(entry);
                assert(forall|k: int| 0 <= k < before.len() ==> out@[k] == before[k]);
            }
            a += 1;
        }
        assert(infos_of(all, infos@));
        Ok(out)
    }
}
} // verus!
