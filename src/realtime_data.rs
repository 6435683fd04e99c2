//! Realtime samples, one per served request, and their aggregation per endpoint.
use vstd::prelude::*;
use crate::request_type::RequestType;
use crate::envoy_log::clone_text;
use crate::text::{concat_tab, contains_text, join2, text_views};

verus! {

/// The live pod count of one service.
#[derive(Debug)]
pub struct ReplicaCount {
    pub unique_service_name: String,
    pub service: String,
    pub namespace: String,
    pub version: String,
    pub replicas: u32,
}

/// One observed request to an endpoint.
#[derive(Debug)]
pub struct RealtimeData {
    pub unique_service_name: String,
    pub unique_endpoint_name: String,
    /// Milliseconds since the epoch.
    pub timestamp: i64,
    pub method: RequestType,
    pub service: String,
    pub namespace: String,
    pub version: String,
    /// Microseconds.
    pub latency: u64,
    pub status: String,
    pub request_body: Option<String>,
    pub request_content_type: Option<String>,
    pub response_body: Option<String>,
    pub response_content_type: Option<String>,
    pub replica: Option<u32>,
}


/// The integer aggregates of one group of samples, from which the latency statistics follow.
#[derive(Debug)]
pub struct PartialCombinedRealtimeData {
    pub unique_service_name: String,
    pub unique_endpoint_name: String,
    pub service: String,
    pub namespace: String,
    pub version: String,
    pub method: RequestType,
    pub status: String,
    pub request_content_type: Option<String>,
    pub response_content_type: Option<String>,
    /// The number of samples.
    pub combined: usize,
    /// The sum of the latencies.
    pub total_latency: u128,
    /// The sum of the squared latencies, saturated at `u128::MAX`.
    pub total_squares: u128,
    /// The latest timestamp of the group.
    pub latest_timestamp: i64,
    pub request_body: Vec<String>,
    pub response_body: Vec<String>,
    /// The sum of the replica counts, a missing one counting 0.
    pub total_replicas: u128,
}

pub open spec fn text_or_empty(o: Option<String>) -> Seq<char> {
    match o {
        Some(s) => s@,
        None => Seq::empty(),
    }
}

/// Samples are grouped by `endpoint \t status \t request type \t response type`.
pub open spec fn group_key(d: RealtimeData) -> Seq<char> {
    join2(
        join2(join2(d.unique_endpoint_name@, d.status@), text_or_empty(d.request_content_type)),
        text_or_empty(d.response_content_type),
    )
}

/// The group keys of `data`, each once, in order of first appearance.
pub open spec fn group_keys(data: Seq<RealtimeData>) -> Seq<Seq<char>>
    decreases data.len(),
{
    if data.len() == 0 {
        Seq::empty()
    } else {
        let a = group_keys(data.drop_last());
        if a.contains(group_key(data.last())) {
            a
        } else {
            a.push(group_key(data.last()))
        }
    }
}

pub open spec fn members(data: Seq<RealtimeData>, key: Seq<char>) -> Seq<RealtimeData> {
    data.filter(|d: RealtimeData| group_key(d) == key)
}

pub open spec fn latency_sum(g: Seq<RealtimeData>) -> int
    decreases g.len(),
{
    if g.len() == 0 {
        0
    } else {
        latency_sum(g.drop_last()) + g.last().latency
    }
}

pub open spec fn square_sum(g: Seq<RealtimeData>) -> int
    decreases g.len(),
{
    if g.len() == 0 {
        0
    } else {
        square_sum(g.drop_last()) + g.last().latency * g.last().latency
    }
}

pub open spec fn replica_sum(g: Seq<RealtimeData>) -> int
    decreases g.len(),
{
    if g.len() == 0 {
        0
    } else {
        replica_sum(g.drop_last()) + match g.last().replica {
            Some(r) => r as int,
            None => 0,
        }
    }
}

/// The latest timestamp of `g`: the maximum of its timestamps (`i64::MIN`, below all of
/// them, for no sample).
pub open spec fn latest(g: Seq<RealtimeData>) -> i64
    decreases g.len(),
{
    if g.len() == 0 {
        i64::MIN
    } else {
        let m = latest(g.drop_last());
        if g.last().timestamp > m {
            g.last().timestamp
        } else {
            m
        }
    }
}

/// The request (or response) bodies of `g` that are present, in order.
pub open spec fn bodies(g: Seq<RealtimeData>, request: bool) -> Seq<Seq<char>>
    decreases g.len(),
{
    if g.len() == 0 {
        Seq::empty()
    } else {
        let b = if request {
            g.last().request_body
        } else {
            g.last().response_body
        };
        match b {
            Some(s) => bodies(g.drop_last(), request).push(s@),
            None => bodies(g.drop_last(), request),
        }
    }
}

pub open spec fn saturated(x: int) -> int {
    if x > u128::MAX {
        u128::MAX as int
    } else {
        x
    }
}

/// The aggregates of the group `g`, with its first sample as prototype.
pub open spec fn aggregates(g: Seq<RealtimeData>, p: PartialCombinedRealtimeData) -> bool {
    &&& p.combined == g.len()
    &&& p.total_latency == latency_sum(g)
    &&& p.total_squares == saturated(square_sum(g))
    &&& p.total_replicas == replica_sum(g)
    &&& p.latest_timestamp == latest(g)
    &&& text_views(p.request_body@) == bodies(g, true)
    &&& text_views(p.response_body@) == bodies(g, false)
    &&& p.unique_service_name == g[0].unique_service_name
    &&& p.unique_endpoint_name == g[0].unique_endpoint_name
    &&& p.service == g[0].service
    &&& p.namespace == g[0].namespace
    &&& p.version == g[0].version
    &&& p.method == g[0].method
    &&& p.status == g[0].status
    &&& p.request_content_type == g[0].request_content_type
    &&& p.response_content_type == g[0].response_content_type
}

fn key_text(d: &RealtimeData) -> (r: String)
    ensures
        r@ == group_key(*d),
{
    let req = match &d.request_content_type {
        Some(s) => s.clone(),
        None => String::new(),
    };
    let res = match &d.response_content_type {
        Some(s) => s.clone(),
        None => String::new(),
    };
    let a = concat_tab(d.unique_endpoint_name.as_str(), d.status.as_str());
    let b = concat_tab(a.as_str(), req.as_str());
    concat_tab(b.as_str(), res.as_str())
}

proof fn lemma_sums_bounded(g: Seq<RealtimeData>)
    ensures
        0 <= latency_sum(g) <= g.len() * (u64::MAX as int),
        0 <= replica_sum(g) <= g.len() * (u32::MAX as int),
        0 <= square_sum(g),
    decreases g.len(),
{
    if g.len() > 0 {
        lemma_sums_bounded(g.drop_last());
        assert(g.last().latency * g.last().latency >= 0) by (nonlinear_arith);
    }
}

impl RealtimeData {
    /// Groups samples by endpoint, status and content types (in order of first appearance)
    /// and sums up each group: count, latencies, squared latencies, replicas, the latest
    /// timestamp and the bodies present.
    pub fn partial_combine(data: Vec<RealtimeData>) -> (r: Vec<PartialCombinedRealtimeData>)
        ensures
            r@.len() == group_keys(data@).len(),
            forall|k: int|
                0 <= k < r@.len() ==> aggregates(
                    members(data@, group_keys(data@)[k]),
                    #[trigger] r@[k],
                ),
    {
        let n = data.len();
        let mut keys: Vec<String> = Vec::new();
        let mut unique: Vec<String> = Vec::new();
        let mut i: usize = 0;
        while i < n
            invariant
                n == data.len(),
                i <= n,
                keys@.len() == i,
                forall|q: int| 0 <= q < i ==> (#[trigger] keys@[q])@ == group_key(data@[q]),
                text_views(unique@) == group_keys(data@.take(i as int)),
            decreases n - i,
        {
            let key = key_text(&data[i]);
            assert(data@.take(i + 1).drop_last() =~= data@.take(i as int));
            if !contains_text(&unique, &key) {
                let ghost before = unique@;
                unique.push(key.clone());
                assert(text_views(unique@) =~= text_views(before).push(key@));
            }
            keys.push(key);
            i += 1;
        }
        assert(data@.take(n as int) =~= data@);
        let mut out: Vec<PartialCombinedRealtimeData> = Vec::new();
        let mut k: usize = 0;
        while k < unique.len()
            invariant
                n == data.len(),
                keys@.len() == n,
                forall|q: int| 0 <= q < n ==> (#[trigger] keys@[q])@ == group_key(data@[q]),
                text_views(unique@) == group_keys(data@),
                k <= unique.len(),
                out@.len() == k,
                forall|q: int|
                    0 <= q < k ==> aggregates(
                        members(data@, group_keys(data@)[q]),
                        #[trigger] out@[q],
                    ),
            decreases unique.len() - k,
        {
            assert(text_views(unique@)[k as int] == unique@[k as int]@);
            let p = combine_group(&data, &keys, &unique[k]);
            out.push(p);
            k += 1;
        }
        out
    }
}

proof fn lemma_key_present(data: Seq<RealtimeData>, key: Seq<char>)
    requires
        group_keys(data).contains(key),
    ensures
        members(data, key).len() > 0,
    decreases data.len(),
{
    broadcast use vstd::seq_lib::group_filter_ensures;

    let f = |d: RealtimeData| group_key(d) == key;
    if data.len() > 0 {
        data.drop_last().lemma_filter_push(data.last(), f);
        assert(data.drop_last().push(data.last()) =~= data);
        if group_key(data.last()) != key {
            lemma_key_present(data.drop_last(), key);
        }
    }
}

/// The aggregates of the samples whose key is `key`.
fn combine_group(data: &Vec<RealtimeData>, keys: &Vec<String>, key: &String) -> (r: PartialCombinedRealtimeData)
    requires
        keys@.len() == data@.len(),
        forall|q: int| 0 <= q < data@.len() ==> (#[trigger] keys@[q])@ == group_key(data@[q]),
        group_keys(data@).contains(key@),
    ensures
        aggregates(members(data@, key@), r),
{
    let ghost f = |d: RealtimeData| group_key(d) == key@;
    let n = data.len();
    let mut first: Option<usize> = None;
    let mut count: usize = 0;
    let mut total_latency: u128 = 0;
    let mut total_squares: u128 = 0;
    let mut total_replicas: u128 = 0;
    let mut latest_ts: i64 = i64::MIN;
    let mut request_body: Vec<String> = Vec::new();
    let mut response_body: Vec<String> = Vec::new();
    let mut i: usize = 0;
    while i < n
        invariant
            n == data.len(),
            keys@.len() == n,
            forall|q: int| 0 <= q < n ==> (#[trigger] keys@[q])@ == group_key(data@[q]),
            i <= n,
            f == (|d: RealtimeData| group_key(d) == key@),
            ({
                let g = data@.take(i as int).filter(f);
                &&& count == g.len()
                &&& total_latency == latency_sum(g)
                &&& total_squares == saturated(square_sum(g))
                &&& total_replicas == replica_sum(g)
                &&& latest_ts == latest(g)
                &&& text_views(request_body@) == bodies(g, true)
                &&& text_views(response_body@) == bodies(g, false)
                &&& match first {
                    Some(j) => j < n && g.len() > 0 && g[0] == data@[j as int],
                    None => g.len() == 0,
                }
            }),
        decreases n - i,
    {
        let ghost g0 = data@.take(i as int).filter(f);
        proof {
            assert(data@.take(i + 1) =~= data@.take(i as int).push(data@[i as int]));
            data@.take(i as int).lemma_filter_push(data@[i as int], f);
            lemma_sums_bounded(g0);
            assert(g0.len() <= i) by {
                broadcast use vstd::seq_lib::group_filter_ensures;
            }
        }
        if keys[i] == *key {
            let d = &data[i];
            let ghost g1 = g0.push(*d);
            assert(g1.drop_last() =~= g0);
            if first.is_none() {
                first = Some(i);
            }
            assert(count as int * (u64::MAX as int) + (u64::MAX as int) <= u128::MAX) by (nonlinear_arith)
                requires
                    count < n,
                    n <= usize::MAX,
            ;
            assert(count as int * (u32::MAX as int) + (u32::MAX as int) <= u128::MAX) by (nonlinear_arith)
                requires
                    count < n,
                    n <= usize::MAX,
            ;
            count = count + 1;
            total_latency = total_latency + d.latency as u128;
            let lat = d.latency as u128;
            assert(lat * lat <= u128::MAX) by (nonlinear_arith)
                requires
                    lat <= u64::MAX,
            ;
            let sq = lat * lat;
            assert(sq == d.latency * d.latency);
            total_squares = if total_squares > u128::MAX - sq {
                u128::MAX
            } else {
                total_squares + sq
            };
            match d.replica {
                Some(rc) => {
                    total_replicas = total_replicas + rc as u128;
                },
                None => {},
            }
            if d.timestamp > latest_ts {
                latest_ts = d.timestamp;
            }
            match &d.request_body {
                Some(b) => {
                    let ghost before = request_body@;
                    request_body.push(b.clone());
                    assert(text_views(request_body@) =~= text_views(before).push(b@));
                },
                None => {},
            }
            match &d.response_body {
                Some(b) => {
                    let ghost before = response_body@;
                    response_body.push(b.clone());
                    assert(text_views(response_body@) =~= text_views(before).push(b@));
                },
                None => {},
            }
            proof {
                if g0.len() > 0 {
                    assert(g1[0] == g0[0]);
                }
            }
        }
        i += 1;
    }
    assert(data@.take(n as int) =~= data@);
    proof {
        lemma_key_present(data@, key@);
    }
    let j = first.unwrap();
    let p = &data[j];
    PartialCombinedRealtimeData {
        unique_service_name: p.unique_service_name.clone(),
        unique_endpoint_name: p.unique_endpoint_name.clone(),
        service: p.service.clone(),
        namespace: p.namespace.clone(),
        version: p.version.clone(),
        method: p.method,
        status: p.status.clone(),
        request_content_type: clone_text(&p.request_content_type),
        response_content_type: clone_text(&p.response_content_type),
        combined: count,
        total_latency,
        total_squares,
        latest_timestamp: latest_ts,
        request_body,
        response_body,
        total_replicas,
    }
}

/// The service labels of one pod.
#[derive(Debug)]
pub struct PodService {
    pub service: String,
    pub namespace: String,
    pub version: String,
}

pub open spec fn pod_service_name(p: PodService) -> Seq<char> {
    join2(join2(p.service@, p.namespace@), p.version@)
}

/// The service names of the pods, each once, in order of first appearance.
pub open spec fn pod_service_names(pods: Seq<PodService>) -> Seq<Seq<char>>
    decreases pods.len(),
{
    if pods.len() == 0 {
        Seq::empty()
    } else {
        let a = pod_service_names(pods.drop_last());
        if a.contains(pod_service_name(pods.last())) {
            a
        } else {
            a.push(pod_service_name(pods.last()))
        }
    }
}

pub open spec fn pods_of(pods: Seq<PodService>, usn: Seq<char>) -> Seq<PodService> {
    pods.filter(|p: PodService| pod_service_name(p) == usn)
}

/// The count of pods per service, in order of first appearance; a service's fields are those
/// of its last pod, and a count too large for `u32` stays at `u32::MAX`.
pub fn count_replicas(pods: &Vec<PodService>) -> (r: Vec<ReplicaCount>)
    ensures
        r@.len() == pod_service_names(pods@).len(),
        forall|k: int|
            0 <= k < r@.len() ==> {
                let g = pods_of(pods@, pod_service_names(pods@)[k]);
                &&& (#[trigger] r@[k]).unique_service_name@ == pod_service_names(pods@)[k]
                &&& r@[k].replicas == if g.len() > u32::MAX { u32::MAX as int } else { g.len() as int }
                &&& r@[k].service == g.last().service
                &&& r@[k].namespace == g.last().namespace
                &&& r@[k].version == g.last().version
            },
{
    broadcast use vstd::seq_lib::group_filter_ensures;

    let n = pods.len();
    let mut names: Vec<String> = Vec::new();
    let mut keys: Vec<String> = Vec::new();
    let mut i: usize = 0;
    while i < n
        invariant
            n == pods.len(),
            i <= n,
            keys@.len() == i,
            forall|q: int| 0 <= q < i ==> (#[trigger] keys@[q])@ == pod_service_name(pods@[q]),
            text_views(names@) == pod_service_names(pods@.take(i as int)),
        decreases n - i,
    {
        let p = &pods[i];
        let key = concat_tab(concat_tab(p.service.as_str(), p.namespace.as_str()).as_str(), p.version.as_str());
        assert(pods@.take(i + 1).drop_last() =~= pods@.take(i as int));
        if !contains_text(&names, &key) {
            let ghost before = names@;
            names.push(key.clone());
            assert(text_views(names@) =~= text_views(before).push(key@));
        }
        keys.push(key);
        i += 1;
    }
    assert(pods@.take(n as int) =~= pods@);
    let mut out: Vec<ReplicaCount> = Vec::new();
    let mut k: usize = 0;
    while k < names.len()
        invariant
            n == pods.len(),
            keys@.len() == n,
            forall|q: int| 0 <= q < n ==> (#[trigger] keys@[q])@ == pod_service_name(pods@[q]),
            text_views(names@) == pod_service_names(pods@),
            k <= names.len(),
            out@.len() == k,
            forall|q: int|
                0 <= q < k ==> {
                    let g = pods_of(pods@, pod_service_names(pods@)[q]);
                    &&& (#[trigger] out@[q]).unique_service_name@ == pod_service_names(pods@)[q]
                    &&& out@[q].replicas == if g.len() > u32::MAX { u32::MAX as int } else { g.len() as int }
                    &&& out@[q].service == g.last().service
                    &&& out@[q].namespace == g.last().namespace
                    &&& out@[q].version == g.last().version
                },
        decreases names.len() - k,
    {
        let name = &names[k];
        assert(text_views(names@)[k as int] == name@);
        let ghost f = |p: PodService| pod_service_name(p) == name@;
        let mut count: u32 = 0;
        let mut last: Option<usize> = None;
        let mut i: usize = 0;
        while i < n
            invariant
                n == pods.len(),
                keys@.len() == n,
                forall|q: int| 0 <= q < n ==> (#[trigger] keys@[q])@ == pod_service_name(pods@[q]),
                i <= n,
                f == (|p: PodService| pod_service_name(p) == name@),
                ({
                    let g = pods@.take(i as int).filter(f);
                    &&& count == if g.len() > u32::MAX { u32::MAX as int } else { g.len() as int }
                    &&& match last {
                        Some(j) => j < n && g.len() > 0 && g.last() == pods@[j as int],
                        None => g.len() == 0,
                    }
                }),
            decreases n - i,
        {
            proof {
                assert(pods@.take(i + 1) =~= pods@.take(i as int).push(pods@[i as int]));
                pods@.take(i as int).lemma_filter_push(pods@[i as int], f);
            }
            if keys[i] == *name {
                if count < u32::MAX {
                    count += 1;
                }
                last = Some(i);
            }
            i += 1;
        }
        assert(pods@.take(n as int) =~= pods@);
        proof {
            lemma_name_present(pods@, name@);
        }
        let j = last.unwrap();
        let p = &pods[j];
        out.push(
            ReplicaCount {
                unique_service_name: name.clone(),
                service: p.service.clone(),
                namespace: p.namespace.clone(),
                version: p.version.clone(),
                replicas: count,
            },
        );
        k += 1;
    }
    out
}

proof fn lemma_name_present(pods: Seq<PodService>, usn: Seq<char>)
    requires
        pod_service_names(pods).contains(usn),
    ensures
        pods_of(pods, usn).len() > 0,
    decreases pods.len(),
{
    let f = |p: PodService| pod_service_name(p) == usn;
    if pods.len() > 0 {
        pods.drop_last().lemma_filter_push(pods.last(), f);
        assert(pods.drop_last().push(pods.last()) =~= pods);
        if pod_service_name(pods.last()) != usn {
            lemma_name_present(pods.drop_last(), usn);
        }
    }
}

/// The merged sample bodies of a group and their type descriptions.
#[derive(Debug)]
pub struct GroupSamples {
    pub request_sample: Option<String>,
    pub request_schema: Option<String>,
    pub response_sample: Option<String>,
    pub response_schema: Option<String>,
}

/// One observed data shape of an endpoint.
#[derive(Debug)]
pub struct EndpointDataSchema {
    /// Seconds since the epoch.
    pub time: i64,
    pub status: String,
    pub request_sample: Option<String>,
    pub request_schema: Option<String>,
    pub request_content_type: Option<String>,
    pub response_sample: Option<String>,
    pub response_schema: Option<String>,
    pub response_content_type: Option<String>,
    pub request_params: Option<String>,
}

/// The data shapes of an endpoint.
#[derive(Debug)]
pub struct EndpointDataType {
    pub _id: Option<String>,
    pub unique_service_name: String,
    pub unique_endpoint_name: String,
    pub service: String,
    pub namespace: String,
    pub version: String,
    pub method: RequestType,
    pub schemas: Vec<EndpointDataSchema>,
    pub label_name: Option<String>,
}

/// Milliseconds to whole seconds, rounding toward zero.
pub open spec fn seconds_of(ms: i64) -> int {
    if ms >= 0 {
        ms / 1000
    } else {
        -((-(ms as int)) / 1000)
    }
}

/// The data type entry of a group: its endpoint, and one schema with the group's status, the
/// latest time in seconds, content types, samples and schemas.
pub open spec fn datatype_of(d: PartialCombinedRealtimeData, s: GroupSamples, t: EndpointDataType) -> bool {
    &&& t._id is None
    &&& t.label_name is None
    &&& t.unique_service_name == d.unique_service_name
    &&& t.unique_endpoint_name == d.unique_endpoint_name
    &&& t.service == d.service
    &&& t.namespace == d.namespace
    &&& t.version == d.version
    &&& t.method == d.method
    &&& t.schemas@.len() == 1
    &&& ({
        let e = t.schemas@[0];
        &&& e.time == seconds_of(d.latest_timestamp)
        &&& e.status == d.status
        &&& e.request_sample == s.request_sample
        &&& e.request_schema == s.request_schema
        &&& e.request_content_type == d.request_content_type
        &&& e.response_sample == s.response_sample
        &&& e.response_schema == s.response_schema
        &&& e.response_content_type == d.response_content_type
        &&& e.request_params is None
    })
}

/// One data type entry per group, each with a single schema.
pub fn extract_datatype(data: &Vec<PartialCombinedRealtimeData>, samples: &Vec<GroupSamples>) -> (r: Vec<
    EndpointDataType,
>)
    requires
        samples@.len() == data@.len(),
    ensures
        r@.len() == data@.len(),
        forall|k: int| 0 <= k < r@.len() ==> datatype_of(data@[k], samples@[k], #[trigger] r@[k]),
{
    let mut out: Vec<EndpointDataType> = Vec::new();
    let mut k: usize = 0;
    while k < data.len()
        invariant
            samples@.len() == data@.len(),
            k <= data@.len(),
            out@.len() == k,
            forall|q: int| 0 <= q < k ==> datatype_of(data@[q], samples@[q], #[trigger] out@[q]),
        decreases data.len() - k,
    {
        let d = &data[k];
        let s = &samples[k];
        let schema = EndpointDataSchema {
            time: d.latest_timestamp / 1000,
            status: d.status.clone(),
            request_sample: clone_text(&s.request_sample),
            request_schema: clone_text(&s.request_schema),
            request_content_type: clone_text(&d.request_content_type),
            response_sample: clone_text(&s.response_sample),
            response_schema: clone_text(&s.response_schema),
            response_content_type: clone_text(&d.response_content_type),
            request_params: None,
        };
        let t = EndpointDataType {
            _id: None,
            unique_service_name: d.unique_service_name.clone(),
            unique_endpoint_name: d.unique_endpoint_name.clone(),
            service: d.service.clone(),
            namespace: d.namespace.clone(),
            version: d.version.clone(),
            method: d.method,
            schemas: vec![schema],
            label_name: None,
        };
        out.push(t);
        k += 1;
    }
    out
}

/// The samples of an endpoint gathered before their shapes are described.
#[derive(Debug)]
pub struct PartialEndpointDataType {
    pub unique_service_name: String,
    pub unique_endpoint_name: String,
    pub service: String,
    pub namespace: String,
    pub version: String,
    pub method: RequestType,
    pub schema: PartialEndpointDataSchema,
}

#[derive(Debug)]
pub struct PartialEndpointDataSchema {
    pub time: i64,
    pub status: String,
    pub request_sample: Vec<String>,
    pub request_content_type: Option<String>,
    pub response_sample: Vec<String>,
    pub response_content_type: Option<String>,
}
} // verus!
