//! Sidecar log records and their correlation into request/response pairs.
use vstd::prelude::*;
use crate::request_type::{LogType, RequestType};
use crate::text::{contains_text, eq_str, text_views};
use vstd::seq_lib::{group_to_multiset_ensures, to_multiset_insert};

verus! {

/// One parsed sidecar log line.
#[derive(Debug)]
pub struct EnvoyLog {
    pub namespace: String,
    pub pod_name: String,
    pub request_id: String,
    pub trace_id: String,
    pub span_id: String,
    pub parent_span_id: String,
    pub log_type: LogType,
    /// Milliseconds since the epoch.
    pub timestamp: u64,
    pub body: Option<String>,
    pub content_type: Option<String>,
    pub status: Option<String>,
    pub method: Option<RequestType>,
    pub path: Option<String>,
}

/// All the pairs found for one request id.
#[derive(Debug)]
pub struct StructuredEnvoyLog {
    pub request_id: String,
    pub traces: Vec<StructuredEnvoyLogTrace>,
}

/// A request log and the response log that answers it.
#[derive(Debug)]
pub struct StructuredEnvoyLogTrace {
    pub trace_id: String,
    pub span_id: String,
    pub parent_span_id: String,
    pub request: EnvoyLog,
    pub response: EnvoyLog,
    pub is_fallback: bool,
}

pub fn clone_text(o: &Option<String>) -> (r: Option<String>)
    ensures
        r == *o,
{
    match o {
        Some(s) => Some(s.clone()),
        None => None,
    }
}

impl Clone for EnvoyLog {
    fn clone(&self) -> (r: Self)
        ensures
            r == *self,
    {
        EnvoyLog {
            namespace: self.namespace.clone(),
            pod_name: self.pod_name.clone(),
            request_id: self.request_id.clone(),
            trace_id: self.trace_id.clone(),
            span_id: self.span_id.clone(),
            parent_span_id: self.parent_span_id.clone(),
            log_type: self.log_type,
            timestamp: self.timestamp,
            body: clone_text(&self.body),
            content_type: clone_text(&self.content_type),
            status: clone_text(&self.status),
            method: self.method,
            path: clone_text(&self.path),
        }
    }
}

impl Clone for StructuredEnvoyLogTrace {
    fn clone(&self) -> (r: Self)
        ensures
            r == *self,
    {
        StructuredEnvoyLogTrace {
            trace_id: self.trace_id.clone(),
            span_id: self.span_id.clone(),
            parent_span_id: self.parent_span_id.clone(),
            request: self.request.clone(),
            response: self.response.clone(),
            is_fallback: self.is_fallback,
        }
    }
}

/// Copies a list of pairs element by element.
pub fn clone_traces(v: &Vec<StructuredEnvoyLogTrace>) -> (r: Vec<StructuredEnvoyLogTrace>)
    ensures
        r@ == v@,
{
    let mut r: Vec<StructuredEnvoyLogTrace> = Vec::new();
    let mut i: usize = 0;
    while i < v.len()
        invariant
            i <= v.len(),
            r@ == v@.take(i as int),
        decreases v.len() - i,
    {
        r.push(v[i].clone());
        i += 1;
        assert(r@ =~= v@.take(i as int));
    }
    assert(v@.take(v.len() as int) =~= v@);
    r
}

impl Clone for StructuredEnvoyLog {
    fn clone(&self) -> (r: Self)
        ensures
            r.request_id == self.request_id,
            r.traces@ == self.traces@,
    {
        StructuredEnvoyLog { request_id: self.request_id.clone(), traces: clone_traces(&self.traces) }
    }
}

pub open spec fn opt_index(o: Option<usize>) -> Option<int> {
    match o {
        Some(i) => Some(i as int),
        None => None,
    }
}

/// Two logs belong to one request when request id and trace id agree.
pub open spec fn same_request(a: EnvoyLog, b: EnvoyLog) -> bool {
    a.request_id@ == b.request_id@ && a.trace_id@ == b.trace_id@
}

/// The sentinel span id of logs written without tracing headers.
pub open spec fn no_id() -> Seq<char> {
    "NO_ID"@
}

pub open spec fn has_no_id(logs: Seq<EnvoyLog>) -> bool {
    exists|i: int| 0 <= i < logs.len() && #[trigger] logs[i].span_id@ == no_id()
}

/// The index of the last log of `a`'s request whose span id is `s`: the log that a map
/// from span id to log keeps for `s`.
pub open spec fn last_with_span(logs: Seq<EnvoyLog>, a: EnvoyLog, s: Seq<char>) -> Option<int>
    decreases logs.len(),
{
    if logs.len() == 0 {
        None
    } else if same_request(logs.last(), a) && logs.last().span_id@ == s {
        Some(logs.len() - 1)
    } else {
        last_with_span(logs.drop_last(), a, s)
    }
}

/// Where the log at `i` is a kept response whose parent span is a kept request of the
/// same request, the index of that request.
pub open spec fn answered_request(logs: Seq<EnvoyLog>, i: int) -> Option<int> {
    if last_with_span(logs, logs[i], logs[i].span_id@) == Some(i) && logs[i].log_type
        == LogType::Res {
        match last_with_span(logs, logs[i], logs[i].parent_span_id@) {
            Some(j) => if logs[j].log_type == LogType::Req {
                Some(j)
            } else {
                None
            },
            None => None,
        }
    } else {
        None
    }
}

/// The pair made of a request and its response, keyed by the response's ids.
pub open spec fn matched_trace(req: EnvoyLog, res: EnvoyLog) -> StructuredEnvoyLogTrace {
    StructuredEnvoyLogTrace {
        trace_id: res.trace_id,
        span_id: res.span_id,
        parent_span_id: res.parent_span_id,
        request: req,
        response: res,
        is_fallback: false,
    }
}

/// The pair made by the stack walk, keyed by the request's ids.
pub open spec fn fallback_trace(req: EnvoyLog, res: EnvoyLog, trace_id: String) -> StructuredEnvoyLogTrace {
    StructuredEnvoyLogTrace {
        trace_id: trace_id,
        span_id: req.span_id,
        parent_span_id: req.parent_span_id,
        request: req,
        response: res,
        is_fallback: true,
    }
}

pub open spec fn first_of_request(logs: Seq<EnvoyLog>, i: int) -> bool {
    forall|j: int| 0 <= j < i ==> !same_request(#[trigger] logs[j], logs[i])
}

/// The first log of each request among the first `n`, in order.
pub open spec fn request_heads(logs: Seq<EnvoyLog>, n: int) -> Seq<int>
    decreases n,
{
    if n <= 0 {
        Seq::empty()
    } else if first_of_request(logs, n - 1) {
        request_heads(logs, n - 1).push(n - 1)
    } else {
        request_heads(logs, n - 1)
    }
}

/// The pairs of `head`'s request found among the first `n` logs, in the order of their responses.
pub open spec fn paired_traces(logs: Seq<EnvoyLog>, head: EnvoyLog, n: int) -> Seq<
    StructuredEnvoyLogTrace,
>
    decreases n,
{
    if n <= 0 {
        Seq::empty()
    } else {
        let prev = paired_traces(logs, head, n - 1);
        if same_request(logs[n - 1], head) {
            match answered_request(logs, n - 1) {
                Some(j) => prev.push(matched_trace(logs[j], logs[n - 1])),
                None => prev,
            }
        } else {
            prev
        }
    }
}

/// The first log of each request with a non-empty request id, in order.
pub open spec fn fallback_heads(logs: Seq<EnvoyLog>, n: int) -> Seq<int>
    decreases n,
{
    if n <= 0 {
        Seq::empty()
    } else if first_of_request(logs, n - 1) && logs[n - 1].request_id@.len() > 0 {
        fallback_heads(logs, n - 1).push(n - 1)
    } else {
        fallback_heads(logs, n - 1)
    }
}

/// The position of the pair with span id `s`.
pub open spec fn index_of_span(ts: Seq<StructuredEnvoyLogTrace>, s: Seq<char>) -> Option<int>
    decreases ts.len(),
{
    if ts.len() == 0 {
        None
    } else if ts.last().span_id@ == s {
        Some(ts.len() - 1)
    } else {
        index_of_span(ts.drop_last(), s)
    }
}

/// Keeps one pair per span id: a new pair replaces the one with its span id.
pub open spec fn put_trace(ts: Seq<StructuredEnvoyLogTrace>, t: StructuredEnvoyLogTrace) -> Seq<
    StructuredEnvoyLogTrace,
> {
    match index_of_span(ts, t.span_id@) {
        Some(k) => ts.update(k, t),
        None => ts.push(t),
    }
}

/// The stack walk over `head`'s request among the first `n` logs: a request is pushed, a
/// response pops the latest open request and pairs with it. Gives the open requests and the pairs.
pub open spec fn walk(logs: Seq<EnvoyLog>, head: EnvoyLog, n: int) -> (Seq<EnvoyLog>, Seq<
    StructuredEnvoyLogTrace,
>)
    decreases n,
{
    if n <= 0 {
        (Seq::empty(), Seq::empty())
    } else {
        let (stack, traces) = walk(logs, head, n - 1);
        let l = logs[n - 1];
        if !same_request(l, head) {
            (stack, traces)
        } else if l.log_type == LogType::Req {
            (stack.push(l), traces)
        } else if stack.len() == 0 {
            (Seq::empty(), traces)
        } else {
            (stack.drop_last(), put_trace(traces, fallback_trace(stack.last(), l, head.trace_id)))
        }
    }
}

pub open spec fn all_fallback(ts: Seq<StructuredEnvoyLogTrace>) -> bool {
    forall|m: int| 0 <= m < ts.len() ==> (#[trigger] ts[m]).is_fallback
}

proof fn lemma_index_of_span(ts: Seq<StructuredEnvoyLogTrace>, s: Seq<char>)
    ensures
        match index_of_span(ts, s) {
            Some(k) => 0 <= k < ts.len() && ts[k].span_id@ == s,
            None => forall|m: int| 0 <= m < ts.len() ==> (#[trigger] ts[m]).span_id@ != s,
        },
    decreases ts.len(),
{
    if ts.len() > 0 {
        lemma_index_of_span(ts.drop_last(), s);
        if ts.last().span_id@ != s {
            assert forall|m: int| 0 <= m < ts.len() - 1 implies ts[m] == ts.drop_last()[m] by {}
        }
    }
}

proof fn lemma_walk_fallback(logs: Seq<EnvoyLog>, head: EnvoyLog, n: int)
    ensures
        all_fallback(walk(logs, head, n).1),
    decreases n,
{
    if n > 0 {
        lemma_walk_fallback(logs, head, n - 1);
        let (stack, traces) = walk(logs, head, n - 1);
        lemma_index_of_span(traces, stack.last().span_id@);
    }
}

/// The index of the last log of `a`'s request with span id `s`.
fn find_last_with_span(logs: &Vec<EnvoyLog>, a: &EnvoyLog, s: &String) -> (r: Option<usize>)
    ensures
        opt_index(r) == last_with_span(logs@, *a, s@),
{
    let mut k: usize = logs.len();
    assert(logs@.take(k as int) =~= logs@);
    while k > 0
        invariant
            k <= logs.len(),
            last_with_span(logs@, *a, s@) == last_with_span(logs@.take(k as int), *a, s@),
        decreases k,
    {
        let l = &logs[k - 1];
        if l.request_id == a.request_id && l.trace_id == a.trace_id && l.span_id == *s {
            return Some(k - 1);
        }
        assert(logs@.take(k as int).drop_last() =~= logs@.take(k - 1));
        k -= 1;
    }
    None
}

fn find_answered_request(logs: &Vec<EnvoyLog>, i: usize) -> (r: Option<usize>)
    requires
        i < logs.len(),
    ensures
        opt_index(r) == answered_request(logs@, i as int),
        r matches Some(j) ==> j < logs.len(),
{
    let own = find_last_with_span(logs, &logs[i], &logs[i].span_id);
    if own != Some(i) || logs[i].log_type != LogType::Res {
        return None;
    }
    let parent = find_last_with_span(logs, &logs[i], &logs[i].parent_span_id);
    proof {
        lemma_last_in_range(logs@, logs@[i as int], logs@[i as int].parent_span_id@);
    }
    match parent {
        Some(j) => if logs[j].log_type == LogType::Req {
            Some(j)
        } else {
            None
        },
        None => None,
    }
}

proof fn lemma_last_in_range(logs: Seq<EnvoyLog>, a: EnvoyLog, s: Seq<char>)
    ensures
        last_with_span(logs, a, s) matches Some(j) ==> 0 <= j < logs.len() && same_request(
            logs[j],
            a,
        ) && logs[j].span_id@ == s,
    decreases logs.len(),
{
    if logs.len() > 0 {
        lemma_last_in_range(logs.drop_last(), a, s);
    }
}

fn is_first_of_request(logs: &Vec<EnvoyLog>, i: usize) -> (r: bool)
    requires
        i < logs.len(),
    ensures
        r == first_of_request(logs@, i as int),
{
    let mut j: usize = 0;
    while j < i
        invariant
            j <= i < logs.len(),
            forall|m: int| 0 <= m < j ==> !same_request(#[trigger] logs@[m], logs@[i as int]),
        decreases i - j,
    {
        if logs[j].request_id == logs[i].request_id && logs[j].trace_id == logs[i].trace_id {
            return false;
        }
        j += 1;
    }
    true
}

fn contains_no_id(logs: &Vec<EnvoyLog>) -> (r: bool)
    ensures
        r == has_no_id(logs@),
{
    let mut i: usize = 0;
    while i < logs.len()
        invariant
            i <= logs.len(),
            forall|m: int| 0 <= m < i ==> (#[trigger] logs@[m]).span_id@ != no_id(),
        decreases logs.len() - i,
    {
        if eq_str(&logs[i].span_id, "NO_ID") {
            return true;
        }
        i += 1;
    }
    false
}

impl EnvoyLog {
    /// Pairs the logs of one pod. Within each request (request id and trace id), a response
    /// whose parent span id names a request log becomes a pair; other logs are dropped. When
    /// any log carries the `NO_ID` span id, the stack walk of `to_structure_fallback` is used.
    pub fn to_structure(logs: Vec<EnvoyLog>) -> (r: Vec<StructuredEnvoyLog>)
        ensures
            structured_from(logs@, r@),
    {
        if contains_no_id(&logs) {
            return EnvoyLog::to_structure_fallback(logs);
        }
        let n = logs.len();
        let mut answered: Vec<Option<usize>> = Vec::new();
        let mut i: usize = 0;
        while i < n
            invariant
                n == logs.len(),
                i <= n,
                answered@.len() == i,
                forall|m: int|
                    0 <= m < i ==> opt_index(#[trigger] answered@[m]) == answered_request(
                        logs@,
                        m,
                    ),
                forall|m: int| 0 <= m < i ==> ((#[trigger] answered@[m]) matches Some(j) ==> j < n),
            decreases n - i,
        {
            let a = find_answered_request(&logs, i);
            answered.push(a);
            i += 1;
        }
        let mut out: Vec<StructuredEnvoyLog> = Vec::new();
        let mut i: usize = 0;
        while i < n
            invariant
                n == logs.len(),
                i <= n,
                answered@.len() == n,
                forall|m: int|
                    0 <= m < n ==> opt_index(#[trigger] answered@[m]) == answered_request(
                        logs@,
                        m,
                    ),
                forall|m: int| 0 <= m < n ==> ((#[trigger] answered@[m]) matches Some(j) ==> j < n),
                out@.len() == request_heads(logs@, i as int).len(),
                forall|k: int|
                    0 <= k < out@.len() ==> {
                        let head = logs@[request_heads(logs@, i as int)[k]];
                        &&& (#[trigger] out@[k]).request_id@ == head.request_id@
                        &&& out@[k].traces@ == paired_traces(logs@, head, n as int)
                    },
            decreases n - i,
        {
            if is_first_of_request(&logs, i) {
                let traces = collect_pairs(&logs, &answered, i);
                out.push(StructuredEnvoyLog { request_id: logs[i].request_id.clone(), traces });
            }
            i += 1;
        }
        out
    }

    /// Pairs the logs of one pod by a stack walk, for logs without usable span ids. Logs with
    /// an empty request id are dropped; within each request a request log is pushed and a
    /// response pops the latest open request and pairs with it, keyed by the request's span id.
    pub fn to_structure_fallback(logs: Vec<EnvoyLog>) -> (r: Vec<StructuredEnvoyLog>)
        ensures
            stack_structured_from(logs@, r@),
    {
        let n = logs.len();
        let mut out: Vec<StructuredEnvoyLog> = Vec::new();
        let mut i: usize = 0;
        while i < n
            invariant
                n == logs.len(),
                i <= n,
                out@.len() == fallback_heads(logs@, i as int).len(),
                forall|k: int|
                    0 <= k < out@.len() ==> {
                        let head = logs@[fallback_heads(logs@, i as int)[k]];
                        &&& (#[trigger] out@[k]).request_id@ == head.request_id@
                        &&& out@[k].traces@ == walk(logs@, head, n as int).1
                        &&& all_fallback(out@[k].traces@)
                    },
            decreases n - i,
        {
            if logs[i].request_id.as_str().unicode_len() > 0 && is_first_of_request(&logs, i) {
                let traces = walk_request(&logs, i);
                proof {
                    lemma_walk_fallback(logs@, logs@[i as int], n as int);
                }
                out.push(StructuredEnvoyLog { request_id: logs[i].request_id.clone(), traces });
            }
            i += 1;
        }
        out
    }
}

/// The pairs of the request whose first log is at `h`.
fn collect_pairs(logs: &Vec<EnvoyLog>, answered: &Vec<Option<usize>>, h: usize) -> (r: Vec<
    StructuredEnvoyLogTrace,
>)
    requires
        h < logs.len(),
        answered@.len() == logs.len(),
        forall|m: int|
            0 <= m < logs.len() ==> opt_index(#[trigger] answered@[m]) == answered_request(
                logs@,
                m,
            ),
        forall|m: int| 0 <= m < logs.len() ==> ((#[trigger] answered@[m]) matches Some(j) ==> j
            < logs.len()),
    ensures
        r@ == paired_traces(logs@, logs@[h as int], logs@.len() as int),
{
    let n = logs.len();
    let mut r: Vec<StructuredEnvoyLogTrace> = Vec::new();
    let mut m: usize = 0;
    while m < n
        invariant
            n == logs.len(),
            h < n,
            m <= n,
            answered@.len() == n,
            forall|q: int|
                0 <= q < n ==> opt_index(#[trigger] answered@[q]) == answered_request(logs@, q),
            forall|q: int| 0 <= q < n ==> ((#[trigger] answered@[q]) matches Some(j) ==> j < n),
            r@ == paired_traces(logs@, logs@[h as int], m as int),
        decreases n - m,
    {
        let same = logs[m].request_id == logs[h].request_id && logs[m].trace_id
            == logs[h].trace_id;
        if same {
            match answered[m] {
                Some(j) => {
                    let t = StructuredEnvoyLogTrace {
                        trace_id: logs[m].trace_id.clone(),
                        span_id: logs[m].span_id.clone(),
                        parent_span_id: logs[m].parent_span_id.clone(),
                        request: logs[j].clone(),
                        response: logs[m].clone(),
                        is_fallback: false,
                    };
                    r.push(t);
                },
                None => {},
            }
        }
        m += 1;
    }
    r
}

/// Replaces the pair with `t`'s span id, or appends `t`.
fn put_trace_exec(ts: &mut Vec<StructuredEnvoyLogTrace>, t: StructuredEnvoyLogTrace)
    ensures
        final(ts)@ == put_trace(old(ts)@, t),
{
    let ghost s = t.span_id@;
    let mut k: usize = ts.len();
    assert(ts@.take(k as int) =~= ts@);
    while k > 0
        invariant
            k <= ts.len(),
            ts@ == old(ts)@,
            index_of_span(ts@, s) == index_of_span(ts@.take(k as int), s),
            s == t.span_id@,
        decreases k,
    {
        if ts[k - 1].span_id == t.span_id {
            ts.set(k - 1, t);
            return;
        }
        assert(ts@.take(k as int).drop_last() =~= ts@.take(k - 1));
        k -= 1;
    }
    ts.push(t);
}

/// The stack walk over the request whose first log is at `h`.
fn walk_request(logs: &Vec<EnvoyLog>, h: usize) -> (r: Vec<StructuredEnvoyLogTrace>)
    requires
        h < logs.len(),
    ensures
        r@ == walk(logs@, logs@[h as int], logs@.len() as int).1,
{
    let n = logs.len();
    let mut stack: Vec<EnvoyLog> = Vec::new();
    let mut traces: Vec<StructuredEnvoyLogTrace> = Vec::new();
    let mut m: usize = 0;
    while m < n
        invariant
            n == logs.len(),
            h < n,
            m <= n,
            (stack@, traces@) == walk(logs@, logs@[h as int], m as int),
        decreases n - m,
    {
        let same = logs[m].request_id == logs[h].request_id && logs[m].trace_id
            == logs[h].trace_id;
        if same {
            if logs[m].log_type == LogType::Req {
                stack.push(logs[m].clone());
            } else {
                match stack.pop() {
                    Some(req) => {
                        let t = StructuredEnvoyLogTrace {
                            trace_id: logs[h].trace_id.clone(),
                            span_id: req.span_id.clone(),
                            parent_span_id: req.parent_span_id.clone(),
                            request: req,
                            response: logs[m].clone(),
                            is_fallback: true,
                        };
                        put_trace_exec(&mut traces, t);
                    },
                    None => {
                        stack.clear();
                    },
                }
            }
        }
        m += 1;
    }
    traces
}


/// The pairs of the entries with request id `rid` among the first `m` of one batch, in order.
pub open spec fn traces_in(batch: Seq<StructuredEnvoyLog>, rid: Seq<char>, m: int) -> Seq<
    StructuredEnvoyLogTrace,
>
    decreases m,
{
    if m <= 0 {
        Seq::empty()
    } else if batch[m - 1].request_id@ == rid {
        traces_in(batch, rid, m - 1) + batch[m - 1].traces@
    } else {
        traces_in(batch, rid, m - 1)
    }
}

/// The pairs with request id `rid` in the first `n` batches, in order.
pub open spec fn traces_all(batches: Seq<Vec<StructuredEnvoyLog>>, rid: Seq<char>, n: int) -> Seq<
    StructuredEnvoyLogTrace,
>
    decreases n,
{
    if n <= 0 {
        Seq::empty()
    } else {
        traces_all(batches, rid, n - 1) + traces_in(
            batches[n - 1]@,
            rid,
            batches[n - 1]@.len() as int,
        )
    }
}

/// `acc` followed by the request ids of the first `m` entries of `batch` that it lacks.
pub open spec fn add_ids(acc: Seq<Seq<char>>, batch: Seq<StructuredEnvoyLog>, m: int) -> Seq<
    Seq<char>,
>
    decreases m,
{
    if m <= 0 {
        acc
    } else {
        let a = add_ids(acc, batch, m - 1);
        if a.contains(batch[m - 1].request_id@) {
            a
        } else {
            a.push(batch[m - 1].request_id@)
        }
    }
}

/// The request ids of the first `n` batches, each once, in order of first appearance.
pub open spec fn request_ids(batches: Seq<Vec<StructuredEnvoyLog>>, n: int) -> Seq<Seq<char>>
    decreases n,
{
    if n <= 0 {
        Seq::empty()
    } else {
        add_ids(request_ids(batches, n - 1), batches[n - 1]@, batches[n - 1]@.len() as int)
    }
}

pub open spec fn sorted_by_request_time(ts: Seq<StructuredEnvoyLogTrace>) -> bool {
    forall|a: int, b: int|
        0 <= a < b < ts.len() ==> (#[trigger] ts[a]).request.timestamp
            <= (#[trigger] ts[b]).request.timestamp
}

/// Sorts pairs by the time of their request, keeping the order of equal times.
fn sort_by_request_time(v: &Vec<StructuredEnvoyLogTrace>) -> (r: Vec<StructuredEnvoyLogTrace>)
    ensures
        sorted_by_request_time(r@),
        r@.to_multiset() == v@.to_multiset(),
{
    broadcast use group_to_multiset_ensures;

    let mut r: Vec<StructuredEnvoyLogTrace> = Vec::new();
    let mut i: usize = 0;
    while i < v.len()
        invariant
            i <= v.len(),
            sorted_by_request_time(r@),
            r@.to_multiset() == v@.take(i as int).to_multiset(),
        decreases v.len() - i,
    {
        let x = v[i].clone();
        let t = x.request.timestamp;
        let mut p: usize = r.len();
        while p > 0 && r[p - 1].request.timestamp > t
            invariant
                p <= r.len(),
                forall|q: int| p <= q < r.len() ==> (#[trigger] r@[q]).request.timestamp > t,
            decreases p,
        {
            p -= 1;
        }
        proof {
            if p > 0 {
                assert forall|q: int| 0 <= q < p implies (#[trigger] r@[q]).request.timestamp <= t by {
                    if q < p - 1 {
                        assert(r@[q].request.timestamp <= r@[p - 1].request.timestamp);
                    }
                }
            }
        }
        let ghost old_r = r@;
        r.insert(p, x);
        proof {
            assert(r@ == old_r.insert(p as int, x));
            assert(v@.take(i + 1) =~= v@.take(i as int).push(v@[i as int]));
            assert(v@.take(i as int).push(v@[i as int]) =~= v@.take(i as int).insert(
                i as int,
                v@[i as int],
            ));
            assert(x == v@[i as int]);
            to_multiset_insert(old_r, p as int, x);
            to_multiset_insert(v@.take(i as int), i as int, x);
            assert(v@.take(i as int).insert(i as int, x).to_multiset() == v@.take(
                i as int,
            ).to_multiset().insert(x));
            assert(r@.to_multiset() == v@.take(i + 1).to_multiset());
            assert forall|a: int, b: int| 0 <= a < b < r@.len() implies (#[trigger] r@[a]).request.timestamp
                <= (#[trigger] r@[b]).request.timestamp by {
                if a < p && b == p {
                    assert(r@[a] == old_r[a]);
                } else if a == p && b > p {
                    assert(r@[b] == old_r[b - 1]);
                } else if b < p {
                    assert(r@[a] == old_r[a] && r@[b] == old_r[b]);
                } else if a < p && b > p {
                    assert(r@[a] == old_r[a] && r@[b] == old_r[b - 1]);
                } else {
                    assert(r@[a] == old_r[a - 1] && r@[b] == old_r[b - 1]);
                }
            }
        }
        i += 1;
    }
    assert(v@.take(v.len() as int) =~= v@);
    r
}

/// Appends copies of the pairs of one batch's entries with request id `rid`.
fn append_traces_in(batch: &Vec<StructuredEnvoyLog>, rid: &String, out: &mut Vec<StructuredEnvoyLogTrace>)
    ensures
        final(out)@ == old(out)@ + traces_in(batch@, rid@, batch@.len() as int),
{
    let mut m: usize = 0;
    while m < batch.len()
        invariant
            m <= batch.len(),
            out@ == old(out)@ + traces_in(batch@, rid@, m as int),
        decreases batch.len() - m,
    {
        if batch[m].request_id == *rid {
            let mut copy = clone_traces(&batch[m].traces);
            out.append(&mut copy);
            assert(out@ =~= old(out)@ + traces_in(batch@, rid@, m + 1));
        }
        m += 1;
    }
}

impl EnvoyLog {
    /// Merges the pairs of all pods by request id, then orders each request's pairs by the
    /// time of their request. Request ids come in order of first appearance.
    pub fn combine_structured_logs(s_logs: Vec<Vec<StructuredEnvoyLog>>) -> (r: Vec<
        StructuredEnvoyLog,
    >)
        ensures
            combined_from(s_logs@, r@),
    {
        let mut ids: Vec<String> = Vec::new();
        let mut b: usize = 0;
        while b < s_logs.len()
            invariant
                b <= s_logs.len(),
                text_views(ids@) == request_ids(s_logs@, b as int),
            decreases s_logs.len() - b,
        {
            let batch = &s_logs[b];
            let mut m: usize = 0;
            while m < batch.len()
                invariant
                    b < s_logs.len(),
                    batch == s_logs@[b as int],
                    m <= batch.len(),
                    text_views(ids@) == add_ids(
                        request_ids(s_logs@, b as int),
                        batch@,
                        m as int,
                    ),
                decreases batch.len() - m,
            {
                if !contains_text(&ids, &batch[m].request_id) {
                    ids.push(batch[m].request_id.clone());
                    assert(text_views(ids@) =~= add_ids(
                        request_ids(s_logs@, b as int),
                        batch@,
                        m + 1,
                    ));
                }
                m += 1;
            }
            b += 1;
        }
        let mut out: Vec<StructuredEnvoyLog> = Vec::new();
        let mut k: usize = 0;
        while k < ids.len()
            invariant
                k <= ids.len(),
                text_views(ids@) == request_ids(s_logs@, s_logs@.len() as int),
                out@.len() == k,
                forall|q: int|
                    0 <= q < k ==> {
                        let rid = request_ids(s_logs@, s_logs@.len() as int)[q];
                        &&& (#[trigger] out@[q]).request_id@ == rid
                        &&& sorted_by_request_time(out@[q].traces@)
                        &&& out@[q].traces@.to_multiset() == traces_all(
                            s_logs@,
                            rid,
                            s_logs@.len() as int,
                        ).to_multiset()
                    },
            decreases ids.len() - k,
        {
            let rid = &ids[k];
            assert(text_views(ids@)[k as int] == rid@);
            let mut all: Vec<StructuredEnvoyLogTrace> = Vec::new();
            let mut b: usize = 0;
            while b < s_logs.len()
                invariant
                    b <= s_logs.len(),
                    all@ == traces_all(s_logs@, rid@, b as int),
                decreases s_logs.len() - b,
            {
                append_traces_in(&s_logs[b], rid, &mut all);
                b += 1;
            }
            let traces = sort_by_request_time(&all);
            out.push(StructuredEnvoyLog { request_id: rid.clone(), traces });
            k += 1;
        }
        out
    }
}

/// A parent span id that can be copied onto other pairs.
pub open spec fn usable_parent(p: Seq<char>) -> bool {
    p.len() > 0 && p != no_id()
}

/// The usable parent of the last pair with span id `sid`.
pub open spec fn parent_in(ts: Seq<StructuredEnvoyLogTrace>, sid: Seq<char>) -> Option<Seq<char>>
    decreases ts.len(),
{
    if ts.len() == 0 {
        None
    } else if ts.last().span_id@ == sid && usable_parent(ts.last().parent_span_id@) {
        Some(ts.last().parent_span_id@)
    } else {
        parent_in(ts.drop_last(), sid)
    }
}

/// The usable parent of the last pair with request id `rid` and span id `sid`: what a map
/// from (request id, span id) to parent id filled in order keeps.
pub open spec fn parent_from(entries: Seq<StructuredEnvoyLog>, rid: Seq<char>, sid: Seq<char>) -> Option<
    Seq<char>,
>
    decreases entries.len(),
{
    if entries.len() == 0 {
        None
    } else if entries.last().request_id@ == rid && parent_in(entries.last().traces@, sid).is_some() {
        parent_in(entries.last().traces@, sid)
    } else {
        parent_from(entries.drop_last(), rid, sid)
    }
}

pub open spec fn filled_parent(entries: Seq<StructuredEnvoyLog>, rid: Seq<char>, t: StructuredEnvoyLogTrace) -> Seq<char> {
    match parent_from(entries, rid, t.span_id@) {
        Some(p) => p,
        None => t.parent_span_id@,
    }
}

fn find_parent_in(ts: &Vec<StructuredEnvoyLogTrace>, sid: &String) -> (r: Option<String>)
    ensures
        match r {
            Some(p) => parent_in(ts@, sid@) == Some(p@),
            None => parent_in(ts@, sid@).is_none(),
        },
{
    let mut k: usize = ts.len();
    assert(ts@.take(k as int) =~= ts@);
    while k > 0
        invariant
            k <= ts.len(),
            parent_in(ts@, sid@) == parent_in(ts@.take(k as int), sid@),
        decreases k,
    {
        let t = &ts[k - 1];
        let p = &t.parent_span_id;
        if t.span_id == *sid && p.as_str().unicode_len() > 0 && !eq_str(p, "NO_ID") {
            return Some(p.clone());
        }
        assert(ts@.take(k as int).drop_last() =~= ts@.take(k - 1));
        k -= 1;
    }
    None
}

fn find_parent(entries: &Vec<StructuredEnvoyLog>, rid: &String, sid: &String) -> (r: Option<String>)
    ensures
        match r {
            Some(p) => parent_from(entries@, rid@, sid@) == Some(p@),
            None => parent_from(entries@, rid@, sid@).is_none(),
        },
{
    let mut k: usize = entries.len();
    assert(entries@.take(k as int) =~= entries@);
    while k > 0
        invariant
            k <= entries.len(),
            parent_from(entries@, rid@, sid@) == parent_from(entries@.take(k as int), rid@, sid@),
        decreases k,
    {
        let e = &entries[k - 1];
        if e.request_id == *rid {
            let found = find_parent_in(&e.traces, sid);
            if found.is_some() {
                return found;
            }
        }
        assert(entries@.take(k as int).drop_last() =~= entries@.take(k - 1));
        k -= 1;
    }
    None
}

impl EnvoyLog {
    /// Gives each pair the parent span id that the last pair with the same request id and span
    /// id carries, where one carries a non-empty id other than `NO_ID`.
    pub fn fill_missing_ids(logs: Vec<StructuredEnvoyLog>) -> (r: Vec<StructuredEnvoyLog>)
        ensures
            filled_from(logs@, r@),
    {
        let mut out: Vec<StructuredEnvoyLog> = Vec::new();
        let mut k: usize = 0;
        while k < logs.len()
            invariant
                k <= logs.len(),
                out@.len() == k,
                forall|q: int|
                    0 <= q < k ==> {
                        &&& (#[trigger] out@[q]).request_id@ == logs@[q].request_id@
                        &&& out@[q].traces@.len() == logs@[q].traces@.len()
                        &&& forall|m: int|
                            0 <= m < out@[q].traces@.len() ==> {
                                let t = logs@[q].traces@[m];
                                let u = #[trigger] out@[q].traces@[m];
                                &&& u.parent_span_id@ == filled_parent(logs@, logs@[q].request_id@, t)
                                &&& u.trace_id == t.trace_id
                                &&& u.span_id == t.span_id
                                &&& u.request == t.request
                                &&& u.response == t.response
                                &&& u.is_fallback == t.is_fallback
                            }
                    },
            decreases logs.len() - k,
        {
            let entry = &logs[k];
            let mut traces: Vec<StructuredEnvoyLogTrace> = Vec::new();
            let mut m: usize = 0;
            while m < entry.traces.len()
                invariant
                    k < logs.len(),
                    entry == logs@[k as int],
                    m <= entry.traces.len(),
                    traces@.len() == m,
                    forall|p: int|
                        0 <= p < m ==> {
                            let t = entry.traces@[p];
                            let u = #[trigger] traces@[p];
                            &&& u.parent_span_id@ == filled_parent(logs@, entry.request_id@, t)
                            &&& u.trace_id == t.trace_id
                            &&& u.span_id == t.span_id
                            &&& u.request == t.request
                            &&& u.response == t.response
                            &&& u.is_fallback == t.is_fallback
                        },
                decreases entry.traces.len() - m,
            {
                let t = &entry.traces[m];
                let parent = match find_parent(&logs, &entry.request_id, &t.span_id) {
                    Some(p) => p,
                    None => t.parent_span_id.clone(),
                };
                traces.push(
                    StructuredEnvoyLogTrace {
                        trace_id: t.trace_id.clone(),
                        span_id: t.span_id.clone(),
                        parent_span_id: parent,
                        request: t.request.clone(),
                        response: t.response.clone(),
                        is_fallback: t.is_fallback,
                    },
                );
                m += 1;
            }
            out.push(StructuredEnvoyLog { request_id: entry.request_id.clone(), traces });
            k += 1;
        }
        out
    }
}


/// What pairing the logs of one pod by the stack walk gives.
pub open spec fn stack_structured_from(logs: Seq<EnvoyLog>, r: Seq<StructuredEnvoyLog>) -> bool {
    &&& r.len() == fallback_heads(logs, logs.len() as int).len()
    &&& forall|k: int|
        0 <= k < r.len() ==> {
            let head = logs[fallback_heads(logs, logs.len() as int)[k]];
            &&& (#[trigger] r[k]).request_id@ == head.request_id@
            &&& r[k].traces@ == walk(logs, head, logs.len() as int).1
            &&& all_fallback(r[k].traces@)
        }
}

/// What pairing the logs of one pod gives: by parent span id, or by the stack walk where a
/// log carries the `NO_ID` span id.
pub open spec fn structured_from(logs: Seq<EnvoyLog>, r: Seq<StructuredEnvoyLog>) -> bool {
    &&& has_no_id(logs) ==> stack_structured_from(logs, r)
    &&& !has_no_id(logs) ==> {
        &&& r.len() == request_heads(logs, logs.len() as int).len()
        &&& forall|k: int|
            0 <= k < r.len() ==> {
                let head = logs[request_heads(logs, logs.len() as int)[k]];
                &&& (#[trigger] r[k]).request_id@ == head.request_id@
                &&& r[k].traces@ == paired_traces(logs, head, logs.len() as int)
            }
    }
}

/// What merging the pairs of all pods by request id and ordering them by request time gives.
pub open spec fn combined_from(batches: Seq<Vec<StructuredEnvoyLog>>, r: Seq<StructuredEnvoyLog>) -> bool {
    &&& r.len() == request_ids(batches, batches.len() as int).len()
    &&& forall|k: int|
        0 <= k < r.len() ==> {
            let rid = request_ids(batches, batches.len() as int)[k];
            &&& (#[trigger] r[k]).request_id@ == rid
            &&& sorted_by_request_time(r[k].traces@)
            &&& r[k].traces@.to_multiset() == traces_all(
                batches,
                rid,
                batches.len() as int,
            ).to_multiset()
        }
}

/// What filling in the parent span ids gives: the same pairs, each with its filled parent.
pub open spec fn filled_from(logs: Seq<StructuredEnvoyLog>, r: Seq<StructuredEnvoyLog>) -> bool {
    &&& r.len() == logs.len()
    &&& forall|k: int|
        0 <= k < r.len() ==> {
            &&& (#[trigger] r[k]).request_id@ == logs[k].request_id@
            &&& r[k].traces@.len() == logs[k].traces@.len()
            &&& forall|m: int|
                0 <= m < r[k].traces@.len() ==> {
                    let t = logs[k].traces@[m];
                    let u = #[trigger] r[k].traces@[m];
                    &&& u.parent_span_id@ == filled_parent(logs, logs[k].request_id@, t)
                    &&& u.trace_id == t.trace_id
                    &&& u.span_id == t.span_id
                    &&& u.request == t.request
                    &&& u.response == t.response
                    &&& u.is_fallback == t.is_fallback
                }
        }
}

impl EnvoyLog {
    /// Pairs the logs of each pod, merges the pairs of all pods by request id, orders them by
    /// request time and fills in missing parent span ids.
    pub fn combine_logs(logs: Vec<Vec<EnvoyLog>>) -> (r: Vec<StructuredEnvoyLog>)
        ensures
            exists|batches: Seq<Vec<StructuredEnvoyLog>>, merged: Seq<StructuredEnvoyLog>|
                {
                    &&& batches.len() == logs@.len()
                    &&& forall|b: int|
                        0 <= b < logs@.len() ==> structured_from(
                            #[trigger] logs@[b]@,
                            batches[b]@,
                        )
                    &&& combined_from(batches, merged)
                    &&& filled_from(merged, r@)
                },
    {
        let mut batches: Vec<Vec<StructuredEnvoyLog>> = Vec::new();
        let mut logs = logs;
        let ghost all = logs@;
        while logs.len() > 0
            invariant
                logs@.len() + batches@.len() == all.len(),
                logs@ == all.take(logs@.len() as int),
                forall|b: int|
                    0 <= b < batches@.len() ==> structured_from(
                        #[trigger] all[all.len() - 1 - b]@,
                        batches@[b]@,
                    ),
            decreases logs.len(),
        {
            let pod = logs.pop().unwrap();
            assert(pod == all[logs@.len() as int]);
            assert(logs@ =~= all.take(logs@.len() as int));
            batches.push(EnvoyLog::to_structure(pod));
        }
        let mut ordered: Vec<Vec<StructuredEnvoyLog>> = Vec::new();
        while batches.len() > 0
            invariant
                batches@.len() + ordered@.len() == all.len(),
                forall|b: int|
                    0 <= b < batches@.len() ==> structured_from(
                        #[trigger] all[all.len() - 1 - b]@,
                        batches@[b]@,
                    ),
                forall|b: int|
                    0 <= b < ordered@.len() ==> structured_from(
                        #[trigger] all[b]@,
                        ordered@[b]@,
                    ),
            decreases batches.len(),
        {
            let ghost bv = batches@;
            let last = batches.pop().unwrap();
            proof {
                let q = bv.len() - 1;
                assert(last == bv[q]);
                assert(structured_from(all[all.len() - 1 - q]@, bv[q]@));
                assert(all.len() - 1 - q == ordered@.len());
                assert forall|b: int| 0 <= b < batches@.len() implies structured_from(
                    #[trigger] all[all.len() - 1 - b]@,
                    batches@[b]@,
                ) by {
                    assert(batches@[b] == bv[b]);
                }
            }
            ordered.push(last);
        }
        let ghost batches_view = ordered@;
        let merged = EnvoyLog::combine_structured_logs(ordered);
        let ghost merged_view = merged@;
        let r = EnvoyLog::fill_missing_ids(merged);
        assert(forall|b: int|
            0 <= b < all.len() ==> structured_from(#[trigger] all[b]@, batches_view[b]@));
        r
    }
}
} // verus!
