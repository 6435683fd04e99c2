//! The record of trace ids already consumed, with timed eviction.
use vstd::prelude::*;
use crate::trace::Trace;

verus! {

/// Trace ids already consumed, each with the millisecond at which its first span started.
#[derive(Debug)]
pub struct TraceCache {
    pub entries: Vec<(String, i128)>,
}

pub open spec fn known(entries: Seq<(String, i128)>, id: Seq<char>) -> bool {
    exists|i: int| 0 <= i < entries.len() && (#[trigger] entries[i]).0@ == id
}

/// The entries after filtering the first `n` span groups, and the indices of the groups kept:
/// a group is kept when it is non-empty and its first span's trace id is not known yet, and
/// keeping it records that id with the start of the span in milliseconds.
pub open spec fn filter_fold(entries: Seq<(String, i128)>, traces: Seq<Vec<Trace>>, n: int) -> (
    Seq<int>,
    Seq<(String, i128)>,
)
    decreases n,
{
    if n <= 0 {
        (Seq::empty(), entries)
    } else {
        let (kept, es) = filter_fold(entries, traces, n - 1);
        let g = traces[n - 1]@;
        if g.len() > 0 && !known(es, g[0].trace_id@) {
            (kept.push(n - 1), es.push((g[0].trace_id, (g[0].timestamp / 1000) as i128)))
        } else {
            (kept, es)
        }
    }
}

/// `v`'s elements at the first `n` positions whose flag is set.
pub open spec fn selected<T>(v: Seq<T>, keep: Seq<bool>, n: int) -> Seq<T>
    decreases n,
{
    if n <= 0 {
        Seq::empty()
    } else if keep[n - 1] {
        selected(v, keep, n - 1).push(v[n - 1])
    } else {
        selected(v, keep, n - 1)
    }
}

/// An entry stays while its age, `now - start`, is at most the timeout.
pub open spec fn fresh(e: (String, i128), timeout: i128, now: u64) -> bool {
    now - e.1 <= timeout
}

/// The entries among the first `n` that stay, in order.
pub open spec fn fresh_entries(es: Seq<(String, i128)>, timeout: i128, now: u64, n: int) -> Seq<
    (String, i128),
>
    decreases n,
{
    if n <= 0 {
        Seq::empty()
    } else if fresh(es[n - 1], timeout, now) {
        fresh_entries(es, timeout, now, n - 1).push(es[n - 1])
    } else {
        fresh_entries(es, timeout, now, n - 1)
    }
}

/// Keeps the elements of `v` whose flag is set, in order.
fn select<T>(v: Vec<T>, keep: &Vec<bool>) -> (r: Vec<T>)
    requires
        keep@.len() == v@.len(),
    ensures
        r@ == selected(v@, keep@, v@.len() as int),
{
    let ghost all = v@;
    let n = v.len();
    let mut v = v;
    let mut rev: Vec<T> = Vec::new();
    while v.len() > 0
        invariant
            v@ == all.take(v@.len() as int),
            rev@.len() + v@.len() == all.len(),
            forall|q: int| 0 <= q < rev@.len() ==> #[trigger] rev@[q] == all[all.len() - 1 - q],
        decreases v.len(),
    {
        let x = v.pop().unwrap();
        rev.push(x);
        assert(v@ =~= all.take(v@.len() as int));
    }
    let mut out: Vec<T> = Vec::new();
    let mut i: usize = 0;
    while rev.len() > 0
        invariant
            n == all.len(),
            keep@.len() == n,
            rev@.len() + i == n,
            forall|q: int| 0 <= q < rev@.len() ==> #[trigger] rev@[q] == all[n - 1 - q],
            out@ == selected(all, keep@, i as int),
        decreases rev.len(),
    {
        let x = rev.pop().unwrap();
        if keep[i] {
            out.push(x);
        }
        i += 1;
    }
    out
}

fn knows(entries: &Vec<(String, i128)>, id: &String) -> (r: bool)
    ensures
        r == known(entries@, id@),
{
    let mut i: usize = 0;
    while i < entries.len()
        invariant
            i <= entries.len(),
            forall|q: int| 0 <= q < i ==> (#[trigger] entries@[q]).0@ != id@,
        decreases entries.len() - i,
    {
        if entries[i].0 == *id {
            return true;
        }
        i += 1;
    }
    false
}

/// Each trace id at most once, each start a millisecond that fits in `u64`.
pub open spec fn entries_wf(es: Seq<(String, i128)>) -> bool {
    &&& forall|i: int, j: int| 0 <= i < j < es.len() ==> (#[trigger] es[i]).0@ != (#[trigger] es[j]).0@
    &&& forall|i: int| 0 <= i < es.len() ==> 0 <= (#[trigger] es[i]).1 <= u64::MAX
}

impl TraceCache {
    pub open spec fn wf(&self) -> bool {
        entries_wf(self.entries@)
    }

    pub fn new() -> (r: TraceCache)
        ensures
            r.entries@.len() == 0,
            r.wf(),
    {
        TraceCache { entries: Vec::new() }
    }
}

/// Keeps the span groups that are new: non-empty, with a first trace id that the cache does
/// not hold (nor an earlier group of the batch), and records each kept id. Returns the kept
/// groups with the number of groups before and after.
pub fn filter_traces(traces: Vec<Vec<Trace>>, processed: &mut TraceCache) -> (r: (
    Vec<Vec<Trace>>,
    usize,
    usize,
))
    ensures
        ({
            let (kept, es) = filter_fold(old(processed).entries@, traces@, traces@.len() as int);
            &&& final(processed).entries@ == es
            &&& r.0@.len() == kept.len()
            &&& forall|k: int| 0 <= k < kept.len() ==> #[trigger] r.0@[k] == traces@[kept[k]]
        }),
        r.1 == traces@.len(),
        r.2 == r.0@.len(),
        old(processed).wf() ==> final(processed).wf(),
{
    let n = traces.len();
    let mut keep: Vec<bool> = Vec::new();
    let mut i: usize = 0;
    while i < n
        invariant
            n == traces.len(),
            i <= n,
            keep@.len() == i,
            ({
                let (kept, es) = filter_fold(old(processed).entries@, traces@, i as int);
                &&& processed.entries@ == es
                &&& selected(traces@, keep@, i as int) == kept.map_values(|k: int| traces@[k])
            }),
        decreases n - i,
    {
        let g = &traces[i];
        let ghost prev = keep@;
        let fresh = g.len() > 0 && !knows(&processed.entries, &g[0].trace_id);
        if fresh {
            let ts = (g[0].timestamp / 1000) as i128;
            processed.entries.push((g[0].trace_id.clone(), ts));
        }
        keep.push(fresh);
        proof {
            let (kept, es) = filter_fold(old(processed).entries@, traces@, i as int);
            assert(selected(traces@, keep@, i as int) == selected(traces@, prev, i as int)) by {
                lemma_selected_prefix(traces@, keep@, prev, i as int);
            }
            if fresh {
                assert(kept.push(i as int).map_values(|k: int| traces@[k]) =~= kept.map_values(
                    |k: int| traces@[k],
                ).push(traces@[i as int]));
            }
        }
        i += 1;
    }
    proof {
        if old(processed).wf() {
            lemma_fold_wf(old(processed).entries@, traces@, n as int);
        }
    }
    let ghost fold = filter_fold(old(processed).entries@, traces@, n as int);
    let ghost tv = traces@;
    let kept = select(traces, &keep);
    assert forall|k: int| 0 <= k < fold.0.len() implies #[trigger] kept@[k] == tv[fold.0[k]] by {
        assert(kept@ == fold.0.map_values(|q: int| tv[q]));
    }
    let new_len = kept.len();
    (kept, n, new_len)
}

proof fn lemma_selected_prefix<T>(v: Seq<T>, a: Seq<bool>, b: Seq<bool>, n: int)
    requires
        0 <= n <= a.len(),
        n <= b.len(),
        forall|q: int| 0 <= q < n ==> a[q] == b[q],
    ensures
        selected(v, a, n) == selected(v, b, n),
    decreases n,
{
    if n > 0 {
        lemma_selected_prefix(v, a, b, n - 1);
    }
}

/// Drops the entries older than `timeout` milliseconds at `now_ms`, keeping the order of the rest.
pub fn clean_up_traces(processed: &mut TraceCache, timeout: i128, now_ms: u64)
    requires
        old(processed).wf(),
    ensures
        final(processed).wf(),
        final(processed).entries@ == fresh_entries(
            old(processed).entries@,
            timeout,
            now_ms,
            old(processed).entries@.len() as int,
        ),
        forall|i: int|
            0 <= i < final(processed).entries@.len() ==> now_ms - (#[trigger] final(processed).entries@[i]).1 <= timeout,
{
    let ghost es = processed.entries@;
    let mut keep: Vec<bool> = Vec::new();
    let mut i: usize = 0;
    while i < processed.entries.len()
        invariant
            es == processed.entries@,
            i <= es.len(),
            keep@.len() == i,
            forall|q: int| 0 <= q < es.len() ==> 0 <= (#[trigger] es[q]).1 <= u64::MAX,
            forall|q: int| 0 <= q < i ==> #[trigger] keep@[q] == fresh(es[q], timeout, now_ms),
        decreases es.len() - i,
    {
        let age = now_ms as i128 - processed.entries[i].1;
        keep.push(age <= timeout);
        i += 1;
    }
    let mut entries: Vec<(String, i128)> = Vec::new();
    std::mem::swap(&mut entries, &mut processed.entries);
    let kept = select(entries, &keep);
    proof {
        lemma_selected_fresh(es, keep@, timeout, now_ms, es.len() as int);
        lemma_fresh_wf(es, timeout, now_ms, es.len() as int);
    }
    processed.entries = kept;
}

proof fn lemma_selected_fresh(
    es: Seq<(String, i128)>,
    keep: Seq<bool>,
    timeout: i128,
    now: u64,
    n: int,
)
    requires
        0 <= n <= es.len(),
        keep.len() == es.len(),
        forall|q: int| 0 <= q < es.len() ==> #[trigger] keep[q] == fresh(es[q], timeout, now),
    ensures
        selected(es, keep, n) == fresh_entries(es, timeout, now, n),
        forall|i: int|
            0 <= i < fresh_entries(es, timeout, now, n).len() ==> now - (
            #[trigger] fresh_entries(es, timeout, now, n)[i]).1 <= timeout,
    decreases n,
{
    if n > 0 {
        lemma_selected_fresh(es, keep, timeout, now, n - 1);
        assert(keep[n - 1] == fresh(es[n - 1], timeout, now));
    }
}


proof fn lemma_known_grows(entries: Seq<(String, i128)>, traces: Seq<Vec<Trace>>, n: int, id: Seq<char>)
    requires
        known(entries, id),
    ensures
        known(filter_fold(entries, traces, n).1, id),
    decreases n,
{
    if n > 0 {
        lemma_known_grows(entries, traces, n - 1, id);
        let es = filter_fold(entries, traces, n - 1).1;
        let w = choose|q: int| 0 <= q < es.len() && (#[trigger] es[q]).0@ == id;
        let g = traces[n - 1]@;
        if g.len() > 0 && !known(es, g[0].trace_id@) {
            let es2 = es.push((g[0].trace_id, (g[0].timestamp / 1000) as i128));
            assert(es2[w] == es[w]);
        }
    }
}

proof fn lemma_kept_known(entries: Seq<(String, i128)>, traces: Seq<Vec<Trace>>, n: int, i: int)
    requires
        0 <= i < n <= traces.len(),
        traces[i]@.len() > 0,
    ensures
        known(filter_fold(entries, traces, n).1, traces[i]@[0].trace_id@),
    decreases n,
{
    let id = traces[i]@[0].trace_id@;
    if i < n - 1 {
        lemma_kept_known(entries, traces, n - 1, i);
        let es = filter_fold(entries, traces, n - 1).1;
        let w = choose|q: int| 0 <= q < es.len() && (#[trigger] es[q]).0@ == id;
        let g = traces[n - 1]@;
        if g.len() > 0 && !known(es, g[0].trace_id@) {
            let es2 = es.push((g[0].trace_id, (g[0].timestamp / 1000) as i128));
            assert(es2[w] == es[w]);
        }
    } else {
        let es = filter_fold(entries, traces, n - 1).1;
        if !known(es, id) {
            let es2 = es.push((traces[i]@[0].trace_id, (traces[i]@[0].timestamp / 1000) as i128));
            assert(es2[es.len() as int].0@ == id);
        }
    }
}

proof fn lemma_known_not_kept(entries: Seq<(String, i128)>, traces: Seq<Vec<Trace>>, n: int, j: int)
    requires
        0 <= j < traces.len(),
        traces[j]@.len() > 0,
        known(entries, traces[j]@[0].trace_id@),
    ensures
        forall|q: int| 0 <= q < filter_fold(entries, traces, n).0.len() ==> #[trigger] filter_fold(entries, traces, n).0[q] != j,
        forall|q: int| 0 <= q < filter_fold(entries, traces, n).0.len() ==> #[trigger] filter_fold(entries, traces, n).0[q] < n,
    decreases n,
{
    if n > 0 {
        lemma_known_not_kept(entries, traces, n - 1, j);
        let (k0, es) = filter_fold(entries, traces, n - 1);
        let k1 = filter_fold(entries, traces, n).0;
        if n - 1 == j {
            lemma_known_grows(entries, traces, n - 1, traces[j]@[0].trace_id@);
            assert(k1 == k0);
        }
        assert forall|q: int| 0 <= q < k1.len() implies #[trigger] k1[q] != j && k1[q] < n by {
            if q < k0.len() {
                assert(k1[q] == k0[q]);
            }
        }
    }
}

/// A trace is consumed once: once a batch holding a non-empty span group has been filtered,
/// a later batch drops every group whose first span carries that group's trace id.
pub proof fn lemma_filtered_once(
    entries: Seq<(String, i128)>,
    first: Seq<Vec<Trace>>,
    second: Seq<Vec<Trace>>,
    i: int,
    j: int,
)
    requires
        0 <= i < first.len(),
        first[i]@.len() > 0,
        0 <= j < second.len(),
        second[j]@.len() > 0,
        second[j]@[0].trace_id@ == first[i]@[0].trace_id@,
    ensures
        ({
            let after_first = filter_fold(entries, first, first.len() as int).1;
            let kept_second = filter_fold(after_first, second, second.len() as int).0;
            forall|q: int| 0 <= q < kept_second.len() ==> #[trigger] kept_second[q] != j
        }),
{
    lemma_kept_known(entries, first, first.len() as int, i);
    let after_first = filter_fold(entries, first, first.len() as int).1;
    lemma_known_not_kept(after_first, second, second.len() as int, j);
}

proof fn lemma_fold_wf(entries: Seq<(String, i128)>, traces: Seq<Vec<Trace>>, n: int)
    requires
        entries_wf(entries),
    ensures
        entries_wf(filter_fold(entries, traces, n).1),
    decreases n,
{
    if n > 0 {
        lemma_fold_wf(entries, traces, n - 1);
        let es = filter_fold(entries, traces, n - 1).1;
        let g = traces[n - 1]@;
        if g.len() > 0 && !known(es, g[0].trace_id@) {
            let x = (g[0].trace_id, (g[0].timestamp / 1000) as i128);
            let es2 = es.push(x);
            assert forall|i: int, j: int| 0 <= i < j < es2.len() implies (#[trigger] es2[i]).0@ != (#[trigger] es2[j]).0@ by {
                if j == es.len() {
                    assert(es2[i] == es[i]);
                } else {
                    assert(es2[i] == es[i] && es2[j] == es[j]);
                }
            }
            assert forall|i: int| 0 <= i < es2.len() implies 0 <= (#[trigger] es2[i]).1 <= u64::MAX by {
                if i < es.len() {
                    assert(es2[i] == es[i]);
                }
            }
        }
    }
}

proof fn lemma_fresh_wf(es: Seq<(String, i128)>, timeout: i128, now: u64, n: int)
    requires
        entries_wf(es),
        0 <= n <= es.len(),
    ensures
        entries_wf(fresh_entries(es, timeout, now, n)),
        forall|q: int|
            0 <= q < fresh_entries(es, timeout, now, n).len() ==> exists|j: int|
                0 <= j < n && #[trigger] fresh_entries(es, timeout, now, n)[q] == es[j],
    decreases n,
{
    if n > 0 {
        lemma_fresh_wf(es, timeout, now, n - 1);
        let f = fresh_entries(es, timeout, now, n - 1);
        if fresh(es[n - 1], timeout, now) {
            let f2 = f.push(es[n - 1]);
            assert forall|i: int, j: int| 0 <= i < j < f2.len() implies (#[trigger] f2[i]).0@ != (#[trigger] f2[j]).0@ by {
                if j == f.len() {
                    assert(f2[i] == f[i]);
                    let w = choose|w: int| 0 <= w < n - 1 && #[trigger] f[i] == es[w];
                    assert(es[w].0@ != es[n - 1].0@);
                } else {
                    assert(f2[i] == f[i] && f2[j] == f[j]);
                }
            }
            assert forall|q: int| 0 <= q < f2.len() implies exists|j: int|
                0 <= j < n && #[trigger] f2[q] == es[j] by {
                if q < f.len() {
                    assert(f2[q] == f[q]);
                    let w = choose|w: int| 0 <= w < n - 1 && #[trigger] f[q] == es[w];
                    assert(f2[q] == es[w]);
                } else {
                    assert(f2[q] == es[n - 1]);
                }
            }
            assert forall|i: int| 0 <= i < f2.len() implies 0 <= (#[trigger] f2[i]).1 <= u64::MAX by {
                if i < f.len() {
                    assert(f2[i] == f[i]);
                    let w = choose|w: int| 0 <= w < n - 1 && #[trigger] f[i] == es[w];
                    assert(f2[i] == es[w]);
                } else {
                    assert(f2[i] == es[n - 1]);
                }
            }
        } else {
            assert forall|q: int| 0 <= q < f.len() implies exists|j: int|
                0 <= j < n && #[trigger] f[q] == es[j] by {
                let w = choose|w: int| 0 <= w < n - 1 && #[trigger] f[q] == es[w];
                assert(f[q] == es[w]);
            }
        }
    }
}
} // verus!
