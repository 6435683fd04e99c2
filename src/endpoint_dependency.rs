//! The dependency graph between endpoints and the merging of two such graphs.
use vstd::prelude::*;
use crate::endpoint_info::EndpointInfo;
use crate::envoy_log::clone_text;
use crate::request_type::EndpointDependencyType;
use crate::text::{contains_text, text_views};

verus! {

/// One endpoint and the endpoints it calls (`depending_on`) and is called by (`depending_by`).
#[derive(Debug)]
pub struct EndpointDependency {
    pub _id: Option<String>,
    pub endpoint: EndpointInfo,
    pub depending_on: Vec<EndpointDependencyItem>,
    pub depending_by: Vec<EndpointDependencyItem>,
}

/// A related endpoint, at a distance of one or more calls.
#[derive(Debug)]
pub struct EndpointDependencyItem {
    pub endpoint: EndpointInfo,
    pub distance: u32,
    pub dep_type: EndpointDependencyType,
}

impl Clone for EndpointDependencyItem {
    fn clone(&self) -> (r: Self)
        ensures
            r == *self,
    {
        EndpointDependencyItem {
            endpoint: self.endpoint.clone(),
            distance: self.distance,
            dep_type: self.dep_type,
        }
    }
}

pub fn clone_items(v: &Vec<EndpointDependencyItem>) -> (r: Vec<EndpointDependencyItem>)
    ensures
        r@ == v@,
{
    let mut r: Vec<EndpointDependencyItem> = Vec::new();
    let mut i: usize = 0;
    while i < v.len()
        invariant
            i <= v.len(),
            r@ == v@.take(i as int),
        decreases v.len() - i,
    {
        r.push(v[i].clone());
        i += 1;
        assert(r@ =~= v@.take(i as int));
    }
    assert(v@.take(v.len() as int) =~= v@);
    r
}

/// Two items name the same dependency when endpoint name and distance agree: the key
/// `unique_endpoint_name \t distance`.
pub open spec fn same_item(a: EndpointDependencyItem, b: EndpointDependencyItem) -> bool {
    a.endpoint.unique_endpoint_name@ == b.endpoint.unique_endpoint_name@ && a.distance
        == b.distance
}

pub open spec fn has_item(s: Seq<EndpointDependencyItem>, x: EndpointDependencyItem) -> bool {
    exists|i: int| 0 <= i < s.len() && same_item(#[trigger] s[i], x)
}

/// No two items of the list name the same dependency.
pub open spec fn items_unique(s: Seq<EndpointDependencyItem>) -> bool {
    forall|i: int, j: int| 0 <= i < j < s.len() ==> !same_item(#[trigger] s[i], #[trigger] s[j])
}

/// `to` followed by those of the first `n` items of `from` whose dependency it does not hold
/// yet; the first of equal items wins.
pub open spec fn merged_items(
    to: Seq<EndpointDependencyItem>,
    from: Seq<EndpointDependencyItem>,
    n: int,
) -> Seq<EndpointDependencyItem>
    decreases n,
{
    if n <= 0 {
        to
    } else {
        let a = merged_items(to, from, n - 1);
        if has_item(a, from[n - 1]) {
            a
        } else {
            a.push(from[n - 1])
        }
    }
}

pub proof fn lemma_merged_unique(
    to: Seq<EndpointDependencyItem>,
    from: Seq<EndpointDependencyItem>,
    n: int,
)
    requires
        items_unique(to),
    ensures
        items_unique(merged_items(to, from, n)),
    decreases n,
{
    if n > 0 {
        lemma_merged_unique(to, from, n - 1);
        let a = merged_items(to, from, n - 1);
        if !has_item(a, from[n - 1]) {
            let b = a.push(from[n - 1]);
            assert forall|i: int, j: int| 0 <= i < j < b.len() implies !same_item(
                #[trigger] b[i],
                #[trigger] b[j],
            ) by {
                if j == b.len() - 1 {
                    assert(b[i] == a[i]);
                    if same_item(b[i], b[j]) {
                        assert(same_item(a[i], from[n - 1]));
                    }
                } else {
                    assert(b[i] == a[i] && b[j] == a[j]);
                }
            }
        }
    }
}

fn holds_item(s: &Vec<EndpointDependencyItem>, x: &EndpointDependencyItem) -> (r: bool)
    ensures
        r == has_item(s@, *x),
{
    let mut i: usize = 0;
    while i < s.len()
        invariant
            i <= s.len(),
            forall|q: int| 0 <= q < i ==> !same_item(#[trigger] s@[q], *x),
        decreases s.len() - i,
    {
        if s[i].endpoint.unique_endpoint_name == x.endpoint.unique_endpoint_name && s[i].distance
            == x.distance {
            return true;
        }
        i += 1;
    }
    false
}

/// Every dependency list of every entry holds each (endpoint, distance) at most once.
pub open spec fn lists_unique(deps: Seq<EndpointDependency>) -> bool {
    forall|i: int|
        0 <= i < deps.len() ==> items_unique((#[trigger] deps[i]).depending_by@) && items_unique(
            deps[i].depending_on@,
        )
}

pub open spec fn deps_named(d: EndpointDependency, name: Seq<char>) -> bool {
    d.endpoint.unique_endpoint_name@ == name
}

/// The lists of the entry for endpoint `name` after merging in the entries of `deps` from
/// index `lo` up to `n` that carry that name, in order.
pub open spec fn fold_lists(
    by: Seq<EndpointDependencyItem>,
    on: Seq<EndpointDependencyItem>,
    deps: Seq<EndpointDependency>,
    name: Seq<char>,
    lo: int,
    n: int,
) -> (Seq<EndpointDependencyItem>, Seq<EndpointDependencyItem>)
    decreases n - lo,
{
    if n <= lo {
        (by, on)
    } else {
        let (b, o) = fold_lists(by, on, deps, name, lo, n - 1);
        if deps_named(deps[n - 1], name) {
            (
                merged_items(b, deps[n - 1].depending_by@, deps[n - 1].depending_by@.len() as int),
                merged_items(o, deps[n - 1].depending_on@, deps[n - 1].depending_on@.len() as int),
            )
        } else {
            (b, o)
        }
    }
}

/// The index of the last entry for `name`.
pub open spec fn last_named(deps: Seq<EndpointDependency>, name: Seq<char>) -> Option<int>
    decreases deps.len(),
{
    if deps.len() == 0 {
        None
    } else if deps_named(deps.last(), name) {
        Some(deps.len() - 1)
    } else {
        last_named(deps.drop_last(), name)
    }
}

/// The index of the first entry for `name`.
pub open spec fn first_named(deps: Seq<EndpointDependency>, name: Seq<char>) -> Option<int>
    decreases deps.len(),
{
    if deps.len() == 0 {
        None
    } else {
        match first_named(deps.drop_last(), name) {
            Some(i) => Some(i),
            None => if deps_named(deps.last(), name) {
                Some(deps.len() - 1)
            } else {
                None
            },
        }
    }
}

proof fn lemma_first_named(deps: Seq<EndpointDependency>, name: Seq<char>)
    ensures
        match first_named(deps, name) {
            Some(i) => 0 <= i < deps.len() && deps_named(deps[i], name) && forall|j: int|
                0 <= j < i ==> !deps_named(#[trigger] deps[j], name),
            None => forall|i: int| 0 <= i < deps.len() ==> !deps_named(#[trigger] deps[i], name),
        },
    decreases deps.len(),
{
    if deps.len() > 0 {
        lemma_first_named(deps.drop_last(), name);
        assert forall|i: int| 0 <= i < deps.len() - 1 implies deps[i] == deps.drop_last()[i] by {}
    }
}

proof fn lemma_first_named_prefix(deps: Seq<EndpointDependency>, name: Seq<char>, m: int)
    requires
        0 <= m <= deps.len(),
        first_named(deps.take(m), name).is_some(),
    ensures
        first_named(deps, name) == first_named(deps.take(m), name),
    decreases deps.len() - m,
{
    if m < deps.len() {
        assert(deps.take(m + 1).drop_last() =~= deps.take(m));
        lemma_first_named_prefix(deps, name, m + 1);
    } else {
        assert(deps.take(m) =~= deps);
    }
}

/// The endpoint names of the first `n` entries of `deps`, each once, in order of first appearance.
pub open spec fn endpoint_names(deps: Seq<EndpointDependency>, n: int) -> Seq<Seq<char>>
    decreases n,
{
    if n <= 0 {
        Seq::empty()
    } else {
        let a = endpoint_names(deps, n - 1);
        if a.contains(deps[n - 1].endpoint.unique_endpoint_name@) {
            a
        } else {
            a.push(deps[n - 1].endpoint.unique_endpoint_name@)
        }
    }
}

/// The merged entry for endpoint `name`: the last entry of `dep1` with that name, or else the
/// first of `dep2`, with the lists of every later entry of `dep2` with that name merged in.
pub open spec fn merged_entry(
    dep1: Seq<EndpointDependency>,
    dep2: Seq<EndpointDependency>,
    name: Seq<char>,
    r: EndpointDependency,
) -> bool {
    let (base, lo) = match last_named(dep1, name) {
        Some(i) => (dep1[i], 0int),
        None => (dep2[first_named(dep2, name).unwrap()], first_named(dep2, name).unwrap() + 1),
    };
    let (by, on) = fold_lists(
        base.depending_by@,
        base.depending_on@,
        dep2,
        name,
        lo,
        dep2.len() as int,
    );
    &&& r._id == base._id
    &&& r.endpoint == base.endpoint
    &&& r.depending_by@ == by
    &&& r.depending_on@ == on
}


proof fn lemma_last_named(deps: Seq<EndpointDependency>, name: Seq<char>)
    ensures
        match last_named(deps, name) {
            Some(i) => 0 <= i < deps.len() && deps_named(deps[i], name),
            None => forall|i: int| 0 <= i < deps.len() ==> !deps_named(#[trigger] deps[i], name),
        },
    decreases deps.len(),
{
    if deps.len() > 0 {
        lemma_last_named(deps.drop_last(), name);
        if !deps_named(deps.last(), name) {
            assert forall|i: int| 0 <= i < deps.len() - 1 implies deps[i] == deps.drop_last()[i] by {}
        }
    }
}

fn find_last_named(deps: &Vec<EndpointDependency>, name: &String) -> (r: Option<usize>)
    ensures
        match r {
            Some(i) => last_named(deps@, name@) == Some(i as int),
            None => last_named(deps@, name@).is_none(),
        },
{
    let mut k: usize = deps.len();
    assert(deps@.take(k as int) =~= deps@);
    while k > 0
        invariant
            k <= deps.len(),
            last_named(deps@, name@) == last_named(deps@.take(k as int), name@),
        decreases k,
    {
        if deps[k - 1].endpoint.unique_endpoint_name == *name {
            return Some(k - 1);
        }
        assert(deps@.take(k as int).drop_last() =~= deps@.take(k - 1));
        k -= 1;
    }
    None
}

fn find_first_named(deps: &Vec<EndpointDependency>, name: &String) -> (r: Option<usize>)
    ensures
        match r {
            Some(i) => first_named(deps@, name@) == Some(i as int) && i < deps.len(),
            None => first_named(deps@, name@).is_none(),
        },
{
    let mut k: usize = 0;
    while k < deps.len()
        invariant
            k <= deps.len(),
            first_named(deps@.take(k as int), name@).is_none(),
        decreases deps.len() - k,
    {
        assert(deps@.take(k + 1).drop_last() =~= deps@.take(k as int));
        if deps[k].endpoint.unique_endpoint_name == *name {
            proof {
                lemma_first_named_prefix(deps@, name@, k + 1);
            }
            return Some(k);
        }
        k += 1;
    }
    assert(deps@.take(k as int) =~= deps@);
    None
}

/// An endpoint name found in either graph has a base entry.
proof fn lemma_base_exists(dep1: Seq<EndpointDependency>, dep2: Seq<EndpointDependency>, name: Seq<char>, j: int)
    requires
        0 <= j < dep1.len() + dep2.len(),
        deps_named((dep1 + dep2)[j], name),
    ensures
        last_named(dep1, name).is_some() || first_named(dep2, name).is_some(),
        last_named(dep1, name).is_none() ==> first_named(dep2, name).unwrap() < dep2.len(),
{
    lemma_last_named(dep1, name);
    lemma_first_named(dep2, name);
    if j < dep1.len() {
        assert((dep1 + dep2)[j] == dep1[j]);
    } else {
        assert((dep1 + dep2)[j] == dep2[j - dep1.len()]);
    }
}

/// Appends the name of `d`, the entry at `i` of `all`, unless `names` holds it.
fn add_name(
    names: &mut Vec<String>,
    d: &EndpointDependency,
    Ghost(all): Ghost<Seq<EndpointDependency>>,
    Ghost(i): Ghost<int>,
)
    requires
        0 <= i < all.len(),
        *d == all[i],
        text_views(old(names)@) == endpoint_names(all, i),
        forall|q: int|
            0 <= q < old(names)@.len() ==> exists|j: int|
                0 <= j < i && deps_named(#[trigger] all[j], #[trigger] old(names)@[q]@),
    ensures
        text_views(final(names)@) == endpoint_names(all, i + 1),
        forall|q: int|
            0 <= q < final(names)@.len() ==> exists|j: int|
                0 <= j < i + 1 && deps_named(#[trigger] all[j], #[trigger] final(names)@[q]@),
{
    if !contains_text(names, &d.endpoint.unique_endpoint_name) {
        let ghost before = names@;
        names.push(d.endpoint.unique_endpoint_name.clone());
        assert(text_views(names@) =~= endpoint_names(all, i + 1));
        assert forall|q: int| 0 <= q < names@.len() implies exists|j: int|
            0 <= j < i + 1 && deps_named(#[trigger] all[j], #[trigger] names@[q]@) by {
            if q < before.len() {
                assert(names@[q] == before[q]);
            } else {
                assert(deps_named(all[i], names@[q]@));
            }
        }
    }
}

impl EndpointDependency {
    /// Merges `from` into `to`: an item is appended unless `to` already holds one with the same
    /// endpoint name and distance.
    pub fn merge_dependencies(from: &Vec<EndpointDependencyItem>, to: &mut Vec<EndpointDependencyItem>)
        ensures
            final(to)@ == merged_items(old(to)@, from@, from@.len() as int),
    {
        let mut i: usize = 0;
        while i < from.len()
            invariant
                i <= from.len(),
                to@ == merged_items(old(to)@, from@, i as int),
            decreases from.len() - i,
        {
            if !holds_item(to, &from[i]) {
                to.push(from[i].clone());
            }
            i += 1;
        }
    }

    /// Merges two dependency graphs by endpoint name. For each name (in order of first
    /// appearance in `dep1` then `dep2`) the entry is the last one of `dep1`, or else the first
    /// of `dep2`; the lists of the later entries of `dep2` with that name are merged into it.
    #[verifier::rlimit(40)]
    pub fn combine(dep1: Vec<EndpointDependency>, dep2: Vec<EndpointDependency>) -> (r: Vec<
        EndpointDependency,
    >)
        ensures
            r@.len() == endpoint_names(dep1@ + dep2@, (dep1@.len() + dep2@.len()) as int).len(),
            forall|k: int|
                0 <= k < r@.len() ==> {
                    let name = endpoint_names(dep1@ + dep2@, (dep1@.len() + dep2@.len()) as int)[k];
                    &&& (#[trigger] r@[k]).endpoint.unique_endpoint_name@ == name
                    &&& merged_entry(dep1@, dep2@, name, r@[k])
                },
            lists_unique(dep1@) && lists_unique(dep2@) ==> lists_unique(r@),
    {
        let ghost all = dep1@ + dep2@;
        let n1 = dep1.len();
        let n2 = dep2.len();

        let mut names: Vec<String> = Vec::new();
        let mut i: usize = 0;
        while i < n1
            invariant
                n1 == dep1.len(),
                n2 == dep2.len(),
                all == dep1@ + dep2@,
                i <= n1,
                text_views(names@) == endpoint_names(all, i as int),
                forall|q: int|
                    0 <= q < names@.len() ==> exists|j: int|
                        0 <= j < i && deps_named(#[trigger] all[j], #[trigger] names@[q]@),
            decreases n1 - i,
        {
            assert(dep1@[i as int] == all[i as int]);
            add_name(&mut names, &dep1[i], Ghost(all), Ghost(i as int));
            i += 1;
        }
        let mut i: usize = 0;
        while i < n2
            invariant
                n1 == dep1.len(),
                n2 == dep2.len(),
                all == dep1@ + dep2@,
                i <= n2,
                text_views(names@) == endpoint_names(all, n1 + i),
                forall|q: int|
                    0 <= q < names@.len() ==> exists|j: int|
                        0 <= j < n1 + i && deps_named(#[trigger] all[j], #[trigger] names@[q]@),
            decreases n2 - i,
        {
            assert(dep2@[i as int] == all[n1 + i]);
            add_name(&mut names, &dep2[i], Ghost(all), Ghost(n1 + i));
            i += 1;
        }
        let mut out: Vec<EndpointDependency> = Vec::new();
        let mut k: usize = 0;
        while k < names.len()
            invariant
                n1 == dep1.len(),
                n2 == dep2.len(),
                all == dep1@ + dep2@,
                text_views(names@) == endpoint_names(all, all.len() as int),
                forall|q: int|
                    0 <= q < names@.len() ==> exists|j: int|
                        0 <= j < all.len() && deps_named(#[trigger] all[j], #[trigger] names@[q]@),
                k <= names.len(),
                out@.len() == k,
                forall|q: int|
                    0 <= q < k ==> {
                        let name = endpoint_names(all, all.len() as int)[q];
                        &&& (#[trigger] out@[q]).endpoint.unique_endpoint_name@ == name
                        &&& merged_entry(dep1@, dep2@, name, out@[q])
                    },
                lists_unique(dep1@) && lists_unique(dep2@) ==> lists_unique(out@),
            decreases names.len() - k,
        {
            let name = &names[k];
            assert(text_views(names@)[k as int] == name@);
            proof {
                let j = choose|j: int|
                    0 <= j < all.len() && deps_named(#[trigger] all[j], #[trigger] names@[k as int]@);
                lemma_base_exists(dep1@, dep2@, name@, j);
            }
            let (base, lo) = match find_last_named(&dep1, name) {
                Some(b) => {
                    proof {
                        lemma_last_named(dep1@, name@);
                    }
                    (&dep1[b], 0usize)
                },
                None => {
                    let f = find_first_named(&dep2, name).unwrap();
                    proof {
                        lemma_first_named(dep2@, name@);
                    }
                    (&dep2[f], f + 1)
                },
            };
            let mut by = clone_items(&base.depending_by);
            let mut on = clone_items(&base.depending_on);
            let mut j: usize = lo;
            while j < n2
                invariant
                    n2 == dep2.len(),
                    lo <= j <= n2 || (j == lo && lo == n2),
                    (by@, on@) == fold_lists(
                        base.depending_by@,
                        base.depending_on@,
                        dep2@,
                        name@,
                        lo as int,
                        j as int,
                    ),
                decreases n2 - j,
            {
                if dep2[j].endpoint.unique_endpoint_name == *name {
                    EndpointDependency::merge_dependencies(&dep2[j].depending_by, &mut by);
                    EndpointDependency::merge_dependencies(&dep2[j].depending_on, &mut on);
                }
                j += 1;
            }
            let entry = EndpointDependency {
                _id: clone_text(&base._id),
                endpoint: base.endpoint.clone(),
                depending_on: on,
                depending_by: by,
            };
            assert(entry.endpoint.unique_endpoint_name@ == name@);
            assert(merged_entry(dep1@, dep2@, name@, entry));
            proof {
                if lists_unique(dep1@) && lists_unique(dep2@) {
                    let j = choose|j: int|
                        0 <= j < all.len() && deps_named(#[trigger] all[j], #[trigger] names@[k as int]@);
                    lemma_base_exists(dep1@, dep2@, name@, j);
                    lemma_combined_lists_unique(dep1@, dep2@, name@, entry);
                }
            }
            let ghost before = out@;
            out.push(entry);
            assert forall|q: int| 0 <= q < k + 1 implies {
                let nm = endpoint_names(all, all.len() as int)[q];
                &&& (#[trigger] out@[q]).endpoint.unique_endpoint_name@ == nm
                &&& merged_entry(dep1@, dep2@, nm, out@[q])
            } by {
                if q < k {
                    assert(out@[q] == before[q]);
                }
            }
            assert(forall|q: int| 0 <= q < k ==> out@[q] == before[q]);
            k += 1;
        }
        out
    }
}

/// A merged dependency list holds no two items with the same endpoint and distance, when
/// the lists merged into it hold none.
pub proof fn lemma_combined_lists_unique(
    dep1: Seq<EndpointDependency>,
    dep2: Seq<EndpointDependency>,
    name: Seq<char>,
    r: EndpointDependency,
)
    requires
        lists_unique(dep1),
        lists_unique(dep2),
        last_named(dep1, name).is_some() || first_named(dep2, name).is_some(),
        merged_entry(dep1, dep2, name, r),
    ensures
        items_unique(r.depending_by@),
        items_unique(r.depending_on@),
{
    lemma_last_named(dep1, name);
    let (base, lo) = match last_named(dep1, name) {
        Some(i) => (dep1[i], 0int),
        None => (dep2[first_named(dep2, name).unwrap()], first_named(dep2, name).unwrap() + 1),
    };
    lemma_first_named(dep2, name);
    lemma_fold_unique(base.depending_by@, base.depending_on@, dep2, name, lo, dep2.len() as int);
}

proof fn lemma_fold_unique(
    by: Seq<EndpointDependencyItem>,
    on: Seq<EndpointDependencyItem>,
    deps: Seq<EndpointDependency>,
    name: Seq<char>,
    lo: int,
    n: int,
)
    requires
        items_unique(by),
        items_unique(on),
    ensures
        items_unique(fold_lists(by, on, deps, name, lo, n).0),
        items_unique(fold_lists(by, on, deps, name, lo, n).1),
    decreases n - lo,
{
    if n > lo {
        lemma_fold_unique(by, on, deps, name, lo, n - 1);
        let (b, o) = fold_lists(by, on, deps, name, lo, n - 1);
        if deps_named(deps[n - 1], name) {
            lemma_merged_unique(b, deps[n - 1].depending_by@, deps[n - 1].depending_by@.len() as int);
            lemma_merged_unique(o, deps[n - 1].depending_on@, deps[n - 1].depending_on@.len() as int);
        }
    }
}
} // verus!
