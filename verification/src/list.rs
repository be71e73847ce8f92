//! The routes to one peer: a short list, each with the time at which it was last heard of.
use vstd::prelude::*;

use crate::route::{Route, RouteKey, DIRECT_METRIC};

verus! {

/// A route with the time, in nanoseconds, at which something last came in over it.
#[derive(Clone, Copy, Debug, PartialEq, Eq, Structural)]
pub struct RouteEntry {
    /// The route.
    pub route: Route,
    /// When something last came in over the route.
    pub read_time: u128,
}

/// The routes of the entries, in their order.
pub open spec fn routes_of(list: Seq<RouteEntry>) -> Seq<Route> {
    list.map_values(|e: RouteEntry| e.route)
}

/// Whether `list` holds a route with the key `key`.
pub open spec fn lists_key(list: Seq<RouteEntry>, key: RouteKey) -> bool {
    exists|i: int| 0 <= i < list.len() && (#[trigger] list[i]).route.key() == key
}

/// No two routes of the list share a key.
pub open spec fn distinct_keys(list: Seq<RouteEntry>) -> bool {
    forall|i: int, j: int|
        0 <= i < j < list.len() ==> (#[trigger] list[i]).route.key() != (
        #[trigger] list[j]).route.key()
}

// ---------------------------------------------------------------------------------------------
// Ordering by round-trip time

/// The list goes from the smallest round-trip time to the largest.
pub open spec fn sorted_by_rt(list: Seq<RouteEntry>) -> bool {
    forall|i: int, j: int|
        0 <= i <= j < list.len() ==> (#[trigger] list[i]).route.rt <= (#[trigger] list[j]).route.rt
}

/// The entries of the list with round-trip time `rt`, in their order.
pub open spec fn with_rt(list: Seq<RouteEntry>, rt: i64) -> Seq<RouteEntry> {
    list.filter(|e: RouteEntry| e.route.rt == rt)
}

/// `sorted` holds what `list` holds, from the smallest round-trip time to the largest, entries
/// with the same round-trip time in the order that they have in `list`.
pub open spec fn stable_sort_of(list: Seq<RouteEntry>, sorted: Seq<RouteEntry>) -> bool {
    &&& sorted_by_rt(sorted)
    &&& forall|rt: i64| #[trigger] with_rt(sorted, rt) == with_rt(list, rt)
}

/// `entry` put into a sorted list, behind the entries with the same round-trip time.
pub open spec fn insert_by_rt(sorted: Seq<RouteEntry>, entry: RouteEntry) -> Seq<RouteEntry>
    decreases sorted.len(),
{
    if sorted.len() == 0 || sorted.last().route.rt <= entry.route.rt {
        sorted.push(entry)
    } else {
        insert_by_rt(sorted.drop_last(), entry).push(sorted.last())
    }
}

/// The list ordered by round-trip time, entries with the same one in the order that they had.
pub open spec fn sort_by_rt(list: Seq<RouteEntry>) -> Seq<RouteEntry>
    decreases list.len(),
{
    if list.len() == 0 {
        list
    } else {
        insert_by_rt(sort_by_rt(list.drop_last()), list.last())
    }
}

/// Putting an entry into a sorted list is an insertion at one place.
proof fn lemma_insert_by_rt_at(sorted: Seq<RouteEntry>, entry: RouteEntry, at: int)
    requires
        0 <= at <= sorted.len(),
        at > 0 ==> sorted[at - 1].route.rt <= entry.route.rt,
        forall|k: int| at <= k < sorted.len() ==> (#[trigger] sorted[k]).route.rt > entry.route.rt,
    ensures
        insert_by_rt(sorted, entry) == sorted.insert(at, entry),
    decreases sorted.len(),
{
    if at == sorted.len() {
        assert(sorted.insert(at, entry) =~= sorted.push(entry));
    } else {
        let rest = sorted.drop_last();
        assert(sorted.last() == sorted[sorted.len() - 1]);
        lemma_insert_by_rt_at(rest, entry, at);
        assert(sorted.insert(at, entry) =~= rest.insert(at, entry).push(sorted.last()));
    }
}

/// The place at which `insert_by_rt` puts the entry.
proof fn lemma_insert_by_rt_place(sorted: Seq<RouteEntry>, entry: RouteEntry) -> (at: int)
    requires
        sorted_by_rt(sorted),
    ensures
        0 <= at <= sorted.len(),
        at > 0 ==> sorted[at - 1].route.rt <= entry.route.rt,
        forall|k: int| at <= k < sorted.len() ==> (#[trigger] sorted[k]).route.rt > entry.route.rt,
        insert_by_rt(sorted, entry) == sorted.insert(at, entry),
    decreases sorted.len(),
{
    let at = if sorted.len() == 0 || sorted.last().route.rt <= entry.route.rt {
        sorted.len() as int
    } else {
        lemma_insert_by_rt_place(sorted.drop_last(), entry)
    };
    assert forall|k: int| at <= k < sorted.len() implies (#[trigger] sorted[k]).route.rt
        > entry.route.rt by {
        if k < sorted.len() - 1 {
            assert(sorted.drop_last()[k] == sorted[k]);
        }
    }
    lemma_insert_by_rt_at(sorted, entry, at);
    at
}

/// Filtering a list to which an entry was appended.
proof fn lemma_filter_push(
    list: Seq<RouteEntry>,
    entry: RouteEntry,
    keep: spec_fn(RouteEntry) -> bool,
)
    ensures
        list.push(entry).filter(keep) == (if keep(entry) {
            list.filter(keep).push(entry)
        } else {
            list.filter(keep)
        }),
{
    reveal(Seq::filter);
    assert(list.push(entry).drop_last() =~= list);
}

/// The entries with one round-trip time, of a list to which an entry was appended.
proof fn lemma_with_rt_push(list: Seq<RouteEntry>, entry: RouteEntry, rt: i64)
    ensures
        with_rt(list.push(entry), rt) == (if entry.route.rt == rt {
            with_rt(list, rt).push(entry)
        } else {
            with_rt(list, rt)
        }),
{
    lemma_filter_push(list, entry, |e: RouteEntry| e.route.rt == rt);
}

/// Putting an entry into place changes no list of entries with one round-trip time other than
/// by appending it.
proof fn lemma_insert_by_rt_stable(sorted: Seq<RouteEntry>, entry: RouteEntry, rt: i64)
    ensures
        with_rt(insert_by_rt(sorted, entry), rt) == with_rt(sorted.push(entry), rt),
    decreases sorted.len(),
{
    if sorted.len() == 0 || sorted.last().route.rt <= entry.route.rt {
    } else {
        let rest = sorted.drop_last();
        let last = sorted.last();
        lemma_insert_by_rt_stable(rest, entry, rt);
        lemma_with_rt_push(insert_by_rt(rest, entry), last, rt);
        lemma_with_rt_push(rest, entry, rt);
        lemma_with_rt_push(rest, last, rt);
        lemma_with_rt_push(sorted, entry, rt);
        assert(sorted =~= rest.push(last));
    }
}

/// Ordering a list is a stable sort: the outcome goes from the smallest round-trip time to the
/// largest, and entries with the same one keep their order.
pub proof fn lemma_sort_by_rt_is_stable_sort(list: Seq<RouteEntry>)
    ensures
        stable_sort_of(list, sort_by_rt(list)),
        sort_by_rt(list).len() == list.len(),
    decreases list.len(),
{
    if list.len() > 0 {
        let rest = list.drop_last();
        let entry = list.last();
        lemma_sort_by_rt_is_stable_sort(rest);
        let sorted = sort_by_rt(rest);
        let at = lemma_insert_by_rt_place(sorted, entry);
        let out = sorted.insert(at, entry);
        assert(sorted_by_rt(out)) by {
            assert forall|i: int, j: int| 0 <= i <= j < out.len() implies (
            #[trigger] out[i]).route.rt <= (#[trigger] out[j]).route.rt by {
                if i < at && at <= j {
                    assert(sorted[i].route.rt <= sorted[at - 1].route.rt);
                }
            }
        }
        assert forall|rt: i64| #[trigger]
            with_rt(sort_by_rt(list), rt) == with_rt(list, rt) by {
            lemma_insert_by_rt_stable(sorted, entry, rt);
            lemma_with_rt_push(sorted, entry, rt);
            lemma_with_rt_push(rest, entry, rt);
            assert(list =~= rest.push(entry));
            assert(with_rt(sorted, rt) == with_rt(rest, rt));
        }
    }
}

/// An entry of the list stands among the entries with its round-trip time, and the other way
/// round.
proof fn lemma_with_rt_members(list: Seq<RouteEntry>, rt: i64)
    ensures
        forall|i: int|
            0 <= i < list.len() && list[i].route.rt == rt ==> with_rt(list, rt).contains(
                #[trigger] list[i],
            ),
        forall|e: RouteEntry| #[trigger]
            with_rt(list, rt).contains(e) ==> list.contains(e) && e.route.rt == rt,
{
    let keep = |e: RouteEntry| e.route.rt == rt;
    assert forall|i: int| 0 <= i < list.len() && list[i].route.rt == rt implies with_rt(
        list,
        rt,
    ).contains(#[trigger] list[i]) by {
        list.lemma_filter_contains(keep, i);
    }
    assert forall|e: RouteEntry| #[trigger] with_rt(list, rt).contains(e) implies list.contains(e)
        && e.route.rt == rt by {
        list.lemma_filter_contains_rev(keep, e);
    }
}

/// Two lists that go from the smallest round-trip time to the largest, and agree on the entries
/// of every round-trip time, are the same.
proof fn lemma_sorted_determined(a: Seq<RouteEntry>, b: Seq<RouteEntry>)
    requires
        sorted_by_rt(a),
        sorted_by_rt(b),
        forall|rt: i64| #[trigger] with_rt(a, rt) == with_rt(b, rt),
    ensures
        a == b,
    decreases a.len(),
{
    if a.len() == 0 {
        if b.len() > 0 {
            let rt = b[0].route.rt;
            lemma_with_rt_members(b, rt);
            lemma_with_rt_members(a, rt);
            assert(with_rt(a, rt).contains(b[0]));
        }
        assert(a =~= b);
    } else {
        let rt = a.last().route.rt;
        lemma_with_rt_members(a, rt);
        lemma_with_rt_members(b, rt);
        assert(with_rt(b, rt).contains(a[a.len() - 1]));
        let j = choose|j: int| 0 <= j < b.len() && b[j] == a.last();
        let last = b.last().route.rt;
        lemma_with_rt_members(a, last);
        lemma_with_rt_members(b, last);
        assert(with_rt(a, last).contains(b[b.len() - 1]));
        let i = choose|i: int| 0 <= i < a.len() && a[i] == b.last();
        assert(a[i].route.rt <= a[a.len() - 1].route.rt);
        assert(b[j].route.rt <= b[b.len() - 1].route.rt);
        assert(last == rt);

        let a0 = a.drop_last();
        let b0 = b.drop_last();
        assert(a =~= a0.push(a.last()));
        assert(b =~= b0.push(b.last()));
        lemma_with_rt_push(a0, a.last(), rt);
        lemma_with_rt_push(b0, b.last(), rt);
        assert(with_rt(a0, rt).push(a.last()).last() == with_rt(b0, rt).push(b.last()).last());
        assert forall|r: i64| #[trigger] with_rt(a0, r) == with_rt(b0, r) by {
            lemma_with_rt_push(a0, a.last(), r);
            lemma_with_rt_push(b0, b.last(), r);
            assert(with_rt(a, r) == with_rt(b, r));
            if r == rt {
                assert(with_rt(a0, r) =~= with_rt(a, r).drop_last());
                assert(with_rt(b0, r) =~= with_rt(b, r).drop_last());
            }
        }
        lemma_sorted_determined(a0, b0);
    }
}

/// A list has only one stable sort: the one that `sort_by_rt` gives.
pub proof fn lemma_stable_sort_unique(list: Seq<RouteEntry>, sorted: Seq<RouteEntry>)
    requires
        stable_sort_of(list, sorted),
    ensures
        sorted == sort_by_rt(list),
{
    lemma_sort_by_rt_is_stable_sort(list);
    assert forall|rt: i64| #[trigger] with_rt(sorted, rt) == with_rt(sort_by_rt(list), rt) by {
        assert(with_rt(sort_by_rt(list), rt) == with_rt(list, rt));
    }
    lemma_sorted_determined(sorted, sort_by_rt(list));
}

/// Orders the list by round-trip time; entries with the same one keep their order.
fn sort_list(list: &mut Vec<RouteEntry>)
    ensures
        final(list)@ == sort_by_rt(old(list)@),
{
    let n: usize = list.len();
    let mut out: Vec<RouteEntry> = Vec::new();
    let mut i: usize = 0;
    while i < n
        invariant
            n == list.len(),
            i <= n,
            out@ == sort_by_rt(list@.take(i as int)),
        decreases n - i,
    {
        let entry = list[i];
        proof {
            lemma_sort_by_rt_is_stable_sort(list@.take(i as int));
        }
        let mut at: usize = out.len();
        while at > 0 && out[at - 1].route.rt > entry.route.rt
            invariant
                at <= out.len(),
                forall|k: int|
                    at <= k < out.len() ==> (#[trigger] out[k]).route.rt > entry.route.rt,
            decreases at,
        {
            at = at - 1;
        }
        proof {
            lemma_insert_by_rt_at(out@, entry, at as int);
            assert(list@.take(i + 1).drop_last() =~= list@.take(i as int));
        }
        out.insert(at, entry);
        i = i + 1;
    }
    proof {
        assert(list@.take(n as int) =~= list@);
    }
    *list = out;
}

// ---------------------------------------------------------------------------------------------
// Adding and removing routes

/// The direct routes of the list, in their order.
pub open spec fn direct_only(list: Seq<RouteEntry>) -> Seq<RouteEntry> {
    list.filter(|e: RouteEntry| e.route.direct())
}

/// The list without the routes with the key `key`.
pub open spec fn without_key(list: Seq<RouteEntry>, key: RouteKey) -> Seq<RouteEntry> {
    list.filter(|e: RouteEntry| e.route.key() != key)
}

/// Whether an offered route goes no further than this entry: the entry has its key or, where
/// few hops come before latency, fewer hops.
pub open spec fn settles(entry: RouteEntry, route: Route, first_latency: bool) -> bool {
    (entry.route.metric < route.metric && !first_latency) || entry.route.key() == route.key()
}

/// The place, from `start` on, of the first entry at which an offered route is settled; the
/// length of the list if there is none.
pub open spec fn settled_at(
    list: Seq<RouteEntry>,
    route: Route,
    first_latency: bool,
    start: int,
) -> int
    decreases list.len() - start,
{
    if start < 0 || start >= list.len() {
        list.len() as int
    } else if settles(list[start], route, first_latency) {
        start
    } else {
        settled_at(list, route, first_latency, start + 1)
    }
}

/// Whether the list turns the offered route away because it knows a way with fewer hops.
pub open spec fn turned_away(list: Seq<RouteEntry>, route: Route, first_latency: bool) -> bool {
    let at = settled_at(list, route, first_latency, 0);
    at < list.len() && list[at].route.metric < route.metric && !first_latency
}

/// How many routes of the list stay when a route with a new key comes in.
pub open spec fn room(first_latency: bool, channel_num: nat) -> nat {
    if first_latency {
        channel_num + 1
    } else {
        channel_num
    }
}

/// The list after a route with a key that it does not hold came in at time `now`.
pub open spec fn appended(
    list: Seq<RouteEntry>,
    route: Route,
    first_latency: bool,
    channel_num: nat,
    now: u128,
) -> Seq<RouteEntry> {
    let kept = if !first_latency && route.direct() {
        direct_only(list)
    } else {
        list
    };
    let sorted = sort_by_rt(kept);
    let room = room(first_latency, channel_num);
    let cut = if sorted.len() > room {
        sorted.take(room as int)
    } else {
        sorted
    };
    cut.push(RouteEntry { route, read_time: now })
}

/// The list after the metric and round-trip time of its entry at `at` were replaced at `now`.
pub open spec fn refreshed(list: Seq<RouteEntry>, at: int, route: Route, now: u128) -> Seq<
    RouteEntry,
> {
    sort_by_rt(
        list.update(
            at,
            RouteEntry {
                route: Route { metric: route.metric, rt: route.rt, ..list[at].route },
                read_time: now,
            },
        ),
    )
}

/// The list after the route was offered to it at time `now`.
pub open spec fn added(
    list: Seq<RouteEntry>,
    route: Route,
    only_if_absent: bool,
    first_latency: bool,
    channel_num: nat,
    now: u128,
) -> Seq<RouteEntry> {
    let at = settled_at(list, route, first_latency, 0);
    if at >= list.len() {
        appended(list, route, first_latency, channel_num, now)
    } else if turned_away(list, route, first_latency) || only_if_absent {
        list
    } else {
        refreshed(list, at, route, now)
    }
}

/// The list after something came in at time `now` over the route with the key.
pub open spec fn heard(list: Seq<RouteEntry>, key: RouteKey, now: u128) -> Seq<RouteEntry> {
    list.map_values(
        |e: RouteEntry|
            if e.route.key() == key {
                RouteEntry { read_time: now, ..e }
            } else {
                e
            },
    )
}

/// Keeps the direct routes only.
fn retain_direct(list: &mut Vec<RouteEntry>)
    ensures
        final(list)@ == direct_only(old(list)@),
{
    let n: usize = list.len();
    let mut out: Vec<RouteEntry> = Vec::new();
    let mut i: usize = 0;
    proof {
        reveal(Seq::filter);
    }
    while i < n
        invariant
            n == list.len(),
            i <= n,
            out@ == direct_only(list@.take(i as int)),
        decreases n - i,
    {
        let entry = list[i];
        proof {
            lemma_filter_push(
                list@.take(i as int),
                entry,
                |e: RouteEntry| e.route.direct(),
            );
            assert(list@.take(i + 1) =~= list@.take(i as int).push(entry));
        }
        if entry.route.metric == DIRECT_METRIC {
            out.push(entry);
        }
        i = i + 1;
    }
    proof {
        assert(list@.take(n as int) =~= list@);
    }
    *list = out;
}

/// Takes out the routes with the key `key`.
pub(crate) fn remove_key(list: &mut Vec<RouteEntry>, key: RouteKey)
    ensures
        final(list)@ == without_key(old(list)@, key),
{
    let n: usize = list.len();
    let mut out: Vec<RouteEntry> = Vec::new();
    let mut i: usize = 0;
    proof {
        reveal(Seq::filter);
    }
    while i < n
        invariant
            n == list.len(),
            i <= n,
            out@ == without_key(list@.take(i as int), key),
        decreases n - i,
    {
        let entry = list[i];
        proof {
            lemma_filter_push(
                list@.take(i as int),
                entry,
                |e: RouteEntry| e.route.key() != key,
            );
            assert(list@.take(i + 1) =~= list@.take(i as int).push(entry));
        }
        if entry.route.route_key() != key {
            out.push(entry);
        }
        i = i + 1;
    }
    proof {
        assert(list@.take(n as int) =~= list@);
    }
    *list = out;
}

/// Offers a route to the list at time `now`.
pub(crate) fn add_to_list(
    list: &mut Vec<RouteEntry>,
    route: Route,
    only_if_absent: bool,
    first_latency: bool,
    channel_num: usize,
    now: u128,
)
    requires
        channel_num < usize::MAX,
    ensures
        final(list)@ == added(
            old(list)@,
            route,
            only_if_absent,
            first_latency,
            channel_num as nat,
            now,
        ),
{
    let key = route.route_key();
    let ghost before = list@;
    let n: usize = list.len();
    let mut i: usize = 0;
    while i < n
        invariant
            n == list.len(),
            i <= n,
            list@ == before,
            before == old(list)@,
            key == route.key(),
            settled_at(before, route, first_latency, 0) == settled_at(
                before,
                route,
                first_latency,
                i as int,
            ),
        decreases n - i,
    {
        let entry = list[i];
        if entry.route.metric < route.metric && !first_latency {
            return;
        }
        if entry.route.route_key() == key {
            if only_if_absent {
                return;
            }
            list.set(
                i,
                RouteEntry {
                    route: Route {
                        index: entry.route.index,
                        addr: entry.route.addr,
                        metric: route.metric,
                        rt: route.rt,
                    },
                    read_time: now,
                },
            );
            sort_list(list);
            return;
        }
        i = i + 1;
    }
    let max_len: usize = if first_latency {
        channel_num + 1
    } else {
        if route.metric == DIRECT_METRIC {
            retain_direct(list);
        }
        channel_num
    };
    sort_list(list);
    if list.len() > max_len {
        list.truncate(max_len);
    }
    list.push(RouteEntry { route, read_time: now });
}

/// The routes of the entries, in their order.
pub(crate) fn copy_routes(list: &Vec<RouteEntry>) -> (routes: Vec<Route>)
    ensures
        routes@ == routes_of(list@),
{
    let mut routes: Vec<Route> = Vec::new();
    let mut i: usize = 0;
    while i < list.len()
        invariant
            i <= list.len(),
            routes@ == routes_of(list@).take(i as int),
        decreases list.len() - i,
    {
        routes.push(list[i].route);
        i = i + 1;
    }
    routes
}

/// The number of direct routes in the list.
pub(crate) fn count_direct(list: &Vec<RouteEntry>) -> (count: usize)
    ensures
        count == direct_only(list@).len(),
{
    let mut count: usize = 0;
    let mut i: usize = 0;
    proof {
        reveal(Seq::filter);
    }
    while i < list.len()
        invariant
            i <= list.len(),
            count <= i,
            count == direct_only(list@.take(i as int)).len(),
        decreases list.len() - i,
    {
        proof {
            lemma_filter_push(
                list@.take(i as int),
                list@[i as int],
                |e: RouteEntry| e.route.direct(),
            );
            assert(list@.take(i + 1) =~= list@.take(i as int).push(list@[i as int]));
        }
        if list[i].route.is_p2p() {
            count = count + 1;
        }
        i = i + 1;
    }
    proof {
        assert(list@.take(i as int) =~= list@);
    }
    count
}

/// Notes that something came in over the route with the key at time `now`.
pub(crate) fn mark_heard(list: &mut Vec<RouteEntry>, key: RouteKey, now: u128)
    requires
        distinct_keys(old(list)@),
    ensures
        final(list)@ == heard(old(list)@, key, now),
{
    let ghost before = list@;
    let n: usize = list.len();
    let mut i: usize = 0;
    while i < n
        invariant
            n == list.len(),
            i <= n,
            list@ == before,
            before == old(list)@,
            distinct_keys(before),
            forall|j: int| 0 <= j < i ==> (#[trigger] before[j]).route.key() != key,
        decreases n - i,
    {
        let entry = list[i];
        if entry.route.route_key() == key {
            list.set(i, RouteEntry { route: entry.route, read_time: now });
            proof {
                assert forall|j: int| i < j < n implies (#[trigger] before[j]).route.key()
                    != key by {
                    assert(before[i as int].route.key() != before[j].route.key());
                }
                assert(list@ =~= heard(before, key, now));
            }
            return;
        }
        i = i + 1;
    }
    proof {
        assert(list@ =~= heard(before, key, now));
    }
}

// ---------------------------------------------------------------------------------------------
// What holds of every list

/// What holds of the routes to a peer at all times: no key occurs twice, there are at most one
/// more than stay beside a new one, and all but the last go from the smallest round-trip time
/// to the largest.
pub open spec fn list_wf(list: Seq<RouteEntry>, first_latency: bool, channel_num: nat) -> bool {
    &&& distinct_keys(list)
    &&& list.len() <= room(first_latency, channel_num) + 1
    &&& list.len() > 0 ==> sorted_by_rt(list.drop_last())
}

/// What a filter leaves stood in the list before, in the same order.
pub(crate) proof fn lemma_filter_keeps(list: Seq<RouteEntry>, keep: spec_fn(RouteEntry) -> bool)
    ensures
        list.filter(keep).len() <= list.len(),
        forall|i: int|
            0 <= i < list.filter(keep).len() ==> list.contains(#[trigger] list.filter(keep)[i]),
        forall|i: int| 0 <= i < list.filter(keep).len() ==> keep(#[trigger] list.filter(keep)[i]),
        distinct_keys(list) ==> distinct_keys(list.filter(keep)),
        sorted_by_rt(list) ==> sorted_by_rt(list.filter(keep)),
        list.len() > 0 && sorted_by_rt(list.drop_last()) && list.filter(keep).len() > 0
            ==> sorted_by_rt(list.filter(keep).drop_last()),
    decreases list.len(),
{
    let out = list.filter(keep);
    if list.len() == 0 {
        reveal(Seq::filter);
    } else {
        let rest = list.drop_last();
        let last = list.last();
        lemma_filter_keeps(rest, keep);
        lemma_filter_push(rest, last, keep);
        assert(list =~= rest.push(last));
        assert forall|i: int| 0 <= i < out.len() implies list.contains(#[trigger] out[i]) by {
            if i < rest.filter(keep).len() {
                assert(rest.contains(rest.filter(keep)[i]));
                let k = choose|k: int| 0 <= k < rest.len() && rest[k] == rest.filter(keep)[i];
                assert(list[k] == out[i]);
            } else {
                assert(list[list.len() - 1] == out[i]);
            }
        }
        assert forall|i: int| 0 <= i < out.len() implies keep(#[trigger] out[i]) by {
            if i < rest.filter(keep).len() {
                assert(keep(rest.filter(keep)[i]));
            }
        }
        if distinct_keys(list) {
            assert(distinct_keys(rest));
            assert forall|i: int, j: int| 0 <= i < j < out.len() implies (
            #[trigger] out[i]).route.key() != (#[trigger] out[j]).route.key() by {
                if j == rest.filter(keep).len() {
                    assert(rest.contains(rest.filter(keep)[i]));
                    let k = choose|k: int| 0 <= k < rest.len() && rest[k] == rest.filter(keep)[i];
                    assert(list[k].route.key() != list[list.len() - 1].route.key());
                } else {
                    assert(rest.filter(keep)[i].route.key() != rest.filter(keep)[j].route.key());
                }
            }
        }
        if sorted_by_rt(list) {
            assert(sorted_by_rt(rest));
            assert forall|i: int, j: int| 0 <= i <= j < out.len() implies (
            #[trigger] out[i]).route.rt <= (#[trigger] out[j]).route.rt by {
                if j == rest.filter(keep).len() {
                    if i < j {
                        assert(rest.contains(rest.filter(keep)[i]));
                        let k = choose|k: int|
                            0 <= k < rest.len() && rest[k] == rest.filter(keep)[i];
                        assert(list[k].route.rt <= list[list.len() - 1].route.rt);
                    }
                } else {
                    assert(rest.filter(keep)[i].route.rt <= rest.filter(keep)[j].route.rt);
                }
            }
        }
        if sorted_by_rt(rest) && out.len() > 0 {
            let prefix = rest.filter(keep);
            if keep(last) {
                assert(out.drop_last() =~= prefix);
            } else {
                assert forall|i: int, j: int| 0 <= i <= j < out.drop_last().len() implies (
                #[trigger] out.drop_last()[i]).route.rt <= (
                #[trigger] out.drop_last()[j]).route.rt by {
                    assert(prefix[i].route.rt <= prefix[j].route.rt);
                }
            }
        }
    }
}

/// Ordering a list neither loses nor adds entries, and keeps keys apart.
pub(crate) proof fn lemma_sort_by_rt_members(list: Seq<RouteEntry>)
    ensures
        sort_by_rt(list).len() == list.len(),
        forall|e: RouteEntry| #[trigger] sort_by_rt(list).contains(e) <==> list.contains(e),
        distinct_keys(list) ==> distinct_keys(sort_by_rt(list)),
    decreases list.len(),
{
    if list.len() > 0 {
        let rest = list.drop_last();
        let entry = list.last();
        lemma_sort_by_rt_members(rest);
        lemma_sort_by_rt_is_stable_sort(rest);
        let sorted = sort_by_rt(rest);
        let at = lemma_insert_by_rt_place(sorted, entry);
        let out = sort_by_rt(list);
        assert(out == sorted.insert(at, entry));
        assert(list =~= rest.push(entry));
        assert forall|e: RouteEntry| #[trigger] out.contains(e) <==> list.contains(e) by {
            if out.contains(e) {
                let i = choose|i: int| 0 <= i < out.len() && out[i] == e;
                if i == at {
                    assert(list[list.len() - 1] == e);
                } else {
                    assert(sorted[if i < at { i } else { i - 1 }] == e);
                    assert(sorted.contains(e));
                    assert(rest.contains(e));
                    let k = choose|k: int| 0 <= k < rest.len() && rest[k] == e;
                    assert(list[k] == e);
                }
            }
            if list.contains(e) {
                let k = choose|k: int| 0 <= k < list.len() && list[k] == e;
                if k == list.len() - 1 {
                    assert(out[at] == e);
                } else {
                    assert(rest[k] == e);
                    assert(sorted.contains(e));
                    let i = choose|i: int| 0 <= i < sorted.len() && sorted[i] == e;
                    assert(out[if i < at { i } else { i + 1 }] == e);
                }
            }
        }
        if distinct_keys(list) {
            assert(distinct_keys(rest));
            assert forall|i: int| 0 <= i < sorted.len() implies (#[trigger] sorted[i]).route.key()
                != entry.route.key() by {
                assert(sorted.contains(sorted[i]));
                let k = choose|k: int| 0 <= k < rest.len() && rest[k] == sorted[i];
                assert(list[k].route.key() != list[list.len() - 1].route.key());
            }
            assert forall|i: int, j: int| 0 <= i < j < out.len() implies (
            #[trigger] out[i]).route.key() != (#[trigger] out[j]).route.key() by {
                let i0 = if i < at { i } else { i - 1 };
                let j0 = if j < at { j } else { j - 1 };
                if i != at && j != at {
                    assert(sorted[i0].route.key() != sorted[j0].route.key());
                } else if i == at {
                    assert(sorted[j0].route.key() != entry.route.key());
                } else {
                    assert(sorted[i0].route.key() != entry.route.key());
                }
            }
        }
    }
}

/// Where an offered route is settled: no entry before that place settles it.
pub(crate) proof fn lemma_settled_at(
    list: Seq<RouteEntry>,
    route: Route,
    first_latency: bool,
    start: int,
)
    requires
        0 <= start <= list.len(),
    ensures
        ({
            let at = settled_at(list, route, first_latency, start);
            &&& start <= at <= list.len()
            &&& forall|i: int|
                start <= i < at ==> !settles(#[trigger] list[i], route, first_latency)
            &&& at < list.len() ==> settles(list[at], route, first_latency)
        }),
    decreases list.len() - start,
{
    if start < list.len() && !settles(list[start], route, first_latency) {
        lemma_settled_at(list, route, first_latency, start + 1);
    }
}

/// Offering a route keeps what holds of the routes to a peer.
pub proof fn lemma_added_wf(
    list: Seq<RouteEntry>,
    route: Route,
    only_if_absent: bool,
    first_latency: bool,
    channel_num: nat,
    now: u128,
)
    requires
        list_wf(list, first_latency, channel_num),
    ensures
        list_wf(
            added(list, route, only_if_absent, first_latency, channel_num, now),
            first_latency,
            channel_num,
        ),
{
    let at = settled_at(list, route, first_latency, 0);
    lemma_settled_at(list, route, first_latency, 0);
    let out = added(list, route, only_if_absent, first_latency, channel_num, now);
    if at >= list.len() {
        let kept = if !first_latency && route.direct() {
            direct_only(list)
        } else {
            list
        };
        lemma_filter_keeps(list, |e: RouteEntry| e.route.direct());
        assert(distinct_keys(kept));
        lemma_sort_by_rt_members(kept);
        lemma_sort_by_rt_is_stable_sort(kept);
        let sorted = sort_by_rt(kept);
        assert(sorted_by_rt(sorted));
        assert forall|i: int| 0 <= i < sorted.len() implies (#[trigger] sorted[i]).route.key()
            != route.key() by {
            assert(sorted.contains(sorted[i]));
            assert(kept.contains(sorted[i]));
            let k = choose|k: int| 0 <= k < kept.len() && kept[k] == sorted[i];
            assert(list.contains(kept[k]));
            let m = choose|m: int| 0 <= m < list.len() && list[m] == kept[k];
            assert(!settles(list[m], route, first_latency));
        }
        let cut = out.drop_last();
        assert(cut =~= sorted.take(cut.len() as int));
        assert forall|i: int, j: int| 0 <= i <= j < cut.len() implies (
        #[trigger] cut[i]).route.rt <= (#[trigger] cut[j]).route.rt by {
            assert(sorted[i].route.rt <= sorted[j].route.rt);
        }
        assert forall|i: int, j: int| 0 <= i < j < out.len() implies (
        #[trigger] out[i]).route.key() != (#[trigger] out[j]).route.key() by {
            if j < cut.len() {
                assert(sorted[i].route.key() != sorted[j].route.key());
            } else {
                assert(sorted[i].route.key() != route.key());
            }
        }
    } else if turned_away(list, route, first_latency) || only_if_absent {
    } else {
        let changed = list.update(
            at,
            RouteEntry {
                route: Route { metric: route.metric, rt: route.rt, ..list[at].route },
                read_time: now,
            },
        );
        assert(distinct_keys(changed)) by {
            assert forall|i: int, j: int| 0 <= i < j < changed.len() implies (
            #[trigger] changed[i]).route.key() != (#[trigger] changed[j]).route.key() by {
                assert(changed[i].route.key() == list[i].route.key());
                assert(changed[j].route.key() == list[j].route.key());
            }
        }
        lemma_sort_by_rt_members(changed);
        lemma_sort_by_rt_is_stable_sort(changed);
        assert(sorted_by_rt(out));
        assert forall|i: int, j: int| 0 <= i <= j < out.drop_last().len() implies (
        #[trigger] out.drop_last()[i]).route.rt <= (#[trigger] out.drop_last()[j]).route.rt by {
            assert(out[i].route.rt <= out[j].route.rt);
        }
    }
}

/// Taking a route out keeps what holds of the routes to a peer.
pub proof fn lemma_without_key_wf(
    list: Seq<RouteEntry>,
    key: RouteKey,
    first_latency: bool,
    channel_num: nat,
)
    requires
        list_wf(list, first_latency, channel_num),
    ensures
        list_wf(without_key(list, key), first_latency, channel_num),
{
    lemma_filter_keeps(list, |e: RouteEntry| e.route.key() != key);
    if list.len() == 0 {
        reveal(Seq::filter);
    }
}

/// Noting that something came in keeps what holds of the routes to a peer.
pub proof fn lemma_heard_wf(
    list: Seq<RouteEntry>,
    key: RouteKey,
    now: u128,
    first_latency: bool,
    channel_num: nat,
)
    requires
        list_wf(list, first_latency, channel_num),
    ensures
        list_wf(heard(list, key, now), first_latency, channel_num),
{
    let out = heard(list, key, now);
    assert forall|i: int, j: int| 0 <= i < j < out.len() implies (#[trigger] out[i]).route.key()
        != (#[trigger] out[j]).route.key() by {
        assert(list[i].route.key() != list[j].route.key());
    }
    assert forall|i: int, j: int| 0 <= i <= j < out.len() - 1 implies (
    #[trigger] out.drop_last()[i]).route.rt <= (#[trigger] out.drop_last()[j]).route.rt by {
        assert(list.drop_last()[i].route.rt <= list.drop_last()[j].route.rt);
    }
}

} // verus!
