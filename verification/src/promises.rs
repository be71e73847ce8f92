//! What the operations do, told from what they are given and what they leave behind: the fields of
//! routes, entries, keys and packets before and after.
use std::sync::mpsc::Receiver;
use std::time::Instant;
use vstd::prelude::*;

use crate::addr::{Ipv4Addr, SocketAddr, SocketAddrV4, SocketAddrV6};
use crate::clock::{moment, reading, shows};
use crate::context::{
    close_step_after, first_close_step, outcome, with_lists, with_outgoing, CloseStep, ContextView,
    Outgoing, Transmission,
};
use crate::error::ChannelError;
use crate::frame::{announced_len, head_of, lemma_head_announces_len, packet_len};
use crate::group::{
    bound_of, connected, fresh_group, sends_of, BufReceiverGroup, BufSenderGroup, Packet,
};
use crate::laws::lemma_punching_goes_on_without_direct_route;
use crate::list::{
    direct_only, distinct_keys, lemma_settled_at, lemma_sort_by_rt_is_stable_sort, lists_key,
    routes_of, settled_at, settles, sort_by_rt, sorted_by_rt, turned_away, with_rt, RouteEntry,
};
use crate::route::{Route, RouteKey, Status};
use crate::tcp::{link_answer, LinkAction, LinkEvent, TcpAction, TcpEvent, TcpReader, TcpStage};
use crate::udp::{ExtraUdp, MainUdp, Reception, UdpAction, UdpEvent};
use crate::walk::enumerates;
use crate::watch::{StatusWatch, WatchAction, WatchEvent};

verus! {

// ---------------------------------------------------------------------------------------------
// Addresses, keys and routes

/// A dual-stack socket sends to an IPv4 address under the prefix `::ffff:0:0`, with the same port
/// and no flow label or scope, and to an IPv6 address as it is.
pub proof fn lemma_mapped_address(v4: SocketAddrV4, v6: SocketAddrV6)
    ensures
        SocketAddr::V4(v4).spec_to_v6() == SocketAddr::V6(
            SocketAddrV6 {
                ip: (0xffff_0000_0000 + v4.ip) as u128,
                port: v4.port,
                flowinfo: 0,
                scope_id: 0,
            },
        ),
        SocketAddr::V6(v6).spec_to_v6() == SocketAddr::V6(v6),
        SocketAddr::V4(v4).spec_port() == v4.port,
        SocketAddr::V6(v6).spec_port() == v6.port,
{
}

/// Two routes have the same key if and only if they share channel and address; a route is direct
/// if and only if it has one hop.
pub proof fn lemma_key_and_directness(a: Route, b: Route, key: RouteKey)
    ensures
        a.key() == b.key() <==> a.index == b.index && a.addr == b.addr,
        a.key() == key <==> a.index == key.index && a.addr == key.addr,
        a.direct() <==> a.metric == 1,
{
}

// ---------------------------------------------------------------------------------------------
// Offering routes

/// The entries with a round-trip time of `rt` milliseconds, in their order.
pub open spec fn timed(list: Seq<RouteEntry>, rt: i64) -> Seq<RouteEntry> {
    list.filter(|e: RouteEntry| e.route.rt == rt)
}

/// A route is turned away if and only if hops count and some known route has strictly fewer, with
/// no route of the offered key before it.
pub proof fn lemma_turned_away_for_fewer_hops(
    list: Seq<RouteEntry>,
    route: Route,
    first_latency: bool,
)
    ensures
        turned_away(list, route, first_latency) <==> !first_latency && exists|i: int|
            #![trigger list[i]]
            0 <= i < list.len() && list[i].route.metric < route.metric && forall|j: int|
                #![trigger list[j]]
                0 <= j < i ==> list[j].route.index != route.index || list[j].route.addr
                    != route.addr,
{
    let at = settled_at(list, route, first_latency, 0);
    lemma_settled_at(list, route, first_latency, 0);
    if turned_away(list, route, first_latency) {
        assert forall|j: int| #![trigger list[j]] 0 <= j < at implies list[j].route.index
            != route.index || list[j].route.addr != route.addr by {
            assert(!settles(list[j], route, first_latency));
        }
        assert(list[at].route.metric < route.metric);
    }
    if !first_latency {
        if exists|i: int|
            #![trigger list[i]]
            0 <= i < list.len() && list[i].route.metric < route.metric && forall|j: int|
                #![trigger list[j]]
                0 <= j < i ==> list[j].route.index != route.index || list[j].route.addr
                    != route.addr {
            let i = choose|i: int|
                #![trigger list[i]]
                0 <= i < list.len() && list[i].route.metric < route.metric && forall|j: int|
                    #![trigger list[j]]
                    0 <= j < i ==> list[j].route.index != route.index || list[j].route.addr
                        != route.addr;
            assert(settles(list[i], route, first_latency));
            assert(at <= i);
            assert(settles(list[at], route, first_latency));
            if at < i {
                assert(list[at].route.index != route.index || list[at].route.addr != route.addr);
            }
        }
    }
}

/// Offering a route touches the routes to its peer only, and makes the peer known.
pub proof fn lemma_offer_touches_one_peer<U>(
    context: ContextView<U>,
    id: Ipv4Addr,
    route: Route,
    only_if_absent: bool,
    now: u128,
)
    ensures
        ({
            let after = context.route_offered(id, route, only_if_absent, now);
            &&& after.routes.contains_key(id)
            &&& forall|other: Ipv4Addr|
                other != id ==> (#[trigger] after.routes.contains_key(other)
                    <==> context.routes.contains_key(other))
            &&& forall|other: Ipv4Addr|
                other != id && context.routes.contains_key(other)
                    ==> #[trigger] after.routes[other] == context.routes[other]
            &&& after.udps == context.udps
            &&& after.status == context.status
            &&& after.main_tcp == context.main_tcp
            &&& after.channel_num == context.channel_num
            &&& after.first_latency == context.first_latency
            &&& after.origin == context.origin
        }),
{
}

/// The routes to a peer are those of the table, and none if the table does not have the peer.
pub proof fn lemma_routes_to<U>(context: ContextView<U>, id: Ipv4Addr)
    ensures
        context.routes.contains_key(id) ==> context.routes_to(id) == context.routes[id],
        !context.routes.contains_key(id) ==> context.routes_to(id).len() == 0,
{
}

/// Where hops count, a route changes nothing if a known one has strictly fewer hops and none of the
/// offered key stands before that one.
pub proof fn lemma_offer_with_more_hops<U>(
    context: ContextView<U>,
    id: Ipv4Addr,
    route: Route,
    only_if_absent: bool,
    now: u128,
    i: int,
)
    requires
        context.routes.contains_key(id),
        !context.first_latency,
        0 <= i < context.routes[id].len(),
        context.routes[id][i].route.metric < route.metric,
        forall|j: int|
            #![trigger context.routes[id][j]]
            0 <= j < i ==> context.routes[id][j].route.index != route.index
                || context.routes[id][j].route.addr != route.addr,
    ensures
        context.route_offered(id, route, only_if_absent, now) == context,
{
    let list = context.routes[id];
    lemma_settled_at(list, route, false, 0);
    let at = settled_at(list, route, false, 0);
    assert(settles(list[i], route, false));
    assert(settles(list[at], route, false));
    assert(context.route_offered(id, route, only_if_absent, now).routes =~= context.routes);
}

/// A known route that is offered again takes over what is offered: its entry, and no other, is
/// replaced by the offered route with the time of the offer, and the list is ordered by round-trip
/// time, entries with the same one in the order that they had. Only if absent routes alone are
/// wanted does nothing change.
pub proof fn lemma_offer_of_known_key<U>(
    context: ContextView<U>,
    id: Ipv4Addr,
    route: Route,
    now: u128,
    i: int,
)
    requires
        context.wf(),
        context.routes.contains_key(id),
        0 <= i < context.routes[id].len(),
        context.routes[id][i].route.index == route.index,
        context.routes[id][i].route.addr == route.addr,
        context.first_latency || forall|j: int|
            #![trigger context.routes[id][j]]
            0 <= j <= i ==> context.routes[id][j].route.metric >= route.metric,
    ensures
        context.route_offered(id, route, true, now) == context,
        ({
            let changed = context.routes[id].update(i, RouteEntry { route, read_time: now });
            let out = context.route_offered(id, route, false, now).routes[id];
            &&& out.len() == context.routes[id].len()
            &&& out.contains(RouteEntry { route, read_time: now })
            &&& forall|a: int, b: int|
                #![trigger out[a], out[b]]
                0 <= a <= b < out.len() ==> out[a].route.rt <= out[b].route.rt
            &&& forall|rt: i64| #[trigger] timed(out, rt) == timed(changed, rt)
        }),
{
    let list = context.routes[id];
    let first_latency = context.first_latency;
    lemma_settled_at(list, route, first_latency, 0);
    let at = settled_at(list, route, first_latency, 0);
    assert(settles(list[i], route, first_latency));
    assert(at <= i);
    assert(settles(list[at], route, first_latency));
    assert(list[at].route.key() == list[i].route.key());
    assert(at == i);
    assert(context.route_offered(id, route, true, now).routes =~= context.routes);
    let entry = RouteEntry { route, read_time: now };
    let changed = list.update(i, entry);
    let out = context.route_offered(id, route, false, now).routes[id];
    assert(out == sort_by_rt(changed));
    lemma_sort_by_rt_is_stable_sort(changed);
    assert forall|rt: i64| #[trigger] timed(out, rt) == timed(changed, rt) by {
        assert(with_rt(out, rt) == with_rt(changed, rt));
    }
    let same = |e: RouteEntry| e.route.rt == route.rt;
    assert(changed[i] == entry);
    changed.lemma_filter_contains(same, i);
    assert(with_rt(out, route.rt) == with_rt(changed, route.rt));
    assert(out.filter(same).contains(entry));
    out.lemma_filter_contains_rev(same, entry);
}

/// A route with a new key goes to the end of the list with the time of the offer, unless hops count
/// and a known route has fewer. In front of it stay the fastest of the known routes: one, or two
/// where latency comes first, ordered by round-trip time, those with the same one in the order that
/// they had. Where hops count, a route with one hop leaves only others with one hop to choose from.
pub proof fn lemma_offer_of_new_key<U>(
    context: ContextView<U>,
    id: Ipv4Addr,
    route: Route,
    only_if_absent: bool,
    now: u128,
) -> (ordered: Seq<RouteEntry>)
    requires
        context.wf(),
        forall|j: int|
            #![trigger context.routes_to(id)[j]]
            0 <= j < context.routes_to(id).len() ==> context.routes_to(id)[j].route.index
                != route.index || context.routes_to(id)[j].route.addr != route.addr,
        context.first_latency || forall|j: int|
            #![trigger context.routes_to(id)[j]]
            0 <= j < context.routes_to(id).len() ==> context.routes_to(id)[j].route.metric
                >= route.metric,
    ensures
        ({
            let kept = if !context.first_latency && route.metric == 1 {
                context.routes_to(id).filter(|e: RouteEntry| e.route.metric == 1)
            } else {
                context.routes_to(id)
            };
            let room = if context.first_latency {
                2int
            } else {
                1int
            };
            let out = context.route_offered(id, route, only_if_absent, now).routes[id];
            &&& ordered.len() == kept.len()
            &&& forall|a: int, b: int|
                #![trigger ordered[a], ordered[b]]
                0 <= a <= b < ordered.len() ==> ordered[a].route.rt <= ordered[b].route.rt
            &&& forall|rt: i64| #[trigger] timed(ordered, rt) == timed(kept, rt)
            &&& out == ordered.take(
                if ordered.len() > room {
                    room
                } else {
                    ordered.len() as int
                },
            ).push(RouteEntry { route, read_time: now })
        }),
{
    let list = context.routes_to(id);
    lemma_settled_at(list, route, context.first_latency, 0);
    let at = settled_at(list, route, context.first_latency, 0);
    if at < list.len() {
        assert(settles(list[at], route, context.first_latency));
        assert(list[at].route.metric >= route.metric || context.first_latency);
    }
    let one_hop = |e: RouteEntry| e.route.metric == 1;
    assert(direct_only(list) == list.filter(one_hop)) by {
        lemma_filter_agrees(list, |e: RouteEntry| e.route.direct(), one_hop);
    }
    let kept = if !context.first_latency && route.metric == 1 {
        list.filter(one_hop)
    } else {
        list
    };
    let ordered = sort_by_rt(kept);
    lemma_sort_by_rt_is_stable_sort(kept);
    assert forall|rt: i64| #[trigger] timed(ordered, rt) == timed(kept, rt) by {
        assert(with_rt(ordered, rt) == with_rt(kept, rt));
    }
    let out = context.route_offered(id, route, only_if_absent, now).routes[id];
    assert(ordered.take(ordered.len() as int) =~= ordered);
    ordered
}

/// Filters that agree on all entries leave the same.
proof fn lemma_filter_agrees(
    list: Seq<RouteEntry>,
    f: spec_fn(RouteEntry) -> bool,
    g: spec_fn(RouteEntry) -> bool,
)
    requires
        forall|e: RouteEntry| #[trigger] f(e) == g(e),
    ensures
        list.filter(f) == list.filter(g),
    decreases list.len(),
{
    reveal(Seq::filter);
    if list.len() > 0 {
        lemma_filter_agrees(list.drop_last(), f, g);
        assert(f(list.last()) == g(list.last()));
    }
}

// ---------------------------------------------------------------------------------------------
// Removing and hearing of routes

/// Removing takes exactly the routes of the channel and address away from the peer, and keeps the
/// others in their order; of an unknown peer nothing changes, nor of anything else.
pub proof fn lemma_removal<U>(context: ContextView<U>, id: Ipv4Addr, key: RouteKey)
    ensures
        !context.routes.contains_key(id) ==> context.route_removed(id, key) == context,
        context.routes.contains_key(id) ==> context.route_removed(id, key) == (ContextView {
            routes: context.routes.insert(
                id,
                context.routes[id].filter(
                    |e: RouteEntry| e.route.index != key.index || e.route.addr != key.addr,
                ),
            ),
            ..context
        }),
{
    if context.routes.contains_key(id) {
        lemma_filter_agrees(
            context.routes[id],
            |e: RouteEntry| e.route.key() != key,
            |e: RouteEntry| e.route.index != key.index || e.route.addr != key.addr,
        );
    }
}

/// Hearing of a route sets the time of every entry with its channel and address, at whichever place
/// it stands, and of no other, and changes nothing else.
pub proof fn lemma_hearing<U>(context: ContextView<U>, id: Ipv4Addr, key: RouteKey, now: u128)
    ensures
        !context.routes.contains_key(id) ==> context.route_heard(id, key, now) == context,
        context.routes.contains_key(id) ==> {
            let before = context.routes[id];
            let after = context.route_heard(id, key, now).routes[id];
            &&& context.route_heard(id, key, now) == (ContextView {
                routes: context.routes.insert(id, after),
                ..context
            })
            &&& after.len() == before.len()
            &&& forall|i: int|
                #![trigger after[i]]
                #![trigger before[i]]
                0 <= i < before.len() ==> {
                    &&& after[i].route == before[i].route
                    &&& before[i].route.index == key.index && before[i].route.addr == key.addr
                        ==> after[i].read_time == now
                    &&& before[i].route.index != key.index || before[i].route.addr != key.addr
                        ==> after[i].read_time == before[i].read_time
                }
        },
{
}

// ---------------------------------------------------------------------------------------------
// Choosing a route and sending

/// Without a route there is nothing to send over.
pub proof fn lemma_no_route<U>(context: ContextView<U>, id: Ipv4Addr, now: u128)
    requires
        !context.routes.contains_key(id) || context.routes[id].len() == 0,
    ensures
        context.usable_route(id, now) == Err::<Route, ChannelError>(ChannelError::RouteNotFound),
{
}

/// A first route whose round-trip time is 199 was not measured yet, and is not used.
pub proof fn lemma_unmeasured_route<U>(context: ContextView<U>, id: Ipv4Addr, now: u128)
    requires
        context.routes.contains_key(id),
        context.routes[id].len() > 0,
        context.routes[id][0].route.rt == 199,
    ensures
        context.usable_route(id, now) == Err::<Route, ChannelError>(ChannelError::RouteNotFound),
{
}

/// A first route with one hop that was measured is used at every time, however long ago it was
/// heard of and over whichever channel it goes.
pub proof fn lemma_direct_route_never_expires<U>(context: ContextView<U>, id: Ipv4Addr, now: u128)
    requires
        context.routes.contains_key(id),
        context.routes[id].len() > 0,
        context.routes[id][0].route.rt != 199,
        context.routes[id][0].route.metric == 1,
    ensures
        context.usable_route(id, now) == Ok::<Route, ChannelError>(context.routes[id][0].route),
{
}

/// A measured first route that does not have one hop is used for six seconds after it was heard of,
/// to the nanosecond, and then no more.
pub proof fn lemma_relayed_route_expires<U>(context: ContextView<U>, id: Ipv4Addr, now: u128)
    requires
        context.routes.contains_key(id),
        context.routes[id].len() > 0,
        context.routes[id][0].route.rt != 199,
        context.routes[id][0].route.metric != 1,
    ensures
        now <= context.routes[id][0].read_time + 6_000_000_000 ==> context.usable_route(id, now)
            == Ok::<Route, ChannelError>(context.routes[id][0].route),
        now > context.routes[id][0].read_time + 6_000_000_000 ==> context.usable_route(id, now)
            == Err::<Route, ChannelError>(ChannelError::RouteTimeOut),
{
}

/// What goes into the TCP connection is four bytes, of which the last two give the packet's length
/// as far as they can and the first two are zero, and then the packet; without a connection there
/// is an error.
pub proof fn lemma_tcp_bytes<U>(context: ContextView<U>, packet: Seq<u8>)
    ensures
        !context.main_tcp ==> context.to_tcp(packet) == Err::<Outgoing<U>, ChannelError>(
            ChannelError::TcpNotFound,
        ),
        context.main_tcp ==> (context.to_tcp(packet) matches Ok(Outgoing::MainTcp { bytes }) && {
            &&& bytes.len() == packet.len() + 4
            &&& bytes[0] == 0 && bytes[1] == 0
            &&& bytes[2] * 256 + bytes[3] == packet.len() % 0x1_0000
            &&& bytes.skip(4) == packet
        }),
{
    if context.main_tcp {
        lemma_head_announces_len(packet.len());
        assert((head_of(packet.len()) + packet).skip(4) =~= packet);
    }
}

/// A head announces the number in its last two bytes, whatever the first two are; a packet has
/// between 12 and 4096 bytes.
pub proof fn lemma_head_and_length(head: Seq<u8>, len: nat)
    ensures
        announced_len(head) == head[2] * 256 + head[3],
        packet_len(len) <==> 12 <= len <= 4096,
{
}

/// A packet along a key goes where the key's channel says: into the TCP connection, from the main
/// UDP socket to the mapped address, or from the extra socket of that very index to the address as
/// it is; if there is no such socket, nowhere.
pub proof fn lemma_key_leads_to_channel<U>(
    context: ContextView<U>,
    packet: Seq<u8>,
    key: RouteKey,
)
    ensures
        key.index == 0 ==> context.to_key(packet, key) == context.to_tcp(packet),
        key.index == 1 ==> context.to_key(packet, key) == Ok::<Outgoing<U>, ChannelError>(
            Outgoing::MainUdp { bytes: packet, addr: key.addr.spec_to_v6() },
        ),
        key.index != 0 && key.index != 1 && context.udps.contains_key(key.index)
            ==> context.to_key(packet, key) == Ok::<Outgoing<U>, ChannelError>(
            Outgoing::Udp { udp: context.udps[key.index], bytes: packet, addr: key.addr },
        ),
        key.index != 0 && key.index != 1 && !context.udps.contains_key(key.index)
            ==> context.to_key(packet, key) == Err::<Outgoing<U>, ChannelError>(
            ChannelError::RouteNotFound,
        ),
{
}

/// A packet for the server goes into the TCP connection if there is one, and otherwise, whole and
/// without a head, from the main UDP socket to the mapped address.
pub proof fn lemma_server_is_reached<U>(
    context: ContextView<U>,
    packet: Seq<u8>,
    addr: SocketAddr,
)
    ensures
        context.main_tcp ==> Ok::<Outgoing<U>, ChannelError>(context.to_main(packet, addr))
            == context.to_tcp(packet),
        !context.main_tcp ==> context.to_main(packet, addr) == (Outgoing::<U>::MainUdp {
            bytes: packet,
            addr: addr.spec_to_v6(),
        }),
{
}

/// A packet for a peer goes along the channel and address of the route that is used, and fails as
/// the choice of the route fails.
pub proof fn lemma_peer_is_reached<U>(
    context: ContextView<U>,
    packet: Seq<u8>,
    id: Ipv4Addr,
    now: u128,
)
    ensures
        context.usable_route(id, now) matches Ok(route) ==> context.to_peer(packet, id, now)
            == context.to_key(packet, RouteKey { index: route.index, addr: route.addr }),
        context.usable_route(id, now) matches Err(error) ==> context.to_peer(packet, id, now)
            == Err::<Outgoing<U>, ChannelError>(error),
{
}

/// What a transmission amounts to are the bytes in it, all of them and in order, on its channel and
/// to its address; an attempt amounts to what its transmission amounts to, or to its error.
pub proof fn lemma_transmission_amounts_to<'a, U>(
    transmission: Transmission<'a, U>,
    error: ChannelError,
)
    ensures
        match transmission {
            Transmission::MainTcp { head, packet } => transmission@ == (Outgoing::<U>::MainTcp {
                bytes: head@ + packet@,
            }),
            Transmission::MainUdp { packet, addr } => transmission@ == (Outgoing::<U>::MainUdp {
                bytes: packet@,
                addr,
            }),
            Transmission::Udp { udp, packet, addr } => transmission@ == (Outgoing::<U>::Udp {
                udp: *udp,
                bytes: packet@,
                addr,
            }),
        },
        outcome(Ok::<Transmission<'a, U>, ChannelError>(transmission)) == Ok::<
            Outgoing<U>,
            ChannelError,
        >(transmission@),
        outcome(Err::<Transmission<'a, U>, ChannelError>(error)) == Err::<
            Outgoing<U>,
            ChannelError,
        >(error),
{
}

// ---------------------------------------------------------------------------------------------
// Asking about routes

/// A peer is directly behind a key if and only if the table has a route to it with the key's
/// channel and address and one hop. A key whose routes all have another number of hops leads to
/// nobody.
pub proof fn lemma_directly_behind_key<U>(context: ContextView<U>, id: Ipv4Addr, key: RouteKey)
    ensures
        context.reaches_directly(id, key) <==> context.routes.contains_key(id) && exists|i: int|
            #![trigger context.routes[id][i]]
            0 <= i < context.routes[id].len() && context.routes[id][i].route.index == key.index
                && context.routes[id][i].route.addr == key.addr
                && context.routes[id][i].route.metric == 1,
{
    let list = context.routes_to(id);
    if context.reaches_directly(id, key) {
        let i = choose|i: int|
            #![trigger context.routes_to(id)[i]]
            0 <= i < list.len() && context.routes_to(id)[i].route.key() == key
                && context.routes_to(id)[i].route.direct();
        assert(context.routes[id][i].route.metric == 1);
    }
    if context.routes.contains_key(id) && exists|i: int|
        #![trigger context.routes[id][i]]
        0 <= i < context.routes[id].len() && context.routes[id][i].route.index == key.index
            && context.routes[id][i].route.addr == key.addr && context.routes[id][i].route.metric
            == 1 {
        let i = choose|i: int|
            #![trigger context.routes[id][i]]
            0 <= i < context.routes[id].len() && context.routes[id][i].route.index == key.index
                && context.routes[id][i].route.addr == key.addr
                && context.routes[id][i].route.metric == 1;
        assert(context.routes_to(id)[i].route.key() == key);
    }
}

/// A direct route is still to be found if and only if the table has no route to the peer with one
/// hop.
pub proof fn lemma_direct_route_is_missing<U>(context: ContextView<U>, id: Ipv4Addr)
    requires
        context.wf(),
    ensures
        context.lacks_direct(id) <==> !(context.routes.contains_key(id) && exists|i: int|
            #![trigger context.routes[id][i]]
            0 <= i < context.routes[id].len() && context.routes[id][i].route.metric == 1),
{
    lemma_punching_goes_on_without_direct_route(context, id);
    let list = context.routes_to(id);
    if context.lacks_direct(id) {
        if context.routes.contains_key(id) {
            assert forall|i: int| #![trigger context.routes[id][i]] 0 <= i
                < context.routes[id].len() implies context.routes[id][i].route.metric != 1 by {
                assert(!context.routes_to(id)[i].route.direct());
            }
        }
    } else {
        let i = choose|i: int|
            0 <= i < list.len() && (#[trigger] context.routes_to(id)[i]).route.direct();
        assert(context.routes[id][i].route.metric == 1);
    }
}

/// The tables tell the routes of each peer in their order, the first of them, and the first of them
/// if it has one hop.
pub proof fn lemma_tables<U>(context: ContextView<U>, id: Ipv4Addr)
    ensures
        context.all_routes().contains_key(id) <==> context.routes.contains_key(id),
        context.routes.contains_key(id) ==> {
            &&& context.all_routes()[id].len() == context.routes[id].len()
            &&& forall|i: int|
                #![trigger context.all_routes()[id][i]]
                0 <= i < context.routes[id].len() ==> context.all_routes()[id][i]
                    == context.routes[id][i].route
        },
        context.first_routes().contains_key(id) <==> context.routes.contains_key(id)
            && context.routes[id].len() > 0,
        context.first_routes().contains_key(id) ==> context.first_routes()[id]
            == context.routes[id][0].route,
        context.first_direct_routes().contains_key(id) <==> context.routes.contains_key(id)
            && context.routes[id].len() > 0 && context.routes[id][0].route.metric == 1,
        context.first_direct_routes().contains_key(id) ==> context.first_direct_routes()[id]
            == context.routes[id][0].route,
{
}

/// The routes of a list are those of its entries, in their order.
pub proof fn lemma_routes_of(list: Seq<RouteEntry>)
    ensures
        routes_of(list).len() == list.len(),
        forall|i: int|
            #![trigger routes_of(list)[i]]
            0 <= i < list.len() ==> routes_of(list)[i] == list[i].route,
{
}

/// Pairs that enumerate a map are its entries, all of them and nothing else, none twice.
pub proof fn lemma_enumeration_is_the_map<K, V>(pairs: Seq<(K, V)>, map: Map<K, V>, k: K, v: V)
    requires
        enumerates(pairs, map),
    ensures
        pairs.contains((k, v)) <==> map.contains_key(k) && map[k] == v,
        pairs.no_duplicates(),
{
    if pairs.contains((k, v)) {
        let i = choose|i: int| 0 <= i < pairs.len() && pairs[i] == (k, v);
        assert(map.contains_key(pairs[i].0));
    }
    if map.contains_key(k) && map[k] == v {
        let i = choose|i: int| 0 <= i < pairs.len() && (#[trigger] pairs[i]).0 == k;
        assert(pairs[i] == (k, v));
    }
    assert forall|i: int, j: int| 0 <= i < pairs.len() && 0 <= j < pairs.len() && i
        != j implies pairs[i] != pairs[j] by {
        if i < j {
            assert(pairs[i].0 != pairs[j].0);
        } else {
            assert(pairs[j].0 != pairs[i].0);
        }
    }
}

/// The pairs with what is in them as mathematical values are the same pairs.
pub proof fn lemma_pairs_as_values<'a, U>(
    lists: Seq<(Ipv4Addr, Vec<Route>)>,
    sent: Seq<(usize, Transmission<'a, U>)>,
)
    ensures
        with_lists(lists).len() == lists.len(),
        forall|i: int|
            #![trigger with_lists(lists)[i]]
            0 <= i < lists.len() ==> with_lists(lists)[i] == (lists[i].0, lists[i].1@),
        with_outgoing(sent).len() == sent.len(),
        forall|i: int|
            #![trigger with_outgoing(sent)[i]]
            0 <= i < sent.len() ==> with_outgoing(sent)[i] == (sent[i].0, sent[i].1@),
{
}

/// What holds of every context, told from its fields.
pub proof fn lemma_well_formed_context<U>(context: ContextView<U>)
    ensures
        context.wf() <==> context.channel_num == 1 && forall|id: Ipv4Addr| #[trigger]
            context.routes.contains_key(id) ==> {
                let list = context.routes[id];
                &&& list.len() <= (if context.first_latency {
                    3nat
                } else {
                    2nat
                })
                &&& forall|i: int, j: int|
                    #![trigger list[i], list[j]]
                    0 <= i < j < list.len() ==> list[i].route.index != list[j].route.index
                        || list[i].route.addr != list[j].route.addr
                &&& forall|i: int, j: int|
                    #![trigger list[i], list[j]]
                    0 <= i <= j < list.len() - 1 ==> list[i].route.rt <= list[j].route.rt
            },
{
    assert forall|id: Ipv4Addr| #[trigger] context.routes.contains_key(id) implies ({
        let list = context.routes[id];
        distinct_keys(list) <==> forall|i: int, j: int|
            #![trigger list[i], list[j]]
            0 <= i < j < list.len() ==> list[i].route.index != list[j].route.index
                || list[i].route.addr != list[j].route.addr
    }) && ({
        let list = context.routes[id];
        (list.len() > 0 ==> sorted_by_rt(list.drop_last())) <==> forall|i: int, j: int|
            #![trigger list[i], list[j]]
            0 <= i <= j < list.len() - 1 ==> list[i].route.rt <= list[j].route.rt
    }) by {
        let list = context.routes[id];
        if forall|i: int, j: int|
            #![trigger list[i], list[j]]
            0 <= i < j < list.len() ==> list[i].route.index != list[j].route.index
                || list[i].route.addr != list[j].route.addr {
            assert(distinct_keys(list));
        }
        if distinct_keys(list) {
            assert forall|i: int, j: int| #![trigger list[i], list[j]] 0 <= i < j
                < list.len() implies list[i].route.index != list[j].route.index
                || list[i].route.addr != list[j].route.addr by {
                assert(list[i].route.key() != list[j].route.key());
            }
        }
        if list.len() > 0 {
            let init = list.drop_last();
            if sorted_by_rt(init) {
                assert forall|i: int, j: int| #![trigger list[i], list[j]] 0 <= i <= j
                    < list.len() - 1 implies list[i].route.rt <= list[j].route.rt by {
                    assert(init[i].route.rt <= init[j].route.rt);
                }
            }
            if forall|i: int, j: int|
                #![trigger list[i], list[j]]
                0 <= i <= j < list.len() - 1 ==> list[i].route.rt <= list[j].route.rt {
                assert forall|i: int, j: int| 0 <= i <= j < init.len() implies (
                #[trigger] init[i]).route.rt <= (#[trigger] init[j]).route.rt by {
                    assert(list[i].route.rt <= list[j].route.rt);
                }
            }
        }
    }
}

/// A packet for all extra sockets goes from each socket that the channel has, whole and to the
/// address as it is, and from no other.
pub proof fn lemma_every_extra_socket_is_used<U>(
    context: ContextView<U>,
    packet: Seq<u8>,
    addr: SocketAddr,
    index: usize,
)
    ensures
        context.to_all(packet, addr).contains_key(index) <==> context.udps.contains_key(index),
        context.udps.contains_key(index) ==> context.to_all(packet, addr)[index] == (Outgoing::Udp {
            udp: context.udps[index],
            bytes: packet,
            addr,
        }),
{
}

/// A socket that is kept takes the place of one with its index, and of no other; what else the
/// channel has stays.
pub proof fn lemma_keeping_a_socket<U>(
    context: ContextView<U>,
    index: usize,
    udp: U,
    other: usize,
)
    ensures
        ({
            let after = context.udp_kept(index, udp);
            &&& after.udps.contains_key(index)
            &&& after.udps[index] == udp
            &&& other != index ==> {
                &&& after.udps.contains_key(other) <==> context.udps.contains_key(other)
                &&& context.udps.contains_key(other) ==> after.udps[other] == context.udps[other]
            }
            &&& after == (ContextView { udps: after.udps, ..context })
        }),
{
}

/// A socket that is forgotten is gone, and no other is; what else the channel has stays.
pub proof fn lemma_forgetting_a_socket<U>(context: ContextView<U>, index: usize, other: usize)
    ensures
        ({
            let after = context.udp_forgotten(index);
            &&& !after.udps.contains_key(index)
            &&& other != index ==> {
                &&& after.udps.contains_key(other) <==> context.udps.contains_key(other)
                &&& context.udps.contains_key(other) ==> after.udps[other] == context.udps[other]
            }
            &&& after == (ContextView { udps: after.udps, ..context })
        }),
{
}

/// A sender is told of the packet's own bytes where it goes into the TCP connection, and of what
/// the socket took where it goes out as a datagram.
pub proof fn lemma_head_is_not_reported<U>(
    context: ContextView<U>,
    packet: Seq<u8>,
    key: RouteKey,
    taken: usize,
)
    ensures
        context.to_key(packet, key) matches Ok(outgoing) ==> if key.index == 0 {
            outgoing.reported(taken) == packet.len()
        } else {
            outgoing.reported(taken) == taken
        },
{
}

/// Taking on a status changes the status and nothing else.
pub proof fn lemma_only_status_changes<U>(context: ContextView<U>, status: Status)
    ensures
        ({
            let after = context.taking_on(status);
            &&& after.status == status
            &&& after.routes == context.routes
            &&& after.udps == context.udps
            &&& after.main_tcp == context.main_tcp
            &&& after.channel_num == context.channel_num
            &&& after.first_latency == context.first_latency
            &&& after.origin == context.origin
        }),
{
}

/// Closing wakes the main UDP socket up with `stop` on `127.0.0.1` if its port is known, then
/// shuts the TCP connection down if the server is reached over one, and is then done.
pub proof fn lemma_closing_visits_each_part(main_tcp: bool, local_port: Option<u16>)
    ensures
        ({
            let first = first_close_step(main_tcp, local_port);
            let second = close_step_after(main_tcp, first, true);
            &&& local_port matches Some(port) ==> {
                &&& first == (CloseStep::SendStop {
                    addr: SocketAddr::V4(SocketAddrV4 { ip: 0x7f00_0001, port }),
                })
                &&& second == (if main_tcp {
                    CloseStep::ShutdownTcp
                } else {
                    CloseStep::Done
                })
            }
            &&& local_port is None ==> first == (if main_tcp {
                CloseStep::ShutdownTcp
            } else {
                CloseStep::Done
            })
        }),
        close_step_after(main_tcp, CloseStep::ShutdownTcp, true) == CloseStep::Done,
{
}

/// A step of closing that fails ends the closing with its error, and what has ended stays so.
pub proof fn lemma_failed_step_ends_closing(main_tcp: bool, step: CloseStep, succeeded: bool)
    ensures
        step is SendStop || step is ShutdownTcp ==> close_step_after(main_tcp, step, false)
            == CloseStep::Failed,
        step is Done || step is Failed ==> close_step_after(main_tcp, step, succeeded) == step,
{
}

/// Whether a list has a key is told from the channels and addresses in it.
pub proof fn lemma_listed_key(list: Seq<RouteEntry>, key: RouteKey)
    ensures
        lists_key(list, key) <==> exists|i: int|
            #![trigger list[i]]
            0 <= i < list.len() && list[i].route.index == key.index && list[i].route.addr
                == key.addr,
{
    if lists_key(list, key) {
        let i = choose|i: int| 0 <= i < list.len() && (#[trigger] list[i]).route.key() == key;
        assert(list[i].route.index == key.index);
    }
    if exists|i: int|
        #![trigger list[i]]
        0 <= i < list.len() && list[i].route.index == key.index && list[i].route.addr
            == key.addr {
        let i = choose|i: int|
            #![trigger list[i]]
            0 <= i < list.len() && list[i].route.index == key.index && list[i].route.addr
                == key.addr;
        assert(list[i].route.key() == key);
    }
}

// ---------------------------------------------------------------------------------------------
// Receiving datagrams

/// The main socket hands a datagram on whole: from behind the free bytes, as many bytes as came
/// in, with its own index and the address that it came from. Only the message `stop` while the
/// channel is closed is not handed on but ends the socket, and after a failed attempt it waits.
pub proof fn lemma_main_socket_hands_on_whole_datagram(
    main: MainUdp,
    buf: Seq<u8>,
    len: usize,
    addr: SocketAddr,
    status: Status,
)
    requires
        main.head_reserve + len <= buf.len(),
        buf.len() <= usize::MAX,
    ensures
        ({
            let datagram = buf.subrange(main.head_reserve as int, main.head_reserve + len);
            let answer = main.answer(buf, Reception::Datagram { len, addr }, status);
            if status == Status::Close && datagram == seq![0x73u8, 0x74u8, 0x6fu8, 0x70u8] {
                answer == UdpAction::Leave
            } else {
                &&& answer matches UdpAction::Deliver { start, end, key }
                &&& start == main.head_reserve
                &&& end - start == len
                &&& buf.subrange(start as int, end as int) == datagram
                &&& key.index == main.id
                &&& key.addr == addr
            }
        }),
        main.answer(buf, Reception::Failed, status) == UdpAction::Wait,
        main.holds(buf, Reception::Datagram { len, addr }),
        main.holds(buf, Reception::Failed),
{
}

/// An extra socket hands every datagram on whole, whatever it says: from behind the free bytes, as
/// many bytes as came in, with its own index and the address that it came from.
pub proof fn lemma_extra_socket_hands_on_whole_datagram(
    extra: ExtraUdp,
    len: usize,
    addr: SocketAddr,
)
    requires
        extra.head_reserve + len <= 4096,
    ensures
        extra.holds(UdpEvent::Datagram { len, addr }),
        ({
            &&& extra.answer(UdpEvent::Datagram { len, addr }) matches UdpAction::Deliver {
                start,
                end,
                key,
            }
            &&& start == extra.head_reserve
            &&& end - start == len
            &&& key.index == extra.id
            &&& key.addr == addr
        }),
{
}

/// An extra socket is given up when the channel is closed or its status is lost, when all parts are
/// to stop, when no worker thread takes packets, and, unless the channel cannot do without it, when
/// the main socket suffices; and for no other reason.
pub proof fn lemma_extra_socket_is_given_up(extra: ExtraUdp, event: UdpEvent)
    ensures
        event !is Datagram ==> extra.holds(event),
        extra.answer(event) == UdpAction::Leave <==> {
            ||| event is StatusLost
            ||| event is Stopped
            ||| event == (UdpEvent::Delivered { taken: false })
            ||| event == (UdpEvent::StatusChanged { status: Status::Close })
            ||| event == (UdpEvent::StatusChanged { status: Status::Cone }) && !extra.is_core
        },
        event !is Datagram && extra.answer(event) != UdpAction::Leave ==> extra.answer(event)
            == UdpAction::Wait,
{
}

// ---------------------------------------------------------------------------------------------
// The TCP connection

/// A reader that read a head asks for as many bytes as the head's last two bytes say, behind the
/// free bytes, if they say between 12 and 4096, and fails otherwise.
pub proof fn lemma_reader_after_head(reader: TcpReader, head: [u8; 4])
    requires
        reader.stage == TcpStage::Head,
    ensures
        ({
            let len = head@[2] * 256 + head@[3];
            let event = TcpEvent::HeadRead { head };
            &&& reader.expects(event) <==> (12 <= len <= 4096 ==> reader.head_reserve + len
                <= 4096)
            &&& 12 <= len <= 4096 && reader.head_reserve + len <= 4096 ==> {
                &&& reader.answer(event) matches TcpAction::ReadBody { start, end }
                &&& start == reader.head_reserve
                &&& end - start == len
                &&& reader.told(event) == (TcpReader {
                    stage: TcpStage::Body { len: len as usize },
                    ..reader
                })
            }
            &&& !(12 <= len <= 4096) ==> {
                &&& reader.answer(event) == (TcpAction::Fail {
                    error: ChannelError::LengthOverflow,
                })
                &&& reader.told(event) == (TcpReader { stage: TcpStage::Ended, ..reader })
            }
        }),
{
}

/// A reader that read a packet hands on all its bytes, as coming from its key, and begins the next
/// round.
pub proof fn lemma_reader_after_body(reader: TcpReader, len: usize)
    requires
        reader.stage == (TcpStage::Body { len }),
        reader.head_reserve + len <= 4096,
    ensures
        reader.expects(TcpEvent::BodyRead),
        ({
            &&& reader.answer(TcpEvent::BodyRead) matches TcpAction::Handle { start, end, key }
            &&& start == reader.head_reserve
            &&& end - start == len
            &&& key == reader.key
        }),
        reader.told(TcpEvent::BodyRead) == (TcpReader { stage: TcpStage::Round, ..reader }),
{
}

/// A round of a reader begins with a head unless the channel is closed; what cannot be read ends
/// the reader.
pub proof fn lemma_reader_rounds(reader: TcpReader, closed: bool)
    ensures
        reader.stage == TcpStage::Round ==> reader.expects(TcpEvent::Round { closed }),
        reader.stage == TcpStage::Head || reader.stage is Body ==> reader.expects(
            TcpEvent::ReadFailed,
        ),
        closed ==> reader.answer(TcpEvent::Round { closed }) == TcpAction::Finish && reader.told(
            TcpEvent::Round { closed },
        ) == (TcpReader { stage: TcpStage::Ended, ..reader }),
        !closed ==> reader.answer(TcpEvent::Round { closed }) == TcpAction::ReadHead
            && reader.told(TcpEvent::Round { closed }) == (TcpReader {
            stage: TcpStage::Head,
            ..reader
        }),
        reader.answer(TcpEvent::ReadFailed) == TcpAction::FailRead,
        reader.told(TcpEvent::ReadFailed) == (TcpReader { stage: TcpStage::Ended, ..reader }),
{
}

/// The connection to the server is given up only when the channel is closed; otherwise it is made
/// anew, at once after it broke and after three seconds when that failed.
pub proof fn lemma_connection_is_kept_up(event: LinkEvent)
    ensures
        link_answer(event) == LinkAction::Return <==> event == (LinkEvent::ShutDown {
            closed: true,
        }) || event == (LinkEvent::Paused { closed: true }),
        link_answer(event) == LinkAction::Connect <==> event == (LinkEvent::ShutDown {
            closed: false,
        }) || event == (LinkEvent::Paused { closed: false }),
        event is ConnectFailed ==> link_answer(event) == (LinkAction::Pause { seconds: 3 }),
        event is Connected ==> link_answer(event) == LinkAction::Install,
        event is Installed ==> link_answer(event) == (LinkAction::Configure {
            nodelay: true,
            write_timeout: 3,
            read_timeout: 10,
        }),
        event is Configured ==> link_answer(event) == LinkAction::Read,
        event is ReaderEnded ==> link_answer(event) == LinkAction::ShutDown,
{
}

// ---------------------------------------------------------------------------------------------
// Following the status

/// A channel asks for sockets exactly when the status becomes symmetric, for as many as are wanted
/// and none of which it cannot do without; it stops all parts when it is closed, when its status is
/// lost or when it is stopped, and a relay just ends; otherwise it waits.
pub proof fn lemma_channel_follows_status(watch: StatusWatch, event: WatchEvent)
    ensures
        watch.expects(event) <==> !watch.relay || event is Stopped,
        watch.answer(event) is Open <==> event == (WatchEvent::StatusChanged {
            status: Status::Symmetric,
        }) && watch.current != Status::Symmetric,
        watch.answer(event) matches WatchAction::Open { count, is_core } ==> count
            == watch.symmetric_channel_num && !is_core,
        watch.answer(event) == WatchAction::StopAll <==> event is StatusLost || (event is Stopped
            && !watch.relay) || event == (WatchEvent::StatusChanged { status: Status::Close }),
        watch.answer(event) == WatchAction::End <==> event is Stopped && watch.relay,
        watch.after(event).symmetric_channel_num == watch.symmetric_channel_num,
        watch.after(event).relay == watch.relay,
        match event {
            WatchEvent::StatusChanged { status } => if status == Status::Close {
                watch.after(event).current == watch.current
            } else {
                watch.after(event).current == status
            },
            _ => watch.after(event).current == watch.current,
        },
{
}

// ---------------------------------------------------------------------------------------------
// Worker threads

/// A packet is sent to the worker thread with the number that is left of the turn when it is
/// divided by the number of threads, and to no other; the turn grows by one, and starts over at
/// its end. The channels stay the same.
pub proof fn lemma_packet_is_sent_to_one_worker(
    before: BufSenderGroup,
    val: Packet,
    sent: bool,
    after: BufSenderGroup,
    i: int,
    receiver: Receiver<Packet>,
)
    requires
        before.senders().len() > 0,
        before.send_leads_to(val, sent, after),
        before.same_channels(after),
        0 <= i < before.senders().len(),
    ensures
        after.senders().len() == before.senders().len(),
        before.turn() < usize::MAX ==> after.turn() == before.turn() + 1,
        before.turn() == usize::MAX ==> after.turn() == 0,
        i == before.turn() as int % before.senders().len() as int ==> sends_of(after.senders()[i])
            == sends_of(before.senders()[i]).push((val, sent)),
        i != before.turn() as int % before.senders().len() as int ==> sends_of(after.senders()[i])
            == sends_of(before.senders()[i]),
        connected(after.senders()[i], receiver) == connected(before.senders()[i], receiver),
        bound_of(after.senders()[i]) == bound_of(before.senders()[i]),
{
    assert(after.given(i) == sends_of(after.senders()[i]));
}

/// In a new group sender and receiver belong together if and only if they have the same number,
/// each channel holds one packet, nothing was sent yet, and the first turn is the first thread's.
pub proof fn lemma_new_group(
    senders: BufSenderGroup,
    receivers: BufReceiverGroup,
    size: nat,
    i: int,
    j: int,
)
    requires
        fresh_group(senders, receivers, size),
        0 <= i < size,
        0 <= j < size,
    ensures
        senders.senders().len() == size,
        receivers.0@.len() == size,
        senders.turn() == 0,
        sends_of(senders.senders()[i]).len() == 0,
        bound_of(senders.senders()[i]) == 1,
        connected(senders.senders()[i], receivers.0@[j]) <==> i == j,
{
    assert(senders.given(i).len() == 0);
}

// ---------------------------------------------------------------------------------------------
// The clock

/// A clock shows the nanoseconds from its start to an instant that does not come before it.
pub proof fn lemma_clock_shows_time_since_start(origin: int, now: u128)
    ensures
        shows(origin, now) <==> exists|instant: Instant| #[trigger]
            moment(instant) == origin + now,
{
    if shows(origin, now) {
        let instant = choose|instant: Instant|
            origin <= moment(instant) && now == #[trigger] reading(origin, instant);
        assert(moment(instant) == origin + now);
    }
    if exists|instant: Instant| #[trigger] moment(instant) == origin + now {
        let instant = choose|instant: Instant| #[trigger] moment(instant) == origin + now;
        assert(now == reading(origin, instant));
    }
}

} // verus!
