//! What the parts of the library promise together.
use std::time::Instant;
use vstd::prelude::*;

use crate::addr::{Ipv4Addr, SocketAddr};
use crate::clock::{moment, reading};
use crate::context::{ContextView, Outgoing, RELAY_SILENCE, UNMEASURED_RT};
use crate::error::ChannelError;
use crate::frame::{announced_len, head_of, lemma_head_announces_len, packet_len, BUF_SIZE};
use crate::group::{worker_at, BufSenderGroup, Packet};
use crate::list::{
    added, direct_only, distinct_keys, lemma_added_wf, lemma_filter_keeps, lemma_heard_wf,
    lemma_settled_at, lemma_sort_by_rt_is_stable_sort, lemma_sort_by_rt_members,
    lemma_without_key_wf, list_wf, lists_key, room, routes_of, settled_at, settles, sort_by_rt,
    sorted_by_rt, turned_away, without_key, RouteEntry,
};
use crate::route::{Route, RouteKey, Status, FIRST_EXTRA_ID, TCP_ID, UDP_ID};
use crate::tcp::{
    head_in, link_answer, LinkAction, LinkEvent, TcpAction, TcpEvent, TcpReader, TcpStage,
};
use crate::udp::{stop_bytes, ExtraUdp, MainUdp, Reception, UdpAction, UdpEvent};
use crate::watch::{
    changes_to_symmetric, status_before, StatusWatch, WatchAction, WatchEvent,
};

verus! {

// ---------------------------------------------------------------------------------------------
// Every context

/// Whatever is done to a context, what holds of contexts goes on to hold.
pub proof fn lemma_context_stays_well_formed<U>(
    context: ContextView<U>,
    id: Ipv4Addr,
    route: Route,
    only_if_absent: bool,
    now: u128,
    status: Status,
    socket: usize,
    udp: U,
)
    requires
        context.wf(),
    ensures
        context.route_offered(id, route, only_if_absent, now).wf(),
        context.route_removed(id, route.key()).wf(),
        context.route_heard(id, route.key(), now).wf(),
        (ContextView { status, ..context }).wf(),
        (ContextView { udps: context.udps.insert(socket, udp), ..context }).wf(),
        (ContextView { udps: context.udps.remove(socket), ..context }).wf(),
{
    let list = context.routes_to(id);
    let first_latency = context.first_latency;
    let channel_num = context.channel_num;
    assert(list_wf(list, first_latency, channel_num));
    lemma_added_wf(list, route, only_if_absent, first_latency, channel_num, now);
    lemma_without_key_wf(list, route.key(), first_latency, channel_num);
    lemma_heard_wf(list, route.key(), now, first_latency, channel_num);
}

/// There are never more than two routes to a peer, or three where latency comes first, and no
/// two of them have the same key.
pub proof fn lemma_few_routes_to_a_peer<U>(context: ContextView<U>, id: Ipv4Addr)
    requires
        context.wf(),
    ensures
        context.routes_to(id).len() <= (if context.first_latency {
            3nat
        } else {
            2nat
        }),
        distinct_keys(context.routes_to(id)),
{
}

// ---------------------------------------------------------------------------------------------
// Offering routes

/// A route that is not turned away is known afterwards, as it was offered and with the time at
/// which it was offered.
pub proof fn lemma_offered_route_is_known<U>(
    context: ContextView<U>,
    id: Ipv4Addr,
    route: Route,
    now: u128,
)
    requires
        context.wf(),
        !turned_away(context.routes_to(id), route, context.first_latency),
    ensures
        context.route_offered(id, route, false, now).routes_to(id).contains(
            RouteEntry { route, read_time: now },
        ),
{
    let list = context.routes_to(id);
    let entry = RouteEntry { route, read_time: now };
    let at = settled_at(list, route, context.first_latency, 0);
    lemma_settled_at(list, route, context.first_latency, 0);
    let out = added(list, route, false, context.first_latency, context.channel_num, now);
    assert(context.route_offered(id, route, false, now).routes_to(id) == out);
    if at >= list.len() {
        assert(out[out.len() - 1] == entry);
    } else {
        let changed = list.update(
            at,
            RouteEntry {
                route: Route { metric: route.metric, rt: route.rt, ..list[at].route },
                read_time: now,
            },
        );
        assert(list[at].route.key() == route.key());
        assert(changed[at] == entry);
        assert(changed.contains(entry));
        lemma_sort_by_rt_members(changed);
        assert(out == sort_by_rt(changed));
    }
}

/// A route that is offered only in case it is absent changes nothing if its key is known.
pub proof fn lemma_known_route_is_kept<U>(
    context: ContextView<U>,
    id: Ipv4Addr,
    route: Route,
    now: u128,
)
    requires
        lists_key(context.routes_to(id), route.key()),
    ensures
        context.route_offered(id, route, true, now) == context,
{
    let list = context.routes_to(id);
    lemma_settled_at(list, route, context.first_latency, 0);
    let i = choose|i: int| 0 <= i < list.len() && (#[trigger] list[i]).route.key() == route.key();
    assert(settles(list[i], route, context.first_latency));
    assert(context.route_offered(id, route, true, now).routes =~= context.routes);
}

/// Where few hops come before latency, a route with more hops changes nothing: neither if the
/// first known route has fewer, nor if the route that it would replace has fewer, nor if its
/// key is new and some known route has fewer.
pub proof fn lemma_longer_route_changes_nothing<U>(
    context: ContextView<U>,
    id: Ipv4Addr,
    route: Route,
    only_if_absent: bool,
    now: u128,
    i: int,
)
    requires
        !context.first_latency,
        0 <= i < context.routes_to(id).len(),
        context.routes_to(id)[i].route.metric < route.metric,
        i == 0 || context.routes_to(id)[i].route.key() == route.key() || !lists_key(
            context.routes_to(id),
            route.key(),
        ),
        context.wf(),
    ensures
        context.route_offered(id, route, only_if_absent, now) == context,
{
    let list = context.routes_to(id);
    let at = settled_at(list, route, false, 0);
    lemma_settled_at(list, route, false, 0);
    assert(settles(list[i], route, false));
    assert(at <= i);
    if at < i && list[at].route.key() == route.key() {
        if list[i].route.key() == route.key() {
            assert(list[at].route.key() != list[i].route.key());
        }
    }
    assert(turned_away(list, route, false));
    assert(context.route_offered(id, route, only_if_absent, now).routes =~= context.routes);
}

/// Where few hops come before latency, a direct route with a new key that is not turned away
/// drives all relayed routes out.
pub proof fn lemma_new_direct_route_drives_relayed_out<U>(
    context: ContextView<U>,
    id: Ipv4Addr,
    route: Route,
    only_if_absent: bool,
    now: u128,
)
    requires
        !context.first_latency,
        route.direct(),
        !lists_key(context.routes_to(id), route.key()),
        !turned_away(context.routes_to(id), route, false),
    ensures
        forall|i: int|
            0 <= i < context.route_offered(id, route, only_if_absent, now).routes_to(id).len()
                ==> (#[trigger] context.route_offered(
                id,
                route,
                only_if_absent,
                now,
            ).routes_to(id)[i]).route.direct(),
{
    let list = context.routes_to(id);
    let out = context.route_offered(id, route, only_if_absent, now).routes_to(id);
    lemma_settled_at(list, route, false, 0);
    let kept = direct_only(list);
    lemma_filter_keeps(list, |e: RouteEntry| e.route.direct());
    lemma_sort_by_rt_members(kept);
    assert forall|i: int| 0 <= i < out.len() implies (#[trigger] out[i]).route.direct() by {
        if i < out.len() - 1 {
            assert(out[i] == sort_by_rt(kept)[i]);
            assert(sort_by_rt(kept).contains(out[i]));
            let k = choose|k: int| 0 <= k < kept.len() && kept[k] == out[i];
            assert(kept[k].route.direct());
        }
    }
}

/// After a known route was brought up to date, the first route is one with the smallest
/// round-trip time.
pub proof fn lemma_update_puts_fastest_first<U>(
    context: ContextView<U>,
    id: Ipv4Addr,
    route: Route,
    now: u128,
)
    requires
        lists_key(context.routes_to(id), route.key()),
        !turned_away(context.routes_to(id), route, context.first_latency),
    ensures
        sorted_by_rt(context.route_offered(id, route, false, now).routes_to(id)),
        context.route_offered(id, route, false, now).routes_to(id).len() == context.routes_to(
            id,
        ).len(),
{
    let list = context.routes_to(id);
    let at = settled_at(list, route, context.first_latency, 0);
    lemma_settled_at(list, route, context.first_latency, 0);
    let i = choose|i: int| 0 <= i < list.len() && (#[trigger] list[i]).route.key() == route.key();
    assert(settles(list[i], route, context.first_latency));
    let changed = list.update(
        at,
        RouteEntry {
            route: Route { metric: route.metric, rt: route.rt, ..list[at].route },
            read_time: now,
        },
    );
    lemma_sort_by_rt_is_stable_sort(changed);
}

/// A route with a new key that is not turned away goes to the end of the list, behind the
/// fastest of the routes that stay, from the smallest round-trip time to the largest.
pub proof fn lemma_new_route_goes_last<U>(
    context: ContextView<U>,
    id: Ipv4Addr,
    route: Route,
    only_if_absent: bool,
    now: u128,
)
    requires
        !lists_key(context.routes_to(id), route.key()),
        !turned_away(context.routes_to(id), route, context.first_latency),
    ensures
        ({
            let kept = if !context.first_latency && route.direct() {
                direct_only(context.routes_to(id))
            } else {
                context.routes_to(id)
            };
            let room = room(context.first_latency, context.channel_num);
            let out = context.route_offered(id, route, only_if_absent, now).routes_to(id);
            &&& out.len() > 0
            &&& out.last() == (RouteEntry { route, read_time: now })
            &&& out.len() == (if kept.len() > room {
                room + 1
            } else {
                kept.len() + 1
            })
            &&& out.drop_last() == sort_by_rt(kept).take(out.len() - 1)
            &&& sorted_by_rt(out.drop_last())
        }),
{
    let list = context.routes_to(id);
    lemma_settled_at(list, route, context.first_latency, 0);
    let at = settled_at(list, route, context.first_latency, 0);
    if at < list.len() {
        assert(list[at].route.key() == route.key());
    }
    let kept = if !context.first_latency && route.direct() {
        direct_only(list)
    } else {
        list
    };
    lemma_sort_by_rt_is_stable_sort(kept);
    let sorted = sort_by_rt(kept);
    let out = context.route_offered(id, route, only_if_absent, now).routes_to(id);
    assert(out.drop_last() =~= sorted.take(out.len() - 1));
    assert forall|i: int, j: int| 0 <= i <= j < out.len() - 1 implies (
    #[trigger] out.drop_last()[i]).route.rt <= (#[trigger] out.drop_last()[j]).route.rt by {
        assert(sorted[i].route.rt <= sorted[j].route.rt);
    }
}

/// Hearing of a route changes no route, nor their order.
pub proof fn lemma_hearing_changes_no_route<U>(
    context: ContextView<U>,
    id: Ipv4Addr,
    key: RouteKey,
    now: u128,
)
    ensures
        routes_of(context.route_heard(id, key, now).routes_to(id)) == routes_of(
            context.routes_to(id),
        ),
{
    assert(routes_of(context.route_heard(id, key, now).routes_to(id)) =~= routes_of(
        context.routes_to(id),
    ));
}

/// What happens to the routes of one peer leaves the other peers, the sockets and the status
/// alone.
pub proof fn lemma_other_peers_untouched<U>(
    context: ContextView<U>,
    id: Ipv4Addr,
    other: Ipv4Addr,
    route: Route,
    only_if_absent: bool,
    now: u128,
)
    requires
        id != other,
    ensures
        context.route_offered(id, route, only_if_absent, now).routes_to(other)
            == context.routes_to(other),
        context.route_removed(id, route.key()).routes_to(other) == context.routes_to(other),
        context.route_heard(id, route.key(), now).routes_to(other) == context.routes_to(other),
        context.route_offered(id, route, only_if_absent, now).udps == context.udps,
        context.route_removed(id, route.key()).udps == context.udps,
        context.route_heard(id, route.key(), now).udps == context.udps,
        context.route_offered(id, route, only_if_absent, now).status == context.status,
        context.route_removed(id, route.key()).status == context.status,
        context.route_heard(id, route.key(), now).status == context.status,
{
}

// ---------------------------------------------------------------------------------------------
// Removing routes

/// A removed route is gone, the routes with other keys stay, and removing it again changes
/// nothing.
pub proof fn lemma_removed_route_is_gone<U>(context: ContextView<U>, id: Ipv4Addr, key: RouteKey)
    ensures
        !lists_key(context.route_removed(id, key).routes_to(id), key),
        forall|i: int|
            0 <= i < context.routes_to(id).len() && (#[trigger] context.routes_to(
                id,
            )[i]).route.key() != key ==> context.route_removed(id, key).routes_to(id).contains(
                context.routes_to(id)[i],
            ),
        context.route_removed(id, key).route_removed(id, key) == context.route_removed(id, key),
{
    let list = context.routes_to(id);
    let keep = |e: RouteEntry| e.route.key() != key;
    let removed = context.route_removed(id, key);
    if context.routes.contains_key(id) {
        let out = without_key(list, key);
        lemma_filter_keeps(list, keep);
        assert forall|i: int|
            0 <= i < list.len() && (#[trigger] list[i]).route.key() != key implies out.contains(
            list[i],
        ) by {
            list.lemma_filter_contains(keep, i);
        }
        lemma_filter_all(out, keep);
        assert(removed.route_removed(id, key).routes =~= removed.routes);
    }
}

/// A filter that every entry passes leaves the list as it is.
proof fn lemma_filter_all(list: Seq<RouteEntry>, keep: spec_fn(RouteEntry) -> bool)
    requires
        forall|i: int| 0 <= i < list.len() ==> keep(#[trigger] list[i]),
    ensures
        list.filter(keep) == list,
    decreases list.len(),
{
    reveal(Seq::filter);
    if list.len() > 0 {
        let rest = list.drop_last();
        assert forall|i: int| 0 <= i < rest.len() implies keep(#[trigger] rest[i]) by {
            assert(rest[i] == list[i]);
        }
        lemma_filter_all(rest, keep);
        assert(keep(list[list.len() - 1]));
        assert(list =~= rest.push(list.last()));
    } else {
        assert(list.filter(keep) =~= list);
    }
}

// ---------------------------------------------------------------------------------------------
// Direct routes

/// A direct route to a peer is to be found as long as none of its known routes is direct.
pub proof fn lemma_punching_goes_on_without_direct_route<U>(context: ContextView<U>, id: Ipv4Addr)
    requires
        context.wf(),
    ensures
        context.lacks_direct(id) <==> forall|i: int|
            0 <= i < context.routes_to(id).len() ==> !(#[trigger] context.routes_to(
                id,
            )[i]).route.direct(),
{
    let list = context.routes_to(id);
    let keep = |e: RouteEntry| e.route.direct();
    if context.lacks_direct(id) {
        assert forall|i: int| 0 <= i < list.len() implies !(#[trigger] list[i]).route.direct() by {
            if list[i].route.direct() {
                list.lemma_filter_contains(keep, i);
                assert(direct_only(list).contains(list[i]));
            }
        }
    } else {
        lemma_filter_keeps(list, keep);
        let entry = direct_only(list)[0];
        assert(entry.route.direct());
        assert(list.contains(entry));
        let i = choose|i: int| 0 <= i < list.len() && list[i] == entry;
        assert(list[i].route.direct());
    }
}

/// A direct route that is not turned away ends the search for one, and leads back from its key
/// to the peer.
pub proof fn lemma_direct_route_ends_punching<U>(
    context: ContextView<U>,
    id: Ipv4Addr,
    route: Route,
    now: u128,
)
    requires
        context.wf(),
        route.direct(),
        !turned_away(context.routes_to(id), route, context.first_latency),
    ensures
        !context.route_offered(id, route, false, now).lacks_direct(id),
        context.route_offered(id, route, false, now).reaches_directly(id, route.key()),
{
    lemma_offered_route_is_known(context, id, route, now);
    let after = context.route_offered(id, route, false, now);
    let list = after.routes_to(id);
    let entry = RouteEntry { route, read_time: now };
    let i = choose|i: int| 0 <= i < list.len() && list[i] == entry;
    assert(after.routes_to(id)[i].route.key() == route.key());
    list.lemma_filter_contains(|e: RouteEntry| e.route.direct(), i);
    assert(direct_only(list).contains(list[i]));
}

/// The direct first routes are among the first routes.
pub proof fn lemma_direct_first_routes_are_first_routes<U>(context: ContextView<U>)
    ensures
        context.first_direct_routes().submap_of(context.first_routes()),
        forall|id: Ipv4Addr| #[trigger]
            context.first_direct_routes().contains_key(id) <==> context.first_routes().contains_key(
                id,
            ) && context.first_routes()[id].direct(),
{
}

// ---------------------------------------------------------------------------------------------
// Sending

/// A packet for a peer goes over the first route to it, and only if that route's round-trip
/// time was measured and it is direct or was heard of a short while ago.
pub proof fn lemma_usable_route_is_first<U>(context: ContextView<U>, id: Ipv4Addr, now: u128)
    ensures
        context.usable_route(id, now) matches Ok(route) ==> {
            &&& context.first_routes().contains_key(id)
            &&& context.first_routes()[id] == route
            &&& route.rt != UNMEASURED_RT
            &&& route.direct() || now - context.routes_to(id)[0].read_time <= RELAY_SILENCE
        },
{
}

/// A measured first route stays usable, even if it is relayed, as long as something came in over
/// it a short while ago.
pub proof fn lemma_heard_route_is_usable<U>(
    context: ContextView<U>,
    id: Ipv4Addr,
    now: u128,
    later: u128,
)
    requires
        context.routes_to(id).len() > 0,
        context.routes_to(id)[0].route.rt != UNMEASURED_RT,
        later - now <= RELAY_SILENCE,
    ensures
        context.route_heard(id, context.routes_to(id)[0].route.key(), now).usable_route(id, later)
            == Ok::<Route, ChannelError>(context.routes_to(id)[0].route),
{
}

/// A relayed first route that was measured and over which something came in at one instant is
/// usable at another if and only if that one comes no more than the allowed time after the first.
pub proof fn lemma_silence_is_the_time_between<U>(
    context: ContextView<U>,
    id: Ipv4Addr,
    heard_at: Instant,
    asked_at: Instant,
    heard: u128,
    asked: u128,
)
    requires
        context.routes_to(id).len() > 0,
        context.routes_to(id)[0].route.rt != UNMEASURED_RT,
        !context.routes_to(id)[0].route.direct(),
        context.origin <= moment(heard_at),
        context.origin <= moment(asked_at),
        heard == reading(context.origin, heard_at),
        asked == reading(context.origin, asked_at),
    ensures
        ({
            let first = context.routes_to(id)[0].route;
            let after = context.route_heard(id, first.key(), heard);
            after.usable_route(id, asked) == (if moment(asked_at) - moment(heard_at)
                <= RELAY_SILENCE {
                Ok::<Route, ChannelError>(first)
            } else {
                Err(ChannelError::RouteTimeOut)
            })
        }),
{
}

/// Sending to the server is sending over TCP if there is a connection, and sending from the main
/// UDP socket otherwise.
pub proof fn lemma_main_is_tcp_or_udp<U>(
    context: ContextView<U>,
    packet: Seq<u8>,
    addr: SocketAddr,
)
    ensures
        context.main_tcp ==> Ok::<Outgoing<U>, ChannelError>(context.to_main(packet, addr))
            == context.to_key(packet, RouteKey { index: TCP_ID, addr }),
        !context.main_tcp ==> Ok::<Outgoing<U>, ChannelError>(context.to_main(packet, addr))
            == context.to_key(packet, RouteKey { index: UDP_ID, addr }),
{
}

/// What goes into the TCP connection for a packet, a reader takes out again: it asks for as many
/// bytes as the packet has and hands them on, and they are the packet.
pub proof fn lemma_frame_read_back<U>(
    context: ContextView<U>,
    packet: Seq<u8>,
    head: [u8; 4],
    reader: TcpReader,
)
    requires
        context.main_tcp,
        packet_len(packet.len()),
        reader.stage == TcpStage::Head,
        reader.head_reserve + packet.len() <= BUF_SIZE,
        context.to_tcp(packet) matches Ok(Outgoing::MainTcp { bytes }) && head@ == bytes.take(4),
    ensures
        context.to_tcp(packet)->Ok_0->MainTcp_bytes.skip(4) == packet,
        reader.expects(TcpEvent::HeadRead { head }),
        reader.answer(TcpEvent::HeadRead { head }) == (TcpAction::ReadBody {
            start: reader.head_reserve,
            end: (reader.head_reserve + packet.len()) as usize,
        }),
        ({
            let told = reader.told(TcpEvent::HeadRead { head });
            &&& told.expects(TcpEvent::BodyRead)
            &&& told.answer(TcpEvent::BodyRead) == (TcpAction::Handle {
                start: reader.head_reserve,
                end: (reader.head_reserve + packet.len()) as usize,
                key: reader.key,
            })
            &&& told.next_stage(TcpEvent::BodyRead) == TcpStage::Round
        }),
{
    let bytes = head_of(packet.len()) + packet;
    lemma_head_announces_len(packet.len());
    assert(bytes.take(4) =~= head_of(packet.len()));
    assert(bytes.skip(4) =~= packet);
    assert(announced_len(head@) == packet.len());
}

/// The bytes that go into the TCP connection for the packets, one after the other.
pub open spec fn written<U>(context: ContextView<U>, packets: Seq<Seq<u8>>) -> Seq<u8>
    decreases packets.len(),
{
    if packets.len() == 0 {
        Seq::empty()
    } else {
        match context.to_tcp(packets[0]) {
            Ok(Outgoing::MainTcp { bytes }) => bytes + written(context, packets.drop_first()),
            _ => written(context, packets.drop_first()),
        }
    }
}

/// What goes into the TCP connection for any number of packets, a reader takes out again: it hands
/// them all on, in their order, as coming from the server, and then what follows them.
pub proof fn lemma_stream_read_back<U>(
    context: ContextView<U>,
    packets: Seq<Seq<u8>>,
    rest: Seq<u8>,
    reader: TcpReader,
)
    requires
        context.main_tcp,
        reader.stage == TcpStage::Round,
        forall|i: int|
            0 <= i < packets.len() ==> packet_len((#[trigger] packets[i]).len())
                && reader.head_reserve + packets[i].len() <= BUF_SIZE,
    ensures
        reader.handed_on(written(context, packets) + rest) == packets.map_values(
            |packet: Seq<u8>| (reader.key, packet),
        ) + reader.handed_on(rest),
    decreases packets.len(),
{
    let label = |packet: Seq<u8>| (reader.key, packet);
    let stream = written(context, packets) + rest;
    if packets.len() == 0 {
        assert(stream =~= rest);
        assert(packets.map_values(label) + reader.handed_on(rest) =~= reader.handed_on(rest));
    } else {
        let packet = packets[0];
        let others = packets.drop_first();
        let following = written(context, others) + rest;
        let len = packet.len() as int;
        assert forall|i: int| 0 <= i < others.len() implies packet_len(
            (#[trigger] others[i]).len(),
        ) && reader.head_reserve + others[i].len() <= BUF_SIZE by {
            assert(others[i] == packets[i + 1]);
        }
        lemma_stream_read_back(context, others, rest, reader);
        assert(stream =~= head_of(packet.len()) + packet + following);
        let head = head_in(stream);
        assert(head@ =~= head_of(packet.len()));
        let bytes = head_of(packet.len()) + packet;
        assert(bytes.take(4) =~= head@);
        let told = reader.told(TcpEvent::Round { closed: false });
        lemma_frame_read_back(context, packet, head, told);
        assert(stream.subrange(4, 4 + len) =~= packet);
        assert(stream.skip(4 + len) =~= following);
        assert(reader.handed_on(stream) == seq![(reader.key, packet)] + reader.handed_on(
            following,
        ));
        assert(packets.map_values(label) =~= seq![(reader.key, packet)] + others.map_values(label));
        assert(seq![(reader.key, packet)] + (others.map_values(label) + reader.handed_on(rest))
            =~= packets.map_values(label) + reader.handed_on(rest));
    }
}

/// A packet that is shorter or longer than packets may be, but whose length fits into the head,
/// is refused by a reader of the TCP connection.
pub proof fn lemma_odd_length_is_refused(packet: Seq<u8>, head: [u8; 4], reader: TcpReader)
    requires
        !packet_len(packet.len()),
        packet.len() < 0x1_0000,
        head@ == head_of(packet.len()),
        reader.stage == TcpStage::Head,
    ensures
        reader.expects(TcpEvent::HeadRead { head }),
        reader.answer(TcpEvent::HeadRead { head }) == (TcpAction::Fail {
            error: ChannelError::LengthOverflow,
        }),
        reader.next_stage(TcpEvent::HeadRead { head }) == TcpStage::Ended,
{
    lemma_head_announces_len(packet.len());
}

// ---------------------------------------------------------------------------------------------
// Extra sockets

/// An extra socket's channel index is neither that of the TCP connection nor that of the main
/// socket. While the socket is in the channel, what is sent along its index goes out from it;
/// once it has left, nothing can be sent along that index.
pub proof fn lemma_extra_socket_is_used_while_open<U>(
    context: ContextView<U>,
    socket: usize,
    udp: U,
    packet: Seq<u8>,
    addr: SocketAddr,
)
    requires
        socket <= usize::MAX - FIRST_EXTRA_ID,
    ensures
        ({
            let id = (FIRST_EXTRA_ID + socket) as usize;
            let key = RouteKey { index: id, addr };
            let open = ContextView { udps: context.udps.insert(id, udp), ..context };
            let left = ContextView { udps: open.udps.remove(id), ..open };
            &&& id != TCP_ID && id != UDP_ID
            &&& open.to_key(packet, key) == Ok::<Outgoing<U>, ChannelError>(
                Outgoing::Udp { udp, bytes: packet, addr },
            )
            &&& left.to_key(packet, key) == Err::<Outgoing<U>, ChannelError>(
                ChannelError::RouteNotFound,
            )
            &&& left.udps == context.udps.remove(id)
        }),
{
    let id = (FIRST_EXTRA_ID + socket) as usize;
    assert(context.udps.insert(id, udp).remove(id) =~= context.udps.remove(id));
}

// ---------------------------------------------------------------------------------------------
// Following the status

/// Once the channel is closed, every part of it ends at its next turn: the main socket when the
/// message arrives that closing sends to it, an extra socket and a started channel that follows
/// its status when they notice the status, any started channel when all parts are told to stop,
/// and the TCP connection at the next round or the next attempt to connect.
pub proof fn lemma_closing_ends_every_part(
    main: MainUdp,
    buf: Seq<u8>,
    addr: SocketAddr,
    extra: ExtraUdp,
    watch: StatusWatch,
    reader: TcpReader,
)
    requires
        main.head_reserve + 4 <= buf.len(),
        buf.subrange(main.head_reserve as int, main.head_reserve + 4) == stop_bytes(),
    ensures
        main.answer(buf, Reception::Datagram { len: 4, addr }, Status::Close) == UdpAction::Leave,
        extra.answer(UdpEvent::StatusChanged { status: Status::Close }) == UdpAction::Leave,
        !watch.relay ==> watch.answer(WatchEvent::StatusChanged { status: Status::Close })
            == WatchAction::StopAll,
        watch.answer(WatchEvent::Stopped) == (if watch.relay {
            WatchAction::End
        } else {
            WatchAction::StopAll
        }),
        reader.answer(TcpEvent::Round { closed: true }) == TcpAction::Finish,
        link_answer(LinkEvent::ShutDown { closed: true }) == LinkAction::Return,
        link_answer(LinkEvent::Paused { closed: true }) == LinkAction::Return,
{
}

/// The main socket ends if and only if it is told to stop while the channel is closed: as long as
/// the channel is not closed it hands every datagram on, whatever it says, and an attempt to
/// receive that fails never ends it.
pub proof fn lemma_main_socket_ends_only_when_closed(
    main: MainUdp,
    buf: Seq<u8>,
    reception: Reception,
    status: Status,
)
    ensures
        main.answer(buf, reception, status) == UdpAction::Leave <==> status == Status::Close && (
        reception matches Reception::Datagram { len, .. } && buf.subrange(
            main.head_reserve as int,
            main.head_reserve + len,
        ) == stop_bytes()),
        reception is Datagram && status != Status::Close ==> main.answer(
            buf,
            reception,
            status,
        ) is Deliver,
        reception is Failed ==> main.answer(buf, reception, status) == UdpAction::Wait,
{
}

/// Extra sockets are opened once for each time that the network address translation becomes
/// symmetric: a second report of it opens none, and one after it was a cone in between does.
pub proof fn lemma_symmetric_opens_once(watch: StatusWatch)
    ensures
        ({
            let symmetric = WatchEvent::StatusChanged { status: Status::Symmetric };
            let cone = WatchEvent::StatusChanged { status: Status::Cone };
            let open = WatchAction::Open { count: watch.symmetric_channel_num, is_core: false };
            &&& watch.after(symmetric).answer(symmetric) == WatchAction::Wait
            &&& watch.after(cone).answer(symmetric) == open
            &&& watch.after(symmetric).after(cone).answer(symmetric) == open
        }),
{
}

/// A channel that is told of statuses without being closed adapts to the last of them.
proof fn lemma_adapts_to_last(watch: StatusWatch, statuses: Seq<Status>)
    requires
        forall|i: int| 0 <= i < statuses.len() ==> #[trigger] statuses[i] != Status::Close,
    ensures
        watch.after_all(statuses) == (StatusWatch {
            current: status_before(watch.current, statuses, statuses.len() as int),
            ..watch
        }),
    decreases statuses.len(),
{
    if statuses.len() > 0 {
        let rest = statuses.drop_last();
        assert forall|i: int| 0 <= i < rest.len() implies #[trigger] rest[i] != Status::Close by {
            assert(rest[i] == statuses[i]);
        }
        lemma_adapts_to_last(watch, rest);
        assert(statuses[statuses.len() - 1] != Status::Close);
    }
}

/// One more status adds at most its own place to those at which the status becomes symmetric.
proof fn lemma_one_more_status(first: Status, statuses: Seq<Status>, status: Status)
    ensures
        changes_to_symmetric(first, statuses).finite(),
        changes_to_symmetric(first, statuses.push(status)).len() == changes_to_symmetric(
            first,
            statuses,
        ).len() + (if status == Status::Symmetric && status_before(
            first,
            statuses,
            statuses.len() as int,
        ) != Status::Symmetric {
            1int
        } else {
            0int
        }),
{
    let n = statuses.len() as int;
    let longer = statuses.push(status);
    let before = changes_to_symmetric(first, statuses);
    let after = changes_to_symmetric(first, longer);
    vstd::set_lib::lemma_int_range(0, n);
    vstd::set_lib::lemma_int_range(0, n + 1);
    assert forall|i: int| 0 <= i < n implies longer[i] == statuses[i] && status_before(
        first,
        longer,
        i,
    ) == status_before(first, statuses, i) by {}
    if status == Status::Symmetric && status_before(first, statuses, n) != Status::Symmetric {
        assert(after =~= before.insert(n));
    } else {
        assert(after =~= before);
    }
}

/// Over any statuses that a channel is told of without being closed, it asks for as many times the
/// wanted number of extra sockets as the network address translation became symmetric.
pub proof fn lemma_sockets_asked_for(watch: StatusWatch, statuses: Seq<Status>)
    requires
        !watch.relay,
        forall|i: int| 0 <= i < statuses.len() ==> #[trigger] statuses[i] != Status::Close,
    ensures
        changes_to_symmetric(watch.current, statuses).finite(),
        watch.asked_for(statuses) == watch.symmetric_channel_num * changes_to_symmetric(
            watch.current,
            statuses,
        ).len(),
    decreases statuses.len(),
{
    let first = watch.current;
    if statuses.len() == 0 {
        lemma_one_more_status(first, statuses, Status::Cone);
        vstd::set_lib::lemma_int_range(0, 0);
        assert(changes_to_symmetric(first, statuses) =~= Set::empty());
        assert(watch.symmetric_channel_num * 0 == 0);
    } else {
        let rest = statuses.drop_last();
        let status = statuses.last();
        assert forall|i: int| 0 <= i < rest.len() implies #[trigger] rest[i] != Status::Close by {
            assert(rest[i] == statuses[i]);
        }
        assert(statuses[statuses.len() - 1] != Status::Close);
        lemma_sockets_asked_for(watch, rest);
        lemma_adapts_to_last(watch, rest);
        lemma_one_more_status(first, rest, status);
        lemma_one_more_status(first, statuses, status);
        assert(rest.push(status) =~= statuses);
        let count = watch.symmetric_channel_num as int;
        let before = changes_to_symmetric(first, rest).len() as int;
        let after = changes_to_symmetric(first, statuses).len() as int;
        let told = watch.after_all(rest);
        assert(told.current == status_before(first, rest, rest.len() as int));
        if status == Status::Symmetric && told.current != Status::Symmetric {
            assert(after == before + 1);
            assert(watch.asked_for(statuses) == watch.asked_for(rest) + count);
            assert(count * (before + 1) == count * before + count) by (nonlinear_arith);
        } else {
            assert(after == before);
            assert(watch.asked_for(statuses) == watch.asked_for(rest));
        }
    }
}

/// A channel goes on waiting over any statuses that it is told of without being closed.
pub proof fn lemma_waits_until_closed(watch: StatusWatch, statuses: Seq<Status>, i: int)
    requires
        !watch.relay,
        forall|j: int| 0 <= j < statuses.len() ==> #[trigger] statuses[j] != Status::Close,
        0 <= i < statuses.len(),
    ensures
        ({
            let told = watch.after_all(statuses.take(i));
            let event = WatchEvent::StatusChanged { status: statuses[i] };
            told.expects(event) && (told.answer(event) is Wait || told.answer(event) is Open)
        }),
{
    let part = statuses.take(i);
    assert forall|j: int| 0 <= j < part.len() implies #[trigger] part[j] != Status::Close by {
        assert(part[j] == statuses[j]);
    }
    lemma_adapts_to_last(watch, part);
}

// ---------------------------------------------------------------------------------------------
// Worker threads

/// How many turns after `turn` it is worker thread `i`'s turn, in a group of `size`.
pub open spec fn turns_until(turn: usize, size: nat, i: int) -> int {
    (i - turn) % (size as int)
}

/// It is worker thread `i`'s turn so many turns after `turn`, and at no other of the turns of one
/// round.
proof fn lemma_turns_until(turn: usize, size: nat, i: int, k: int)
    requires
        0 <= i < size,
        0 <= k < size,
        turn + k <= usize::MAX,
    ensures
        worker_at((turn + k) as usize, size) == i <==> turns_until(turn, size, i) == k,
        0 <= turns_until(turn, size, i) < size,
{
    let n = size as int;
    let q = (turn + k) / n;
    let p = (i - turn) / n;
    vstd::arithmetic::div_mod::lemma_fundamental_div_mod(turn + k, n);
    vstd::arithmetic::div_mod::lemma_fundamental_div_mod(i - turn, n);
    assert(n * q == q * n && (-q) * n == -(q * n) && n * p == p * n && (-p) * n == -(p * n))
        by (nonlinear_arith);
    if worker_at((turn + k) as usize, size) == i {
        vstd::arithmetic::div_mod::lemma_fundamental_div_mod_converse(i - turn, n, -q, k);
    }
    if turns_until(turn, size, i) == k {
        vstd::arithmetic::div_mod::lemma_fundamental_div_mod_converse(turn + k, n, -p, i);
    }
}

/// The first `k` packets of a round have gone to one worker thread each.
proof fn lemma_part_of_round(groups: Seq<BufSenderGroup>, packets: Seq<Packet>, k: int)
    requires
        groups.len() == packets.len() + 1,
        groups[0].size() == packets.len(),
        groups[0].turn() + packets.len() <= usize::MAX,
        forall|j: int|
            0 <= j < packets.len() ==> groups[j].send_leads_to(
                #[trigger] packets[j],
                true,
                groups[j + 1],
            ),
        0 <= k <= packets.len(),
    ensures
        groups[k].size() == packets.len(),
        groups[k].turn() == groups[0].turn() + k,
        forall|i: int|
            0 <= i < packets.len() ==> #[trigger] groups[k].given(i) == (if turns_until(
                groups[0].turn(),
                packets.len(),
                i,
            ) < k {
                groups[0].given(i).push(
                    (packets[turns_until(groups[0].turn(), packets.len(), i)], true),
                )
            } else {
                groups[0].given(i)
            }),
    decreases k,
{
    let turn = groups[0].turn();
    let size = packets.len();
    if k == 0 {
        assert forall|i: int| 0 <= i < size implies turns_until(turn, size, i) >= 0 by {
            lemma_turns_until(turn, size, i, 0);
        }
    } else {
        lemma_part_of_round(groups, packets, k - 1);
        assert(groups[k - 1].send_leads_to(packets[k - 1], true, groups[k]));
        assert forall|i: int| 0 <= i < size implies #[trigger] groups[k].given(i) == (
        if turns_until(turn, size, i) < k {
            groups[0].given(i).push((packets[turns_until(turn, size, i)], true))
        } else {
            groups[0].given(i)
        }) by {
            lemma_turns_until(turn, size, i, k - 1);
        }
    }
}

/// As many packets in a row as there are worker threads, all of them taken and without the counter
/// starting over, go round: every worker thread gets exactly one, that of its turn.
pub proof fn lemma_packets_go_round(groups: Seq<BufSenderGroup>, packets: Seq<Packet>, i: int)
    requires
        groups.len() == packets.len() + 1,
        groups[0].size() == packets.len(),
        groups[0].turn() + packets.len() <= usize::MAX,
        forall|j: int|
            0 <= j < packets.len() ==> groups[j].send_leads_to(
                #[trigger] packets[j],
                true,
                groups[j + 1],
            ),
        0 <= i < packets.len(),
    ensures
        groups.last().turn() == groups[0].turn() + packets.len(),
        ({
            let j = turns_until(groups[0].turn(), packets.len(), i);
            &&& 0 <= j < packets.len()
            &&& worker_at((groups[0].turn() + j) as usize, packets.len()) == i
            &&& groups.last().given(i) == groups[0].given(i).push((packets[j], true))
        }),
{
    let turn = groups[0].turn();
    let size = packets.len();
    lemma_turns_until(turn, size, i, 0);
    lemma_turns_until(turn, size, i, turns_until(turn, size, i));
    lemma_part_of_round(groups, packets, size as int);
    assert(groups.last() == groups[size as int]);
}

/// As many packets in a row as there are worker threads, all of them taken and without the counter
/// starting over: the packet of each turn goes to the worker thread of that turn.
pub proof fn lemma_packet_goes_to_its_turn(
    groups: Seq<BufSenderGroup>,
    packets: Seq<Packet>,
    j: int,
)
    requires
        groups.len() == packets.len() + 1,
        groups[0].size() == packets.len(),
        groups[0].turn() + packets.len() <= usize::MAX,
        forall|k: int|
            0 <= k < packets.len() ==> groups[k].send_leads_to(
                #[trigger] packets[k],
                true,
                groups[k + 1],
            ),
        0 <= j < packets.len(),
    ensures
        ({
            let worker = worker_at((groups[0].turn() + j) as usize, packets.len());
            &&& 0 <= worker < packets.len()
            &&& groups.last().given(worker) == groups[0].given(worker).push((packets[j], true))
        }),
{
    let turn = groups[0].turn();
    let size = packets.len();
    let worker = worker_at((turn + j) as usize, size);
    vstd::arithmetic::div_mod::lemma_mod_bound(turn + j, size as int);
    lemma_turns_until(turn, size, worker, j);
    lemma_packets_go_round(groups, packets, worker);
}

} // verus!
