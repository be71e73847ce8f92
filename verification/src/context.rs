//! What the parts of a channel share: the routes to the peers, the extra sockets and the status.
use std::collections::HashMap;
use vstd::prelude::*;
use vstd::std_specs::hash::spec_hash_map_iter;
use vstd::std_specs::iter::IteratorSpec;

use crate::addr::{Ipv4Addr, SocketAddr, SocketAddrV4, LOCALHOST};
use crate::clock::{shows, Clock};
use crate::error::ChannelError;
use crate::frame::{frame_head, head_of};
use crate::list::{
    add_to_list, added, copy_routes, count_direct, direct_only, heard, lemma_added_wf,
    lemma_heard_wf, lemma_without_key_wf, list_wf, mark_heard, remove_key, routes_of, without_key,
    RouteEntry,
};
use crate::route::{NatType, Route, RouteKey, Status, DIRECT_METRIC, TCP_ID, UDP_ID};
use crate::walk::{
    enumerates, enumerates_walked, lemma_iteration_walks, lemma_walk_end, lemma_walk_step, walks,
};

verus! {

broadcast use vstd::std_specs::hash::group_hash_axioms;

/// The round-trip time of a route that has just come in and was not measured yet.
pub const UNMEASURED_RT: i64 = 199;

/// For how many nanoseconds a relayed route may be silent before it is no longer used.
pub const RELAY_SILENCE: u128 = 6_000_000_000;

/// What the parts of a channel share, as a mathematical value.
#[verifier::ext_equal]
pub struct ContextView<U> {
    /// The routes to each peer.
    pub routes: Map<Ipv4Addr, Seq<RouteEntry>>,
    /// The extra UDP sockets by their channel index.
    pub udps: Map<usize, U>,
    /// What the channel does at the moment.
    pub status: Status,
    /// Whether the server is reached over TCP.
    pub main_tcp: bool,
    /// How many routes to a peer are wanted.
    pub channel_num: nat,
    /// Whether low latency comes before few hops.
    pub first_latency: bool,
    /// The moment from which the times are counted.
    pub origin: int,
}

impl<U> ContextView<U> {
    /// What holds of a context at all times.
    pub open spec fn wf(self) -> bool {
        &&& self.channel_num == 1
        &&& forall|id: Ipv4Addr| #[trigger]
            self.routes.contains_key(id) ==> list_wf(
                self.routes[id],
                self.first_latency,
                self.channel_num,
            )
    }

    /// The routes to a peer; none if the peer is unknown.
    pub open spec fn routes_to(self, id: Ipv4Addr) -> Seq<RouteEntry> {
        if self.routes.contains_key(id) {
            self.routes[id]
        } else {
            Seq::empty()
        }
    }

    /// The context after the route was offered for the peer at time `now`.
    pub open spec fn route_offered(
        self,
        id: Ipv4Addr,
        route: Route,
        only_if_absent: bool,
        now: u128,
    ) -> ContextView<U> {
        ContextView {
            routes: self.routes.insert(
                id,
                added(
                    self.routes_to(id),
                    route,
                    only_if_absent,
                    self.first_latency,
                    self.channel_num,
                    now,
                ),
            ),
            ..self
        }
    }

    /// The context after the route with the key was taken away from the peer.
    pub open spec fn route_removed(self, id: Ipv4Addr, key: RouteKey) -> ContextView<U> {
        if self.routes.contains_key(id) {
            ContextView {
                routes: self.routes.insert(id, without_key(self.routes[id], key)),
                ..self
            }
        } else {
            self
        }
    }

    /// The context after something came in from the peer over the route with the key.
    pub open spec fn route_heard(self, id: Ipv4Addr, key: RouteKey, now: u128) -> ContextView<U> {
        if self.routes.contains_key(id) {
            ContextView { routes: self.routes.insert(id, heard(self.routes[id], key, now)), ..self }
        } else {
            self
        }
    }

    /// The route over which a packet for the peer goes at time `now`.
    pub open spec fn usable_route(self, id: Ipv4Addr, now: u128) -> Result<Route, ChannelError> {
        if self.routes_to(id).len() == 0 {
            Err(ChannelError::RouteNotFound)
        } else {
            let entry = self.routes_to(id)[0];
            if entry.route.rt == UNMEASURED_RT {
                Err(ChannelError::RouteNotFound)
            } else if !entry.route.direct() && now - entry.read_time > RELAY_SILENCE {
                Err(ChannelError::RouteTimeOut)
            } else {
                Ok(entry.route)
            }
        }
    }

    /// What goes out when a packet is sent to the server or, without TCP, to `addr`.
    pub open spec fn to_main(self, packet: Seq<u8>, addr: SocketAddr) -> Outgoing<U> {
        if self.main_tcp {
            Outgoing::MainTcp { bytes: head_of(packet.len()) + packet }
        } else {
            Outgoing::MainUdp { bytes: packet, addr: addr.spec_to_v6() }
        }
    }

    /// What goes out when a packet is sent over TCP.
    pub open spec fn to_tcp(self, packet: Seq<u8>) -> Result<Outgoing<U>, ChannelError> {
        if self.main_tcp {
            Ok(Outgoing::MainTcp { bytes: head_of(packet.len()) + packet })
        } else {
            Err(ChannelError::TcpNotFound)
        }
    }

    /// What goes out when a packet is sent along the key.
    pub open spec fn to_key(self, packet: Seq<u8>, key: RouteKey) -> Result<
        Outgoing<U>,
        ChannelError,
    > {
        if key.index == TCP_ID {
            self.to_tcp(packet)
        } else if key.index == UDP_ID {
            Ok(Outgoing::MainUdp { bytes: packet, addr: key.addr.spec_to_v6() })
        } else if self.udps.contains_key(key.index) {
            Ok(Outgoing::Udp { udp: self.udps[key.index], bytes: packet, addr: key.addr })
        } else {
            Err(ChannelError::RouteNotFound)
        }
    }

    /// What goes out when a packet is sent to the peer at time `now`.
    pub open spec fn to_peer(self, packet: Seq<u8>, id: Ipv4Addr, now: u128) -> Result<
        Outgoing<U>,
        ChannelError,
    > {
        match self.usable_route(id, now) {
            Ok(route) => self.to_key(packet, route.key()),
            Err(error) => Err(error),
        }
    }

    /// What goes out when a packet is sent to `addr` from every extra socket.
    pub open spec fn to_all(self, packet: Seq<u8>, addr: SocketAddr) -> Map<usize, Outgoing<U>> {
        self.udps.map_values(|udp: U| Outgoing::Udp { udp, bytes: packet, addr })
    }

    /// The context after the channel took on the status.
    pub open spec fn taking_on(self, status: Status) -> ContextView<U> {
        ContextView { status, ..self }
    }

    /// The context after an extra socket was kept under its channel index.
    pub open spec fn udp_kept(self, index: usize, udp: U) -> ContextView<U> {
        ContextView { udps: self.udps.insert(index, udp), ..self }
    }

    /// The context after the extra socket with the channel index was forgotten.
    pub open spec fn udp_forgotten(self, index: usize) -> ContextView<U> {
        ContextView { udps: self.udps.remove(index), ..self }
    }

    /// Whether there are too few direct routes to the peer.
    pub open spec fn lacks_direct(self, id: Ipv4Addr) -> bool {
        direct_only(self.routes_to(id)).len() < self.channel_num
    }

    /// The peer's routes hold a direct one with the key.
    pub open spec fn reaches_directly(self, id: Ipv4Addr, key: RouteKey) -> bool {
        exists|i: int|
            #![trigger self.routes_to(id)[i]]
            0 <= i < self.routes_to(id).len() && self.routes_to(id)[i].route.key() == key
                && self.routes_to(id)[i].route.direct()
    }

    /// The routes to each known peer.
    pub open spec fn all_routes(self) -> Map<Ipv4Addr, Seq<Route>> {
        self.routes.map_values(|list: Seq<RouteEntry>| routes_of(list))
    }

    /// The first route to each peer that has one.
    pub open spec fn first_routes(self) -> Map<Ipv4Addr, Route> {
        Map::new(
            |id: Ipv4Addr| self.routes_to(id).len() > 0,
            |id: Ipv4Addr| self.routes_to(id)[0].route,
        )
    }

    /// The first route to each peer that has one, or only to those whose first route is direct.
    spec fn first_routes_if(self, only_direct: bool) -> Map<Ipv4Addr, Route> {
        if only_direct {
            self.first_direct_routes()
        } else {
            self.first_routes()
        }
    }

    /// The first route to each peer that has one and whose first route is direct.
    pub open spec fn first_direct_routes(self) -> Map<Ipv4Addr, Route> {
        Map::new(
            |id: Ipv4Addr| self.routes_to(id).len() > 0 && self.routes_to(id)[0].route.direct(),
            |id: Ipv4Addr| self.routes_to(id)[0].route,
        )
    }
}

/// The pairs with the lists in them as sequences.
pub open spec fn with_lists(pairs: Seq<(Ipv4Addr, Vec<Route>)>) -> Seq<(Ipv4Addr, Seq<Route>)> {
    pairs.map_values(|pair: (Ipv4Addr, Vec<Route>)| (pair.0, pair.1@))
}

/// The pairs with what the transmissions in them amount to.
pub open spec fn with_outgoing<'a, U>(pairs: Seq<(usize, Transmission<'a, U>)>) -> Seq<
    (usize, Outgoing<U>),
> {
    pairs.map_values(|pair: (usize, Transmission<'a, U>)| (pair.0, pair.1@))
}

/// Bytes on their way out.
#[verifier::ext_equal]
pub enum Outgoing<U> {
    /// Into the TCP connection to the server.
    MainTcp { bytes: Seq<u8> },
    /// From the main UDP socket.
    MainUdp { bytes: Seq<u8>, addr: SocketAddr },
    /// From an extra UDP socket.
    Udp { udp: U, bytes: Seq<u8>, addr: SocketAddr },
}

impl<U> Outgoing<U> {
    /// How many bytes the sender is told went out, given how many the socket took.
    pub open spec fn reported(self, taken: usize) -> int {
        match self {
            Outgoing::MainTcp { bytes } => bytes.len() - 4,
            _ => taken as int,
        }
    }
}

/// A packet to be written out.
pub enum Transmission<'a, U> {
    /// Write the head and then the packet to the TCP connection to the server.
    MainTcp { head: [u8; 4], packet: &'a [u8] },
    /// Send the packet from the main UDP socket.
    MainUdp { packet: &'a [u8], addr: SocketAddr },
    /// Send the packet from an extra UDP socket.
    Udp { udp: &'a U, packet: &'a [u8], addr: SocketAddr },
}

impl<'a, U> View for Transmission<'a, U> {
    type V = Outgoing<U>;

    open spec fn view(&self) -> Outgoing<U> {
        match *self {
            Transmission::MainTcp { head, packet } => Outgoing::MainTcp { bytes: head@ + packet@ },
            Transmission::MainUdp { packet, addr } => Outgoing::MainUdp { bytes: packet@, addr },
            Transmission::Udp { udp, packet, addr } => Outgoing::Udp {
                udp: *udp,
                bytes: packet@,
                addr,
            },
        }
    }
}

impl<'a, U> Transmission<'a, U> {
    /// How many bytes the sender is told went out, given how many the socket took: the head in
    /// front of a packet in the TCP connection does not count.
    pub fn reported_len(&self, taken: usize) -> (len: usize)
        ensures
            len == (match self@ {
                Outgoing::MainTcp { bytes } => bytes.len() - 4,
                _ => taken as int,
            }),
            len == self@.reported(taken),
    {
        match self {
            Transmission::MainTcp { packet, .. } => packet.len(),
            _ => taken,
        }
    }
}

/// A step of closing a channel.
#[derive(Clone, Copy, Debug, PartialEq, Eq, Structural)]
pub enum CloseStep {
    /// Send the message `stop` to the main UDP socket from a socket of its own.
    SendStop { addr: SocketAddr },
    /// Shut the TCP connection to the server down.
    ShutdownTcp,
    /// The channel is closed.
    Done,
    /// A step failed, and closing ends with its error.
    Failed,
}

/// What is to be done first when a channel is closed.
pub open spec fn first_close_step(main_tcp: bool, local_port: Option<u16>) -> CloseStep {
    match local_port {
        Some(port) => CloseStep::SendStop {
            addr: SocketAddr::V4(SocketAddrV4 { ip: LOCALHOST, port }),
        },
        None => close_step_after_stop(main_tcp),
    }
}

/// What is to be done once the main UDP socket needs no more waking up.
pub open spec fn close_step_after_stop(main_tcp: bool) -> CloseStep {
    if main_tcp {
        CloseStep::ShutdownTcp
    } else {
        CloseStep::Done
    }
}

/// What is to be done after a step of closing.
pub open spec fn close_step_after(main_tcp: bool, step: CloseStep, succeeded: bool) -> CloseStep {
    if step is Done || step is Failed {
        step
    } else if !succeeded {
        CloseStep::Failed
    } else if step is SendStop {
        close_step_after_stop(main_tcp)
    } else {
        CloseStep::Done
    }
}

/// What an attempt to send amounts to.
pub open spec fn outcome<'a, U>(attempt: Result<Transmission<'a, U>, ChannelError>) -> Result<
    Outgoing<U>,
    ChannelError,
> {
    match attempt {
        Ok(transmission) => Ok(transmission@),
        Err(error) => Err(error),
    }
}

/// What the parts of a channel share. `U` is a handle to a UDP socket, which the context keeps
/// and hands out.
pub struct Context<U> {
    route_table: HashMap<u32, Vec<RouteEntry>>,
    udp_map: HashMap<usize, U>,
    status: Status,
    main_tcp: bool,
    channel_num: usize,
    first_latency: bool,
    clock: Clock,
}

impl<U> View for Context<U> {
    type V = ContextView<U>;

    closed spec fn view(&self) -> ContextView<U> {
        ContextView {
            routes: self.route_table@.map_values(|list: Vec<RouteEntry>| list@),
            udps: self.udp_map@,
            status: self.status,
            main_tcp: self.main_tcp,
            channel_num: self.channel_num as nat,
            first_latency: self.first_latency,
            origin: self.clock.origin(),
        }
    }
}

impl<U> Context<U> {
    /// A context with no routes and no extra sockets, for a channel that sends to the server over
    /// TCP if `main_tcp`. Only one route to each peer is wanted, whatever `_channel_num` says.
    pub fn new(main_tcp: bool, _channel_num: usize, first_latency: bool) -> (context: Context<U>)
        ensures
            context@.wf(),
            context@ == (ContextView::<U> {
                routes: Map::empty(),
                udps: Map::empty(),
                status: Status::Cone,
                main_tcp,
                channel_num: 1,
                first_latency,
                origin: context@.origin,
            }),
    {
        let context = Context {
            route_table: HashMap::with_capacity(16),
            udp_map: HashMap::with_capacity(16),
            status: Status::Cone,
            main_tcp,
            channel_num: 1,
            first_latency,
            clock: Clock::begin(),
        };
        assert(context@.routes =~= Map::empty());
        context
    }

    /// Offers a route to the peer at time `now`. With `only_if_absent`, a route whose key is
    /// known changes nothing.
    pub fn add_route_(&mut self, id: Ipv4Addr, route: Route, only_if_absent: bool, now: u128)
        requires
            old(self)@.wf(),
        ensures
            final(self)@.wf(),
            final(self)@ == old(self)@.route_offered(id, route, only_if_absent, now),
    {
        let ghost before = self@;
        let first_latency = self.first_latency;
        let channel_num: usize = self.channel_num;
        let list = self.route_table.entry(id).or_insert(Vec::with_capacity(4));
        add_to_list(list, route, only_if_absent, first_latency, channel_num, now);
        proof {
            let after = before.route_offered(id, route, only_if_absent, now);
            assert(self@.routes =~= after.routes);
            assert(list_wf(before.routes_to(id), before.first_latency, before.channel_num));
            lemma_added_wf(
                before.routes_to(id),
                route,
                only_if_absent,
                before.first_latency,
                before.channel_num,
                now,
            );
        }
    }

    /// Offers a route to the peer; a route whose key is known changes nothing.
    pub fn add_route_if_absent(&mut self, id: Ipv4Addr, route: Route)
        requires
            old(self)@.wf(),
        ensures
            final(self)@.wf(),
            exists|now: u128|
                shows(old(self)@.origin, now) && final(self)@ == #[trigger] old(
                    self,
                )@.route_offered(id, route, true, now),
    {
        let now: u128 = self.clock.now();
        self.add_route_(id, route, true, now)
    }

    /// Offers a route to the peer; a route whose key is known is brought up to date.
    pub fn add_route(&mut self, id: Ipv4Addr, route: Route)
        requires
            old(self)@.wf(),
        ensures
            final(self)@.wf(),
            exists|now: u128|
                shows(old(self)@.origin, now) && final(self)@ == #[trigger] old(
                    self,
                )@.route_offered(id, route, false, now),
    {
        let now: u128 = self.clock.now();
        self.add_route_(id, route, false, now)
    }

    /// Takes the route with the key away from the peer.
    pub fn remove_route(&mut self, id: &Ipv4Addr, route_key: RouteKey)
        requires
            old(self)@.wf(),
        ensures
            final(self)@.wf(),
            final(self)@ == old(self)@.route_removed(*id, route_key),
    {
        let ghost before = self@;
        if self.route_table.contains_key(id) {
            let list = self.route_table.entry(*id).or_insert(Vec::new());
            remove_key(list, route_key);
            proof {
                assert(self@.routes =~= before.route_removed(*id, route_key).routes);
                lemma_without_key_wf(
                    before.routes[*id],
                    route_key,
                    before.first_latency,
                    before.channel_num,
                );
            }
        }
    }

    /// Notes that something came in from the peer over the route with the key at time `now`.
    pub fn update_read_time_at(&mut self, id: &Ipv4Addr, route_key: &RouteKey, now: u128)
        requires
            old(self)@.wf(),
        ensures
            final(self)@.wf(),
            final(self)@ == old(self)@.route_heard(*id, *route_key, now),
    {
        let ghost before = self@;
        if self.route_table.contains_key(id) {
            let list = self.route_table.entry(*id).or_insert(Vec::new());
            mark_heard(list, *route_key, now);
            proof {
                assert(self@.routes =~= before.route_heard(*id, *route_key, now).routes);
                lemma_heard_wf(
                    before.routes[*id],
                    *route_key,
                    now,
                    before.first_latency,
                    before.channel_num,
                );
            }
        }
    }

    /// Notes that something came in just now from the peer over the route with the key.
    pub fn update_read_time(&mut self, id: &Ipv4Addr, route_key: &RouteKey)
        requires
            old(self)@.wf(),
        ensures
            final(self)@.wf(),
            exists|now: u128|
                shows(old(self)@.origin, now) && final(self)@ == #[trigger] old(
                    self,
                )@.route_heard(*id, *route_key, now),
    {
        let now: u128 = self.clock.now();
        self.update_read_time_at(id, route_key, now)
    }

    /// The route over which a packet for the peer goes at time `now`: the first one, unless its
    /// round-trip time was not measured yet, or it is relayed and has been silent for too long.
    pub fn get_route_by_id_at(&self, id: &Ipv4Addr, now: u128) -> (found: Result<
        Route,
        ChannelError,
    >)
        ensures
            found == self@.usable_route(*id, now),
    {
        match self.route_table.get(id) {
            Some(list) => {
                if list.len() == 0 {
                    return Err(ChannelError::RouteNotFound);
                }
                let entry = list[0];
                if entry.route.rt == UNMEASURED_RT {
                    // Most often this route came in just now: not using it avoids jitter.
                    return Err(ChannelError::RouteNotFound);
                }
                if !entry.route.is_p2p() {
                    if now > entry.read_time && now - entry.read_time > RELAY_SILENCE {
                        return Err(ChannelError::RouteTimeOut);
                    }
                }
                Ok(entry.route)
            },
            None => Err(ChannelError::RouteNotFound),
        }
    }

    /// The route over which a packet for the peer goes now.
    pub fn get_route_by_id(&self, id: &Ipv4Addr) -> (found: Result<Route, ChannelError>)
        ensures
            exists|now: u128|
                shows(self@.origin, now) && found == #[trigger] self@.usable_route(*id, now),
    {
        let now: u128 = self.clock.now();
        self.get_route_by_id_at(id, now)
    }

    /// The routes to the peer; nothing if the peer is unknown.
    pub fn route(&self, id: &Ipv4Addr) -> (routes: Option<Vec<Route>>)
        ensures
            match routes {
                Some(routes) => self@.routes.contains_key(*id) && routes@ == routes_of(
                    self@.routes[*id],
                ),
                None => !self@.routes.contains_key(*id),
            },
            match routes {
                Some(routes) => self@.all_routes().contains_key(*id) && routes@
                    == self@.all_routes()[*id],
                None => !self@.all_routes().contains_key(*id),
            },
    {
        match self.route_table.get(id) {
            Some(list) => Some(copy_routes(list)),
            None => None,
        }
    }

    /// The first route to the peer, if there is one.
    pub fn route_one(&self, id: &Ipv4Addr) -> (route: Option<Route>)
        ensures
            route == (if self@.routes_to(*id).len() > 0 {
                Some(self@.routes_to(*id)[0].route)
            } else {
                None
            }),
            route == (if self@.first_routes().contains_key(*id) {
                Some(self@.first_routes()[*id])
            } else {
                None
            }),
    {
        match self.route_table.get(id) {
            Some(list) => if list.len() > 0 {
                Some(list[0].route)
            } else {
                None
            },
            None => None,
        }
    }

    /// Whether a direct route to the peer is still to be found.
    pub fn need_punch(&self, id: &Ipv4Addr) -> (need: bool)
        requires
            self@.wf(),
        ensures
            need == self@.lacks_direct(*id),
    {
        match self.route_table.get(id) {
            Some(list) => {
                let count: usize = count_direct(list);
                count < self.channel_num
            },
            None => {
                proof {
                    reveal(Seq::filter);
                }
                true
            },
        }
    }

    /// A peer that has a direct route with the key, if there is one.
    pub fn route_to_id(&self, route_key: &RouteKey) -> (peer: Option<Ipv4Addr>)
        ensures
            match peer {
                Some(id) => self@.reaches_directly(id, *route_key),
                None => forall|id: Ipv4Addr| !#[trigger] self@.reaches_directly(id, *route_key),
            },
    {
        proof {
            lemma_iteration_walks(&self.route_table);
        }
        for (id, list) in it: self.route_table.iter()
            invariant
                it.seq() == IteratorSpec::remaining(&spec_hash_map_iter(&self.route_table)),
                walks(it.seq(), self.route_table@),
                forall|j: int|
                    0 <= j < it.index() ==> !self@.reaches_directly(
                        *(#[trigger] it.seq()[j]).0,
                        *route_key,
                    ),
        {
            assert(*it.seq()[it.index() as int].0 == *id);
            let mut i: usize = 0;
            while i < list.len()
                invariant
                    i <= list.len(),
                    self@.routes_to(*id) == list@,
                    forall|k: int|
                        0 <= k < i ==> (#[trigger] list[k]).route.key() != *route_key
                            || !list[k].route.direct(),
                decreases list.len() - i,
            {
                if list[i].route.route_key() == *route_key && list[i].route.is_p2p() {
                    assert(self@.routes_to(*id)[i as int].route.key() == *route_key);
                    return Some(*id);
                }
                i = i + 1;
            }
        }
        None
    }

    /// The routes to each known peer, the peers in some order.
    pub fn route_table(&self) -> (table: Vec<(Ipv4Addr, Vec<Route>)>)
        ensures
            enumerates(with_lists(table@), self@.all_routes()),
    {
        let mut table: Vec<(Ipv4Addr, Vec<Route>)> = Vec::new();
        let ghost wanted = self@.all_routes();
        proof {
            lemma_iteration_walks(&self.route_table);
        }
        for (id, list) in it: self.route_table.iter()
            invariant
                it.seq() == IteratorSpec::remaining(&spec_hash_map_iter(&self.route_table)),
                walks(it.seq(), self.route_table@),
                wanted == self@.all_routes(),
                enumerates_walked(with_lists(table@), wanted, it.seq(), it.index() as int),
        {
            proof {
                lemma_walk_step(
                    with_lists(table@),
                    wanted,
                    it.seq(),
                    self.route_table@,
                    it.index() as int,
                );
            }
            let ghost before = with_lists(table@);
            table.push((*id, copy_routes(list)));
            assert(with_lists(table@) =~= before.push((*id, routes_of(list@))));
        }
        proof {
            let walk = IteratorSpec::remaining(&spec_hash_map_iter(&self.route_table));
            lemma_walk_end(with_lists(table@), wanted, walk, self.route_table@);
        }
        table
    }

    /// The first route to each peer that has one, or only to those whose first route is direct, the
    /// peers in some order.
    fn first_route_table(&self, only_direct: bool) -> (table: Vec<(Ipv4Addr, Route)>)
        ensures
            enumerates(table@, self@.first_routes_if(only_direct)),
    {
        let mut table: Vec<(Ipv4Addr, Route)> = Vec::with_capacity(8);
        let ghost wanted = self@.first_routes_if(only_direct);
        proof {
            lemma_iteration_walks(&self.route_table);
        }
        for (id, list) in it: self.route_table.iter()
            invariant
                it.seq() == IteratorSpec::remaining(&spec_hash_map_iter(&self.route_table)),
                walks(it.seq(), self.route_table@),
                wanted == self@.first_routes_if(only_direct),
                enumerates_walked(table@, wanted, it.seq(), it.index() as int),
        {
            proof {
                lemma_walk_step(
                    table@,
                    wanted,
                    it.seq(),
                    self.route_table@,
                    it.index() as int,
                );
            }
            if list.len() > 0 && (!only_direct || list[0].route.metric == DIRECT_METRIC) {
                table.push((*id, list[0].route));
            }
        }
        proof {
            let walk = IteratorSpec::remaining(&spec_hash_map_iter(&self.route_table));
            lemma_walk_end(table@, wanted, walk, self.route_table@);
        }
        table
    }

    /// The first route to each peer that has one, the peers in some order.
    pub fn route_table_one(&self) -> (table: Vec<(Ipv4Addr, Route)>)
        ensures
            enumerates(table@, self@.first_routes()),
    {
        self.first_route_table(false)
    }

    /// The first route to each peer whose first route is direct, the peers in some order.
    pub fn direct_route_table_one(&self) -> (table: Vec<(Ipv4Addr, Route)>)
        ensures
            enumerates(table@, self@.first_direct_routes()),
    {
        self.first_route_table(true)
    }

    /// What the channel does at the moment.
    pub fn status(&self) -> (status: Status)
        ensures
            status == self@.status,
    {
        self.status
    }

    /// Whether the channel is closed.
    pub fn is_close(&self) -> (closed: bool)
        ensures
            closed == (self@.status == Status::Close),
    {
        self.status == Status::Close
    }

    /// Whether the main socket suffices.
    pub fn is_cone(&self) -> (cone: bool)
        ensures
            cone == (self@.status == Status::Cone),
    {
        self.status == Status::Cone
    }

    /// Whether the server is reached over TCP.
    pub fn is_main_tcp(&self) -> (main_tcp: bool)
        ensures
            main_tcp == self@.main_tcp,
    {
        self.main_tcp
    }

    /// Whether low latency comes before few hops.
    pub fn is_first_latency(&self) -> (first_latency: bool)
        ensures
            first_latency == self@.first_latency,
    {
        self.first_latency
    }

    /// Adapts the channel to the kind of network address translation.
    pub fn switch(&mut self, nat_type: NatType)
        ensures
            final(self)@ == (ContextView {
                status: match nat_type {
                    NatType::Symmetric => Status::Symmetric,
                    NatType::Cone => Status::Cone,
                },
                ..old(self)@
            }),
            nat_type is Symmetric ==> final(self)@ == old(self)@.taking_on(Status::Symmetric),
            nat_type is Cone ==> final(self)@ == old(self)@.taking_on(Status::Cone),
    {
        match nat_type {
            NatType::Symmetric => {
                self.switch_to_symmetric();
            },
            NatType::Cone => {
                self.switch_to_cone();
            },
        }
    }

    /// Lets the main socket suffice.
    pub fn switch_to_cone(&mut self)
        ensures
            final(self)@ == (ContextView { status: Status::Cone, ..old(self)@ }),
            final(self)@ == old(self)@.taking_on(Status::Cone),
    {
        self.status = Status::Cone;
    }

    /// Asks for extra sockets.
    pub fn switch_to_symmetric(&mut self)
        ensures
            final(self)@ == (ContextView { status: Status::Symmetric, ..old(self)@ }),
            final(self)@ == old(self)@.taking_on(Status::Symmetric),
    {
        self.status = Status::Symmetric;
    }

    /// Closes the channel, and says what is to be done first so that its parts notice.
    /// `local_port` is the port of the main UDP socket, if it is known.
    pub fn close(&mut self, local_port: Option<u16>) -> (step: CloseStep)
        ensures
            final(self)@ == (ContextView { status: Status::Close, ..old(self)@ }),
            final(self)@ == old(self)@.taking_on(Status::Close),
            step == first_close_step(old(self)@.main_tcp, local_port),
            step == (match local_port {
                Some(port) => CloseStep::SendStop {
                    addr: SocketAddr::V4(SocketAddrV4 { ip: LOCALHOST, port }),
                },
                None => if old(self)@.main_tcp {
                    CloseStep::ShutdownTcp
                } else {
                    CloseStep::Done
                },
            }),
    {
        self.status = Status::Close;
        match local_port {
            Some(port) => CloseStep::SendStop {
                addr: SocketAddr::V4(SocketAddrV4 { ip: LOCALHOST, port }),
            },
            None => if self.main_tcp {
                CloseStep::ShutdownTcp
            } else {
                CloseStep::Done
            },
        }
    }

    /// What is to be done after a step of closing. The step of sending `stop` succeeded if a
    /// socket to send from could be had, whether or not the datagram went out.
    pub fn next_close_step(&self, step: CloseStep, succeeded: bool) -> (next: CloseStep)
        ensures
            next == close_step_after(self@.main_tcp, step, succeeded),
            next == (match step {
                CloseStep::SendStop { .. } => if !succeeded {
                    CloseStep::Failed
                } else if self@.main_tcp {
                    CloseStep::ShutdownTcp
                } else {
                    CloseStep::Done
                },
                CloseStep::ShutdownTcp => if succeeded {
                    CloseStep::Done
                } else {
                    CloseStep::Failed
                },
                CloseStep::Done => CloseStep::Done,
                CloseStep::Failed => CloseStep::Failed,
            }),
    {
        match step {
            CloseStep::SendStop { .. } => if !succeeded {
                CloseStep::Failed
            } else if self.main_tcp {
                CloseStep::ShutdownTcp
            } else {
                CloseStep::Done
            },
            CloseStep::ShutdownTcp => if succeeded {
                CloseStep::Done
            } else {
                CloseStep::Failed
            },
            CloseStep::Done => CloseStep::Done,
            CloseStep::Failed => CloseStep::Failed,
        }
    }

    /// The port of the main UDP socket, given what the system says of its address.
    pub fn main_local_udp_port<E>(local_addr: Result<SocketAddr, E>) -> (port: Result<u16, E>)
        ensures
            port == (match local_addr {
                Ok(addr) => Ok::<u16, E>(addr.spec_port()),
                Err(error) => Err::<u16, E>(error),
            }),
    {
        match local_addr {
            Ok(addr) => Ok(addr.port()),
            Err(error) => Err(error),
        }
    }

    /// Keeps an extra UDP socket under its channel index.
    pub fn insert_udp(&mut self, id: usize, udp: U)
        ensures
            final(self)@ == (ContextView { udps: old(self)@.udps.insert(id, udp), ..old(self)@ }),
            final(self)@ == old(self)@.udp_kept(id, udp),
    {
        self.udp_map.insert(id, udp);
    }

    /// Forgets an extra UDP socket.
    pub fn remove_udp(&mut self, id: usize)
        ensures
            final(self)@ == (ContextView { udps: old(self)@.udps.remove(id), ..old(self)@ }),
            final(self)@ == old(self)@.udp_forgotten(id),
    {
        self.udp_map.remove(&id);
    }

    /// The extra UDP socket of the key, if there is one.
    pub fn get_udp_by_route(&self, route_key: &RouteKey) -> (udp: Option<&U>)
        ensures
            match udp {
                Some(udp) => self@.udps.contains_key(route_key.index) && *udp
                    == self@.udps[route_key.index],
                None => !self@.udps.contains_key(route_key.index),
            },
    {
        self.udp_map.get(&route_key.index)
    }

    /// A packet on its way from the main UDP socket to `addr`.
    pub fn send_main_udp<'a>(&'a self, buf: &'a [u8], addr: SocketAddr) -> (sent: Transmission<
        'a,
        U,
    >)
        ensures
            sent@ == (Outgoing::<U>::MainUdp { bytes: buf@, addr: addr.spec_to_v6() }),
    {
        Transmission::MainUdp { packet: buf, addr: addr.to_v6() }
    }

    /// A packet on its way into the TCP connection to the server.
    pub fn send_main_tcp<'a>(&'a self, buf: &'a [u8]) -> (sent: Result<
        Transmission<'a, U>,
        ChannelError,
    >)
        ensures
            outcome(sent) == self@.to_tcp(buf@),
    {
        if self.main_tcp {
            Ok(Transmission::MainTcp { head: frame_head(buf.len()), packet: buf })
        } else {
            Err(ChannelError::TcpNotFound)
        }
    }

    /// A packet on its way to the server: over TCP if there is a connection, else from the main
    /// UDP socket to `addr`.
    pub fn send_main<'a>(&'a self, buf: &'a [u8], addr: SocketAddr) -> (sent: Transmission<'a, U>)
        ensures
            sent@ == self@.to_main(buf@, addr),
    {
        if self.main_tcp {
            Transmission::MainTcp { head: frame_head(buf.len()), packet: buf }
        } else {
            self.send_main_udp(buf, addr)
        }
    }

    /// A packet on its way along the key.
    pub fn send_by_key<'a>(&'a self, buf: &'a [u8], route_key: &RouteKey) -> (sent: Result<
        Transmission<'a, U>,
        ChannelError,
    >)
        ensures
            outcome(sent) == self@.to_key(buf@, *route_key),
    {
        if route_key.index == TCP_ID {
            self.send_main_tcp(buf)
        } else if route_key.index == UDP_ID {
            Ok(self.send_main_udp(buf, route_key.addr))
        } else {
            match self.get_udp_by_route(route_key) {
                Some(udp) => Ok(Transmission::Udp { udp, packet: buf, addr: route_key.addr }),
                None => Err(ChannelError::RouteNotFound),
            }
        }
    }

    /// A packet on its way along the key, to be sent without waiting.
    pub fn try_send_by_key<'a>(&'a self, buf: &'a [u8], route_key: &RouteKey) -> (sent: Result<
        Transmission<'a, U>,
        ChannelError,
    >)
        ensures
            outcome(sent) == self@.to_key(buf@, *route_key),
    {
        self.send_by_key(buf, route_key)
    }

    /// A packet on its way to the peer at time `now`.
    pub fn send_by_id_at<'a>(&'a self, buf: &'a [u8], id: &Ipv4Addr, now: u128) -> (sent: Result<
        Transmission<'a, U>,
        ChannelError,
    >)
        ensures
            outcome(sent) == self@.to_peer(buf@, *id, now),
    {
        match self.get_route_by_id_at(id, now) {
            Ok(route) => self.send_by_key(buf, &route.route_key()),
            Err(error) => Err(error),
        }
    }

    /// A packet on its way to the peer.
    pub fn send_by_id<'a>(&'a self, buf: &'a [u8], id: &Ipv4Addr) -> (sent: Result<
        Transmission<'a, U>,
        ChannelError,
    >)
        ensures
            exists|now: u128|
                shows(self@.origin, now) && outcome(sent) == #[trigger] self@.to_peer(
                    buf@,
                    *id,
                    now,
                ),
    {
        let now: u128 = self.clock.now();
        self.send_by_id_at(buf, id, now)
    }

    /// A packet on its way to the peer, to be sent without waiting.
    pub fn try_send_by_id<'a>(&'a self, buf: &'a [u8], id: &Ipv4Addr) -> (sent: Result<
        Transmission<'a, U>,
        ChannelError,
    >)
        ensures
            exists|now: u128|
                shows(self@.origin, now) && outcome(sent) == #[trigger] self@.to_peer(
                    buf@,
                    *id,
                    now,
                ),
    {
        let now: u128 = self.clock.now();
        self.send_by_id_at(buf, id, now)
    }

    /// A packet on its way to `addr` from every extra UDP socket, the sockets in some order.
    pub fn try_send_all<'a>(&'a self, buf: &'a [u8], addr: SocketAddr) -> (sent: Vec<
        (usize, Transmission<'a, U>),
    >)
        ensures
            enumerates(
                with_outgoing(sent@),
                self@.udps.map_values(|udp: U| Outgoing::Udp { udp, bytes: buf@, addr }),
            ),
            enumerates(with_outgoing(sent@), self@.to_all(buf@, addr)),
    {
        let mut sent: Vec<(usize, Transmission<'a, U>)> = Vec::new();
        let ghost wanted = self@.udps.map_values(
            |udp: U| Outgoing::Udp { udp, bytes: buf@, addr },
        );
        proof {
            lemma_iteration_walks(&self.udp_map);
        }
        for (id, udp) in it: self.udp_map.iter()
            invariant
                it.seq() == IteratorSpec::remaining(&spec_hash_map_iter(&self.udp_map)),
                walks(it.seq(), self.udp_map@),
                wanted == self@.udps.map_values(
                    |udp: U| Outgoing::Udp { udp, bytes: buf@, addr },
                ),
                enumerates_walked(with_outgoing(sent@), wanted, it.seq(), it.index() as int),
        {
            proof {
                lemma_walk_step(
                    with_outgoing(sent@),
                    wanted,
                    it.seq(),
                    self.udp_map@,
                    it.index() as int,
                );
            }
            let ghost before = with_outgoing(sent@);
            sent.push((*id, Transmission::Udp { udp, packet: buf, addr }));
            assert(with_outgoing(sent@) =~= before.push((*id, wanted[*id])));
        }
        proof {
            let walk = IteratorSpec::remaining(&spec_hash_map_iter(&self.udp_map));
            lemma_walk_end(with_outgoing(sent@), wanted, walk, self.udp_map@);
        }
        sent
    }
}

} // verus!
