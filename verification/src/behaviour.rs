//! The behaviour composer: one unit that the connection layer drives, made
//! of the identify exchange and the discovery protocol. It routes what
//! arrives to the protocol that owns it and hands out the protocols'
//! events as one kind of event.

use crate::addr::{addr_views, contact_views, Contact, Multiaddr};
use crate::discovery::{
    bootstrapped, discovery_wf, heard, learned, refreshed, resolved, searching, timed_out,
    Discovery,
    DiscoveryEvent, DiscoveryEventView, DiscoveryView,
};
use crate::identify::{
    after_closed, after_established, after_payload, conn_index, connected, identify_wf,
    ConnectionId, Identify, IdentifyEvent, IdentifyInfo, IdentifyView, InfoView,
};
use crate::peer::PeerId;
use crate::routing::{add_outcome, merged, RoutingUpdate, TableView};
use vstd::prelude::*;

verus! {

/// An event of the node, as a mathematical value.
pub enum EventView {
    ListenerReady(Seq<u8>),
    IdentifyReceived(Seq<u8>, InfoView),
    DiscoveryEvent(DiscoveryEventView),
    ConnectionEstablished(Seq<u8>, u64),
    ConnectionClosed(Seq<u8>, u64),
}

/// An event of the node. The driver consumes each event once.
#[derive(Debug, PartialEq, Eq)]
pub enum Event {
    /// The node listens on this address.
    ListenerReady(Multiaddr),
    /// A peer has identified itself.
    IdentifyReceived(PeerId, IdentifyInfo),
    /// The discovery protocol asks for something or reports something.
    DiscoveryEvent(DiscoveryEvent),
    /// A connection to the peer was established.
    ConnectionEstablished(PeerId, ConnectionId),
    /// A connection to the peer was closed.
    ConnectionClosed(PeerId, ConnectionId),
}

impl View for Event {
    type V = EventView;

    open spec fn view(&self) -> EventView {
        match self {
            Event::ListenerReady(addr) => EventView::ListenerReady(addr@),
            Event::IdentifyReceived(peer, info) => EventView::IdentifyReceived(peer@, info@),
            Event::DiscoveryEvent(e) => EventView::DiscoveryEvent(e@),
            Event::ConnectionEstablished(peer, conn) => EventView::ConnectionEstablished(
                peer@,
                conn.id,
            ),
            Event::ConnectionClosed(peer, conn) => EventView::ConnectionClosed(peer@, conn.id),
        }
    }
}

impl From<IdentifyEvent> for Event {
    fn from(value: IdentifyEvent) -> (event: Event) {
        match value {
            IdentifyEvent::Received { connection_id: _, peer_id, info } => Event::IdentifyReceived(
                peer_id,
                info,
            ),
        }
    }
}

impl vstd::std_specs::convert::FromSpecImpl<IdentifyEvent> for Event {
    open spec fn obeys_from_spec() -> bool {
        true
    }

    open spec fn from_spec(value: IdentifyEvent) -> Event {
        match value {
            IdentifyEvent::Received { connection_id: _, peer_id, info } => Event::IdentifyReceived(
                peer_id,
                info,
            ),
        }
    }
}

impl From<DiscoveryEvent> for Event {
    fn from(value: DiscoveryEvent) -> (event: Event) {
        Event::DiscoveryEvent(value)
    }
}

impl vstd::std_specs::convert::FromSpecImpl<DiscoveryEvent> for Event {
    open spec fn obeys_from_spec() -> bool {
        true
    }

    open spec fn from_spec(value: DiscoveryEvent) -> Event {
        Event::DiscoveryEvent(value)
    }
}

/// What arrived on a stream, decoded, as a mathematical value.
pub enum PayloadView {
    Identify(InfoView),
    Peers(Seq<(Seq<u8>, Seq<u8>)>),
    Malformed,
}

/// What arrived on a stream, decoded.
#[derive(Debug)]
pub enum Payload {
    /// A peer's report of itself.
    Identify(IdentifyInfo),
    /// The peers that a peer named in answer to a lookup.
    Peers(Vec<Contact>),
    /// Bytes that could not be decoded.
    Malformed,
}

impl View for Payload {
    type V = PayloadView;

    open spec fn view(&self) -> PayloadView {
        match self {
            Payload::Identify(info) => PayloadView::Identify(info@),
            Payload::Peers(contacts) => PayloadView::Peers(contact_views(contacts@)),
            Payload::Malformed => PayloadView::Malformed,
        }
    }
}

/// Where a payload went.
#[derive(Clone, Copy, Debug, PartialEq, Eq, Structural)]
pub enum Routed {
    /// To the identify exchange.
    ToIdentify,
    /// To the discovery protocol.
    ToDiscovery,
    /// To the discovery protocol, which could not read it: the connection
    /// is to be closed.
    DiscoveryRejected,
    /// Nowhere: no protocol of the node has this name.
    Unknown,
}

/// The behaviour composer as a mathematical value.
#[verifier::ext_equal]
pub struct BehaviourView {
    pub identify: IdentifyView,
    pub kad: DiscoveryView,
}

/// The identify payload that a payload stands for: a report, or `None` for
/// anything else, which the identify exchange cannot read.
pub open spec fn as_identify(payload: PayloadView) -> Option<InfoView> {
    match payload {
        PayloadView::Identify(info) => Some(info),
        _ => None,
    }
}

/// The contacts that a payload names for the discovery protocol: none
/// where it is not a list of peers.
pub open spec fn as_peers(payload: PayloadView) -> Seq<(Seq<u8>, Seq<u8>)> {
    match payload {
        PayloadView::Peers(contacts) => contacts,
        _ => Seq::empty(),
    }
}

/// The composer after a payload arrived on connection `conn` under the
/// protocol name `protocol`. The name decides which protocol takes it; the
/// identify exchange comes first. A payload that its protocol cannot read
/// counts as malformed there. What arrives for the discovery protocol is the
/// answer of the peer of the connection; on a connection that is not known
/// it is dropped.
pub open spec fn routed(
    v: BehaviourView,
    conn: u64,
    protocol: Seq<char>,
    payload: PayloadView,
) -> BehaviourView {
    if protocol == v.identify.protocol {
        BehaviourView { identify: after_payload(v.identify, conn, as_identify(payload)), ..v }
    } else if protocol == v.kad.protocol {
        match conn_index(v.identify.connections, conn) {
            Some(k) => BehaviourView {
                kad: heard(v.kad, v.identify.connections[k].peer, as_peers(payload)),
                ..v
            },
            None => v,
        }
    } else {
        v
    }
}

/// The composer after connection `conn` was closed. The identify exchange
/// forgets the connection, and a lookup that waits for an answer of its
/// peer waits no longer once no connection to the peer is left: the peer
/// counts as one that failed to answer.
pub open spec fn disconnected(v: BehaviourView, conn: u64) -> BehaviourView {
    let identify = after_closed(v.identify, conn);
    match conn_index(v.identify.connections, conn) {
        Some(k) => {
            let peer = v.identify.connections[k].peer;
            if connected(identify.connections, peer) {
                BehaviourView { identify, ..v }
            } else {
                BehaviourView { identify, kad: heard(v.kad, peer, Seq::empty()) }
            }
        },
        None => BehaviourView { identify, ..v },
    }
}

/// Where a payload under the protocol name `protocol` goes.
pub open spec fn route_of(v: BehaviourView, protocol: Seq<char>, payload: PayloadView) -> Routed {
    if protocol == v.identify.protocol {
        Routed::ToIdentify
    } else if protocol == v.kad.protocol {
        if payload is Peers {
            Routed::ToDiscovery
        } else {
            Routed::DiscoveryRejected
        }
    } else {
        Routed::Unknown
    }
}

/// The event that `poll` hands out: the oldest of the identify exchange,
/// or where it has none, the oldest of the discovery protocol.
pub open spec fn next_event(v: BehaviourView) -> Option<EventView> {
    if v.identify.events.len() > 0 {
        Some(EventView::IdentifyReceived(v.identify.events[0].peer, v.identify.events[0].info))
    } else if v.kad.events.len() > 0 {
        Some(EventView::DiscoveryEvent(v.kad.events[0]))
    } else {
        None
    }
}

/// The composer after `poll`.
pub open spec fn polled(v: BehaviourView) -> BehaviourView {
    if v.identify.events.len() > 0 {
        BehaviourView {
            identify: IdentifyView { events: v.identify.events.skip(1), ..v.identify },
            ..v
        }
    } else if v.kad.events.len() > 0 {
        BehaviourView { kad: DiscoveryView { events: v.kad.events.skip(1), ..v.kad }, ..v }
    } else {
        v
    }
}

/// The invariant of the composer: both protocols meet theirs.
pub open spec fn behaviour_wf(v: BehaviourView) -> bool {
    identify_wf(v.identify) && discovery_wf(v.kad)
}

/// The behaviour composer of a node. It has no state but its protocols.
pub struct Behaviour {
    identify: Identify,
    kad: Discovery,
}

impl View for Behaviour {
    type V = BehaviourView;

    closed spec fn view(&self) -> BehaviourView {
        BehaviourView { identify: self.identify@, kad: self.kad@ }
    }
}

impl Behaviour {
    /// Whether both protocols meet their invariants.
    pub open spec fn wf(&self) -> bool {
        behaviour_wf(self@)
    }

    /// The composer of the two protocols. Their protocol names decide, from
    /// now on, which of them a payload goes to.
    pub fn new(identify: Identify, kad: Discovery) -> (behaviour: Self)
        requires
            identify.wf(),
            kad.wf(),
        ensures
            behaviour.wf(),
            behaviour@ == (BehaviourView { identify: identify@, kad: kad@ }),
    {
        Self { identify, kad }
    }

    /// The identify exchange.
    pub fn identify(&self) -> (identify: &Identify)
        ensures
            identify@ == self@.identify,
            self.wf() ==> identify.wf(),
    {
        &self.identify
    }

    /// The discovery protocol.
    pub fn kad(&self) -> (kad: &Discovery)
        ensures
            kad@ == self@.kad,
            self.wf() ==> kad.wf(),
    {
        &self.kad
    }

    /// Learns that `peer_id` is reachable at `addr`: forwards to the
    /// discovery protocol's insert into the routing table and returns its
    /// result.
    pub fn add_address(&mut self, peer_id: &PeerId, addr: Multiaddr) -> (r: RoutingUpdate)
        requires
            old(self).wf(),
        ensures
            final(self).wf(),
            final(self)@ == (BehaviourView {
                kad: learned(old(self)@.kad, peer_id@, addr@),
                ..old(self)@
            }),
            r@ == add_outcome(old(self)@.kad.table, peer_id@, addr@),
    {
        self.kad.add_address(peer_id, addr)
    }

    /// Takes note of a connection that was established.
    pub fn on_connection_established(&mut self, peer: PeerId, conn: ConnectionId)
        requires
            old(self).wf(),
        ensures
            final(self).wf(),
            final(self)@ == (BehaviourView {
                identify: after_established(old(self)@.identify, peer@, conn.id),
                ..old(self)@
            }),
    {
        self.identify.on_connection_established(peer, conn);
    }

    /// Forgets a connection that was closed, and with it the exchanges
    /// that had not completed on it.
    pub fn on_connection_closed(&mut self, conn: ConnectionId)
        requires
            old(self).wf(),
        ensures
            final(self).wf(),
            final(self)@ == disconnected(old(self)@, conn.id),
    {
        let known = self.identify.connection(conn);
        self.identify.on_connection_closed(conn);
        match known {
            Some(state) => {
                if !self.identify.is_connected(&state.peer) {
                    let none: Vec<Contact> = Vec::new();
                    self.kad.on_answer(&state.peer, none);
                }
            },
            None => {},
        }
    }

    /// Takes in the answer of the peer `from` to the lookup's question.
    pub fn on_answer(&mut self, from: &PeerId, contacts: Vec<Contact>)
        requires
            old(self).wf(),
        ensures
            final(self).wf(),
            final(self)@ == (BehaviourView {
                kad: heard(old(self)@.kad, from@, contact_views(contacts@)),
                ..old(self)@
            }),
    {
        self.kad.on_answer(from, contacts);
    }

    /// Hands a payload that arrived on `conn` under the protocol name
    /// `sub_protocol_id` to the protocol of that name, and to no other.
    pub fn handle_connection_event(
        &mut self,
        conn: ConnectionId,
        sub_protocol_id: &String,
        payload: Payload,
    ) -> (r: Routed)
        requires
            old(self).wf(),
        ensures
            final(self).wf(),
            final(self)@ == routed(old(self)@, conn.id, sub_protocol_id@, payload@),
            r == route_of(old(self)@, sub_protocol_id@, payload@),
    {
        if *sub_protocol_id == *self.identify.protocol() {
            let report = match payload {
                Payload::Identify(info) => Some(info),
                _ => None,
            };
            self.identify.on_payload(conn, report);
            Routed::ToIdentify
        } else if *sub_protocol_id == *self.kad.protocol() {
            let known = self.identify.connection(conn);
            match payload {
                Payload::Peers(contacts) => {
                    match known {
                        Some(state) => {
                            self.kad.on_answer(&state.peer, contacts);
                        },
                        None => {},
                    }
                    Routed::ToDiscovery
                },
                _ => {
                    match known {
                        Some(state) => {
                            let none: Vec<Contact> = Vec::new();
                            self.kad.on_answer(&state.peer, none);
                        },
                        None => {},
                    }
                    Routed::DiscoveryRejected
                },
            }
        } else {
            Routed::Unknown
        }
    }

    /// Pulls at most one event from the protocols: from the identify
    /// exchange if it has one, else from the discovery protocol. `None`
    /// means that no protocol has an event.
    pub fn poll(&mut self) -> (r: Option<Event>)
        requires
            old(self).wf(),
        ensures
            final(self).wf(),
            final(self)@ == polled(old(self)@),
            match r {
                Some(e) => next_event(old(self)@) == Some(e@),
                None => next_event(old(self)@) is None,
            },
    {
        match self.identify.poll() {
            Some(e) => Some(Event::from(e)),
            None => match self.kad.poll() {
                Some(e) => Some(Event::from(e)),
                None => None,
            },
        }
    }

    /// Tells the routing table the time.
    pub fn set_time(&mut self, now: u64)
        requires
            old(self).wf(),
        ensures
            final(self).wf(),
            final(self)@ == (BehaviourView {
                kad: DiscoveryView {
                    table: TableView { now, ..old(self)@.kad.table },
                    ..old(self)@.kad
                },
                ..old(self)@
            }),
    {
        self.kad.set_time(now);
    }

    /// Adds `addr` to the listen addresses that the node reports of
    /// itself.
    pub fn add_listen_addr(&mut self, addr: Multiaddr)
        requires
            old(self).wf(),
        ensures
            final(self).wf(),
            final(self)@ == (BehaviourView {
                identify: IdentifyView {
                    local: InfoView {
                        listen_addrs: merged(old(self)@.identify.local.listen_addrs, addr@),
                        ..old(self)@.identify.local
                    },
                    ..old(self)@.identify
                },
                ..old(self)@
            }),
    {
        self.identify.add_listen_addr(addr);
    }

    /// Takes in the outcome of a liveness check that the discovery protocol
    /// asked for.
    pub fn on_liveness(&mut self, peer: &PeerId, alive: bool)
        requires
            old(self).wf(),
        ensures
            final(self).wf(),
            final(self)@ == (BehaviourView {
                kad: resolved(old(self)@.kad, peer@, alive),
                ..old(self)@
            }),
    {
        self.kad.on_liveness(peer, alive);
    }

    /// Queues the dialing of the seeds.
    pub fn bootstrap(&mut self, seeds: Vec<Multiaddr>)
        requires
            old(self).wf(),
        ensures
            final(self).wf(),
            final(self)@ == (BehaviourView {
                kad: bootstrapped(old(self)@.kad, addr_views(seeds@)),
                ..old(self)@
            }),
    {
        self.kad.bootstrap(seeds);
    }

    /// Starts the iterative lookup of the peers closest to `target`.
    pub fn find_node(&mut self, target: &PeerId)
        requires
            old(self).wf(),
        ensures
            final(self).wf(),
            final(self)@ == (BehaviourView {
                kad: searching(old(self)@.kad, target@),
                ..old(self)@
            }),
    {
        self.kad.find_node(target);
    }

    /// Starts the lookup of the local identifier that completes a
    /// bootstrap, if one is due.
    pub fn finish_bootstrap(&mut self) -> (due: bool)
        requires
            old(self).wf(),
        ensures
            final(self).wf(),
            due == old(self)@.kad.bootstrapping,
            final(self)@ == (BehaviourView {
                kad: if old(self)@.kad.bootstrapping {
                    searching(
                        DiscoveryView { bootstrapping: false, ..old(self)@.kad },
                        old(self)@.kad.table.local,
                    )
                } else {
                    old(self)@.kad
                },
                ..old(self)@
            }),
    {
        self.kad.finish_bootstrap()
    }

    /// Periodic maintenance: asks for the liveness check of every peer that
    /// was last verified more than `max_age` ago.
    pub fn refresh(&mut self, max_age: u64)
        requires
            old(self).wf(),
        ensures
            final(self).wf(),
            final(self)@ == (BehaviourView {
                kad: refreshed(old(self)@.kad, max_age),
                ..old(self)@
            }),
    {
        self.kad.refresh(max_age);
    }

    /// Ends the lookup that is under way, as when its time has run out.
    pub fn on_lookup_timeout(&mut self)
        requires
            old(self).wf(),
        ensures
            final(self).wf(),
            final(self)@ == (BehaviourView { kad: timed_out(old(self)@.kad), ..old(self)@ }),
    {
        self.kad.on_lookup_timeout();
    }
}

} // verus!
