//! The node driver: the one place where events are dispatched, one at a
//! time, and the policy that feeds what peers report of themselves into the
//! routing table.
//!
//! The driver decides; the program around it waits for events, hands them
//! in, and performs the actions that come back.

use crate::addr::{contact_views, multiaddr_encoding, Contact, DialError, Multiaddr};
use crate::behaviour::{
    behaviour_wf, disconnected, next_event, polled, route_of, routed, Behaviour, BehaviourView,
    Event, EventView, Payload, Routed,
};
use crate::discovery::{
    bootstrapped, heard, learned, refreshed, resolved, searching, timed_out, DiscoveryEvent,
    DiscoveryEventView, DiscoveryView,
};
use crate::identify::{after_established, string_views, ConnectionId, IdentifyView, InfoView};
use crate::peer::PeerId;
use crate::routing::{merged, TableView};
use vstd::prelude::*;

verus! {

/// What the driver asks the program around it to do, as a mathematical
/// value.
pub enum ActionView {
    Nothing,
    Dial(Seq<u8>),
    Probe(Seq<u8>),
    Query { target: Seq<u8>, peers: Seq<(Seq<u8>, Seq<u8>)> },
    Report { target: Seq<u8>, closest: Seq<(Seq<u8>, Seq<u8>)> },
}

/// What the driver asks the program around it to do after an event.
#[derive(Debug, PartialEq, Eq)]
pub enum Action {
    /// Nothing: the event was dealt with.
    Nothing,
    /// Dial this address.
    Dial(Multiaddr),
    /// Check whether this peer is alive, and report with `on_liveness`.
    Probe(PeerId),
    /// Ask these peers for the peers they know closest to `target`, and
    /// hand in what arrives with `on_stream_data`.
    Query { target: PeerId, peers: Vec<Contact> },
    /// The lookup of `target` is over; these are the closest peers found.
    Report { target: PeerId, closest: Vec<Contact> },
}

impl View for Action {
    type V = ActionView;

    open spec fn view(&self) -> ActionView {
        match self {
            Action::Nothing => ActionView::Nothing,
            Action::Dial(addr) => ActionView::Dial(addr@),
            Action::Probe(peer) => ActionView::Probe(peer@),
            Action::Query { target, peers } => ActionView::Query {
                target: target@,
                peers: contact_views(peers@),
            },
            Action::Report { target, closest } => ActionView::Report {
                target: target@,
                closest: contact_views(closest@),
            },
        }
    }
}

/// The state of the driver.
#[derive(Clone, Copy, Debug, PartialEq, Eq, Structural)]
pub enum DriverState {
    /// No event is held; the next one can be accepted.
    Idle,
    /// An event was accepted and is being dealt with.
    Dispatching,
}

/// The node as a mathematical value.
#[verifier::ext_equal]
pub struct NodeView {
    /// The event that was accepted and is not dealt with yet.
    pub held: Option<EventView>,
    pub behaviour: BehaviourView,
}

/// The discovery protocol after a peer has identified itself: the first
/// address that the peer reports is learned, if it reports any, and a
/// bootstrap that waited for a peer goes on to the lookup of the local
/// identifier.
pub open spec fn identified(kad: DiscoveryView, peer: Seq<u8>, info: InfoView) -> DiscoveryView {
    let known = if info.listen_addrs.len() > 0 {
        learned(kad, peer, info.listen_addrs[0])
    } else {
        kad
    };
    if known.bootstrapping {
        searching(DiscoveryView { bootstrapping: false, ..known }, known.table.local)
    } else {
        known
    }
}

/// The protocols after the driver has dealt with an event.
pub open spec fn applied(b: BehaviourView, event: EventView) -> BehaviourView {
    match event {
        EventView::ListenerReady(addr) => BehaviourView {
            identify: IdentifyView {
                local: InfoView {
                    listen_addrs: merged(b.identify.local.listen_addrs, addr),
                    ..b.identify.local
                },
                ..b.identify
            },
            ..b
        },
        EventView::IdentifyReceived(peer, info) => BehaviourView {
            kad: identified(b.kad, peer, info),
            ..b
        },
        EventView::DiscoveryEvent(_) => b,
        EventView::ConnectionEstablished(peer, conn) => BehaviourView {
            identify: after_established(b.identify, peer, conn),
            ..b
        },
        EventView::ConnectionClosed(_, conn) => disconnected(b, conn),
    }
}

/// What the driver asks for after an event: what the discovery protocol
/// asked for, and nothing after any other event.
pub open spec fn action_of(event: EventView) -> ActionView {
    match event {
        EventView::DiscoveryEvent(DiscoveryEventView::Dial(addr)) => ActionView::Dial(addr),
        EventView::DiscoveryEvent(DiscoveryEventView::ProbeLiveness(peer)) => ActionView::Probe(
            peer,
        ),
        EventView::DiscoveryEvent(DiscoveryEventView::Query { target, peers }) => {
            ActionView::Query { target, peers }
        },
        EventView::DiscoveryEvent(
            DiscoveryEventView::LookupFinished { target, closest },
        ) => ActionView::Report { target, closest },
        _ => ActionView::Nothing,
    }
}

/// Whether libp2p accepts each of `texts` as a multiaddr.
pub open spec fn all_well_formed(texts: Seq<Seq<char>>) -> bool {
    forall|i: int| 0 <= i < texts.len() ==> multiaddr_encoding(#[trigger] texts[i]) is Some
}

/// The binary forms of the multiaddrs `texts`.
pub open spec fn encodings(texts: Seq<Seq<char>>) -> Seq<Seq<u8>> {
    Seq::new(texts.len(), |i: int| multiaddr_encoding(texts[i])->0)
}

/// The view of an event that may be there.
pub open spec fn held_view(held: Option<Event>) -> Option<EventView> {
    match held {
        Some(e) => Some(e@),
        None => None,
    }
}

/// A node: its protocols and the driver that dispatches events to them.
pub struct Node {
    held: Option<Event>,
    behaviour: Behaviour,
}

impl View for Node {
    type V = NodeView;

    closed spec fn view(&self) -> NodeView {
        NodeView { held: held_view(self.held), behaviour: self.behaviour@ }
    }
}

impl Node {
    /// Whether the node meets its invariant: its protocols meet theirs.
    pub open spec fn wf(&self) -> bool {
        behaviour_wf(self@.behaviour)
    }

    /// A node with the given protocols, whose driver is idle.
    pub fn new(behaviour: Behaviour) -> (node: Node)
        requires
            behaviour.wf(),
        ensures
            node.wf(),
            node@ == (NodeView { held: None, behaviour: behaviour@ }),
    {
        Node { held: None, behaviour }
    }

    /// The protocols of the node.
    pub fn behaviour(&self) -> (behaviour: &Behaviour)
        ensures
            behaviour@ == self@.behaviour,
    {
        &self.behaviour
    }

    /// The state of the driver.
    pub fn state(&self) -> (state: DriverState)
        ensures
            state == (if self@.held is Some {
                DriverState::Dispatching
            } else {
                DriverState::Idle
            }),
    {
        if self.held.is_some() {
            DriverState::Dispatching
        } else {
            DriverState::Idle
        }
    }

    /// Accepts an event for dispatch. A driver that is dispatching accepts
    /// none, and gives the event back.
    pub fn accept(&mut self, event: Event) -> (r: Result<(), Event>)
        requires
            old(self).wf(),
        ensures
            final(self).wf(),
            match r {
                Ok(_) => old(self)@.held is None && final(self)@ == (NodeView {
                    held: Some(event@),
                    ..old(self)@
                }),
                Err(back) => old(self)@.held is Some && back == event && final(self)@ == old(self)@,
            },
    {
        if self.held.is_some() {
            Err(event)
        } else {
            self.held = Some(event);
            Ok(())
        }
    }

    /// Deals with the event that was accepted, and returns to idle. `None`
    /// means that no event was held.
    pub fn complete(&mut self) -> (r: Option<Action>)
        requires
            old(self).wf(),
        ensures
            final(self).wf(),
            match r {
                Some(action) => old(self)@.held is Some && action@ == action_of(
                    old(self)@.held->0,
                ) && final(self)@ == (NodeView {
                    held: None,
                    behaviour: applied(old(self)@.behaviour, old(self)@.held->0),
                }),
                None => old(self)@.held is None && final(self)@ == old(self)@,
            },
    {
        match self.held.take() {
            None => {
                None
            },
            Some(event) => {
                let action = match event {
                    Event::ListenerReady(addr) => {
                        self.behaviour.add_listen_addr(addr);
                        Action::Nothing
                    },
                    Event::IdentifyReceived(peer, info) => {
                        if info.listen_addrs.len() > 0 {
                            let addr = info.listen_addrs[0].clone();
                            self.behaviour.add_address(&peer, addr);
                        }
                        self.behaviour.finish_bootstrap();
                        Action::Nothing
                    },
                    Event::DiscoveryEvent(e) => match e {
                        DiscoveryEvent::Dial(addr) => Action::Dial(addr),
                        DiscoveryEvent::ProbeLiveness(peer) => Action::Probe(peer),
                        DiscoveryEvent::Query { target, peers } => Action::Query { target, peers },
                        DiscoveryEvent::LookupFinished { target, closest } => Action::Report {
                            target,
                            closest,
                        },
                    },
                    Event::ConnectionEstablished(peer, conn) => {
                        self.behaviour.on_connection_established(peer, conn);
                        Action::Nothing
                    },
                    Event::ConnectionClosed(_, conn) => {
                        self.behaviour.on_connection_closed(conn);
                        Action::Nothing
                    },
                };
                Some(action)
            },
        }
    }

    /// Dispatches one event: accepts it, deals with it, and returns to
    /// idle. A driver that is dispatching takes no event, and gives it
    /// back.
    pub fn dispatch(&mut self, event: Event) -> (r: Result<Action, Event>)
        requires
            old(self).wf(),
        ensures
            final(self).wf(),
            match r {
                Ok(action) => old(self)@.held is None && action@ == action_of(event@)
                    && final(self)@ == (NodeView {
                    held: None,
                    behaviour: applied(old(self)@.behaviour, event@),
                }),
                Err(back) => old(self)@.held is Some && back == event && final(self)@ == old(self)@,
            },
    {
        match self.accept(event) {
            Ok(_) => match self.complete() {
                Some(action) => Ok(action),
                None => Ok(Action::Nothing),
            },
            Err(back) => Err(back),
        }
    }

    /// Pulls the next event from the protocols, if the driver is idle and
    /// there is one, and dispatches it. `None` means that there is nothing
    /// to do until something arrives from outside.
    pub fn step(&mut self) -> (r: Option<Action>)
        requires
            old(self).wf(),
        ensures
            final(self).wf(),
            match r {
                Some(action) => old(self)@.held is None && next_event(old(self)@.behaviour)
                    is Some && action@ == action_of(next_event(old(self)@.behaviour)->0)
                    && final(self)@ == (NodeView {
                    held: None,
                    behaviour: applied(
                        polled(old(self)@.behaviour),
                        next_event(old(self)@.behaviour)->0,
                    ),
                }),
                None => (old(self)@.held is Some || next_event(old(self)@.behaviour) is None)
                    && final(self)@ == old(self)@,
            },
    {
        if self.held.is_some() {
            return None;
        }
        match self.behaviour.poll() {
            Some(event) => match self.dispatch(event) {
                Ok(action) => Some(action),
                Err(_) => None,
            },
            None => None,
        }
    }

    /// Tells the routing table the time.
    pub fn set_time(&mut self, now: u64)
        requires
            old(self).wf(),
        ensures
            final(self).wf(),
            final(self)@ == (NodeView {
                behaviour: BehaviourView {
                    kad: DiscoveryView {
                        table: TableView { now, ..old(self)@.behaviour.kad.table },
                        ..old(self)@.behaviour.kad
                    },
                    ..old(self)@.behaviour
                },
                ..old(self)@
            }),
    {
        self.behaviour.set_time(now);
    }

    /// Hands in a payload that arrived on `conn` under the protocol name
    /// `protocol_id`.
    pub fn on_stream_data(
        &mut self,
        conn: ConnectionId,
        protocol_id: &String,
        payload: Payload,
    ) -> (r: Routed)
        requires
            old(self).wf(),
        ensures
            final(self).wf(),
            final(self)@ == (NodeView {
                behaviour: routed(old(self)@.behaviour, conn.id, protocol_id@, payload@),
                ..old(self)@
            }),
            r == route_of(old(self)@.behaviour, protocol_id@, payload@),
    {
        self.behaviour.handle_connection_event(conn, protocol_id, payload)
    }

    /// Hands in the answer of the peer `from` to the lookup's question: the
    /// contacts that it named, none where it failed to answer.
    pub fn on_answer(&mut self, from: &PeerId, contacts: Vec<Contact>)
        requires
            old(self).wf(),
        ensures
            final(self).wf(),
            final(self)@ == (NodeView {
                behaviour: BehaviourView {
                    kad: heard(old(self)@.behaviour.kad, from@, contact_views(contacts@)),
                    ..old(self)@.behaviour
                },
                ..old(self)@
            }),
    {
        self.behaviour.on_answer(from, contacts);
    }

    /// Hands in the outcome of a liveness check.
    pub fn on_liveness(&mut self, peer: &PeerId, alive: bool)
        requires
            old(self).wf(),
        ensures
            final(self).wf(),
            final(self)@ == (NodeView {
                behaviour: BehaviourView {
                    kad: resolved(old(self)@.behaviour.kad, peer@, alive),
                    ..old(self)@.behaviour
                },
                ..old(self)@
            }),
    {
        self.behaviour.on_liveness(peer, alive);
    }

    /// Periodic maintenance: asks for the liveness check of every peer that
    /// was last verified more than `max_age` ago.
    pub fn refresh(&mut self, max_age: u64)
        requires
            old(self).wf(),
        ensures
            final(self).wf(),
            final(self)@ == (NodeView {
                behaviour: BehaviourView {
                    kad: refreshed(old(self)@.behaviour.kad, max_age),
                    ..old(self)@.behaviour
                },
                ..old(self)@
            }),
    {
        self.behaviour.refresh(max_age);
    }

    /// Ends the lookup that is under way: its time has run out.
    pub fn on_lookup_timeout(&mut self)
        requires
            old(self).wf(),
        ensures
            final(self).wf(),
            final(self)@ == (NodeView {
                behaviour: BehaviourView {
                    kad: timed_out(old(self)@.behaviour.kad),
                    ..old(self)@.behaviour
                },
                ..old(self)@
            }),
    {
        self.behaviour.on_lookup_timeout();
    }

    /// Starts the iterative lookup of the peers closest to `target`.
    pub fn find_node(&mut self, target: &PeerId)
        requires
            old(self).wf(),
        ensures
            final(self).wf(),
            final(self)@ == (NodeView {
                behaviour: BehaviourView {
                    kad: searching(old(self)@.behaviour.kad, target@),
                    ..old(self)@.behaviour
                },
                ..old(self)@
            }),
    {
        self.behaviour.find_node(target);
    }

    /// Reads an address that is to be dialed. Text that is not a multiaddr
    /// is refused with `DialError::MalformedAddress`; the node is not
    /// touched.
    pub fn dial(&self, text: &str) -> (r: Result<Action, DialError>)
        ensures
            match r {
                Ok(action) => multiaddr_encoding(text@) is Some && action@ == ActionView::Dial(
                    multiaddr_encoding(text@)->0,
                ),
                Err(e) => multiaddr_encoding(text@) is None && e == DialError::MalformedAddress,
            },
    {
        match Multiaddr::parse(text) {
            Ok(addr) => Ok(Action::Dial(addr)),
            Err(e) => Err(e),
        }
    }

    /// Begins the bootstrap from the seed addresses `seeds`, given as text.
    /// Where each is a multiaddr their dialing is queued, and the lookup of
    /// the local identifier follows once a peer has identified itself;
    /// where one is not, nothing is queued.
    pub fn bootstrap(&mut self, seeds: &Vec<String>) -> (r: Result<(), DialError>)
        requires
            old(self).wf(),
        ensures
            final(self).wf(),
            match r {
                Ok(_) => all_well_formed(string_views(seeds@)) && final(self)@ == (NodeView {
                    behaviour: BehaviourView {
                        kad: bootstrapped(
                            old(self)@.behaviour.kad,
                            encodings(string_views(seeds@)),
                        ),
                        ..old(self)@.behaviour
                    },
                    ..old(self)@
                }),
                Err(e) => !all_well_formed(string_views(seeds@)) && e
                    == DialError::MalformedAddress && final(self)@ == old(self)@,
            },
    {
        let ghost texts = string_views(seeds@);
        let ghost v = self@;
        let mut addrs: Vec<Multiaddr> = Vec::new();
        let mut i: usize = 0;
        while i < seeds.len()
            invariant
                i <= seeds.len(),
                self.wf(),
                self@ == v,
                texts == string_views(seeds@),
                addrs.len() == i,
                forall|k: int| 0 <= k < i ==> multiaddr_encoding(#[trigger] texts[k]) == Some(
                    addrs@[k]@,
                ),
            decreases seeds.len() - i,
        {
            assert(texts[i as int] == seeds@[i as int]@);
            match Multiaddr::parse(seeds[i].as_str()) {
                Ok(addr) => {
                    addrs.push(addr);
                },
                Err(e) => {
                    return Err(e);
                },
            }
            i += 1;
        }
        self.behaviour.bootstrap(addrs);
        Ok(())
    }
}

} // verus!
