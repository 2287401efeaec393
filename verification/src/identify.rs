//! The identify exchange: what two connected nodes tell each other about
//! their listen addresses and protocols, and the bookkeeping of which
//! connection has told it.

use crate::addr::{addr_views, clone_addrs, contains_addr, Multiaddr};
use crate::peer::PeerId;
use crate::routing::merged;
use vstd::prelude::*;

verus! {

/// A handle for one live transport connection.
#[derive(Clone, Copy, Debug, PartialEq, Eq, Structural)]
pub struct ConnectionId {
    pub id: u64,
}

/// What a node reports of itself, as a mathematical value.
#[verifier::ext_equal]
pub struct InfoView {
    pub peer: Seq<u8>,
    pub public_key: Seq<u8>,
    pub listen_addrs: Seq<Seq<u8>>,
    pub protocols: Seq<Seq<char>>,
}

/// The views of a sequence of strings.
pub open spec fn string_views(strings: Seq<String>) -> Seq<Seq<char>> {
    Seq::new(strings.len(), |i: int| strings[i]@)
}

/// What a node reports of itself in the identify exchange.
#[derive(Debug, PartialEq, Eq)]
pub struct IdentifyInfo {
    pub peer: PeerId,
    pub public_key: Vec<u8>,
    pub listen_addrs: Vec<Multiaddr>,
    pub protocols: Vec<String>,
}

impl View for IdentifyInfo {
    type V = InfoView;

    open spec fn view(&self) -> InfoView {
        InfoView {
            peer: self.peer@,
            public_key: self.public_key@,
            listen_addrs: addr_views(self.listen_addrs@),
            protocols: string_views(self.protocols@),
        }
    }
}

impl Clone for IdentifyInfo {
    fn clone(&self) -> (copy: Self)
        ensures
            copy@ == self@,
    {
        let public_key = self.public_key.clone();
        let mut protocols: Vec<String> = Vec::new();
        let mut i: usize = 0;
        while i < self.protocols.len()
            invariant
                i <= self.protocols.len(),
                protocols.len() == i,
                forall|j: int| 0 <= j < i ==> protocols@[j]@ == self.protocols@[j]@,
            decreases self.protocols.len() - i,
        {
            protocols.push(self.protocols[i].clone());
            i += 1;
        }
        IdentifyInfo {
            peer: self.peer,
            public_key,
            listen_addrs: clone_addrs(&self.listen_addrs),
            protocols,
        }
    }
}

impl IdentifyInfo {
    /// Whether the node reports that it speaks `protocol`.
    pub fn supports(&self, protocol: &String) -> (found: bool)
        ensures
            found == self@.protocols.contains(protocol@),
    {
        let mut i: usize = 0;
        while i < self.protocols.len()
            invariant
                i <= self.protocols.len(),
                forall|j: int| 0 <= j < i ==> string_views(self.protocols@)[j] != protocol@,
            decreases self.protocols.len() - i,
        {
            if self.protocols[i] == *protocol {
                assert(string_views(self.protocols@)[i as int] == protocol@);
                return true;
            }
            i += 1;
        }
        false
    }
}

/// What the identify exchange knows of one connection, as a mathematical
/// value.
pub struct ConnView {
    pub id: u64,
    pub peer: Seq<u8>,
    /// The remote has identified itself on this connection.
    pub identified: bool,
    /// The remote has sent an identify payload that could not be read.
    pub degraded: bool,
}

/// An identify event, as a mathematical value.
pub struct ReceivedView {
    pub conn: u64,
    pub peer: Seq<u8>,
    pub info: InfoView,
}

/// The identify exchange as a mathematical value.
#[verifier::ext_equal]
pub struct IdentifyView {
    pub protocol: Seq<char>,
    pub local: InfoView,
    pub connections: Seq<ConnView>,
    /// The events that wait to be polled, the oldest first.
    pub events: Seq<ReceivedView>,
}

/// The position of connection `id` among `conns`, if it is known.
pub open spec fn conn_index(conns: Seq<ConnView>, id: u64) -> Option<int> {
    if exists|k: int| 0 <= k < conns.len() && (#[trigger] conns[k]).id == id {
        Some(choose|k: int| 0 <= k < conns.len() && (#[trigger] conns[k]).id == id)
    } else {
        None
    }
}

/// Whether a connection to `peer` is among `conns`.
pub open spec fn connected(conns: Seq<ConnView>, peer: Seq<u8>) -> bool {
    exists|k: int| 0 <= k < conns.len() && (#[trigger] conns[k]).peer == peer
}

/// The invariant of the identify exchange: no connection is known twice.
pub open spec fn identify_wf(v: IdentifyView) -> bool {
    forall|k: int, l: int|
        0 <= k < l < v.connections.len() ==> (#[trigger] v.connections[k]).id != (
        #[trigger] v.connections[l]).id
}

/// The exchange after connection `id` to `peer` was established. A
/// connection that is known already stays as it is.
pub open spec fn after_established(v: IdentifyView, peer: Seq<u8>, id: u64) -> IdentifyView {
    if conn_index(v.connections, id) is Some {
        v
    } else {
        IdentifyView {
            connections: v.connections.push(
                ConnView { id, peer, identified: false, degraded: false },
            ),
            ..v
        }
    }
}

/// The exchange after connection `id` was closed.
pub open spec fn after_closed(v: IdentifyView, id: u64) -> IdentifyView {
    match conn_index(v.connections, id) {
        Some(k) => IdentifyView { connections: v.connections.remove(k), ..v },
        None => v,
    }
}

/// The exchange after an identify payload arrived on connection `id`:
/// `Some` for one that could be read, `None` for a malformed one. A payload
/// on a connection that is not known is dropped.
pub open spec fn after_payload(
    v: IdentifyView,
    id: u64,
    payload: Option<InfoView>,
) -> IdentifyView {
    match conn_index(v.connections, id) {
        Some(k) => match payload {
            Some(info) => IdentifyView {
                connections: v.connections.update(
                    k,
                    ConnView { identified: true, ..v.connections[k] },
                ),
                events: v.events.push(
                    ReceivedView { conn: id, peer: v.connections[k].peer, info },
                ),
                ..v
            },
            None => IdentifyView {
                connections: v.connections.update(
                    k,
                    ConnView { degraded: true, ..v.connections[k] },
                ),
                ..v
            },
        },
        None => v,
    }
}

/// The remote's report arrived on a connection.
#[derive(Debug, PartialEq, Eq)]
pub enum IdentifyEvent {
    Received { connection_id: ConnectionId, peer_id: PeerId, info: IdentifyInfo },
}

impl View for IdentifyEvent {
    type V = ReceivedView;

    open spec fn view(&self) -> ReceivedView {
        match self {
            IdentifyEvent::Received { connection_id, peer_id, info } => ReceivedView {
                conn: connection_id.id,
                peer: peer_id@,
                info: info@,
            },
        }
    }
}

/// What the identify exchange knows of one connection.
#[derive(Clone, Copy, Debug, PartialEq, Eq)]
pub struct ConnectionState {
    pub id: ConnectionId,
    pub peer: PeerId,
    pub identified: bool,
    pub degraded: bool,
}

impl View for ConnectionState {
    type V = ConnView;

    open spec fn view(&self) -> ConnView {
        ConnView {
            id: self.id.id,
            peer: self.peer@,
            identified: self.identified,
            degraded: self.degraded,
        }
    }
}

/// The views of the known connections.
pub open spec fn conn_views(conns: Seq<ConnectionState>) -> Seq<ConnView> {
    Seq::new(conns.len(), |k: int| conns[k]@)
}

/// The views of queued events.
pub open spec fn event_views(events: Seq<IdentifyEvent>) -> Seq<ReceivedView> {
    Seq::new(events.len(), |k: int| events[k]@)
}

/// The identify exchange of a node.
pub struct Identify {
    protocol: String,
    local: IdentifyInfo,
    connections: Vec<ConnectionState>,
    events: Vec<IdentifyEvent>,
}

impl View for Identify {
    type V = IdentifyView;

    closed spec fn view(&self) -> IdentifyView {
        IdentifyView {
            protocol: self.protocol@,
            local: self.local@,
            connections: conn_views(self.connections@),
            events: event_views(self.events@),
        }
    }
}

impl Identify {
    /// Whether the exchange meets its invariant.
    pub open spec fn wf(&self) -> bool {
        identify_wf(self@)
    }

    /// The exchange of a node that reports `local` of itself and speaks
    /// under the protocol name `protocol`; it knows no connection yet.
    pub fn new(protocol: String, local: IdentifyInfo) -> (identify: Identify)
        ensures
            identify.wf(),
            identify@ == (IdentifyView {
                protocol: protocol@,
                local: local@,
                connections: Seq::empty(),
                events: Seq::empty(),
            }),
    {
        Identify { protocol, local, connections: Vec::new(), events: Vec::new() }
    }

    /// The protocol name under which the exchange speaks.
    pub fn protocol(&self) -> (name: &String)
        ensures
            name@ == self@.protocol,
    {
        &self.protocol
    }

    /// What the local node reports of itself.
    pub fn local_info(&self) -> (info: IdentifyInfo)
        ensures
            info@ == self@.local,
    {
        self.local.clone()
    }

    /// Adds `addr` to the listen addresses that the local node reports.
    pub fn add_listen_addr(&mut self, addr: Multiaddr)
        ensures
            final(self)@ == (IdentifyView {
                local: InfoView {
                    listen_addrs: merged(old(self)@.local.listen_addrs, addr@),
                    ..old(self)@.local
                },
                ..old(self)@
            }),
    {
        if !contains_addr(&self.local.listen_addrs, &addr) {
            self.local.listen_addrs.push(addr);
        }
    }

    /// The position of connection `conn` among the known ones.
    fn position(&self, conn: ConnectionId) -> (r: Option<usize>)
        requires
            self.wf(),
        ensures
            match r {
                Some(k) => conn_index(self@.connections, conn.id) == Some(k as int) && k
                    < self.connections.len(),
                None => conn_index(self@.connections, conn.id) is None,
            },
    {
        let mut k: usize = 0;
        while k < self.connections.len()
            invariant
                self.wf(),
                k <= self.connections.len(),
                forall|l: int| 0 <= l < k ==> (#[trigger] self@.connections[l]).id != conn.id,
            decreases self.connections.len() - k,
        {
            if self.connections[k].id.id == conn.id {
                proof {
                    let conns = self@.connections;
                    assert(conns[k as int].id == conn.id);
                    let c = choose|c: int|
                        0 <= c < conns.len() && (#[trigger] conns[c]).id == conn.id;
                }
                return Some(k);
            }
            k += 1;
        }
        None
    }

    /// Takes note of a connection that was established.
    pub fn on_connection_established(&mut self, peer: PeerId, conn: ConnectionId)
        requires
            old(self).wf(),
        ensures
            final(self).wf(),
            final(self)@ == after_established(old(self)@, peer@, conn.id),
    {
        if self.position(conn).is_none() {
            self.connections.push(
                ConnectionState { id: conn, peer, identified: false, degraded: false },
            );
            assert(self@.connections =~= old(self)@.connections.push(
                ConnView { id: conn.id, peer: peer@, identified: false, degraded: false },
            ));
        }
    }

    /// Forgets a connection that was closed, and with it an exchange that
    /// had not completed.
    pub fn on_connection_closed(&mut self, conn: ConnectionId) -> (known: bool)
        requires
            old(self).wf(),
        ensures
            final(self).wf(),
            final(self)@ == after_closed(old(self)@, conn.id),
            known == (conn_index(old(self)@.connections, conn.id) is Some),
    {
        match self.position(conn) {
            Some(k) => {
                self.connections.remove(k);
                assert(self@.connections =~= old(self)@.connections.remove(k as int));
                true
            },
            None => false,
        }
    }

    /// Takes in an identify payload that arrived on `conn`: the remote's
    /// report, or `None` for a payload that could not be read. A report is
    /// queued as an event under the peer of the connection; a malformed
    /// payload marks the connection as degraded and queues nothing.
    pub fn on_payload(&mut self, conn: ConnectionId, payload: Option<IdentifyInfo>) -> (known: bool)
        requires
            old(self).wf(),
        ensures
            final(self).wf(),
            final(self)@ == after_payload(
                old(self)@,
                conn.id,
                match payload {
                    Some(info) => Some(info@),
                    None => None,
                },
            ),
            known == (conn_index(old(self)@.connections, conn.id) is Some),
    {
        match self.position(conn) {
            Some(k) => {
                match payload {
                    Some(info) => {
                        self.connections[k].identified = true;
                        let peer_id = self.connections[k].peer;
                        self.events.push(
                            IdentifyEvent::Received { connection_id: conn, peer_id, info },
                        );
                        assert(self@.connections =~= old(self)@.connections.update(
                            k as int,
                            ConnView { identified: true, ..old(self)@.connections[k as int] },
                        ));
                    },
                    None => {
                        self.connections[k].degraded = true;
                        assert(self@.connections =~= old(self)@.connections.update(
                            k as int,
                            ConnView { degraded: true, ..old(self)@.connections[k as int] },
                        ));
                    },
                }
                true
            },
            None => false,
        }
    }

    /// What the exchange knows of connection `conn`.
    pub fn connection(&self, conn: ConnectionId) -> (r: Option<ConnectionState>)
        requires
            self.wf(),
        ensures
            match r {
                Some(c) => conn_index(self@.connections, conn.id) is Some && c@
                    == self@.connections[conn_index(self@.connections, conn.id)->0],
                None => conn_index(self@.connections, conn.id) is None,
            },
    {
        match self.position(conn) {
            Some(k) => Some(self.connections[k]),
            None => None,
        }
    }

    /// Whether a connection to `peer` is known.
    pub fn is_connected(&self, peer: &PeerId) -> (found: bool)
        ensures
            found == connected(self@.connections, peer@),
    {
        let mut k: usize = 0;
        while k < self.connections.len()
            invariant
                k <= self.connections.len(),
                forall|l: int| 0 <= l < k ==> (#[trigger] self@.connections[l]).peer != peer@,
            decreases self.connections.len() - k,
        {
            if self.connections[k].peer.same(peer) {
                assert(self@.connections[k as int].peer == peer@);
                return true;
            }
            k += 1;
        }
        false
    }

    /// Number of connections that the exchange knows.
    pub fn connection_count(&self) -> (n: usize)
        ensures
            n == self@.connections.len(),
    {
        self.connections.len()
    }

    /// Number of events that wait to be polled.
    pub fn pending_events(&self) -> (n: usize)
        ensures
            n == self@.events.len(),
    {
        self.events.len()
    }

    /// Hands out the oldest event that waits, if there is one.
    pub fn poll(&mut self) -> (r: Option<IdentifyEvent>)
        requires
            old(self).wf(),
        ensures
            final(self).wf(),
            match r {
                Some(e) => old(self)@.events.len() > 0 && e@ == old(self)@.events[0]
                    && final(self)@ == (IdentifyView {
                    events: old(self)@.events.skip(1),
                    ..old(self)@
                }),
                None => old(self)@.events.len() == 0 && final(self)@ == old(self)@,
            },
    {
        if self.events.len() == 0 {
            None
        } else {
            let e = self.events.remove(0);
            assert(self@.events =~= old(self)@.events.skip(1));
            Some(e)
        }
    }
}

} // verus!
