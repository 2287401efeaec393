//! The discovery protocol: it owns the routing table, schedules liveness
//! checks for the peers that stand in the way of new ones, and runs the
//! iterative lookup that fills the table.
//!
//! Discovery decides and queues what is to be done as events; the node's
//! driver performs them and reports back.

use crate::addr::{addr_views, contact_views, Contact, Multiaddr};
use crate::lookup::{
    answered, has_peer, lookup_wf, progress_of, started, Lookup, LookupView, Progress,
};
use crate::peer::{contains_peer, peer_views, position_of_peer, PeerId};
use crate::routing::{
    add_outcome, after_add, after_remove, after_verified, closest_entries, empty_table,
    entry_views, stale_peers_of, table_wf, EntryView, RoutingEntry, RoutingTable, RoutingUpdate,
    TableView, UpdateView,
};
use vstd::prelude::*;

verus! {

/// What discovery asks of the node's driver, or tells it, as a mathematical
/// value.
pub enum DiscoveryEventView {
    Dial(Seq<u8>),
    ProbeLiveness(Seq<u8>),
    Query { target: Seq<u8>, peers: Seq<(Seq<u8>, Seq<u8>)> },
    LookupFinished { target: Seq<u8>, closest: Seq<(Seq<u8>, Seq<u8>)> },
}

/// The discovery protocol as a mathematical value.
#[verifier::ext_equal]
pub struct DiscoveryView {
    pub protocol: Seq<char>,
    pub table: TableView,
    /// How many of the closest peers a lookup keeps.
    pub width: nat,
    /// The bound on the rounds of a lookup.
    pub max_rounds: nat,
    /// The peers whose liveness check was asked for and has not resolved.
    pub probes: Seq<Seq<u8>>,
    /// The lookup that is under way.
    pub lookup: Option<LookupView>,
    /// Whether seeds were dialed and the lookup of the local identifier is
    /// still to come.
    pub bootstrapping: bool,
    /// The events that wait to be polled, the oldest first.
    pub events: Seq<DiscoveryEventView>,
}

/// The invariant of discovery: the table meets its own, no liveness check
/// is scheduled twice, and a lookup that is kept is one that goes on.
pub open spec fn discovery_wf(v: DiscoveryView) -> bool {
    &&& table_wf(v.table)
    &&& v.probes.no_duplicates()
    &&& v.lookup matches Some(l) ==> lookup_wf(l) && !l.finished && l.local == v.table.local
}

/// `probes` without `peer`.
pub open spec fn without(probes: Seq<Seq<u8>>, peer: Seq<u8>) -> Seq<Seq<u8>> {
    if probes.contains(peer) {
        probes.remove(probes.index_of(peer))
    } else {
        probes
    }
}

/// Discovery after the liveness check of `peer` was asked for: the check
/// is scheduled and an event asks the driver for it, unless one is
/// scheduled already.
pub open spec fn probing(v: DiscoveryView, peer: Seq<u8>) -> DiscoveryView {
    if v.probes.contains(peer) {
        v
    } else {
        DiscoveryView {
            probes: v.probes.push(peer),
            events: v.events.push(DiscoveryEventView::ProbeLiveness(peer)),
            ..v
        }
    }
}

/// Discovery after the liveness checks of `peers` were asked for, the
/// first one first.
pub open spec fn probing_all(v: DiscoveryView, peers: Seq<Seq<u8>>) -> DiscoveryView
    decreases peers.len(),
{
    if peers.len() == 0 {
        v
    } else {
        probing(probing_all(v, peers.drop_last()), peers.last())
    }
}

/// Discovery after periodic maintenance: the liveness check of every peer
/// that was last verified more than `max_age` ago is asked for.
pub open spec fn refreshed(v: DiscoveryView, max_age: u64) -> DiscoveryView {
    probing_all(v, stale_peers_of(v.table, max_age))
}

/// Discovery after it learned that `peer` is reachable at `addr`: the table
/// after `add_address`, and where the bucket was full, a liveness check of
/// its least recently verified peer.
pub open spec fn learned(v: DiscoveryView, peer: Seq<u8>, addr: Seq<u8>) -> DiscoveryView {
    let known = DiscoveryView { table: after_add(v.table, peer, addr), ..v };
    match add_outcome(v.table, peer, addr) {
        UpdateView::Full(Some(oldest)) => probing(known, oldest),
        _ => known,
    }
}

/// Discovery after it learned a sequence of contacts, the first one first.
pub open spec fn learned_all(v: DiscoveryView, contacts: Seq<(Seq<u8>, Seq<u8>)>) -> DiscoveryView
    decreases contacts.len(),
{
    if contacts.len() == 0 {
        v
    } else {
        learned(learned_all(v, contacts.drop_last()), contacts.last().0, contacts.last().1)
    }
}

/// Discovery after the liveness check of `peer` resolved. A peer that is
/// alive is marked as verified, one that is not is removed; then the
/// candidates that waited are tried again, in their order.
pub open spec fn resolved(v: DiscoveryView, peer: Seq<u8>, alive: bool) -> DiscoveryView {
    let table = if alive {
        after_verified(v.table, peer)
    } else {
        after_remove(v.table, peer)
    };
    learned_all(
        DiscoveryView {
            table: TableView { pending: Seq::empty(), ..table },
            probes: without(v.probes, peer),
            ..v
        },
        table.pending,
    )
}

/// The events that ask to dial `seeds`.
pub open spec fn dials(seeds: Seq<Seq<u8>>) -> Seq<DiscoveryEventView> {
    Seq::new(seeds.len(), |i: int| DiscoveryEventView::Dial(seeds[i]))
}

/// Discovery after `bootstrap(seeds)`.
pub open spec fn bootstrapped(v: DiscoveryView, seeds: Seq<Seq<u8>>) -> DiscoveryView {
    DiscoveryView {
        events: v.events + dials(seeds),
        bootstrapping: v.bootstrapping || seeds.len() > 0,
        ..v
    }
}

/// The contacts by which a lookup asks the peers of `entries`: each peer at
/// the address that was learned first.
pub open spec fn seeds_of(entries: Seq<EntryView>) -> Seq<(Seq<u8>, Seq<u8>)> {
    Seq::new(entries.len(), |i: int| (entries[i].peer, entries[i].addresses[0]))
}

/// Discovery after `find_node(target)`: a lookup that starts from the
/// closest peers of the table. Where there is nobody to ask it is over at
/// once, with what the table holds.
pub open spec fn searching(v: DiscoveryView, target: Seq<u8>) -> DiscoveryView {
    let l = started(
        v.table.local,
        target,
        seeds_of(closest_entries(v.table, target, v.width)),
        v.width,
        v.max_rounds,
    );
    if l.finished {
        DiscoveryView {
            lookup: None,
            events: v.events.push(
                DiscoveryEventView::LookupFinished { target, closest: l.shortlist },
            ),
            ..v
        }
    } else {
        DiscoveryView {
            lookup: Some(l),
            events: v.events.push(DiscoveryEventView::Query { target, peers: l.asking }),
            ..v
        }
    }
}

/// Discovery after the peer `from` answered the lookup and named
/// `contacts`. With no lookup under way, or one that does not wait for this
/// peer, the answer is dropped. Else the table learns the contacts and the
/// lookup takes the answer in; a round that begins asks its peers, and a
/// lookup that ends reports what it found.
pub open spec fn heard(
    v: DiscoveryView,
    from: Seq<u8>,
    contacts: Seq<(Seq<u8>, Seq<u8>)>,
) -> DiscoveryView {
    match v.lookup {
        None => v,
        Some(l) => if !has_peer(l.asking, from) {
            v
        } else {
            let w = learned_all(v, contacts);
            let l2 = answered(l, from, contacts);
            match progress_of(l, from, contacts) {
                Progress::NextRound => DiscoveryView {
                    lookup: Some(l2),
                    events: w.events.push(
                        DiscoveryEventView::Query { target: l.target, peers: l2.asking },
                    ),
                    ..w
                },
                Progress::Finished => DiscoveryView {
                    lookup: None,
                    events: w.events.push(
                        DiscoveryEventView::LookupFinished {
                            target: l.target,
                            closest: l2.shortlist,
                        },
                    ),
                    ..w
                },
                _ => DiscoveryView { lookup: Some(l2), ..w },
            }
        },
    }
}

/// Discovery after the time of its lookup ran out: the lookup ends with
/// what it has found so far.
pub open spec fn timed_out(v: DiscoveryView) -> DiscoveryView {
    match v.lookup {
        None => v,
        Some(l) => DiscoveryView {
            lookup: None,
            events: v.events.push(
                DiscoveryEventView::LookupFinished { target: l.target, closest: l.shortlist },
            ),
            ..v
        },
    }
}

/// What discovery asks of the node's driver, or tells it.
#[derive(Debug, PartialEq, Eq)]
pub enum DiscoveryEvent {
    /// Dial this address: a seed of the bootstrap.
    Dial(Multiaddr),
    /// Check whether this peer is alive, and report with `on_liveness`.
    ProbeLiveness(PeerId),
    /// Ask these peers for the peers they know closest to `target`, and
    /// report each answer with `on_answer`.
    Query { target: PeerId, peers: Vec<Contact> },
    /// The lookup of `target` is over; these are the closest peers found.
    LookupFinished { target: PeerId, closest: Vec<Contact> },
}

impl View for DiscoveryEvent {
    type V = DiscoveryEventView;

    open spec fn view(&self) -> DiscoveryEventView {
        match self {
            DiscoveryEvent::Dial(addr) => DiscoveryEventView::Dial(addr@),
            DiscoveryEvent::ProbeLiveness(peer) => DiscoveryEventView::ProbeLiveness(peer@),
            DiscoveryEvent::Query { target, peers } => DiscoveryEventView::Query {
                target: target@,
                peers: contact_views(peers@),
            },
            DiscoveryEvent::LookupFinished { target, closest } => {
                DiscoveryEventView::LookupFinished {
                    target: target@,
                    closest: contact_views(closest@),
                }
            },
        }
    }
}

/// The views of queued events.
pub open spec fn discovery_event_views(events: Seq<DiscoveryEvent>) -> Seq<DiscoveryEventView> {
    Seq::new(events.len(), |k: int| events[k]@)
}

/// The view of a lookup that may be there.
pub open spec fn lookup_view(lookup: Option<Lookup>) -> Option<LookupView> {
    match lookup {
        Some(l) => Some(l@),
        None => None,
    }
}

/// The discovery protocol of a node.
pub struct Discovery {
    protocol: String,
    table: RoutingTable,
    width: usize,
    max_rounds: usize,
    probes: Vec<PeerId>,
    lookup: Option<Lookup>,
    bootstrapping: bool,
    events: Vec<DiscoveryEvent>,
}

impl View for Discovery {
    type V = DiscoveryView;

    closed spec fn view(&self) -> DiscoveryView {
        DiscoveryView {
            protocol: self.protocol@,
            table: self.table@,
            width: self.width as nat,
            max_rounds: self.max_rounds as nat,
            probes: peer_views(self.probes@),
            lookup: lookup_view(self.lookup),
            bootstrapping: self.bootstrapping,
            events: discovery_event_views(self.events@),
        }
    }
}

/// The contacts by which a lookup asks the peers of `entries`.
fn contacts_of(entries: &Vec<RoutingEntry>) -> (contacts: Vec<Contact>)
    requires
        forall|i: int|
            0 <= i < entries.len() ==> (#[trigger] entry_views(entries@)[i]).addresses.len() > 0,
    ensures
        contact_views(contacts@) == seeds_of(entry_views(entries@)),
{
    let mut contacts: Vec<Contact> = Vec::new();
    let mut i: usize = 0;
    while i < entries.len()
        invariant
            i <= entries.len(),
            contacts.len() == i,
            forall|k: int|
                0 <= k < entries.len() ==> (#[trigger] entry_views(
                    entries@,
                )[k]).addresses.len() > 0,
            forall|k: int|
                0 <= k < i ==> (#[trigger] contacts@[k])@ == seeds_of(entry_views(entries@))[k],
        decreases entries.len() - i,
    {
        assert(entry_views(entries@)[i as int].addresses.len() > 0);
        let mut addrs = entries[i].addresses();
        let addr = addrs.swap_remove(0);
        contacts.push(Contact { peer: entries[i].peer(), addr });
        i += 1;
    }
    contacts
}

impl Discovery {
    /// Whether discovery meets its invariant.
    pub open spec fn wf(&self) -> bool {
        discovery_wf(self@)
    }

    /// The discovery protocol of the node `local`, speaking under the
    /// protocol name `protocol`, with an empty table whose buckets hold
    /// `capacity` peers. A lookup keeps the `capacity` closest peers and
    /// runs for `max_rounds` rounds at most.
    pub fn new(
        protocol: String,
        local: PeerId,
        capacity: usize,
        max_rounds: usize,
    ) -> (discovery: Discovery)
        ensures
            discovery.wf(),
            discovery@ == (DiscoveryView {
                protocol: protocol@,
                table: empty_table(local@, capacity as nat, 0),
                width: capacity as nat,
                max_rounds: max_rounds as nat,
                probes: Seq::empty(),
                lookup: None,
                bootstrapping: false,
                events: Seq::empty(),
            }),
    {
        Discovery {
            protocol,
            table: RoutingTable::new(local, capacity),
            width: capacity,
            max_rounds,
            probes: Vec::new(),
            lookup: None,
            bootstrapping: false,
            events: Vec::new(),
        }
    }

    /// The protocol name under which discovery speaks.
    pub fn protocol(&self) -> (name: &String)
        ensures
            name@ == self@.protocol,
    {
        &self.protocol
    }

    /// The routing table.
    pub fn table(&self) -> (table: &RoutingTable)
        ensures
            table@ == self@.table,
    {
        &self.table
    }

    /// Whether seeds were dialed and the lookup of the local identifier is
    /// still to come.
    pub fn is_bootstrapping(&self) -> (b: bool)
        ensures
            b == self@.bootstrapping,
    {
        self.bootstrapping
    }

    /// Whether a lookup is under way.
    pub fn is_searching(&self) -> (b: bool)
        ensures
            b == (self@.lookup is Some),
    {
        self.lookup.is_some()
    }

    /// Number of events that wait to be polled.
    pub fn pending_events(&self) -> (n: usize)
        ensures
            n == self@.events.len(),
    {
        self.events.len()
    }

    /// Tells the table the time.
    pub fn set_time(&mut self, now: u64)
        requires
            old(self).wf(),
        ensures
            final(self).wf(),
            final(self)@ == (DiscoveryView {
                table: TableView { now, ..old(self)@.table },
                ..old(self)@
            }),
    {
        self.table.set_time(now);
    }

    /// Learns that `peer` is reachable at `addr`: the table's
    /// `add_address`. Where the bucket is full, the liveness check of its
    /// least recently verified peer is asked for, once.
    pub fn add_address(&mut self, peer: &PeerId, addr: Multiaddr) -> (r: RoutingUpdate)
        requires
            old(self).wf(),
        ensures
            final(self).wf(),
            final(self)@ == learned(old(self)@, peer@, addr@),
            r@ == add_outcome(old(self)@.table, peer@, addr@),
    {
        let r = self.table.add_address(peer, addr);
        match r {
            RoutingUpdate::Full(Some(oldest)) => {
                self.schedule_probe(oldest);
            },
            _ => {},
        }
        r
    }

    /// Asks for the liveness check of `peer`, unless one is scheduled.
    fn schedule_probe(&mut self, peer: PeerId)
        requires
            old(self).wf(),
        ensures
            final(self).wf(),
            final(self)@ == probing(old(self)@, peer@),
    {
        if !contains_peer(&self.probes, &peer) {
            self.probes.push(peer);
            self.events.push(DiscoveryEvent::ProbeLiveness(peer));
            assert(self@.probes =~= old(self)@.probes.push(peer@));
        }
    }

    /// Periodic maintenance: asks for the liveness check of every peer that
    /// was last verified more than `max_age` ago. A peer that fails its
    /// check leaves the table when `on_liveness` reports so.
    pub fn refresh(&mut self, max_age: u64)
        requires
            old(self).wf(),
        ensures
            final(self).wf(),
            final(self)@ == refreshed(old(self)@, max_age),
    {
        let ghost v = self@;
        let stale = self.table.stale_peers(max_age);
        let ghost sv = peer_views(stale@);
        let mut i: usize = 0;
        while i < stale.len()
            invariant
                i <= stale.len(),
                self.wf(),
                sv == peer_views(stale@),
                self@ == probing_all(v, sv.take(i as int)),
            decreases stale.len() - i,
        {
            assert(sv.take(i + 1).drop_last() =~= sv.take(i as int));
            self.schedule_probe(stale[i]);
            i += 1;
        }
        assert(sv.take(i as int) =~= sv);
    }

    /// Learns a list of contacts, the first one first.
    pub fn learn_all(&mut self, contacts: &Vec<Contact>)
        requires
            old(self).wf(),
        ensures
            final(self).wf(),
            final(self)@ == learned_all(old(self)@, contact_views(contacts@)),
    {
        let ghost v = self@;
        let ghost cv = contact_views(contacts@);
        let mut i: usize = 0;
        while i < contacts.len()
            invariant
                i <= contacts.len(),
                self.wf(),
                cv == contact_views(contacts@),
                self@ == learned_all(v, cv.take(i as int)),
            decreases contacts.len() - i,
        {
            assert(cv.take(i + 1).drop_last() =~= cv.take(i as int));
            let addr = contacts[i].addr.clone();
            self.add_address(&contacts[i].peer, addr);
            i += 1;
        }
        assert(cv.take(i as int) =~= cv);
    }

    /// Takes in the outcome of a liveness check. A peer that is alive is
    /// marked as verified; one that is not is removed from the table. The
    /// candidates that waited for room are then tried again.
    pub fn on_liveness(&mut self, peer: &PeerId, alive: bool)
        requires
            old(self).wf(),
        ensures
            final(self).wf(),
            final(self)@ == resolved(old(self)@, peer@, alive),
    {
        let ghost v = self@;
        match position_of_peer(&self.probes, peer) {
            Some(k) => {
                self.probes.remove(k);
                assert(self@.probes =~= without(v.probes, peer@));
            },
            None => {},
        }
        if alive {
            self.table.mark_verified(peer);
        } else {
            self.table.remove_peer(peer);
        }
        let waiting = self.table.take_pending();
        self.learn_all(&waiting);
    }

    /// Queues the dialing of the seeds. The lookup of the local identifier
    /// follows once a seed has identified itself.
    pub fn bootstrap(&mut self, seeds: Vec<Multiaddr>)
        requires
            old(self).wf(),
        ensures
            final(self).wf(),
            final(self)@ == bootstrapped(old(self)@, addr_views(seeds@)),
    {
        let n = seeds.len();
        let mut seeds = seeds;
        let mut dials: Vec<DiscoveryEvent> = Vec::new();
        let ghost sv = addr_views(seeds@);
        let mut i: usize = 0;
        while i < seeds.len()
            invariant
                i <= seeds.len(),
                sv == addr_views(seeds@),
                dials.len() == i,
                forall|k: int|
                    0 <= k < i ==> (#[trigger] dials@[k])@ == DiscoveryEventView::Dial(sv[k]),
            decreases seeds.len() - i,
        {
            dials.push(DiscoveryEvent::Dial(seeds[i].clone()));
            i += 1;
        }
        self.events.append(&mut dials);
        if n > 0 {
            self.bootstrapping = true;
        }
    }

    /// Starts the iterative lookup of the peers closest to `target`, in
    /// place of one that may be under way.
    pub fn find_node(&mut self, target: &PeerId)
        requires
            old(self).wf(),
        ensures
            final(self).wf(),
            final(self)@ == searching(old(self)@, target@),
    {
        let ghost v = self@;
        let entries = self.table.closest_peers(target, self.width);
        let seeds = contacts_of(&entries);
        let lookup = Lookup::start(
            self.table.local_id(),
            *target,
            &seeds,
            self.width,
            self.max_rounds,
        );
        if lookup.is_finished() {
            self.events.push(
                DiscoveryEvent::LookupFinished { target: *target, closest: lookup.closest() },
            );
            self.lookup = None;
        } else {
            self.events.push(DiscoveryEvent::Query { target: *target, peers: lookup.asking() });
            self.lookup = Some(lookup);
        }
    }

    /// Starts the lookup of the local identifier that completes a
    /// bootstrap, if one is due.
    pub fn finish_bootstrap(&mut self) -> (due: bool)
        requires
            old(self).wf(),
        ensures
            final(self).wf(),
            due == old(self)@.bootstrapping,
            final(self)@ == (if old(self)@.bootstrapping {
                searching(
                    DiscoveryView { bootstrapping: false, ..old(self)@ },
                    old(self)@.table.local,
                )
            } else {
                old(self)@
            }),
    {
        if self.bootstrapping {
            self.bootstrapping = false;
            let local = self.table.local_id();
            self.find_node(&local);
            true
        } else {
            false
        }
    }

    /// Takes in the answer of the peer `from` to the lookup's question: the
    /// contacts that it named, none where it failed to answer.
    pub fn on_answer(&mut self, from: &PeerId, contacts: Vec<Contact>)
        requires
            old(self).wf(),
        ensures
            final(self).wf(),
            final(self)@ == heard(old(self)@, from@, contact_views(contacts@)),
    {
        let ghost v = self@;
        let ghost cv = contact_views(contacts@);
        match self.lookup.take() {
            None => {},
            Some(lookup) => {
                let mut lookup = lookup;
                if !lookup.is_asking(from) {
                    self.lookup = Some(lookup);
                    return;
                }
                self.learn_all(&contacts);
                proof {
                    lemma_learned_all_frame(DiscoveryView { lookup: None, ..v }, v, cv);
                }
                let target = lookup.target();
                match lookup.on_answer(from, contacts) {
                    Progress::NextRound => {
                        self.events.push(DiscoveryEvent::Query { target, peers: lookup.asking() });
                        self.lookup = Some(lookup);
                    },
                    Progress::Finished => {
                        self.events.push(
                            DiscoveryEvent::LookupFinished { target, closest: lookup.closest() },
                        );
                    },
                    _ => {
                        self.lookup = Some(lookup);
                    },
                }
            },
        }
    }

    /// Ends the lookup that is under way, as when its time has run out, and
    /// reports what it has found so far.
    pub fn on_lookup_timeout(&mut self)
        requires
            old(self).wf(),
        ensures
            final(self).wf(),
            final(self)@ == timed_out(old(self)@),
    {
        match self.lookup.take() {
            None => {},
            Some(lookup) => {
                self.events.push(
                    DiscoveryEvent::LookupFinished {
                        target: lookup.target(),
                        closest: lookup.closest(),
                    },
                );
            },
        }
    }

    /// Hands out the oldest event that waits, if there is one.
    pub fn poll(&mut self) -> (r: Option<DiscoveryEvent>)
        requires
            old(self).wf(),
        ensures
            final(self).wf(),
            match r {
                Some(e) => old(self)@.events.len() > 0 && e@ == old(self)@.events[0]
                    && final(self)@ == (DiscoveryView {
                    events: old(self)@.events.skip(1),
                    ..old(self)@
                }),
                None => old(self)@.events.len() == 0 && final(self)@ == old(self)@,
            },
    {
        if self.events.len() == 0 {
            None
        } else {
            let e = self.events.remove(0);
            Some(e)
        }
    }
}

/// What discovery learns does not depend on its lookup, and leaves the
/// lookup as it is.
pub proof fn lemma_learned_all_frame(
    a: DiscoveryView,
    b: DiscoveryView,
    contacts: Seq<(Seq<u8>, Seq<u8>)>,
)
    requires
        a == (DiscoveryView { lookup: a.lookup, ..b }),
    ensures
        learned_all(a, contacts) == (DiscoveryView {
            lookup: a.lookup,
            ..learned_all(b, contacts)
        }),
        learned_all(b, contacts).lookup == b.lookup,
        learned_all(b, contacts).table.local == b.table.local,
    decreases contacts.len(),
{
    if contacts.len() > 0 {
        lemma_learned_all_frame(a, b, contacts.drop_last());
    }
}

} // verus!
