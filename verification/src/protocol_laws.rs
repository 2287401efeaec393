//! What holds of the protocols and of the driver, proved over their views.

use crate::behaviour::{BehaviourView, EventView};
use crate::discovery::{
    discovery_wf, heard, learned, learned_all, searching, seeds_of, DiscoveryEventView,
    DiscoveryView,
};
use crate::identify::{after_closed, after_payload, conn_index, identify_wf, IdentifyView, InfoView};
use crate::lookup::{
    answered, asked_index, closest_contacts, first_occurrence, has_peer, is_closest_of, lookup_wf,
    started, theorem_closest_of_unique, LookupView,
};
use crate::node::{applied, identified};
use crate::routing::{
    add_outcome, after_add, bucket_index, closest_entries, find, is_closest, lookup,
    merged, table_wf, theorem_closest_unique, EntryView, TableView,
};
use crate::table_laws::{lemma_add_preserves_wf, lemma_bucket_index_range, lemma_find_unique};
use vstd::prelude::*;

verus! {

/// An address that `add_address` took for a peer is among the addresses
/// that the table knows of the peer.
pub proof fn theorem_added_address_is_known(v: TableView, peer: Seq<u8>, addr: Seq<u8>)
    requires
        table_wf(v),
        peer.len() == 32,
        add_outcome(v, peer, addr) is Inserted || add_outcome(v, peer, addr) is Updated,
    ensures
        lookup(after_add(v, peer, addr), peer) is Some,
        lookup(after_add(v, peer, addr), peer)->0.peer == peer,
        lookup(after_add(v, peer, addr), peer)->0.addresses.contains(addr),
        lookup(after_add(v, peer, addr), peer)->0.last_verified == v.now,
{
    lemma_bucket_index_range(v.local, peer);
    lemma_add_preserves_wf(v, peer, addr);
    let b = bucket_index(v.local, peer);
    let w = after_add(v, peer, addr);
    match find(v.buckets[b], peer) {
        Some(j) => {
            assert(w.buckets[b][j].peer == peer);
            lemma_find_unique(w, b, j);
            let known = v.buckets[b][j].addresses;
            if !known.contains(addr) {
                assert(known.push(addr)[known.len() as int] == addr);
            }
        },
        None => {
            let j = v.buckets[b].len() as int;
            assert(w.buckets[b][j].peer == peer);
            lemma_find_unique(w, b, j);
            assert(seq![addr][0] == addr);
        },
    }
}

/// The addresses that the table knows of a peer stay known when another
/// address of the peer is learned: two sightings of one peer at different
/// addresses leave both addresses in its entry.
pub proof fn theorem_addresses_accumulate(
    v: TableView,
    peer: Seq<u8>,
    first: Seq<u8>,
    second: Seq<u8>,
)
    requires
        table_wf(v),
        peer.len() == 32,
        add_outcome(v, peer, first) is Inserted || add_outcome(v, peer, first) is Updated,
    ensures
        add_outcome(after_add(v, peer, first), peer, second) is Updated,
        lookup(after_add(after_add(v, peer, first), peer, second), peer) is Some,
        lookup(after_add(after_add(v, peer, first), peer, second), peer)->0.addresses.contains(
            first,
        ),
        lookup(after_add(after_add(v, peer, first), peer, second), peer)->0.addresses.contains(
            second,
        ),
{
    lemma_bucket_index_range(v.local, peer);
    theorem_added_address_is_known(v, peer, first);
    lemma_add_preserves_wf(v, peer, first);
    let w = after_add(v, peer, first);
    let b = bucket_index(v.local, peer);
    assert(find(w.buckets[b], peer) is Some);
    theorem_added_address_is_known(w, peer, second);
    let j = find(w.buckets[b], peer)->0;
    let known = w.buckets[b][j].addresses;
    assert(known.contains(first));
    let k = choose|k: int| 0 <= k < known.len() && known[k] == first;
    assert(merged(known, second)[k] == first);
    let x = after_add(w, peer, second);
    lemma_add_preserves_wf(w, peer, second);
    assert(x.buckets[b][j].peer == peer);
    lemma_find_unique(x, b, j);
}

/// Once a connection is closed, a payload that still arrives on it is
/// dropped: it gives no event and touches no connection.
pub proof fn theorem_closed_connection_reports_nothing(
    v: IdentifyView,
    id: u64,
    payload: Option<InfoView>,
)
    requires
        identify_wf(v),
    ensures
        after_payload(after_closed(v, id), id, payload) == after_closed(v, id),
        after_closed(v, id).events == v.events,
{
    let w = after_closed(v, id);
    match conn_index(v.connections, id) {
        Some(k) => {
            assert forall|l: int| 0 <= l < w.connections.len() implies (
            #[trigger] w.connections[l]).id != id by {
                if l < k {
                    assert(v.connections[l].id != v.connections[k].id);
                } else {
                    assert(v.connections[k].id != v.connections[l + 1].id);
                }
            }
        },
        None => {},
    }
    assert(conn_index(w.connections, id) is None);
}

/// What discovery learns of no contact is nothing.
pub proof fn lemma_heard_nothing_keeps_table(kad: DiscoveryView, from: Seq<u8>)
    ensures
        heard(kad, from, Seq::empty()).table == kad.table,
{
    assert(learned_all(kad, Seq::empty()) == kad);
}

/// The driver leaves the routing table alone when a connection is
/// established or closed: only a peer that has identified itself enters
/// the table.
pub proof fn theorem_connections_leave_the_table(b: BehaviourView, peer: Seq<u8>, conn: u64)
    ensures
        applied(b, EventView::ConnectionEstablished(peer, conn)).kad == b.kad,
        applied(b, EventView::ConnectionClosed(peer, conn)).kad.table == b.kad.table,
{
    match conn_index(b.identify.connections, conn) {
        Some(k) => {
            lemma_heard_nothing_keeps_table(b.kad, b.identify.connections[k].peer);
        },
        None => {},
    }
}

/// After a peer has identified itself with a listen address that the table
/// took, the table knows the peer at that address.
pub proof fn theorem_identified_peer_is_known(kad: DiscoveryView, peer: Seq<u8>, info: InfoView)
    requires
        discovery_wf(kad),
        peer.len() == 32,
        info.listen_addrs.len() > 0,
        add_outcome(kad.table, peer, info.listen_addrs[0]) is Inserted || add_outcome(
            kad.table,
            peer,
            info.listen_addrs[0],
        ) is Updated,
    ensures
        lookup(identified(kad, peer, info).table, peer) is Some,
        lookup(identified(kad, peer, info).table, peer)->0.addresses.contains(
            info.listen_addrs[0],
        ),
{
    theorem_added_address_is_known(kad.table, peer, info.listen_addrs[0]);
    let known = learned(kad, peer, info.listen_addrs[0]);
    assert(known.table == after_add(kad.table, peer, info.listen_addrs[0]));
}

/// On a table that knows no peer, `closest_peers` returns nothing.
pub proof fn theorem_closest_of_empty_table(v: TableView, target: Seq<u8>, limit: nat)
    requires
        table_wf(v),
        target.len() == 32,
        forall|i: int| 0 <= i < 256 ==> (#[trigger] v.buckets[i]).len() == 0,
    ensures
        closest_entries(v, target, limit) == Seq::<EntryView>::empty(),
{
    let none = Seq::<EntryView>::empty();
    assert(is_closest(v, target, limit, none));
    theorem_closest_unique(v, target, limit, none, none);
}

/// A lookup on a table that knows no peer ends at once, with an empty
/// result: `find_node` keeps no lookup and reports that it found nothing.
pub proof fn theorem_lookup_on_empty_table(v: DiscoveryView, target: Seq<u8>)
    requires
        discovery_wf(v),
        target.len() == 32,
        forall|i: int| 0 <= i < 256 ==> (#[trigger] v.table.buckets[i]).len() == 0,
    ensures
        searching(v, target).lookup is None,
        searching(v, target).events == v.events.push(
            DiscoveryEventView::LookupFinished { target, closest: Seq::empty() },
        ),
        searching(v, target).table == v.table,
{
    theorem_closest_of_empty_table(v.table, target, v.width);
    let seeds = seeds_of(closest_entries(v.table, target, v.width));
    assert(seeds =~= Seq::empty());
    let none = Seq::<(Seq<u8>, Seq<u8>)>::empty();
    assert(is_closest_of(seeds, target, v.table.local, v.width, none));
    theorem_closest_of_unique(seeds, target, v.table.local, v.width, none, none);
    assert(closest_contacts(seeds, target, v.table.local, v.width) == none);
}

/// A lookup is bounded: each answer leaves the number of complete rounds
/// where it was or adds one to it, never past the bound, and a lookup that
/// has reached the bound is over.
pub proof fn theorem_lookup_is_bounded(
    v: LookupView,
    from: Seq<u8>,
    contacts: Seq<(Seq<u8>, Seq<u8>)>,
)
    requires
        lookup_wf(v),
    ensures
        v.rounds >= v.max_rounds ==> v.finished,
        v.rounds <= answered(v, from, contacts).rounds <= v.rounds + 1,
        !v.finished ==> answered(v, from, contacts).rounds <= v.max_rounds,
        answered(v, from, contacts).rounds >= v.max_rounds ==> answered(v, from, contacts).finished
            || v.finished,
        v.finished ==> answered(v, from, contacts) == v,
{
}

/// Each answer that a lookup waits for brings it forward: the round waits
/// for one peer less, or is complete.
pub proof fn theorem_answers_bring_a_lookup_forward(
    v: LookupView,
    from: Seq<u8>,
    contacts: Seq<(Seq<u8>, Seq<u8>)>,
)
    requires
        lookup_wf(v),
        !v.finished,
        has_peer(v.asking, from),
    ensures
        answered(v, from, contacts).rounds == v.rounds + 1 || (answered(
            v,
            from,
            contacts,
        ).rounds == v.rounds && answered(v, from, contacts).asking.len() == v.asking.len() - 1),
{
    let i = asked_index(v.asking, from);
    let k = choose|k: int| 0 <= k < v.asking.len() && (#[trigger] v.asking[k]).0 == from;
    lemma_first_occurrence_exists(v.asking, from, k);
}

/// A peer that occurs among contacts has a first contact there.
pub proof fn lemma_first_occurrence_exists(contacts: Seq<(Seq<u8>, Seq<u8>)>, peer: Seq<u8>, k: int)
    requires
        0 <= k < contacts.len(),
        contacts[k].0 == peer,
    ensures
        first_occurrence(contacts, asked_index(contacts, peer)),
        contacts[asked_index(contacts, peer)].0 == peer,
    decreases k,
{
    if exists|j: int| 0 <= j < k && (#[trigger] contacts[j]).0 == peer {
        let j = choose|j: int| 0 <= j < k && (#[trigger] contacts[j]).0 == peer;
        lemma_first_occurrence_exists(contacts, peer, j);
    } else {
        assert(first_occurrence(contacts, k));
    }
}

/// A lookup that starts with nobody to ask is over at once and returns
/// nothing.
pub proof fn theorem_lookup_without_seeds(
    local: Seq<u8>,
    target: Seq<u8>,
    width: nat,
    max_rounds: nat,
)
    ensures
        started(local, target, Seq::empty(), width, max_rounds).finished,
        started(local, target, Seq::empty(), width, max_rounds).shortlist.len() == 0,
{
    let none = Seq::<(Seq<u8>, Seq<u8>)>::empty();
    assert(is_closest_of(none, target, local, width, none));
    theorem_closest_of_unique(none, target, local, width, none, none);
}

} // verus!
