//! The routing table: known peers in buckets by XOR distance from the local
//! identifier.
//!
//! The table is described by its view, a `TableView`. What each operation
//! does is a function on views (`after_add`, `after_remove`, ...), and the
//! executable operations are proved to compute those functions.

use crate::addr::{addr_views, clone_addrs, contact_views, contains_addr, Contact, Multiaddr};
use crate::peer::{
    distance, theorem_distance_injective, peer_views, shared_prefix_bits, Distance, PeerId, ID_BITS,
};
use vstd::prelude::*;

verus! {

/// The bucket capacity that Kademlia tables commonly use.
pub const DEFAULT_BUCKET_CAPACITY: usize = 20;

/// What the table knows of one peer, as a mathematical value.
#[verifier::ext_equal]
pub struct EntryView {
    pub peer: Seq<u8>,
    pub addresses: Seq<Seq<u8>>,
    pub last_verified: u64,
}

/// A routing table as a mathematical value.
#[verifier::ext_equal]
pub struct TableView {
    /// The local identifier.
    pub local: Seq<u8>,
    /// The capacity of each bucket.
    pub capacity: nat,
    /// The time as the table was last told.
    pub now: u64,
    /// The buckets; bucket `i` holds the peers that share exactly `i`
    /// leading bits with the local identifier.
    pub buckets: Seq<Seq<EntryView>>,
    /// The candidates (peer, address) that found their bucket full and wait
    /// for another attempt.
    pub pending: Seq<(Seq<u8>, Seq<u8>)>,
}

/// The result of `add_address`, as a mathematical value.
pub enum UpdateView {
    Inserted,
    Updated,
    Full(Option<Seq<u8>>),
    Rejected,
}

/// The index of the bucket that `peer` belongs to in a table of `local`:
/// the number of leading bits that the two share.
pub open spec fn bucket_index(local: Seq<u8>, peer: Seq<u8>) -> int {
    shared_prefix_bits(local, peer) as int
}

/// Whether `e` may stand in bucket `i` of a table of `local`.
pub open spec fn entry_wf(local: Seq<u8>, i: int, e: EntryView) -> bool {
    &&& e.peer.len() == 32
    &&& bucket_index(local, e.peer) == i
    &&& e.addresses.len() > 0
    &&& e.addresses.no_duplicates()
}

/// The invariant of a routing table: every peer stands in the bucket of its
/// shared prefix length and nowhere else, no bucket holds more than the
/// capacity, every entry has at least one address and none twice, and no
/// candidate is queued twice.
pub open spec fn table_wf(v: TableView) -> bool {
    &&& v.local.len() == 32
    &&& v.buckets.len() == 256
    &&& forall|i: int| 0 <= i < 256 ==> (#[trigger] v.buckets[i]).len() <= v.capacity
    &&& forall|i: int, j: int|
        0 <= i < 256 && 0 <= j < v.buckets[i].len() ==> entry_wf(
            v.local,
            i,
            #[trigger] v.buckets[i][j],
        )
    &&& forall|i: int, j: int, k: int|
        0 <= i < 256 && 0 <= j < k < v.buckets[i].len() ==> (#[trigger] v.buckets[i][j]).peer != (
        #[trigger] v.buckets[i][k]).peer
    &&& forall|k: int| 0 <= k < v.pending.len() ==> (#[trigger] v.pending[k]).0.len() == 32
    &&& v.pending.no_duplicates()
}

/// The table of `local` with bucket capacity `capacity` that knows no peer.
pub open spec fn empty_table(local: Seq<u8>, capacity: nat, now: u64) -> TableView {
    TableView {
        local,
        capacity,
        now,
        buckets: Seq::new(256, |i: int| Seq::<EntryView>::empty()),
        pending: Seq::empty(),
    }
}

/// The position of `peer` in `bucket`, if it stands there.
pub open spec fn find(bucket: Seq<EntryView>, peer: Seq<u8>) -> Option<int> {
    if exists|j: int| 0 <= j < bucket.len() && (#[trigger] bucket[j]).peer == peer {
        Some(choose|j: int| 0 <= j < bucket.len() && (#[trigger] bucket[j]).peer == peer)
    } else {
        None
    }
}

/// The entry of `peer` in the table, if the table knows the peer.
pub open spec fn lookup(v: TableView, peer: Seq<u8>) -> Option<EntryView> {
    let b = bucket_index(v.local, peer);
    if 0 <= b < v.buckets.len() {
        match find(v.buckets[b], peer) {
            Some(j) => Some(v.buckets[b][j]),
            None => None,
        }
    } else {
        None
    }
}

/// Whether `e` is an entry of the table.
pub open spec fn in_table(v: TableView, e: EntryView) -> bool {
    exists|i: int, j: int|
        0 <= i < v.buckets.len() && 0 <= j < v.buckets[i].len() && #[trigger] v.buckets[i][j] == e
}

/// The addresses of an entry after `addr` was learned: a set kept in the
/// order of learning.
pub open spec fn merged(addresses: Seq<Seq<u8>>, addr: Seq<u8>) -> Seq<Seq<u8>> {
    if addresses.contains(addr) {
        addresses
    } else {
        addresses.push(addr)
    }
}

/// The position of the least recently verified entry of a bucket that is
/// not empty; of several such entries, the first.
pub open spec fn oldest_index(bucket: Seq<EntryView>) -> int
    decreases bucket.len(),
{
    if bucket.len() <= 1 {
        0
    } else {
        let k = oldest_index(bucket.drop_last());
        if bucket.last().last_verified < bucket[k].last_verified {
            bucket.len() - 1
        } else {
            k
        }
    }
}

/// The peer whose liveness is to be checked when a bucket is full: its
/// least recently verified one. A bucket of capacity zero has none.
pub open spec fn oldest(bucket: Seq<EntryView>) -> Option<Seq<u8>> {
    if bucket.len() == 0 {
        None
    } else {
        Some(bucket[oldest_index(bucket)].peer)
    }
}

/// The queue of candidates after `(peer, addr)` asked to wait.
pub open spec fn queued(pending: Seq<(Seq<u8>, Seq<u8>)>, peer: Seq<u8>, addr: Seq<u8>) -> Seq<
    (Seq<u8>, Seq<u8>),
> {
    if pending.contains((peer, addr)) {
        pending
    } else {
        pending.push((peer, addr))
    }
}

/// The table after `add_address(peer, addr)`.
pub open spec fn after_add(v: TableView, peer: Seq<u8>, addr: Seq<u8>) -> TableView {
    let b = bucket_index(v.local, peer);
    if peer == v.local {
        v
    } else {
        match find(v.buckets[b], peer) {
            Some(j) => TableView {
                buckets: v.buckets.update(
                    b,
                    v.buckets[b].update(
                        j,
                        EntryView {
                            peer,
                            addresses: merged(v.buckets[b][j].addresses, addr),
                            last_verified: v.now,
                        },
                    ),
                ),
                ..v
            },
            None => if v.buckets[b].len() < v.capacity {
                TableView {
                    buckets: v.buckets.update(
                        b,
                        v.buckets[b].push(
                            EntryView { peer, addresses: seq![addr], last_verified: v.now },
                        ),
                    ),
                    ..v
                }
            } else {
                TableView { pending: queued(v.pending, peer, addr), ..v }
            },
        }
    }
}

/// What `add_address(peer, addr)` returns.
pub open spec fn add_outcome(v: TableView, peer: Seq<u8>, addr: Seq<u8>) -> UpdateView {
    let b = bucket_index(v.local, peer);
    if peer == v.local {
        UpdateView::Rejected
    } else if find(v.buckets[b], peer) is Some {
        UpdateView::Updated
    } else if v.buckets[b].len() < v.capacity {
        UpdateView::Inserted
    } else {
        UpdateView::Full(oldest(v.buckets[b]))
    }
}

/// The table after `remove_peer(peer)`.
pub open spec fn after_remove(v: TableView, peer: Seq<u8>) -> TableView {
    let b = bucket_index(v.local, peer);
    if peer == v.local {
        v
    } else {
        match find(v.buckets[b], peer) {
            Some(j) => TableView { buckets: v.buckets.update(b, v.buckets[b].remove(j)), ..v },
            None => v,
        }
    }
}

/// The table after the liveness of `peer` was confirmed.
pub open spec fn after_verified(v: TableView, peer: Seq<u8>) -> TableView {
    let b = bucket_index(v.local, peer);
    if peer == v.local {
        v
    } else {
        match find(v.buckets[b], peer) {
            Some(j) => TableView {
                buckets: v.buckets.update(
                    b,
                    v.buckets[b].update(j, EntryView { last_verified: v.now, ..v.buckets[b][j] }),
                ),
                ..v
            },
            None => v,
        }
    }
}

/// Whether an entry was last verified more than `max_age` before `now`.
pub open spec fn is_stale(e: EntryView, now: u64, max_age: u64) -> bool {
    e.last_verified <= now && now - e.last_verified > max_age
}

/// The peers of the stale entries of a bucket, in the bucket's order.
pub open spec fn stale_in(bucket: Seq<EntryView>, now: u64, max_age: u64) -> Seq<Seq<u8>>
    decreases bucket.len(),
{
    if bucket.len() == 0 {
        Seq::empty()
    } else {
        let rest = stale_in(bucket.drop_last(), now, max_age);
        if is_stale(bucket.last(), now, max_age) {
            rest.push(bucket.last().peer)
        } else {
            rest
        }
    }
}

/// The peers of the stale entries of the first `n` buckets, bucket by
/// bucket.
pub open spec fn stale_upto(v: TableView, n: int, max_age: u64) -> Seq<Seq<u8>>
    decreases n,
{
    if n <= 0 {
        Seq::empty()
    } else {
        stale_upto(v, n - 1, max_age) + stale_in(v.buckets[n - 1], v.now, max_age)
    }
}

/// The peers of all stale entries of a table: those that periodic
/// maintenance verifies anew.
pub open spec fn stale_peers_of(v: TableView, max_age: u64) -> Seq<Seq<u8>> {
    stale_upto(v, 256, max_age)
}

/// Whether `res` is what `closest_peers(target, limit)` returns on table
/// `v`: entries of the table in strictly ascending distance from `target`,
/// at most `limit` of them, and no entry left out is as close as one that
/// was taken.
pub open spec fn is_closest(
    v: TableView,
    target: Seq<u8>,
    limit: nat,
    res: Seq<EntryView>,
) -> bool {
    &&& res.len() <= limit
    &&& forall|k: int| 0 <= k < res.len() ==> in_table(v, #[trigger] res[k])
    &&& forall|k: int, l: int|
        0 <= k < l < res.len() ==> distance((#[trigger] res[k]).peer, target) < distance(
            (#[trigger] res[l]).peer,
            target,
        )
    &&& forall|i: int, j: int|
        0 <= i < v.buckets.len() && 0 <= j < v.buckets[i].len() ==> res.contains(
            #[trigger] v.buckets[i][j],
        ) || (res.len() == limit && (limit == 0 || distance(res.last().peer, target) < distance(
            v.buckets[i][j].peer,
            target,
        )))
}

/// The result of `closest_peers(target, limit)` on table `v`: the one
/// sequence that `is_closest` describes.
pub open spec fn closest_entries(v: TableView, target: Seq<u8>, limit: nat) -> Seq<EntryView> {
    choose|res: Seq<EntryView>| is_closest(v, target, limit, res)
}

/// Two results agree on every position that both have.
proof fn lemma_closest_prefix(
    v: TableView,
    target: Seq<u8>,
    limit: nat,
    r1: Seq<EntryView>,
    r2: Seq<EntryView>,
    n: int,
)
    requires
        is_closest(v, target, limit, r1),
        is_closest(v, target, limit, r2),
        0 <= n <= r1.len(),
        n <= r2.len(),
    ensures
        forall|k: int| 0 <= k < n ==> r1[k] == r2[k],
    decreases n,
{
    if n > 0 {
        lemma_closest_prefix(v, target, limit, r1, r2, n - 1);
    }
}

/// A result is not shorter than another result on the same table.
proof fn lemma_closest_not_shorter(
    v: TableView,
    target: Seq<u8>,
    limit: nat,
    r1: Seq<EntryView>,
    r2: Seq<EntryView>,
)
    requires
        is_closest(v, target, limit, r1),
        is_closest(v, target, limit, r2),
    ensures
        r1.len() >= r2.len(),
{
    if r1.len() < r2.len() {
        let n = r1.len() as int;
        lemma_closest_prefix(v, target, limit, r1, r2, n);
        let (i, j) = choose|i: int, j: int|
            0 <= i < v.buckets.len() && 0 <= j < v.buckets[i].len() && #[trigger] v.buckets[i][j]
                == r2[n];
        let m = choose|m: int| 0 <= m < r1.len() && r1[m] == r2[n];
    }
}

/// The result of `closest_peers` is determined by the table's contents:
/// `is_closest` describes one sequence and no other.
pub proof fn theorem_closest_unique(
    v: TableView,
    target: Seq<u8>,
    limit: nat,
    r1: Seq<EntryView>,
    r2: Seq<EntryView>,
)
    requires
        is_closest(v, target, limit, r1),
        is_closest(v, target, limit, r2),
    ensures
        r1 == r2,
        r1 == closest_entries(v, target, limit),
{
    lemma_closest_not_shorter(v, target, limit, r1, r2);
    lemma_closest_not_shorter(v, target, limit, r2, r1);
    lemma_closest_prefix(v, target, limit, r1, r2, r1.len() as int);
    let c = closest_entries(v, target, limit);
    lemma_closest_not_shorter(v, target, limit, r1, c);
    lemma_closest_not_shorter(v, target, limit, c, r1);
    lemma_closest_prefix(v, target, limit, r1, c, r1.len() as int);
}

/// What the table knows of one peer.
#[derive(Debug)]
pub struct RoutingEntry {
    peer: PeerId,
    addresses: Vec<Multiaddr>,
    last_verified: u64,
}

impl View for RoutingEntry {
    type V = EntryView;

    closed spec fn view(&self) -> EntryView {
        EntryView {
            peer: self.peer@,
            addresses: addr_views(self.addresses@),
            last_verified: self.last_verified,
        }
    }
}

impl Clone for RoutingEntry {
    fn clone(&self) -> (copy: Self)
        ensures
            copy@ == self@,
    {
        RoutingEntry {
            peer: self.peer,
            addresses: clone_addrs(&self.addresses),
            last_verified: self.last_verified,
        }
    }
}

impl RoutingEntry {
    /// The peer that the entry is about.
    pub fn peer(&self) -> (peer: PeerId)
        ensures
            peer@ == self@.peer,
    {
        self.peer
    }

    /// The addresses known of the peer, in the order in which they were
    /// learned.
    pub fn addresses(&self) -> (addrs: Vec<Multiaddr>)
        ensures
            addr_views(addrs@) == self@.addresses,
    {
        clone_addrs(&self.addresses)
    }

    /// Whether `addr` is among the addresses known of the peer.
    pub fn has_address(&self, addr: &Multiaddr) -> (found: bool)
        ensures
            found == self@.addresses.contains(addr@),
    {
        contains_addr(&self.addresses, addr)
    }

    /// The time at which the peer was last verified.
    pub fn last_verified(&self) -> (t: u64)
        ensures
            t == self@.last_verified,
    {
        self.last_verified
    }
}

/// The result of `add_address`.
#[derive(Clone, Copy, Debug, PartialEq, Eq)]
pub enum RoutingUpdate {
    /// The peer was new and its bucket had room.
    Inserted,
    /// The peer was known: its addresses and its verification time were
    /// brought up to date.
    Updated,
    /// The peer was new and its bucket full. The candidate was queued; the
    /// peer named is the bucket's least recently verified one, whose
    /// liveness is to be checked.
    Full(Option<PeerId>),
    /// The peer is the local node, which has no place in its own table.
    Rejected,
}

impl View for RoutingUpdate {
    type V = UpdateView;

    open spec fn view(&self) -> UpdateView {
        match *self {
            RoutingUpdate::Inserted => UpdateView::Inserted,
            RoutingUpdate::Updated => UpdateView::Updated,
            RoutingUpdate::Full(Some(p)) => UpdateView::Full(Some(p@)),
            RoutingUpdate::Full(None) => UpdateView::Full(None),
            RoutingUpdate::Rejected => UpdateView::Rejected,
        }
    }
}

/// The views of the entries of a bucket.
pub open spec fn entry_views(entries: Seq<RoutingEntry>) -> Seq<EntryView> {
    Seq::new(entries.len(), |j: int| entries[j]@)
}

/// The views of the buckets of a table.
pub open spec fn bucket_views(buckets: Seq<Vec<RoutingEntry>>) -> Seq<Seq<EntryView>> {
    Seq::new(buckets.len(), |i: int| entry_views(buckets[i]@))
}

/// The routing table of a node.
pub struct RoutingTable {
    local: PeerId,
    capacity: usize,
    now: u64,
    buckets: Vec<Vec<RoutingEntry>>,
    pending: Vec<Contact>,
}

impl View for RoutingTable {
    type V = TableView;

    closed spec fn view(&self) -> TableView {
        TableView {
            local: self.local@,
            capacity: self.capacity as nat,
            now: self.now,
            buckets: bucket_views(self.buckets@),
            pending: contact_views(self.pending@),
        }
    }
}

/// The position of `peer` in `bucket`, if it stands there.
fn find_peer(bucket: &Vec<RoutingEntry>, peer: &PeerId) -> (r: Option<usize>)
    ensures
        match r {
            Some(j) => j < bucket.len() && entry_views(bucket@)[j as int].peer == peer@,
            None => forall|j: int| 0 <= j < bucket.len() ==> (#[trigger] entry_views(
                bucket@,
            )[j]).peer != peer@,
        },
{
    let mut j: usize = 0;
    while j < bucket.len()
        invariant
            j <= bucket.len(),
            forall|k: int| 0 <= k < j ==> (#[trigger] entry_views(bucket@)[k]).peer != peer@,
        decreases bucket.len() - j,
    {
        if bucket[j].peer.same(peer) {
            return Some(j);
        }
        j += 1;
    }
    None
}

/// The least recently verified peer of `bucket`.
fn oldest_peer(bucket: &Vec<RoutingEntry>) -> (r: Option<PeerId>)
    ensures
        match r {
            Some(p) => Some(p@) == oldest(entry_views(bucket@)),
            None => oldest(entry_views(bucket@)) is None,
        },
{
    if bucket.len() == 0 {
        return None;
    }
    let ghost views = entry_views(bucket@);
    let mut best: usize = 0;
    let mut j: usize = 1;
    while j < bucket.len()
        invariant
            1 <= j <= bucket.len(),
            best < j,
            views == entry_views(bucket@),
            best == oldest_index(views.take(j as int)),
        decreases bucket.len() - j,
    {
        assert(views.take(j + 1).drop_last() =~= views.take(j as int));
        if bucket[j].last_verified < bucket[best].last_verified {
            best = j;
        }
        j += 1;
    }
    assert(views.take(j as int) =~= views);
    Some(bucket[best].peer)
}

/// Whether `(peer, addr)` is queued in `pending`.
fn contains_candidate(pending: &Vec<Contact>, peer: &PeerId, addr: &Multiaddr) -> (found: bool)
    ensures
        found == contact_views(pending@).contains((peer@, addr@)),
{
    let mut k: usize = 0;
    while k < pending.len()
        invariant
            k <= pending.len(),
            forall|l: int| 0 <= l < k ==> contact_views(pending@)[l] != (peer@, addr@),
        decreases pending.len() - k,
    {
        if pending[k].peer.same(peer) && pending[k].addr.same(addr) {
            assert(contact_views(pending@)[k as int] == (peer@, addr@));
            return true;
        }
        k += 1;
    }
    false
}

impl RoutingTable {
    /// Whether the table meets its invariant.
    pub open spec fn wf(&self) -> bool {
        table_wf(self@)
    }

    /// The empty table of the node `local`, with buckets of `capacity`
    /// entries and the time set to zero.
    pub fn new(local: PeerId, capacity: usize) -> (table: RoutingTable)
        ensures
            table.wf(),
            table@ == empty_table(local@, capacity as nat, 0),
    {
        let mut buckets: Vec<Vec<RoutingEntry>> = Vec::new();
        let mut i: usize = 0;
        while i < ID_BITS
            invariant
                i <= ID_BITS,
                buckets.len() == i,
                forall|k: int| 0 <= k < i ==> (#[trigger] buckets@[k])@.len() == 0,
            decreases ID_BITS - i,
        {
            buckets.push(Vec::new());
            i += 1;
        }
        let table = RoutingTable { local, capacity, now: 0, buckets, pending: Vec::new() };
        assert(table@.buckets =~~= empty_table(local@, capacity as nat, 0).buckets);
        table
    }

    /// The identifier of the local node.
    pub fn local_id(&self) -> (id: PeerId)
        ensures
            id@ == self@.local,
    {
        self.local
    }

    /// The capacity of each bucket.
    pub fn capacity(&self) -> (k: usize)
        ensures
            k == self@.capacity,
    {
        self.capacity
    }

    /// The time as the table was last told.
    pub fn now(&self) -> (t: u64)
        ensures
            t == self@.now,
    {
        self.now
    }

    /// Tells the table the time. Entries verified from now on carry it.
    pub fn set_time(&mut self, now: u64)
        ensures
            final(self)@ == (TableView { now, ..old(self)@ }),
    {
        self.now = now;
    }

    /// Learns that `peer` is reachable at `addr`.
    ///
    /// A known peer has the address added to its set and its verification
    /// time refreshed. A new peer is inserted where its bucket has room.
    /// Where the bucket is full the candidate is queued for another attempt
    /// and the bucket's least recently verified peer is named, so that its
    /// liveness can be checked. The local identifier is rejected.
    pub fn add_address(&mut self, peer: &PeerId, addr: Multiaddr) -> (r: RoutingUpdate)
        requires
            old(self).wf(),
        ensures
            final(self).wf(),
            final(self)@ == after_add(old(self)@, peer@, addr@),
            r@ == add_outcome(old(self)@, peer@, addr@),
            forall|i: int|
                0 <= i < 256 ==> (#[trigger] final(self)@.buckets[i]).len()
                    <= final(self)@.capacity,
    {
        let b = self.local.shared_prefix_len(peer);
        if b == ID_BITS {
            return RoutingUpdate::Rejected;
        }
        let ghost v = self@;
        let ghost bucket = v.buckets[b as int];
        match find_peer(&self.buckets[b], peer) {
            Some(j) => {
                if !contains_addr(&self.buckets[b][j].addresses, &addr) {
                    self.buckets[b][j].addresses.push(addr);
                }
                self.buckets[b][j].last_verified = self.now;
                assert(self@.buckets =~~= after_add(v, peer@, addr@).buckets);
                RoutingUpdate::Updated
            },
            None => {
                if self.buckets[b].len() < self.capacity {
                    let mut addresses: Vec<Multiaddr> = Vec::new();
                    addresses.push(addr);
                    self.buckets[b].push(
                        RoutingEntry { peer: *peer, addresses, last_verified: self.now },
                    );
                    assert(self@.buckets =~~= after_add(v, peer@, addr@).buckets);
                    RoutingUpdate::Inserted
                } else {
                    let oldest = oldest_peer(&self.buckets[b]);
                    if !contains_candidate(&self.pending, peer, &addr) {
                        self.pending.push(Contact { peer: *peer, addr });
                    }
                    assert(self@.pending =~= queued(v.pending, peer@, addr@));
                    RoutingUpdate::Full(oldest)
                }
            },
        }
    }

    /// Forgets `peer`, whatever is known of it.
    pub fn remove_peer(&mut self, peer: &PeerId) -> (removed: bool)
        requires
            old(self).wf(),
        ensures
            final(self).wf(),
            final(self)@ == after_remove(old(self)@, peer@),
            removed == (lookup(old(self)@, peer@) is Some),
    {
        let b = self.local.shared_prefix_len(peer);
        if b == ID_BITS {
            return false;
        }
        let ghost v = self@;
        let ghost bucket = v.buckets[b as int];
        match find_peer(&self.buckets[b], peer) {
            Some(j) => {
                self.buckets[b].remove(j);
                assert(self@.buckets =~~= after_remove(v, peer@).buckets);
                true
            },
            None => {
                false
            },
        }
    }

    /// Records that the liveness of `peer` was confirmed just now.
    pub fn mark_verified(&mut self, peer: &PeerId) -> (known: bool)
        requires
            old(self).wf(),
        ensures
            final(self).wf(),
            final(self)@ == after_verified(old(self)@, peer@),
            known == (lookup(old(self)@, peer@) is Some),
    {
        let b = self.local.shared_prefix_len(peer);
        if b == ID_BITS {
            return false;
        }
        let ghost v = self@;
        let ghost bucket = v.buckets[b as int];
        match find_peer(&self.buckets[b], peer) {
            Some(j) => {
                self.buckets[b][j].last_verified = self.now;
                assert(self@.buckets =~~= after_verified(v, peer@).buckets);
                true
            },
            None => {
                false
            },
        }
    }

    /// Hands out the candidates that wait for another attempt, and empties
    /// the queue.
    pub fn take_pending(&mut self) -> (taken: Vec<Contact>)
        requires
            old(self).wf(),
        ensures
            final(self).wf(),
            final(self)@ == (TableView { pending: Seq::empty(), ..old(self)@ }),
            contact_views(taken@) == old(self)@.pending,
    {
        let mut taken: Vec<Contact> = Vec::new();
        std::mem::swap(&mut self.pending, &mut taken);
        taken
    }

    /// What the table knows of `peer`.
    pub fn get(&self, peer: &PeerId) -> (r: Option<RoutingEntry>)
        requires
            self.wf(),
        ensures
            match r {
                Some(e) => lookup(self@, peer@) == Some(e@),
                None => lookup(self@, peer@) is None,
            },
    {
        let b = self.local.shared_prefix_len(peer);
        if b == ID_BITS {
            return None;
        }
        let ghost bucket = self@.buckets[b as int];
        match find_peer(&self.buckets[b], peer) {
            Some(j) => {
                Some(self.buckets[b][j].clone())
            },
            None => {
                None
            },
        }
    }

    /// Whether the table knows `peer`.
    pub fn contains(&self, peer: &PeerId) -> (known: bool)
        requires
            self.wf(),
        ensures
            known == (lookup(self@, peer@) is Some),
    {
        self.get(peer).is_some()
    }

    /// Number of entries in bucket `index`; zero where there is no such
    /// bucket.
    pub fn bucket_len(&self, index: usize) -> (n: usize)
        requires
            self.wf(),
        ensures
            n == (if index < 256 {
                self@.buckets[index as int].len()
            } else {
                0
            }),
            n <= self@.capacity,
    {
        if index < self.buckets.len() {
            assert(self@.buckets[index as int].len() == self.buckets@[index as int]@.len());
            self.buckets[index].len()
        } else {
            0
        }
    }

    /// Number of candidates that wait for another attempt.
    pub fn pending_len(&self) -> (n: usize)
        ensures
            n == self@.pending.len(),
    {
        self.pending.len()
    }

    /// The peers that were last verified more than `max_age` ago, bucket
    /// by bucket.
    pub fn stale_peers(&self, max_age: u64) -> (res: Vec<PeerId>)
        requires
            self.wf(),
        ensures
            peer_views(res@) == stale_peers_of(self@, max_age),
    {
        let ghost v = self@;
        let mut res: Vec<PeerId> = Vec::new();
        let mut i: usize = 0;
        while i < 256
            invariant
                i <= 256,
                self.wf(),
                v == self@,
                peer_views(res@) == stale_upto(v, i as int, max_age),
            decreases 256 - i,
        {
            let ghost before = peer_views(res@);
            let ghost bucket = v.buckets[i as int];
            let mut j: usize = 0;
            while j < self.buckets[i].len()
                invariant
                    i < 256,
                    j <= self.buckets@[i as int]@.len(),
                    self.wf(),
                    v == self@,
                    bucket == v.buckets[i as int],
                    bucket.len() == self.buckets@[i as int]@.len(),
                    peer_views(res@) == before + stale_in(bucket.take(j as int), v.now, max_age),
                decreases self.buckets@[i as int]@.len() - j,
            {
                assert(bucket.take(j + 1).drop_last() =~= bucket.take(j as int));
                let ghost sofar = peer_views(res@);
                let e = &self.buckets[i][j];
                if e.last_verified <= self.now && self.now - e.last_verified > max_age {
                    res.push(e.peer);
                    assert(peer_views(res@) =~= sofar.push(e.peer@));
                }
                j += 1;
            }
            assert(bucket.take(j as int) =~= bucket);
            i += 1;
        }
        res
    }

    /// The position of the entry closest to `target` among those that are
    /// farther from it than `floor`; among all entries where `floor` is
    /// `None`.
    fn next_closest(&self, target: &PeerId, floor: &Option<Distance>) -> (r: Option<
        (usize, usize),
    >)
        requires
            self.wf(),
        ensures
            match r {
                Some((i, j)) => {
                    &&& eligible(self@, target@, floor_view(*floor), i as int, j as int)
                    &&& forall|i2: int, j2: int|
                        eligible(self@, target@, floor_view(*floor), i2, j2) ==> distance(
                            self@.buckets[i as int][j as int].peer,
                            target@,
                        ) <= distance((#[trigger] self@.buckets[i2][j2]).peer, target@)
                },
                None => forall|i2: int, j2: int|
                    !#[trigger] eligible(self@, target@, floor_view(*floor), i2, j2),
            },
    {
        let ghost v = self@;
        let ghost fl = floor_view(*floor);
        let mut best: Option<(usize, usize)> = None;
        let mut best_d: Distance = Distance { bytes: [0u8; 32] };
        let mut i: usize = 0;
        while i < 256
            invariant
                i <= 256,
                self.wf(),
                v == self@,
                fl == floor_view(*floor),
                best matches Some((bi, bj)) ==> eligible(v, target@, fl, bi as int, bj as int)
                    && best_d@ == distance(v.buckets[bi as int][bj as int].peer, target@),
                forall|i2: int, j2: int|
                    0 <= i2 < i && eligible(v, target@, fl, i2, j2) ==> best is Some && best_d@
                        <= distance((#[trigger] v.buckets[i2][j2]).peer, target@),
            decreases 256 - i,
        {
            let mut j: usize = 0;
            while j < self.buckets[i].len()
                invariant
                    i < 256,
                    j <= self.buckets@[i as int]@.len(),
                    self.wf(),
                    v == self@,
                    fl == floor_view(*floor),
                    best matches Some((bi, bj)) ==> eligible(v, target@, fl, bi as int, bj as int)
                        && best_d@ == distance(v.buckets[bi as int][bj as int].peer, target@),
                    forall|i2: int, j2: int|
                        0 <= i2 < i && eligible(v, target@, fl, i2, j2) ==> best is Some && best_d@
                            <= distance((#[trigger] v.buckets[i2][j2]).peer, target@),
                    forall|j2: int|
                        0 <= j2 < j && eligible(v, target@, fl, i as int, j2) ==> best is Some
                            && best_d@ <= distance(
                            (#[trigger] v.buckets[i as int][j2]).peer,
                            target@,
                        ),
                decreases self.buckets@[i as int]@.len() - j,
            {
                let d = self.buckets[i][j].peer.distance(target);
                let above = match floor {
                    Some(f) => f.less_than(&d),
                    None => true,
                };
                if above {
                    let better = match best {
                        Some(_) => d.less_than(&best_d),
                        None => true,
                    };
                    if better {
                        best = Some((i, j));
                        best_d = d;
                    }
                }
                j += 1;
            }
            i += 1;
        }
        proof {
            if best is None {
                assert forall|i2: int, j2: int| !#[trigger] eligible(v, target@, fl, i2, j2) by {
                    if eligible(v, target@, fl, i2, j2) {
                        assert(v.buckets[i2][j2].peer.len() == 32);
                    }
                }
            }
        }
        best
    }

    /// Up to `limit` entries in ascending XOR distance from `target`: the
    /// closest that the table knows. No two peers are at the same distance
    /// from one target, so the order is strict and the result is determined
    /// by the table's contents.
    pub fn closest_peers(&self, target: &PeerId, limit: usize) -> (res: Vec<RoutingEntry>)
        requires
            self.wf(),
        ensures
            res.len() <= limit,
            forall|k: int, l: int|
                0 <= k < l < res.len() ==> distance((#[trigger] res@[k])@.peer, target@) < distance(
                    (#[trigger] res@[l])@.peer,
                    target@,
                ),
            is_closest(self@, target@, limit as nat, entry_views(res@)),
            entry_views(res@) == closest_entries(self@, target@, limit as nat),
    {
        let ghost v = self@;
        let mut res: Vec<RoutingEntry> = Vec::new();
        let mut floor: Option<Distance> = None;
        let mut done = false;
        while !done && res.len() < limit
            invariant
                self.wf(),
                v == self@,
                res.len() <= limit,
                floor is None <==> res.len() == 0,
                floor matches Some(d) ==> d@ == distance(
                    entry_views(res@).last().peer,
                    target@,
                ),
                forall|k: int| 0 <= k < res.len() ==> in_table(v, #[trigger] entry_views(res@)[k]),
                forall|k: int, l: int|
                    0 <= k < l < res.len() ==> distance(
                        (#[trigger] entry_views(res@)[k]).peer,
                        target@,
                    ) < distance((#[trigger] entry_views(res@)[l]).peer, target@),
                forall|i: int, j: int|
                    0 <= i < 256 && 0 <= j < v.buckets[i].len() && !eligible(
                        v,
                        target@,
                        floor_view(floor),
                        i,
                        j,
                    ) ==> entry_views(res@).contains(#[trigger] v.buckets[i][j]),
                done ==> forall|i: int, j: int|
                    !#[trigger] eligible(v, target@, floor_view(floor), i, j),
            decreases (if done { 0int } else { 1int }), limit - res.len(),
        {
            match self.next_closest(target, &floor) {
                None => {
                    done = true;
                },
                Some((bi, bj)) => {
                    let ghost old_views = entry_views(res@);
                    let ghost old_floor = floor_view(floor);
                    let copy = self.buckets[bi][bj].clone();
                    let d = copy.peer.distance(target);
                    let ghost m = v.buckets[bi as int][bj as int];
                    res.push(copy);
                    floor = Some(d);
                    assert(entry_views(res@) =~= old_views.push(m));
                    assert forall|i: int, j: int|
                        0 <= i < 256 && 0 <= j < v.buckets[i].len() && !eligible(
                            v,
                            target@,
                            floor_view(floor),
                            i,
                            j,
                        ) implies entry_views(res@).contains(#[trigger] v.buckets[i][j]) by {
                        let e = v.buckets[i][j];
                        if eligible(v, target@, old_floor, i, j) {
                            theorem_distance_injective(e.peer, m.peer, target@);
                            assert(entry_views(res@)[res.len() - 1] == m);
                        } else {
                            let k = choose|k: int| 0 <= k < old_views.len() && old_views[k] == e;
                            assert(entry_views(res@)[k] == e);
                        }
                    }
                },
            }
        }
        proof {
            let out = entry_views(res@);
            theorem_closest_unique(v, target@, limit as nat, out, out);
            assert forall|k: int, l: int| 0 <= k < l < res.len() implies distance(
                (#[trigger] res@[k])@.peer,
                target@,
            ) < distance((#[trigger] res@[l])@.peer, target@) by {
                assert(distance(out[k].peer, target@) < distance(out[l].peer, target@));
            }
        }
        res
    }
}

/// The distance that a search has reached, as a number.
pub open spec fn floor_view(floor: Option<Distance>) -> Option<nat> {
    match floor {
        Some(d) => Some(d@),
        None => None,
    }
}

/// Whether position `(i, j)` holds an entry that is farther from `target`
/// than `floor`.
pub open spec fn eligible(
    v: TableView,
    target: Seq<u8>,
    floor: Option<nat>,
    i: int,
    j: int,
) -> bool {
    &&& 0 <= i < v.buckets.len()
    &&& 0 <= j < v.buckets[i].len()
    &&& (floor matches Some(f) ==> f < distance(v.buckets[i][j].peer, target))
}

} // verus!
