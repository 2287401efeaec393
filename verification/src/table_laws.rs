//! What holds of every routing table, proved over the table's view.

use crate::peer::{distance, theorem_distance_self, shared_bits_from};
use crate::routing::{
    add_outcome, after_add, after_remove, bucket_index, empty_table, entry_wf, find, in_table,
    is_closest, lookup, merged, oldest_index, queued, table_wf, EntryView, TableView,
};
use vstd::prelude::*;

verus! {

/// Byte strings of one length share all their bits from a byte on exactly
/// when they agree from that byte on, and never more bits than they have.
pub proof fn lemma_shared_bits_bound(a: Seq<u8>, b: Seq<u8>, from: int)
    requires
        a.len() == b.len(),
        0 <= from <= a.len(),
    ensures
        shared_bits_from(a, b, from) <= 8 * (a.len() - from),
        shared_bits_from(a, b, from) == 8 * (a.len() - from) <==> (forall|k: int|
            from <= k < a.len() ==> a[k] == b[k]),
    decreases a.len() - from,
{
    if from < a.len() {
        if a[from] == b[from] {
            lemma_shared_bits_bound(a, b, from + 1);
            if shared_bits_from(a, b, from) == 8 * (a.len() - from) {
                assert forall|k: int| from <= k < a.len() implies a[k] == b[k] by {
                    if k > from {
                        assert(from + 1 <= k);
                    }
                }
            }
        } else {
            let x = a[from];
            let y = b[from];
            assert(x ^ y != 0) by (bit_vector)
                requires
                    x != y,
            ;
        }
    }
}

/// Two identifiers belong to bucket 256, which no table has, exactly when
/// they are the same identifier.
pub proof fn lemma_bucket_index_range(local: Seq<u8>, peer: Seq<u8>)
    requires
        local.len() == 32,
        peer.len() == 32,
    ensures
        0 <= bucket_index(local, peer) <= 256,
        bucket_index(local, peer) == 256 <==> peer == local,
{
    lemma_shared_bits_bound(local, peer, 0);
    if bucket_index(local, peer) == 256 {
        assert(local =~= peer);
    }
}

/// In a table that meets its invariant a peer stands at one position at
/// most, so `find` names the position at which it is seen.
pub proof fn lemma_find_unique(v: TableView, i: int, j: int)
    requires
        table_wf(v),
        0 <= i < 256,
        0 <= j < v.buckets[i].len(),
    ensures
        find(v.buckets[i], v.buckets[i][j].peer) == Some(j),
        lookup(v, v.buckets[i][j].peer) == Some(v.buckets[i][j]),
{
    let bucket = v.buckets[i];
    let peer = bucket[j].peer;
    assert(entry_wf(v.local, i, bucket[j]));
    let c = choose|c: int| 0 <= c < bucket.len() && (#[trigger] bucket[c]).peer == peer;
    if c < j {
        assert(v.buckets[i][c].peer != v.buckets[i][j].peer);
    } else if c > j {
        assert(v.buckets[i][j].peer != v.buckets[i][c].peer);
    }
}

/// `add_address` keeps the invariant of the table.
pub proof fn lemma_add_preserves_wf(v: TableView, peer: Seq<u8>, addr: Seq<u8>)
    requires
        table_wf(v),
        peer.len() == 32,
    ensures
        table_wf(after_add(v, peer, addr)),
{
    lemma_bucket_index_range(v.local, peer);
    let b = bucket_index(v.local, peer);
    let w = after_add(v, peer, addr);
    if peer != v.local {
        match find(v.buckets[b], peer) {
            Some(j) => {
                let e = v.buckets[b][j];
                assert(entry_wf(v.local, b, e));
                assert(merged(e.addresses, addr).no_duplicates());
                assert forall|i: int, k: int|
                    0 <= i < 256 && 0 <= k < w.buckets[i].len() implies entry_wf(
                    w.local,
                    i,
                    #[trigger] w.buckets[i][k],
                ) by {
                    if i == b && k == j {
                    } else {
                        assert(entry_wf(v.local, i, v.buckets[i][k]));
                    }
                }
                assert forall|i: int, k: int, l: int|
                    0 <= i < 256 && 0 <= k < l < w.buckets[i].len() implies (
                #[trigger] w.buckets[i][k]).peer != (#[trigger] w.buckets[i][l]).peer by {
                    assert(v.buckets[i][k].peer != v.buckets[i][l].peer);
                }
                assert forall|i: int| 0 <= i < 256 implies (#[trigger] w.buckets[i]).len()
                    <= w.capacity by {
                    assert(v.buckets[i].len() <= v.capacity);
                }
            },
            None => {
                if v.buckets[b].len() < v.capacity {
                    let fresh = EntryView { peer, addresses: seq![addr], last_verified: v.now };
                    assert(seq![addr].no_duplicates());
                    assert forall|i: int, k: int|
                        0 <= i < 256 && 0 <= k < w.buckets[i].len() implies entry_wf(
                        w.local,
                        i,
                        #[trigger] w.buckets[i][k],
                    ) by {
                        if i == b && k == v.buckets[b].len() {
                        } else {
                            assert(entry_wf(v.local, i, v.buckets[i][k]));
                        }
                    }
                    assert forall|i: int, k: int, l: int|
                        0 <= i < 256 && 0 <= k < l < w.buckets[i].len() implies (
                    #[trigger] w.buckets[i][k]).peer != (#[trigger] w.buckets[i][l]).peer by {
                        if i == b && l == v.buckets[b].len() {
                            assert(v.buckets[b][k].peer != peer);
                        } else {
                            assert(v.buckets[i][k].peer != v.buckets[i][l].peer);
                        }
                    }
                    assert forall|i: int| 0 <= i < 256 implies (#[trigger] w.buckets[i]).len()
                        <= w.capacity by {
                        assert(v.buckets[i].len() <= v.capacity);
                    }
                } else {
                    let q = queued(v.pending, peer, addr);
                    assert forall|k: int| 0 <= k < q.len() implies (#[trigger] q[k]).0.len()
                        == 32 by {
                        if k < v.pending.len() {
                            assert(v.pending[k].0.len() == 32);
                        }
                    }
                    assert(q.no_duplicates());
                }
            },
        }
    }
}

/// The table after a sequence of `add_address` calls, the first call
/// first.
pub open spec fn after_adds(v: TableView, calls: Seq<(Seq<u8>, Seq<u8>)>) -> TableView
    decreases calls.len(),
{
    if calls.len() == 0 {
        v
    } else {
        after_add(after_adds(v, calls.drop_last()), calls.last().0, calls.last().1)
    }
}

/// A sequence of `add_address` calls keeps the invariant of the table.
pub proof fn lemma_adds_preserve_wf(v: TableView, calls: Seq<(Seq<u8>, Seq<u8>)>)
    requires
        table_wf(v),
        forall|k: int| 0 <= k < calls.len() ==> (#[trigger] calls[k]).0.len() == 32,
    ensures
        table_wf(after_adds(v, calls)),
    decreases calls.len(),
{
    if calls.len() > 0 {
        let init = calls.drop_last();
        assert forall|k: int| 0 <= k < init.len() implies (#[trigger] init[k]).0.len() == 32 by {
            assert(calls[k].0.len() == 32);
        }
        lemma_adds_preserve_wf(v, init);
        lemma_add_preserves_wf(after_adds(v, init), calls.last().0, calls.last().1);
    }
}

/// The empty table meets the invariant.
pub proof fn lemma_empty_table_wf(local: Seq<u8>, capacity: nat, now: u64)
    requires
        local.len() == 32,
    ensures
        table_wf(empty_table(local, capacity, now)),
{
}

/// No bucket ever exceeds the capacity: whatever `add_address` calls a
/// table has seen since it was empty, each of its buckets holds at most
/// `capacity` entries.
pub proof fn theorem_buckets_never_exceed_capacity(
    local: Seq<u8>,
    capacity: nat,
    now: u64,
    calls: Seq<(Seq<u8>, Seq<u8>)>,
)
    requires
        local.len() == 32,
        forall|k: int| 0 <= k < calls.len() ==> (#[trigger] calls[k]).0.len() == 32,
    ensures
        forall|i: int|
            0 <= i < 256 ==> (#[trigger] after_adds(
                empty_table(local, capacity, now),
                calls,
            ).buckets[i]).len() <= capacity,
{
    lemma_empty_table_wf(local, capacity, now);
    lemma_adds_preserve_wf(empty_table(local, capacity, now), calls);
    let w = after_adds(empty_table(local, capacity, now), calls);
    lemma_adds_keep_frame(empty_table(local, capacity, now), calls);
    assert forall|i: int| 0 <= i < 256 implies (#[trigger] w.buckets[i]).len() <= capacity by {
        assert(w.buckets[i].len() <= w.capacity);
    }
}

/// `add_address` changes neither the local identifier, nor the capacity,
/// nor the time.
pub proof fn lemma_adds_keep_frame(v: TableView, calls: Seq<(Seq<u8>, Seq<u8>)>)
    ensures
        after_adds(v, calls).local == v.local,
        after_adds(v, calls).capacity == v.capacity,
        after_adds(v, calls).now == v.now,
    decreases calls.len(),
{
    if calls.len() > 0 {
        lemma_adds_keep_frame(v, calls.drop_last());
    }
}

/// `add_address` is idempotent: a second call with the same arguments
/// leaves the table as the first call left it. Where the first call
/// inserted or updated the peer, the second reports an update; where the
/// first found the bucket full or rejected the peer, the second reports the
/// same.
pub proof fn theorem_add_address_idempotent(v: TableView, peer: Seq<u8>, addr: Seq<u8>)
    requires
        table_wf(v),
        peer.len() == 32,
    ensures
        after_add(after_add(v, peer, addr), peer, addr) == after_add(v, peer, addr),
        add_outcome(v, peer, addr) is Inserted || add_outcome(v, peer, addr) is Updated
            ==> add_outcome(after_add(v, peer, addr), peer, addr) is Updated,
        add_outcome(v, peer, addr) is Full || add_outcome(v, peer, addr) is Rejected
            ==> add_outcome(after_add(v, peer, addr), peer, addr) == add_outcome(v, peer, addr),
{
    lemma_bucket_index_range(v.local, peer);
    lemma_add_preserves_wf(v, peer, addr);
    let b = bucket_index(v.local, peer);
    let w = after_add(v, peer, addr);
    let x = after_add(w, peer, addr);
    if peer != v.local {
        match find(v.buckets[b], peer) {
            Some(j) => {
                assert(w.buckets[b][j].peer == peer);
                lemma_find_unique(w, b, j);
                let a = v.buckets[b][j].addresses;
                assert(merged(a, addr).contains(addr)) by {
                    if !a.contains(addr) {
                        assert(a.push(addr)[a.len() as int] == addr);
                    }
                }
                assert(x.buckets[b] =~= w.buckets[b]);
                assert(x.buckets =~= w.buckets);
            },
            None => {
                if v.buckets[b].len() < v.capacity {
                    let j = v.buckets[b].len() as int;
                    assert(w.buckets[b][j].peer == peer);
                    lemma_find_unique(w, b, j);
                    assert(merged(seq![addr], addr) =~= seq![addr]) by {
                        assert(seq![addr][0] == addr);
                    }
                    assert(x.buckets[b] =~= w.buckets[b]);
                    assert(x.buckets =~= w.buckets);
                } else {
                    assert(w.buckets == v.buckets);
                    let q = queued(v.pending, peer, addr);
                    assert(q.contains((peer, addr))) by {
                        if !v.pending.contains((peer, addr)) {
                            assert(q[q.len() - 1] == (peer, addr));
                        }
                    }
                    assert(queued(q, peer, addr) == q);
                }
            },
        }
    }
}

/// A peer that was inserted into an empty table is the one that
/// `closest_peers` of its own identifier returns.
pub proof fn theorem_single_peer_is_closest(
    local: Seq<u8>,
    capacity: nat,
    now: u64,
    peer: Seq<u8>,
    addr: Seq<u8>,
    res: Seq<EntryView>,
)
    requires
        local.len() == 32,
        peer.len() == 32,
        add_outcome(empty_table(local, capacity, now), peer, addr) is Inserted,
        is_closest(after_add(empty_table(local, capacity, now), peer, addr), peer, 1, res),
    ensures
        res == seq![EntryView { peer, addresses: seq![addr], last_verified: now }],
{
    let v = empty_table(local, capacity, now);
    let w = after_add(v, peer, addr);
    let e = EntryView { peer, addresses: seq![addr], last_verified: now };
    lemma_bucket_index_range(local, peer);
    let b = bucket_index(local, peer);
    assert(v.buckets[b].len() == 0);
    assert(find(v.buckets[b], peer) is None);
    assert(w.buckets[b] =~= seq![e]);
    assert(w.buckets[b][0] == e);
    assert forall|k: int| 0 <= k < res.len() implies res[k] == e by {
        assert(in_table(w, res[k]));
        let (i, j) = choose|i: int, j: int|
            0 <= i < w.buckets.len() && 0 <= j < w.buckets[i].len() && #[trigger] w.buckets[i][j]
                == res[k];
        if i != b {
            assert(w.buckets[i] == v.buckets[i]);
        }
    }
    assert(res.contains(w.buckets[b][0]) || (res.len() == 1 && distance(res.last().peer, peer)
        < distance(w.buckets[b][0].peer, peer)));
    if !res.contains(e) {
        theorem_distance_self(peer);
    }
    assert(res.len() == 1) by {
        let k = choose|k: int| 0 <= k < res.len() && res[k] == e;
    }
    assert(res =~= seq![e]);
}

/// The result of `closest_peers` is in non-decreasing distance from the
/// target, and no peer occurs in it twice.
pub proof fn theorem_closest_sorted(v: TableView, target: Seq<u8>, limit: nat, res: Seq<EntryView>)
    requires
        is_closest(v, target, limit, res),
    ensures
        forall|k: int, l: int|
            0 <= k <= l < res.len() ==> distance((#[trigger] res[k]).peer, target) <= distance(
                (#[trigger] res[l]).peer,
                target,
            ),
        forall|k: int, l: int|
            0 <= k < l < res.len() ==> (#[trigger] res[k]).peer != (#[trigger] res[l]).peer,
{
    assert forall|k: int, l: int| 0 <= k <= l < res.len() implies distance(
        (#[trigger] res[k]).peer,
        target,
    ) <= distance((#[trigger] res[l]).peer, target) by {
        if k < l {
            assert(distance(res[k].peer, target) < distance(res[l].peer, target));
        }
    }
    assert forall|k: int, l: int| 0 <= k < l < res.len() implies (#[trigger] res[k]).peer != (
    #[trigger] res[l]).peer by {
        assert(distance(res[k].peer, target) < distance(res[l].peer, target));
    }
}

/// No peer stands in a table twice: two positions that hold the same peer
/// are the same position.
pub proof fn theorem_peer_stands_once(v: TableView, i1: int, j1: int, i2: int, j2: int)
    requires
        table_wf(v),
        0 <= i1 < 256,
        0 <= j1 < v.buckets[i1].len(),
        0 <= i2 < 256,
        0 <= j2 < v.buckets[i2].len(),
        v.buckets[i1][j1].peer == v.buckets[i2][j2].peer,
    ensures
        i1 == i2,
        j1 == j2,
{
    assert(entry_wf(v.local, i1, v.buckets[i1][j1]));
    assert(entry_wf(v.local, i2, v.buckets[i2][j2]));
    if j1 < j2 {
        assert(v.buckets[i1][j1].peer != v.buckets[i1][j2].peer);
    } else if j2 < j1 {
        assert(v.buckets[i1][j2].peer != v.buckets[i1][j1].peer);
    }
}

/// `remove_peer` keeps the invariant of the table, and the peer that was
/// removed is unknown afterwards.
pub proof fn theorem_removed_peer_is_unknown(v: TableView, peer: Seq<u8>)
    requires
        table_wf(v),
        peer.len() == 32,
    ensures
        table_wf(after_remove(v, peer)),
        lookup(after_remove(v, peer), peer) is None,
{
    lemma_bucket_index_range(v.local, peer);
    let b = bucket_index(v.local, peer);
    let w = after_remove(v, peer);
    if peer != v.local {
        match find(v.buckets[b], peer) {
            Some(j) => {
                assert forall|i: int, k: int|
                    0 <= i < 256 && 0 <= k < w.buckets[i].len() implies entry_wf(
                    w.local,
                    i,
                    #[trigger] w.buckets[i][k],
                ) by {
                    if i == b && k >= j {
                        assert(entry_wf(v.local, i, v.buckets[i][k + 1]));
                    } else {
                        assert(entry_wf(v.local, i, v.buckets[i][k]));
                    }
                }
                assert forall|i: int, k: int, l: int|
                    0 <= i < 256 && 0 <= k < l < w.buckets[i].len() implies (
                #[trigger] w.buckets[i][k]).peer != (#[trigger] w.buckets[i][l]).peer by {
                    let k0 = if i == b && k >= j {
                        k + 1
                    } else {
                        k
                    };
                    let l0 = if i == b && l >= j {
                        l + 1
                    } else {
                        l
                    };
                    assert(v.buckets[i][k0].peer != v.buckets[i][l0].peer);
                }
                assert forall|i: int| 0 <= i < 256 implies (#[trigger] w.buckets[i]).len()
                    <= w.capacity by {
                    assert(v.buckets[i].len() <= v.capacity);
                }
                assert forall|k: int| 0 <= k < w.buckets[b].len() implies (
                #[trigger] w.buckets[b][k]).peer != peer by {
                    if k < j {
                        assert(v.buckets[b][k].peer != v.buckets[b][j].peer);
                    } else {
                        assert(v.buckets[b][j].peer != v.buckets[b][k + 1].peer);
                    }
                }
            },
            None => {},
        }
    }
}

/// The peer that a full bucket names is its least recently verified one:
/// no entry of the bucket was verified earlier, and of those verified at
/// the same time it is the first.
pub proof fn theorem_oldest_is_least_recently_verified(bucket: Seq<EntryView>)
    requires
        bucket.len() > 0,
    ensures
        0 <= oldest_index(bucket) < bucket.len(),
        forall|j: int|
            0 <= j < bucket.len() ==> bucket[oldest_index(bucket)].last_verified <= (
            #[trigger] bucket[j]).last_verified,
        forall|j: int|
            0 <= j < oldest_index(bucket) ==> bucket[oldest_index(bucket)].last_verified < (
            #[trigger] bucket[j]).last_verified,
    decreases bucket.len(),
{
    if bucket.len() > 1 {
        let init = bucket.drop_last();
        theorem_oldest_is_least_recently_verified(init);
        let k = oldest_index(init);
        assert(init[k] == bucket[k]);
        assert forall|j: int| 0 <= j < bucket.len() implies bucket[oldest_index(
            bucket,
        )].last_verified <= (#[trigger] bucket[j]).last_verified by {
            if j < init.len() {
                assert(init[j] == bucket[j]);
            }
        }
        assert forall|j: int| 0 <= j < oldest_index(bucket) implies bucket[oldest_index(
            bucket,
        )].last_verified < (#[trigger] bucket[j]).last_verified by {
            assert(init[j] == bucket[j]);
        }
    }
}

} // verus!
