use sonic_node::addr::{Contact, Multiaddr};
use sonic_node::peer::PeerId;
use sonic_node::routing::{RoutingTable, RoutingUpdate, DEFAULT_BUCKET_CAPACITY};

fn id(first: u8, last: u8) -> PeerId {
    let mut bytes = [0u8; 32];
    bytes[0] = first;
    bytes[31] = last;
    PeerId::new(bytes)
}

fn addr(n: u8) -> Multiaddr {
    Multiaddr::from_bytes(vec![4, 10, 0, 0, n, 6, 0x23, 0x28])
}

fn peers_of(entries: &Vec<sonic_node::routing::RoutingEntry>) -> Vec<PeerId> {
    entries.iter().map(|e| e.peer()).collect()
}

#[test]
fn new_table_is_empty() {
    let table = RoutingTable::new(id(0, 0), DEFAULT_BUCKET_CAPACITY);
    assert_eq!(DEFAULT_BUCKET_CAPACITY, 20);
    assert_eq!(table.local_id(), id(0, 0));
    assert_eq!(table.capacity(), 20);
    assert_eq!(table.now(), 0);
    assert_eq!(table.pending_len(), 0);
    for i in 0..256 {
        assert_eq!(table.bucket_len(i), 0);
    }
    assert_eq!(table.bucket_len(256), 0);
    assert!(table.closest_peers(&id(1, 1), 10).is_empty());
    assert!(!table.contains(&id(1, 1)));
    assert!(table.get(&id(1, 1)).is_none());
}

#[test]
fn add_address_inserts_a_new_peer() {
    let mut table = RoutingTable::new(id(0, 0), 20);
    table.set_time(42);
    assert_eq!(table.add_address(&id(0x80, 1), addr(1)), RoutingUpdate::Inserted);
    let entry = table.get(&id(0x80, 1)).unwrap();
    assert_eq!(entry.peer(), id(0x80, 1));
    assert_eq!(entry.addresses(), vec![addr(1)]);
    assert_eq!(entry.last_verified(), 42);
    assert!(entry.has_address(&addr(1)));
    assert!(!entry.has_address(&addr(2)));
    assert!(table.contains(&id(0x80, 1)));
}

#[test]
fn add_address_places_a_peer_by_its_shared_prefix() {
    let mut table = RoutingTable::new(id(0, 0), 20);
    table.add_address(&id(0x80, 0), addr(1));
    table.add_address(&id(0x40, 0), addr(2));
    table.add_address(&id(0x01, 0), addr(3));
    table.add_address(&id(0, 1), addr(4));
    table.add_address(&id(0, 0x80), addr(5));
    assert_eq!(table.bucket_len(0), 1);
    assert_eq!(table.bucket_len(1), 1);
    assert_eq!(table.bucket_len(7), 1);
    assert_eq!(table.bucket_len(255), 1);
    assert_eq!(table.bucket_len(248), 1);
    assert_eq!(table.bucket_len(2), 0);
}

#[test]
fn add_address_twice_is_add_address_once() {
    let mut once = RoutingTable::new(id(0, 0), 20);
    let mut twice = RoutingTable::new(id(0, 0), 20);
    once.set_time(7);
    twice.set_time(7);
    assert_eq!(once.add_address(&id(0x80, 1), addr(1)), RoutingUpdate::Inserted);
    assert_eq!(twice.add_address(&id(0x80, 1), addr(1)), RoutingUpdate::Inserted);
    assert_eq!(twice.add_address(&id(0x80, 1), addr(1)), RoutingUpdate::Updated);
    let a = once.get(&id(0x80, 1)).unwrap();
    let b = twice.get(&id(0x80, 1)).unwrap();
    assert_eq!(a.addresses(), b.addresses());
    assert_eq!(a.last_verified(), b.last_verified());
    assert_eq!(once.bucket_len(0), twice.bucket_len(0));
    assert_eq!(once.pending_len(), twice.pending_len());
    assert_eq!(
        peers_of(&once.closest_peers(&id(0, 0), 10)),
        peers_of(&twice.closest_peers(&id(0, 0), 10))
    );
}

#[test]
fn add_address_unions_the_addresses_of_a_known_peer() {
    let mut table = RoutingTable::new(id(0, 0), 20);
    table.set_time(1);
    assert_eq!(table.add_address(&id(0x80, 1), addr(1)), RoutingUpdate::Inserted);
    table.set_time(2);
    assert_eq!(table.add_address(&id(0x80, 1), addr(2)), RoutingUpdate::Updated);
    table.set_time(3);
    assert_eq!(table.add_address(&id(0x80, 1), addr(1)), RoutingUpdate::Updated);
    let entry = table.get(&id(0x80, 1)).unwrap();
    assert_eq!(entry.addresses(), vec![addr(1), addr(2)]);
    assert_eq!(entry.last_verified(), 3);
    assert_eq!(table.bucket_len(0), 1);
}

#[test]
fn add_address_rejects_the_local_peer() {
    let mut table = RoutingTable::new(id(3, 3), 20);
    assert_eq!(table.add_address(&id(3, 3), addr(1)), RoutingUpdate::Rejected);
    assert!(!table.contains(&id(3, 3)));
    assert_eq!(table.pending_len(), 0);
    assert!(table.closest_peers(&id(3, 3), 5).is_empty());
}

#[test]
fn full_bucket_names_the_least_recently_verified_peer() {
    let mut table = RoutingTable::new(id(0, 0), 2);
    table.set_time(20);
    assert_eq!(table.add_address(&id(0x80, 1), addr(1)), RoutingUpdate::Inserted);
    table.set_time(10);
    assert_eq!(table.add_address(&id(0x80, 2), addr(2)), RoutingUpdate::Inserted);
    table.set_time(30);
    assert_eq!(
        table.add_address(&id(0x80, 3), addr(3)),
        RoutingUpdate::Full(Some(id(0x80, 2)))
    );
    assert!(!table.contains(&id(0x80, 3)));
    assert_eq!(table.bucket_len(0), 2);
    assert_eq!(table.pending_len(), 1);
    assert_eq!(
        table.add_address(&id(0x80, 3), addr(3)),
        RoutingUpdate::Full(Some(id(0x80, 2)))
    );
    assert_eq!(table.pending_len(), 1);
    assert_eq!(
        table.add_address(&id(0x80, 3), addr(4)),
        RoutingUpdate::Full(Some(id(0x80, 2)))
    );
    assert_eq!(table.pending_len(), 2);
    assert!(table.mark_verified(&id(0x80, 2)));
    assert_eq!(
        table.add_address(&id(0x80, 5), addr(5)),
        RoutingUpdate::Full(Some(id(0x80, 1)))
    );
}

#[test]
fn of_equally_old_peers_the_first_is_named() {
    let mut table = RoutingTable::new(id(0, 0), 2);
    table.add_address(&id(0x80, 1), addr(1));
    table.add_address(&id(0x80, 2), addr(2));
    assert_eq!(
        table.add_address(&id(0x80, 3), addr(3)),
        RoutingUpdate::Full(Some(id(0x80, 1)))
    );
}

#[test]
fn table_without_room_names_no_peer() {
    let mut table = RoutingTable::new(id(0, 0), 0);
    assert_eq!(table.add_address(&id(0x80, 1), addr(1)), RoutingUpdate::Full(None));
    assert_eq!(table.pending_len(), 1);
    assert_eq!(table.bucket_len(0), 0);
}

#[test]
fn no_bucket_exceeds_its_capacity() {
    let mut table = RoutingTable::new(id(0, 0), 3);
    for n in 0..=255u8 {
        table.add_address(&id(0x80 | (n >> 1), n), addr(n));
        table.add_address(&id(n, n), addr(n));
    }
    for i in 0..256 {
        assert!(table.bucket_len(i) <= 3);
    }
    assert_eq!(table.bucket_len(0), 3);
}

#[test]
fn full_bucket_leaves_other_buckets_open() {
    let mut table = RoutingTable::new(id(0, 0), 1);
    assert_eq!(table.add_address(&id(0x80, 1), addr(1)), RoutingUpdate::Inserted);
    assert_eq!(
        table.add_address(&id(0x81, 1), addr(2)),
        RoutingUpdate::Full(Some(id(0x80, 1)))
    );
    assert_eq!(table.add_address(&id(0x40, 1), addr(3)), RoutingUpdate::Inserted);
    assert_eq!(table.add_address(&id(0x80, 1), addr(4)), RoutingUpdate::Updated);
}

#[test]
fn closest_peers_of_a_single_peer() {
    let mut table = RoutingTable::new(id(0, 0), 20);
    table.add_address(&id(0x33, 0x44), addr(1));
    let closest = table.closest_peers(&id(0x33, 0x44), 1);
    assert_eq!(peers_of(&closest), vec![id(0x33, 0x44)]);
    assert_eq!(closest[0].addresses(), vec![addr(1)]);
}

#[test]
fn closest_peers_come_in_ascending_distance() {
    let mut table = RoutingTable::new(id(0, 0), 20);
    table.add_address(&id(0, 0x01), addr(1));
    table.add_address(&id(0, 0x02), addr(2));
    table.add_address(&id(0, 0x04), addr(3));
    table.add_address(&id(0x80, 0x03), addr(4));
    let target = id(0, 0x03);
    let all = table.closest_peers(&target, 10);
    assert_eq!(
        peers_of(&all),
        vec![id(0, 0x02), id(0, 0x01), id(0, 0x04), id(0x80, 0x03)]
    );
    for pair in all.windows(2) {
        let nearer = pair[0].peer().distance(&target);
        let farther = pair[1].peer().distance(&target);
        assert!(nearer.less_than(&farther));
    }
}

#[test]
fn closest_peers_keeps_to_the_limit() {
    let mut table = RoutingTable::new(id(0, 0), 20);
    table.add_address(&id(0, 0x01), addr(1));
    table.add_address(&id(0, 0x02), addr(2));
    table.add_address(&id(0, 0x04), addr(3));
    let target = id(0, 0x03);
    assert_eq!(peers_of(&table.closest_peers(&target, 2)), vec![id(0, 0x02), id(0, 0x01)]);
    assert_eq!(peers_of(&table.closest_peers(&target, 1)), vec![id(0, 0x02)]);
    assert!(table.closest_peers(&target, 0).is_empty());
    assert_eq!(table.closest_peers(&target, usize::MAX).len(), 3);
}

#[test]
fn closest_peers_reaches_across_buckets() {
    let mut table = RoutingTable::new(id(0, 0), 20);
    table.add_address(&id(0x80, 0), addr(1));
    table.add_address(&id(0x40, 0), addr(2));
    table.add_address(&id(0x20, 0), addr(3));
    assert_eq!(
        peers_of(&table.closest_peers(&id(0x80, 1), 3)),
        vec![id(0x80, 0), id(0x20, 0), id(0x40, 0)]
    );
    assert_eq!(
        peers_of(&table.closest_peers(&id(0, 0), 3)),
        vec![id(0x20, 0), id(0x40, 0), id(0x80, 0)]
    );
}

#[test]
fn remove_peer_forgets_the_peer() {
    let mut table = RoutingTable::new(id(0, 0), 20);
    table.add_address(&id(0x80, 1), addr(1));
    table.add_address(&id(0x80, 2), addr(2));
    table.add_address(&id(0x80, 3), addr(3));
    assert!(table.remove_peer(&id(0x80, 2)));
    assert!(!table.contains(&id(0x80, 2)));
    assert!(table.contains(&id(0x80, 1)));
    assert!(table.contains(&id(0x80, 3)));
    assert_eq!(table.bucket_len(0), 2);
    assert!(!table.remove_peer(&id(0x80, 2)));
    assert!(!table.remove_peer(&id(0, 0)));
    assert_eq!(table.bucket_len(0), 2);
}

#[test]
fn removal_makes_room() {
    let mut table = RoutingTable::new(id(0, 0), 1);
    table.add_address(&id(0x80, 1), addr(1));
    assert_eq!(
        table.add_address(&id(0x80, 2), addr(2)),
        RoutingUpdate::Full(Some(id(0x80, 1)))
    );
    assert!(table.remove_peer(&id(0x80, 1)));
    let waiting = table.take_pending();
    assert_eq!(waiting, vec![Contact { peer: id(0x80, 2), addr: addr(2) }]);
    assert_eq!(table.pending_len(), 0);
    assert_eq!(
        table.add_address(&waiting[0].peer, waiting[0].addr.clone()),
        RoutingUpdate::Inserted
    );
}

#[test]
fn mark_verified_refreshes_the_time() {
    let mut table = RoutingTable::new(id(0, 0), 20);
    table.set_time(5);
    table.add_address(&id(0x80, 1), addr(1));
    table.set_time(9);
    assert!(table.mark_verified(&id(0x80, 1)));
    assert!(!table.mark_verified(&id(0x80, 2)));
    assert!(!table.mark_verified(&id(0, 0)));
    let entry = table.get(&id(0x80, 1)).unwrap();
    assert_eq!(entry.last_verified(), 9);
    assert_eq!(entry.addresses(), vec![addr(1)]);
}

#[test]
fn stale_peers_are_those_verified_long_ago() {
    let mut table = RoutingTable::new(id(0, 0), 20);
    table.set_time(100);
    table.add_address(&id(0x40, 1), addr(1));
    table.set_time(150);
    table.add_address(&id(0x80, 2), addr(2));
    table.set_time(160);
    table.add_address(&id(0x80, 3), addr(3));
    table.set_time(200);
    assert_eq!(table.stale_peers(45), vec![id(0x80, 2), id(0x40, 1)]);
    assert_eq!(table.stale_peers(50), vec![id(0x40, 1)]);
    assert_eq!(table.stale_peers(39), vec![id(0x80, 2), id(0x80, 3), id(0x40, 1)]);
    assert!(table.stale_peers(100).is_empty());
    table.set_time(0);
    assert!(table.stale_peers(0).is_empty());
}

#[test]
fn entries_can_be_copied() {
    let mut table = RoutingTable::new(id(0, 0), 20);
    table.set_time(3);
    table.add_address(&id(0x80, 1), addr(1));
    let entry = table.get(&id(0x80, 1)).unwrap();
    let copy = entry.clone();
    assert_eq!(copy.peer(), entry.peer());
    assert_eq!(copy.addresses(), entry.addresses());
    assert_eq!(copy.last_verified(), 3);
}
