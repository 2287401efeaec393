use sonic_node::addr::{Contact, DialError, Multiaddr};
use sonic_node::behaviour::{Behaviour, Event, Payload, Routed};
use sonic_node::discovery::{Discovery, DiscoveryEvent};
use sonic_node::identify::{ConnectionId, Identify, IdentifyEvent, IdentifyInfo};
use sonic_node::node::{Action, DriverState, Node};
use sonic_node::peer::PeerId;
use sonic_node::routing::RoutingUpdate;

const ID_PROTOCOL: &str = "/sonic/connection/0.1.0";
const KAD_PROTOCOL: &str = "/sonic/discovery/0.1.0";

fn id(first: u8, last: u8) -> PeerId {
    let mut bytes = [0u8; 32];
    bytes[0] = first;
    bytes[31] = last;
    PeerId::new(bytes)
}

fn addr(n: u8) -> Multiaddr {
    Multiaddr::from_bytes(vec![4, 10, 0, 0, n, 6, 0x23, 0x28])
}

fn conn(id: u64) -> ConnectionId {
    ConnectionId { id }
}

fn info(peer: PeerId, addrs: Vec<Multiaddr>) -> IdentifyInfo {
    IdentifyInfo {
        peer,
        public_key: vec![1, 2, 3],
        listen_addrs: addrs,
        protocols: vec![ID_PROTOCOL.to_string(), KAD_PROTOCOL.to_string()],
    }
}

fn behaviour(capacity: usize) -> Behaviour {
    let identify = Identify::new(ID_PROTOCOL.to_string(), info(id(0, 0), Vec::new()));
    let kad = Discovery::new(KAD_PROTOCOL.to_string(), id(0, 0), capacity, 8);
    Behaviour::new(identify, kad)
}

fn node() -> Node {
    Node::new(behaviour(20))
}

#[test]
fn composer_forwards_add_address() {
    let mut b = behaviour(1);
    assert_eq!(b.add_address(&id(0x80, 1), addr(1)), RoutingUpdate::Inserted);
    assert_eq!(b.add_address(&id(0x80, 1), addr(1)), RoutingUpdate::Updated);
    assert_eq!(b.add_address(&id(0x80, 2), addr(2)), RoutingUpdate::Full(Some(id(0x80, 1))));
    assert_eq!(b.add_address(&id(0, 0), addr(2)), RoutingUpdate::Rejected);
    assert_eq!(b.kad().table().get(&id(0x80, 1)).unwrap().addresses(), vec![addr(1)]);
    assert_eq!(b.identify().connection_count(), 0);
}

#[test]
fn composer_routes_a_payload_by_its_protocol_name() {
    let mut b = behaviour(20);
    b.on_connection_established(id(0x80, 1), conn(1));
    assert_eq!(
        b.handle_connection_event(
            conn(1),
            &ID_PROTOCOL.to_string(),
            Payload::Identify(info(id(0x80, 1), vec![addr(1)]))
        ),
        Routed::ToIdentify
    );
    assert_eq!(b.identify().pending_events(), 1);
    assert_eq!(b.kad().pending_events(), 0);
    assert_eq!(
        b.handle_connection_event(conn(1), &KAD_PROTOCOL.to_string(), Payload::Peers(Vec::new())),
        Routed::ToDiscovery
    );
    assert_eq!(
        b.handle_connection_event(conn(9), &KAD_PROTOCOL.to_string(), Payload::Peers(Vec::new())),
        Routed::ToDiscovery
    );
    assert_eq!(
        b.handle_connection_event(conn(1), &KAD_PROTOCOL.to_string(), Payload::Malformed),
        Routed::DiscoveryRejected
    );
    assert_eq!(
        b.handle_connection_event(
            conn(1),
            &"/other/protocol".to_string(),
            Payload::Identify(info(id(0x80, 1), vec![addr(1)]))
        ),
        Routed::Unknown
    );
    assert_eq!(b.identify().pending_events(), 1);
    assert_eq!(b.kad().pending_events(), 0);
}

#[test]
fn composer_counts_an_unreadable_identify_payload_as_malformed() {
    let mut b = behaviour(20);
    b.on_connection_established(id(0x80, 1), conn(1));
    assert_eq!(
        b.handle_connection_event(conn(1), &ID_PROTOCOL.to_string(), Payload::Malformed),
        Routed::ToIdentify
    );
    assert_eq!(
        b.handle_connection_event(conn(1), &ID_PROTOCOL.to_string(), Payload::Peers(Vec::new())),
        Routed::ToIdentify
    );
    assert!(b.identify().connection(conn(1)).unwrap().degraded);
    assert_eq!(b.identify().connection_count(), 1);
    assert!(b.poll().is_none());
}

#[test]
fn composer_polls_identify_before_discovery() {
    let mut b = behaviour(20);
    b.bootstrap(vec![addr(9)]);
    b.on_connection_established(id(0x80, 1), conn(1));
    b.handle_connection_event(
        conn(1),
        &ID_PROTOCOL.to_string(),
        Payload::Identify(info(id(0x80, 1), vec![addr(1)])),
    );
    assert_eq!(
        b.poll(),
        Some(Event::IdentifyReceived(id(0x80, 1), info(id(0x80, 1), vec![addr(1)])))
    );
    assert_eq!(b.poll(), Some(Event::DiscoveryEvent(DiscoveryEvent::Dial(addr(9)))));
    assert_eq!(b.poll(), None);
}

#[test]
fn events_of_the_protocols_become_events_of_the_node() {
    let report = info(id(0x80, 1), vec![addr(1)]);
    assert_eq!(
        Event::from(IdentifyEvent::Received {
            connection_id: conn(4),
            peer_id: id(0x80, 1),
            info: report.clone(),
        }),
        Event::IdentifyReceived(id(0x80, 1), report)
    );
    assert_eq!(
        Event::from(DiscoveryEvent::ProbeLiveness(id(0x80, 1))),
        Event::DiscoveryEvent(DiscoveryEvent::ProbeLiveness(id(0x80, 1)))
    );
}

#[test]
fn driver_is_idle_between_events() {
    let mut node = node();
    assert_eq!(node.state(), DriverState::Idle);
    assert_eq!(node.dispatch(Event::ListenerReady(addr(1))), Ok(Action::Nothing));
    assert_eq!(node.state(), DriverState::Idle);
    assert_eq!(node.behaviour().identify().local_info().listen_addrs, vec![addr(1)]);
    assert_eq!(node.step(), None);
}

#[test]
fn driver_takes_one_event_at_a_time() {
    let mut node = node();
    assert_eq!(node.complete(), None);
    assert_eq!(node.accept(Event::ListenerReady(addr(1))), Ok(()));
    assert_eq!(node.state(), DriverState::Dispatching);
    assert_eq!(
        node.accept(Event::ListenerReady(addr(2))),
        Err(Event::ListenerReady(addr(2)))
    );
    assert_eq!(
        node.dispatch(Event::ListenerReady(addr(3))),
        Err(Event::ListenerReady(addr(3)))
    );
    assert_eq!(node.step(), None);
    assert!(node.behaviour().identify().local_info().listen_addrs.is_empty());
    assert_eq!(node.complete(), Some(Action::Nothing));
    assert_eq!(node.state(), DriverState::Idle);
    assert_eq!(node.behaviour().identify().local_info().listen_addrs, vec![addr(1)]);
}

#[test]
fn identify_feeds_the_first_listen_address_into_the_table() {
    let mut node = node();
    node.set_time(77);
    let report = info(id(0x80, 1), vec![addr(1), addr(2)]);
    assert_eq!(
        node.dispatch(Event::IdentifyReceived(id(0x80, 1), report)),
        Ok(Action::Nothing)
    );
    let entry = node.behaviour().kad().table().get(&id(0x80, 1)).unwrap();
    assert_eq!(entry.addresses(), vec![addr(1)]);
    assert_eq!(entry.last_verified(), 77);
}

#[test]
fn identify_without_listen_address_changes_nothing() {
    let mut node = node();
    assert_eq!(
        node.dispatch(Event::IdentifyReceived(id(0x80, 1), info(id(0x80, 1), Vec::new()))),
        Ok(Action::Nothing)
    );
    assert!(!node.behaviour().kad().table().contains(&id(0x80, 1)));
    assert_eq!(node.step(), None);
}

#[test]
fn bootstrap_with_a_single_seed() {
    let mut node = node();
    let seed = "/ip4/1.2.3.4/tcp/9000".to_string();
    let seed_addr = Multiaddr::parse(&seed).unwrap();
    let a = id(0x80, 0x0a);
    assert_eq!(node.bootstrap(&vec![seed.clone()]), Ok(()));
    assert_eq!(node.step(), Some(Action::Dial(seed_addr.clone())));
    assert_eq!(node.step(), None);
    assert_eq!(node.dispatch(Event::ConnectionEstablished(a, conn(1))), Ok(Action::Nothing));
    assert_eq!(
        node.on_stream_data(
            conn(1),
            &ID_PROTOCOL.to_string(),
            Payload::Identify(info(a, vec![seed_addr.clone()]))
        ),
        Routed::ToIdentify
    );
    assert!(!node.behaviour().kad().table().contains(&a));
    assert_eq!(node.step(), Some(Action::Nothing));
    let entry = node.behaviour().kad().table().get(&a).unwrap();
    assert_eq!(entry.peer(), a);
    assert_eq!(entry.addresses(), vec![seed_addr.clone()]);
    assert!(entry.has_address(&Multiaddr::from_bytes(vec![0x04, 1, 2, 3, 4, 0x06, 0x23, 0x28])));
    assert!(!node.behaviour().kad().is_bootstrapping());
    assert_eq!(
        node.step(),
        Some(Action::Query {
            target: id(0, 0),
            peers: vec![Contact { peer: a, addr: seed_addr }],
        })
    );
    assert_eq!(node.step(), None);
}

#[test]
fn connection_closed_before_identify_leaves_no_entry() {
    let mut node = node();
    let a = id(0x80, 0x0a);
    assert_eq!(node.dispatch(Event::ConnectionEstablished(a, conn(1))), Ok(Action::Nothing));
    assert_eq!(node.behaviour().identify().connection_count(), 1);
    assert_eq!(node.dispatch(Event::ConnectionClosed(a, conn(1))), Ok(Action::Nothing));
    assert_eq!(node.behaviour().identify().connection_count(), 0);
    assert_eq!(
        node.on_stream_data(
            conn(1),
            &ID_PROTOCOL.to_string(),
            Payload::Identify(info(a, vec![addr(1)]))
        ),
        Routed::ToIdentify
    );
    assert_eq!(node.step(), None);
    assert!(!node.behaviour().kad().table().contains(&a));
    assert!(node.behaviour().kad().table().closest_peers(&a, 10).is_empty());
}

#[test]
fn find_node_of_the_local_id_on_an_empty_table() {
    let mut node = node();
    node.find_node(&id(0, 0));
    assert_eq!(
        node.step(),
        Some(Action::Report { target: id(0, 0), closest: Vec::new() })
    );
    assert_eq!(node.step(), None);
    assert!(!node.behaviour().kad().is_searching());
}

#[test]
fn two_identifies_of_one_peer_leave_both_addresses() {
    let mut node = node();
    let a = id(0x80, 0x0a);
    node.dispatch(Event::IdentifyReceived(a, info(a, vec![addr(1)])));
    node.dispatch(Event::IdentifyReceived(a, info(a, vec![addr(2)])));
    let entry = node.behaviour().kad().table().get(&a).unwrap();
    assert_eq!(entry.addresses(), vec![addr(1), addr(2)]);
    assert!(entry.has_address(&addr(1)));
    assert!(entry.has_address(&addr(2)));
    assert_eq!(node.behaviour().kad().table().bucket_len(0), 1);
}

#[test]
fn the_same_identify_twice_is_the_same_identify_once() {
    let mut node = node();
    let a = id(0x80, 0x0a);
    node.dispatch(Event::IdentifyReceived(a, info(a, vec![addr(1)])));
    node.dispatch(Event::IdentifyReceived(a, info(a, vec![addr(1)])));
    let entry = node.behaviour().kad().table().get(&a).unwrap();
    assert_eq!(entry.addresses(), vec![addr(1)]);
    assert_eq!(node.behaviour().kad().table().bucket_len(0), 1);
}

#[test]
fn requests_of_discovery_become_actions() {
    let mut node = Node::new(behaviour(1));
    node.dispatch(Event::IdentifyReceived(id(0x80, 1), info(id(0x80, 1), vec![addr(1)])));
    node.dispatch(Event::IdentifyReceived(id(0x80, 2), info(id(0x80, 2), vec![addr(2)])));
    assert_eq!(node.step(), Some(Action::Probe(id(0x80, 1))));
    node.on_liveness(&id(0x80, 1), false);
    assert!(!node.behaviour().kad().table().contains(&id(0x80, 1)));
    assert!(node.behaviour().kad().table().contains(&id(0x80, 2)));
    assert_eq!(node.step(), None);
    assert_eq!(
        node.dispatch(Event::DiscoveryEvent(DiscoveryEvent::Dial(addr(5)))),
        Ok(Action::Dial(addr(5)))
    );
    assert_eq!(
        node.dispatch(Event::DiscoveryEvent(DiscoveryEvent::Query {
            target: id(1, 1),
            peers: Vec::new(),
        })),
        Ok(Action::Query { target: id(1, 1), peers: Vec::new() })
    );
}

#[test]
fn lookup_answers_arrive_as_stream_data() {
    let mut node = node();
    let asked = Contact { peer: id(0, 0x18), addr: addr(1) };
    node.dispatch(Event::ConnectionEstablished(id(0, 0x18), conn(3)));
    node.dispatch(Event::IdentifyReceived(id(0, 0x18), info(id(0, 0x18), vec![addr(1)])));
    node.find_node(&id(0, 0x10));
    assert_eq!(
        node.step(),
        Some(Action::Query { target: id(0, 0x10), peers: vec![asked.clone()] })
    );
    assert_eq!(
        node.on_stream_data(
            conn(4),
            &KAD_PROTOCOL.to_string(),
            Payload::Peers(vec![Contact { peer: id(0, 0x11), addr: addr(2) }])
        ),
        Routed::ToDiscovery
    );
    assert_eq!(node.step(), None);
    assert!(!node.behaviour().kad().table().contains(&id(0, 0x11)));
    assert_eq!(
        node.on_stream_data(
            conn(3),
            &KAD_PROTOCOL.to_string(),
            Payload::Peers(vec![asked.clone()])
        ),
        Routed::ToDiscovery
    );
    assert_eq!(
        node.step(),
        Some(Action::Report { target: id(0, 0x10), closest: vec![asked] })
    );
}

#[test]
fn lookup_answers_can_be_handed_in_by_peer() {
    let mut node = node();
    node.dispatch(Event::IdentifyReceived(id(0, 0x18), info(id(0, 0x18), vec![addr(1)])));
    node.find_node(&id(0, 0x10));
    node.step();
    node.on_answer(&id(0, 0x18), vec![Contact { peer: id(0, 0x11), addr: addr(2) }]);
    assert!(node.behaviour().kad().table().contains(&id(0, 0x11)));
    assert_eq!(
        node.step(),
        Some(Action::Query {
            target: id(0, 0x10),
            peers: vec![Contact { peer: id(0, 0x11), addr: addr(2) }],
        })
    );
}

#[test]
fn closed_connection_counts_as_a_failed_answer() {
    let mut node = node();
    let asked = Contact { peer: id(0, 0x18), addr: addr(1) };
    node.dispatch(Event::ConnectionEstablished(id(0, 0x18), conn(3)));
    node.dispatch(Event::ConnectionEstablished(id(0, 0x18), conn(4)));
    node.dispatch(Event::IdentifyReceived(id(0, 0x18), info(id(0, 0x18), vec![addr(1)])));
    node.find_node(&id(0, 0x10));
    assert_eq!(
        node.step(),
        Some(Action::Query { target: id(0, 0x10), peers: vec![asked.clone()] })
    );
    assert_eq!(
        node.dispatch(Event::ConnectionClosed(id(0, 0x18), conn(3))),
        Ok(Action::Nothing)
    );
    assert!(node.behaviour().kad().is_searching());
    assert_eq!(node.step(), None);
    assert_eq!(
        node.dispatch(Event::ConnectionClosed(id(0, 0x18), conn(4))),
        Ok(Action::Nothing)
    );
    assert!(!node.behaviour().kad().is_searching());
    assert_eq!(
        node.step(),
        Some(Action::Report { target: id(0, 0x10), closest: vec![asked] })
    );
    assert!(node.behaviour().kad().table().contains(&id(0, 0x18)));
}

#[test]
fn lookup_timeout_ends_the_lookup() {
    let mut node = node();
    node.dispatch(Event::IdentifyReceived(id(0, 0x18), info(id(0, 0x18), vec![addr(1)])));
    node.find_node(&id(0, 0x10));
    node.step();
    node.on_lookup_timeout();
    assert_eq!(
        node.step(),
        Some(Action::Report {
            target: id(0, 0x10),
            closest: vec![Contact { peer: id(0, 0x18), addr: addr(1) }],
        })
    );
}

#[test]
fn maintenance_probes_stale_peers() {
    let mut node = node();
    node.set_time(10);
    node.dispatch(Event::IdentifyReceived(id(0x80, 1), info(id(0x80, 1), vec![addr(1)])));
    node.set_time(100);
    node.refresh(89);
    assert_eq!(node.step(), Some(Action::Probe(id(0x80, 1))));
    node.on_liveness(&id(0x80, 1), true);
    assert_eq!(
        node.behaviour().kad().table().get(&id(0x80, 1)).unwrap().last_verified(),
        100
    );
    node.refresh(89);
    assert_eq!(node.step(), None);
}

#[test]
fn dial_refuses_a_malformed_address() {
    let node = node();
    assert_eq!(node.dial("not an address"), Err(DialError::MalformedAddress));
    assert_ne!(node.dial("not an address"), Err(DialError::Unreachable));
    assert_eq!(
        node.dial("/ip4/1.2.3.4/tcp/9000"),
        Ok(Action::Dial(Multiaddr::from_bytes(vec![0x04, 1, 2, 3, 4, 0x06, 0x23, 0x28])))
    );
}

#[test]
fn bootstrap_with_a_malformed_seed_queues_nothing() {
    let mut node = node();
    let seeds = vec!["/ip4/1.2.3.4/tcp/9000".to_string(), "nonsense".to_string()];
    assert_eq!(node.bootstrap(&seeds), Err(DialError::MalformedAddress));
    assert!(!node.behaviour().kad().is_bootstrapping());
    assert_eq!(node.step(), None);
    assert_eq!(node.bootstrap(&Vec::new()), Ok(()));
    assert!(!node.behaviour().kad().is_bootstrapping());
}
