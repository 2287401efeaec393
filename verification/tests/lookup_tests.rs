use sonic_node::addr::{Contact, Multiaddr};
use sonic_node::lookup::{select_closest, Lookup, Progress};
use sonic_node::peer::PeerId;

fn id(last: u8) -> PeerId {
    let mut bytes = [0u8; 32];
    bytes[31] = last;
    PeerId::new(bytes)
}

fn contact(last: u8) -> Contact {
    Contact { peer: id(last), addr: Multiaddr::from_bytes(vec![4, 10, 0, 0, last, 6, 0, 80]) }
}

fn peers(contacts: &Vec<Contact>) -> Vec<PeerId> {
    contacts.iter().map(|c| c.peer).collect()
}

#[test]
fn selection_orders_by_distance() {
    let cands = vec![contact(0x18), contact(0x14), contact(0x11), contact(0x30)];
    let res = select_closest(&cands, &id(0x10), &id(0), 10);
    assert_eq!(peers(&res), vec![id(0x11), id(0x14), id(0x18), id(0x30)]);
}

#[test]
fn selection_keeps_to_the_limit() {
    let cands = vec![contact(0x18), contact(0x14), contact(0x11), contact(0x30)];
    assert_eq!(peers(&select_closest(&cands, &id(0x10), &id(0), 2)), vec![id(0x11), id(0x14)]);
    assert!(select_closest(&cands, &id(0x10), &id(0), 0).is_empty());
    assert!(select_closest(&Vec::new(), &id(0x10), &id(0), 3).is_empty());
}

#[test]
fn selection_takes_each_peer_once_by_its_first_contact() {
    let mut again = contact(0x14);
    again.addr = Multiaddr::from_bytes(vec![9, 9, 9]);
    let cands = vec![contact(0x18), contact(0x14), again, contact(0x18)];
    let res = select_closest(&cands, &id(0x10), &id(0), 10);
    assert_eq!(res, vec![contact(0x14), contact(0x18)]);
}

#[test]
fn selection_leaves_the_excluded_peer_aside() {
    let cands = vec![contact(0x10), contact(0x00), contact(0x14)];
    let res = select_closest(&cands, &id(0x10), &id(0x10), 10);
    assert_eq!(peers(&res), vec![id(0x14), id(0x00)]);
}

#[test]
fn lookup_with_nobody_to_ask_is_over_at_once() {
    let lookup = Lookup::start(id(0), id(0x10), &Vec::new(), 3, 5);
    assert!(lookup.is_finished());
    assert!(lookup.closest().is_empty());
    assert!(lookup.asking().is_empty());
    assert_eq!(lookup.awaiting(), 0);
    assert_eq!(lookup.rounds(), 0);
    assert_eq!(lookup.target(), id(0x10));
}

#[test]
fn lookup_without_rounds_is_over_at_once() {
    let lookup = Lookup::start(id(0), id(0x10), &vec![contact(0x18)], 3, 0);
    assert!(lookup.is_finished());
    assert_eq!(peers(&lookup.closest()), vec![id(0x18)]);
    assert!(lookup.asking().is_empty());
}

#[test]
fn lookup_asks_the_closest_known_peers_first() {
    let lookup = Lookup::start(id(0), id(0x10), &vec![contact(0x18), contact(0x14)], 3, 5);
    assert!(!lookup.is_finished());
    assert_eq!(peers(&lookup.asking()), vec![id(0x14), id(0x18)]);
    assert_eq!(lookup.awaiting(), 2);
    assert_eq!(lookup.rounds(), 0);
}

#[test]
fn lookup_goes_on_while_rounds_find_closer_peers() {
    let mut lookup = Lookup::start(id(0), id(0x10), &vec![contact(0x18), contact(0x14)], 3, 5);
    assert_eq!(
        lookup.on_answer(&id(0x14), vec![contact(0x11), contact(0x00), contact(0x18)]),
        Progress::Waiting
    );
    assert_eq!(lookup.awaiting(), 1);
    assert_eq!(peers(&lookup.asking()), vec![id(0x18)]);
    assert_eq!(lookup.on_answer(&id(0x18), Vec::new()), Progress::NextRound);
    assert_eq!(lookup.rounds(), 1);
    assert_eq!(peers(&lookup.closest()), vec![id(0x11), id(0x14), id(0x18)]);
    assert_eq!(peers(&lookup.asking()), vec![id(0x11)]);
    assert_eq!(lookup.awaiting(), 1);
    assert_eq!(lookup.on_answer(&id(0x11), vec![contact(0x12)]), Progress::Finished);
    assert!(lookup.is_finished());
    assert_eq!(lookup.rounds(), 2);
    assert_eq!(peers(&lookup.closest()), vec![id(0x11), id(0x12), id(0x14)]);
    assert_eq!(lookup.on_answer(&id(0x12), vec![contact(0x10)]), Progress::Ignored);
    assert_eq!(peers(&lookup.closest()), vec![id(0x11), id(0x12), id(0x14)]);
}

#[test]
fn lookup_takes_one_answer_of_each_peer_that_it_asked() {
    let mut lookup = Lookup::start(id(0), id(0x10), &vec![contact(0x18), contact(0x14)], 3, 5);
    assert!(lookup.is_asking(&id(0x14)));
    assert!(lookup.is_asking(&id(0x18)));
    assert!(!lookup.is_asking(&id(0x11)));
    assert_eq!(lookup.on_answer(&id(0x11), vec![contact(0x10)]), Progress::Ignored);
    assert_eq!(lookup.awaiting(), 2);
    assert_eq!(lookup.on_answer(&id(0x14), vec![contact(0x13)]), Progress::Waiting);
    assert!(!lookup.is_asking(&id(0x14)));
    assert_eq!(lookup.on_answer(&id(0x14), vec![contact(0x10)]), Progress::Ignored);
    assert_eq!(lookup.awaiting(), 1);
    assert_eq!(lookup.on_answer(&id(0x18), Vec::new()), Progress::NextRound);
    assert_eq!(peers(&lookup.closest()), vec![id(0x13), id(0x14), id(0x18)]);
    assert_eq!(peers(&lookup.asking()), vec![id(0x13)]);
}

#[test]
fn lookup_stops_at_the_bound_on_rounds() {
    let mut lookup = Lookup::start(id(0), id(0x10), &vec![contact(0x18)], 3, 1);
    assert_eq!(lookup.on_answer(&id(0x18), vec![contact(0x11)]), Progress::Finished);
    assert_eq!(lookup.rounds(), 1);
    assert_eq!(peers(&lookup.closest()), vec![id(0x11), id(0x18)]);

    let mut longer = Lookup::start(id(0), id(0x10), &vec![contact(0x1f)], 1, 3);
    assert_eq!(longer.on_answer(&id(0x1f), vec![contact(0x17)]), Progress::NextRound);
    assert_eq!(longer.on_answer(&id(0x17), vec![contact(0x13)]), Progress::NextRound);
    assert_eq!(longer.on_answer(&id(0x13), vec![contact(0x11)]), Progress::Finished);
    assert_eq!(longer.rounds(), 3);
    assert_eq!(peers(&longer.closest()), vec![id(0x11)]);
}

#[test]
fn lookup_ends_when_a_round_finds_no_closer_peer() {
    let mut lookup = Lookup::start(id(0), id(0x10), &vec![contact(0x18)], 3, 9);
    assert_eq!(
        lookup.on_answer(&id(0x18), vec![contact(0x18), contact(0x19)]),
        Progress::Finished
    );
    assert_eq!(peers(&lookup.closest()), vec![id(0x18), id(0x19)]);
}

#[test]
fn lookup_can_be_cut_short() {
    let mut lookup = Lookup::start(id(0), id(0x10), &vec![contact(0x18), contact(0x14)], 3, 5);
    lookup.on_answer(&id(0x14), vec![contact(0x11)]);
    lookup.expire();
    assert!(lookup.is_finished());
    assert_eq!(lookup.awaiting(), 0);
    assert!(lookup.asking().is_empty());
    assert_eq!(peers(&lookup.closest()), vec![id(0x14), id(0x18)]);
    assert_eq!(lookup.on_answer(&id(0x18), vec![contact(0x12)]), Progress::Ignored);
}
