use fastping_rs::addr::Address;
use fastping_rs::ping::{Mismatch, Ping, ReceivedPing};
use fastping_rs::registry::Targets;
use fastping_rs::time::TimeSpan;
use fastping_rs::PingResult;
use std::collections::BTreeMap;

fn in_address_order(entries: &[Ping]) -> bool {
    entries.windows(2).all(|w| w[0].addr.precedes(w[1].addr))
}

#[test]
fn empty_registry() {
    let targets = Targets::new();
    assert_eq!(targets.len(), 0);
    assert!(targets.is_empty());
    assert!(!targets.contains_key(Address::v4(1, 2, 3, 4)));
    assert_eq!(targets.get(Address::v4(1, 2, 3, 4)), None);
    assert!(targets.report().is_empty());
}

#[test]
fn entries_stand_in_address_order() {
    let mut targets = Targets::new();
    let a = Address::v6([0, 0, 0, 0, 0, 0, 0, 1]);
    let b = Address::v4(127, 0, 0, 1);
    let c = Address::v4(7, 7, 7, 7);
    let d = Address::v6([0, 0, 0, 0, 0, 0, 0, 0]);
    let e = Address::v4(255, 255, 255, 255);
    for (n, addr) in [a, b, c, d, e].into_iter().enumerate() {
        assert_eq!(targets.insert(Ping::with_identifier(addr, n as u16)), None);
    }
    let order: Vec<Address> = targets.entries().iter().map(|p| p.addr).collect();
    assert_eq!(order, vec![c, b, e, d, a]);
    assert_eq!(targets.len(), 5);
}

#[test]
fn insert_replaces_and_hands_back_the_old_entry() {
    let addr = Address::v4(10, 1, 1, 1);
    let mut targets = Targets::new();
    let first = Ping::with_identifier(addr, 1);
    let second = Ping { sequence_number: 9, seen: true, ..Ping::with_identifier(addr, 2) };
    assert_eq!(targets.insert(first), None);
    assert_eq!(targets.insert(second), Some(first));
    assert_eq!(targets.len(), 1);
    assert_eq!(targets.get(addr), Some(second));
}

#[test]
fn remove_hands_back_the_entry_and_keeps_the_others() {
    let mut targets = Targets::new();
    let pings: Vec<Ping> = (1..=5u8)
        .map(|n| Ping::with_identifier(Address::v4(10, 0, 0, n), n as u16))
        .collect();
    for p in pings.iter() {
        targets.insert(*p);
    }
    assert_eq!(targets.remove(Address::v4(10, 0, 0, 3)), Some(pings[2]));
    assert_eq!(targets.remove(Address::v4(10, 0, 0, 3)), None);
    assert_eq!(targets.entries(), vec![pings[0], pings[1], pings[3], pings[4]]);
    assert!(!targets.contains_key(Address::v4(10, 0, 0, 3)));
    assert!(targets.contains_key(Address::v4(10, 0, 0, 4)));
}

#[test]
fn add_draws_a_fresh_state() {
    let addr = Address::v4(10, 1, 1, 1);
    let mut targets = Targets::new();
    targets.insert(Ping { sequence_number: 40, seen: true, ..Ping::with_identifier(addr, 2) });
    targets.add(addr);
    let entry = targets.get(addr).unwrap();
    assert_eq!(entry.addr, addr);
    assert_eq!(entry.sequence_number, 0);
    assert!(!entry.seen);
    assert_eq!(targets.len(), 1);
}

#[test]
fn begin_round_steps_every_target_and_encodes_in_order() {
    let v4 = Address::v4(192, 0, 2, 1);
    let v6 = Address::v6([0x2001, 0xdb8, 0, 0, 0, 0, 0, 1]);
    let mut targets = Targets::new();
    targets.insert(Ping { seen: true, ..Ping::with_identifier(v6, 0x0a0b) });
    targets.insert(Ping { sequence_number: 0x00ff, ..Ping::with_identifier(v4, 0x1234) });
    let requests = targets.begin_round(12);
    assert_eq!(requests.len(), 2);
    assert_eq!(requests[0].addr, v4);
    // 0x0800 + 0x1234 + 0x0100 = 0x1b34; complement 0xe4cb
    assert_eq!(requests[0].packet, vec![8, 0, 0xe4, 0xcb, 0x12, 0x34, 0x01, 0x00, 0, 0, 0, 0]);
    assert_eq!(requests[1].addr, v6);
    assert_eq!(requests[1].packet, vec![128, 0, 0, 0, 0x0a, 0x0b, 0x00, 0x01, 0, 0, 0, 0]);
    assert_eq!(
        targets.entries(),
        vec![
            Ping { addr: v4, identifier: 0x1234, sequence_number: 0x0100, seen: false },
            Ping { addr: v6, identifier: 0x0a0b, sequence_number: 1, seen: false },
        ]
    );
}

#[test]
fn correlate_accepts_only_an_exact_match() {
    let addr = Address::v4(192, 0, 2, 1);
    let mut targets = Targets::new();
    targets.insert(Ping::with_identifier(addr, 500));
    targets.insert(Ping::with_identifier(Address::v4(192, 0, 2, 2), 500));
    for _ in 0..3 {
        targets.begin_round(8);
    }
    let before = targets.entries();
    let good = ReceivedPing {
        addr,
        identifier: 500,
        sequence_number: 3,
        rtt: TimeSpan::from_millis(12),
    };
    // the sequence number of the round before
    assert_eq!(targets.correlate(&ReceivedPing { sequence_number: 2, ..good }), None);
    // another identifier
    assert_eq!(targets.correlate(&ReceivedPing { identifier: 499, ..good }), None);
    // an address that is no target
    assert_eq!(targets.correlate(&ReceivedPing { addr: Address::v4(192, 0, 2, 3), ..good }), None);
    assert_eq!(targets.entries(), before);
    assert_eq!(targets.report().len(), 2);

    assert_eq!(
        targets.correlate(&good),
        Some(PingResult::Receive { addr, rtt: TimeSpan::from_millis(12) })
    );
    assert!(targets.get(addr).unwrap().seen);
    assert_eq!(targets.mismatch(&good), None);
    assert_eq!(
        targets.mismatch(&ReceivedPing { identifier: 499, ..good }),
        Some(Mismatch {
            expected: targets.get(addr).unwrap(),
            got: ReceivedPing { identifier: 499, ..good }
        })
    );
    assert_eq!(targets.mismatch(&ReceivedPing { addr: Address::v4(192, 0, 2, 3), ..good }), None);
    // the same reply once more, and again with another round-trip time
    let heard = targets.entries();
    assert_eq!(targets.correlate(&good), None);
    assert_eq!(targets.correlate(&ReceivedPing { rtt: TimeSpan::from_millis(13), ..good }), None);
    assert_eq!(targets.entries(), heard);
    assert!(!targets.get(Address::v4(192, 0, 2, 2)).unwrap().seen);
    assert_eq!(targets.report(), vec![PingResult::Idle { addr: Address::v4(192, 0, 2, 2) }]);
}

#[test]
fn report_names_the_silent_targets_in_address_order() {
    let mut targets = Targets::new();
    let addrs = [
        Address::v6([0, 0, 0, 0, 0, 0, 0, 1]),
        Address::v4(9, 9, 9, 9),
        Address::v4(1, 1, 1, 1),
        Address::v4(8, 8, 8, 8),
    ];
    for addr in addrs {
        targets.insert(Ping::with_identifier(addr, 1));
    }
    targets.begin_round(8);
    let reply = ReceivedPing {
        addr: Address::v4(8, 8, 8, 8),
        identifier: 1,
        sequence_number: 1,
        rtt: TimeSpan::from_millis(5),
    };
    assert!(targets.correlate(&reply).is_some());
    assert_eq!(
        targets.report(),
        vec![
            PingResult::Idle { addr: Address::v4(1, 1, 1, 1) },
            PingResult::Idle { addr: Address::v4(9, 9, 9, 9) },
            PingResult::Idle { addr: Address::v6([0, 0, 0, 0, 0, 0, 0, 1]) },
        ]
    );
}

#[test]
fn random_changes_keep_the_registry_sound() {
    // adds, removes and the steps of rounds in random order, held against a
    // map that is kept beside the registry
    for _trial in 0..50 {
        let mut targets = Targets::new();
        let mut model: BTreeMap<(u8, u128), (u16, bool)> = BTreeMap::new();
        for _ in 0..400 {
            let low = rand::random::<u8>() % 12;
            let (addr, key) = if rand::random::<bool>() {
                (Address::v4(10, 0, 0, low), (4u8, 0x0a00_0000u128 + low as u128))
            } else {
                (Address::v6([0, 0, 0, 0, 0, 0, 0, low as u16]), (6u8, low as u128))
            };
            match rand::random::<u8>() % 5 {
                0 | 1 => {
                    targets.add(addr);
                    model.insert(key, (0, false));
                }
                2 => {
                    let removed = targets.remove(addr);
                    assert_eq!(removed.is_some(), model.remove(&key).is_some());
                }
                3 => {
                    let requests = targets.begin_round(8);
                    assert_eq!(requests.len(), model.len());
                    for state in model.values_mut() {
                        *state = (state.0.wrapping_add(1), false);
                    }
                }
                _ => {
                    if let Some(entry) = targets.get(addr) {
                        let reply = ReceivedPing {
                            addr,
                            identifier: entry.identifier,
                            sequence_number: entry.sequence_number,
                            rtt: TimeSpan::from_millis(1),
                        };
                        // the first reply of a round is received, a later one is not
                        assert_eq!(targets.correlate(&reply).is_some(), !entry.seen);
                        model.get_mut(&key).unwrap().1 = true;
                    }
                }
            }
            let entries = targets.entries();
            assert_eq!(entries.len(), model.len());
            assert_eq!(targets.len(), model.len());
            assert!(in_address_order(&entries));
            for (entry, (key, state)) in entries.iter().zip(model.iter()) {
                let entry_key = match entry.addr {
                    Address::V4(bits) => (4u8, bits as u128),
                    Address::V6(bits) => (6u8, bits),
                };
                assert_eq!(entry_key, *key);
                assert_eq!((entry.sequence_number, entry.seen), *state);
            }
            let idle = targets.report().len();
            assert_eq!(idle, model.values().filter(|s| !s.1).count());
        }
    }
}
