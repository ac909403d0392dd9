use fastping_rs::addr::Address;
use fastping_rs::ping::{Ping, ReceivedPing};
use fastping_rs::time::TimeSpan;

#[test]
fn test_ping() {
    let mut p = Ping::new(Address::v4(127, 0, 0, 1));
    assert_eq!(p.get_sequence_number(), 0);
    assert!(p.get_identifier() > 0);

    p.increment_sequence_number();
    assert_eq!(p.get_sequence_number(), 1);
}

#[test]
fn new_ping_is_unseen_and_keeps_its_address() {
    let addr = Address::v6([0xfe80, 0, 0, 0, 0, 0, 0, 0x42]);
    let p = Ping::new(addr);
    assert_eq!(p.get_addr(), addr);
    assert_eq!(p.get_sequence_number(), 0);
    assert!(!p.seen);
}

#[test]
fn random_identifiers_differ_between_targets() {
    // sixteen draws that all agree would be a chance of one in 2^240
    let first = Ping::new(Address::v4(192, 0, 2, 1)).get_identifier();
    let mut differs = false;
    for _ in 0..16 {
        if Ping::new(Address::v4(192, 0, 2, 1)).get_identifier() != first {
            differs = true;
        }
    }
    assert!(differs);
}

#[test]
fn with_identifier_is_exact() {
    let p = Ping::with_identifier(Address::v4(192, 0, 2, 1), 0xbeef);
    assert_eq!(
        p,
        Ping { addr: Address::V4(0xc0000201), identifier: 0xbeef, sequence_number: 0, seen: false }
    );
}

#[test]
fn increment_returns_the_new_number() {
    let mut p = Ping::with_identifier(Address::v4(192, 0, 2, 1), 1);
    assert_eq!(p.increment_sequence_number(), 1);
    assert_eq!(p.increment_sequence_number(), 2);
    assert_eq!(p.get_sequence_number(), 2);
    assert_eq!(p.get_identifier(), 1);
}

#[test]
fn sequence_number_wraps_after_65535() {
    let mut p = Ping::with_identifier(Address::v4(192, 0, 2, 1), 1);
    p.sequence_number = 65535;
    assert_eq!(p.increment_sequence_number(), 0);
    assert_eq!(p.get_sequence_number(), 0);
}

#[test]
fn accepts_needs_address_identifier_and_sequence() {
    let addr = Address::v4(192, 0, 2, 1);
    let mut p = Ping::with_identifier(addr, 500);
    p.sequence_number = 3;
    let good = ReceivedPing {
        addr,
        identifier: 500,
        sequence_number: 3,
        rtt: TimeSpan::from_millis(10),
    };
    assert!(p.accepts(&good));
    assert!(!p.accepts(&ReceivedPing { sequence_number: 2, ..good }));
    assert!(!p.accepts(&ReceivedPing { identifier: 501, ..good }));
    assert!(!p.accepts(&ReceivedPing { addr: Address::v4(192, 0, 2, 2), ..good }));
}

#[test]
fn next_request_steps_the_target_and_encodes() {
    let addr = Address::v4(192, 0, 2, 1);
    let mut p = Ping::with_identifier(addr, 0x1234);
    p.seen = true;
    let request = p.next_request(16);
    assert_eq!(p.get_sequence_number(), 1);
    assert!(!p.seen);
    assert_eq!(request.addr, addr);
    assert_eq!(
        request.packet,
        vec![8, 0, 0xe5, 0xca, 0x12, 0x34, 0x00, 0x01, 0, 0, 0, 0, 0, 0, 0, 0]
    );
}
