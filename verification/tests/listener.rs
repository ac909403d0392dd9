use fastping_rs::addr::{Address, Family};
use fastping_rs::listener::{hear, listener_step, ListenerAction, ListenerEvent};
use fastping_rs::ping::ReceivedPing;
use fastping_rs::time::TimeSpan;

#[test]
fn echo_reply_is_forwarded_with_sender_and_rtt() {
    let source = Address::v4(192, 0, 2, 7);
    let event = ListenerEvent::Packet {
        bytes: vec![0, 0, 0xaa, 0xbb, 0x01, 0x02, 0x03, 0x04, 1, 2, 3],
        source,
        elapsed: TimeSpan::from_millis(42),
    };
    assert_eq!(
        listener_step(Family::V4, &event),
        ListenerAction::Forward {
            reply: ReceivedPing {
                addr: source,
                identifier: 0x0102,
                sequence_number: 0x0304,
                rtt: TimeSpan::from_millis(42),
            }
        }
    );
}

#[test]
fn v6_listener_takes_v6_replies_only() {
    let source = Address::v6([0, 0, 0, 0, 0, 0, 0, 1]);
    let v6_reply = vec![129, 0, 0, 0, 0, 5, 0, 6];
    let v4_reply = vec![0, 0, 0, 0, 0, 5, 0, 6];
    let elapsed = TimeSpan::from_millis(1);
    assert!(matches!(
        listener_step(Family::V6, &ListenerEvent::Packet { bytes: v6_reply.clone(), source, elapsed }),
        ListenerAction::Forward { .. }
    ));
    assert_eq!(
        listener_step(Family::V6, &ListenerEvent::Packet { bytes: v4_reply.clone(), source, elapsed }),
        ListenerAction::DiscardOther { source, kind: 0 }
    );
    assert_eq!(
        listener_step(Family::V4, &ListenerEvent::Packet { bytes: v6_reply, source, elapsed }),
        ListenerAction::DiscardOther { source, kind: 129 }
    );
    assert!(matches!(
        listener_step(Family::V4, &ListenerEvent::Packet { bytes: v4_reply, source, elapsed }),
        ListenerAction::Forward { .. }
    ));
}

#[test]
fn short_frames_are_dropped_in_silence() {
    let source = Address::v4(192, 0, 2, 7);
    let elapsed = TimeSpan::from_millis(1);
    for bytes in [vec![], vec![0, 0, 0], vec![0; 7], vec![8; 7]] {
        assert_eq!(
            listener_step(Family::V4, &ListenerEvent::Packet { bytes, source, elapsed }),
            ListenerAction::Discard
        );
    }
}

#[test]
fn messages_of_another_type_are_dropped_with_their_type() {
    let source = Address::v4(192, 0, 2, 7);
    let elapsed = TimeSpan::from_millis(1);
    for (bytes, kind) in [(vec![8, 0, 0, 0, 0, 1, 0, 1], 8u8), (vec![11; 40], 11), (vec![3; 8], 3)] {
        assert_eq!(
            listener_step(Family::V4, &ListenerEvent::Packet { bytes, source, elapsed }),
            ListenerAction::DiscardOther { source, kind }
        );
    }
}

#[test]
fn failed_read_is_logged_and_the_listener_reads_on() {
    assert_eq!(listener_step(Family::V4, &ListenerEvent::ReadFailed), ListenerAction::LogReadError);
    assert_eq!(listener_step(Family::V6, &ListenerEvent::ReadFailed), ListenerAction::LogReadError);
}

#[test]
fn failed_forward_ends_the_listener_only_while_stopping() {
    assert_eq!(
        listener_step(Family::V4, &ListenerEvent::ForwardFailed { stopping: true }),
        ListenerAction::Exit
    );
    assert_eq!(
        listener_step(Family::V4, &ListenerEvent::ForwardFailed { stopping: false }),
        ListenerAction::LogForwardError
    );
}

#[test]
fn hear_reads_a_slice() {
    let source = Address::v4(192, 0, 2, 7);
    let bytes = [0u8, 0, 0, 0, 0xff, 0xfe, 0x00, 0x01];
    assert_eq!(
        hear(Family::V4, &bytes, source, TimeSpan::from_nanos(1500)),
        Some(ReceivedPing {
            addr: source,
            identifier: 0xfffe,
            sequence_number: 1,
            rtt: TimeSpan::from_nanos(1500),
        })
    );
    assert_eq!(hear(Family::V4, &bytes[..7], source, TimeSpan::from_nanos(1500)), None);
}
