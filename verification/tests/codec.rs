use fastping_rs::addr::Family;
use fastping_rs::codec::{
    decode_reply, encode_request, reply_type_of, request_type_of, EchoReply, ECHO_HEADER_LEN,
    ICMPV6_ECHO_REPLY, ICMPV6_ECHO_REQUEST, ICMP_ECHO_REPLY, ICMP_ECHO_REQUEST,
};

#[test]
fn message_types_are_the_standard_ones() {
    assert_eq!(ECHO_HEADER_LEN, 8);
    assert_eq!(ICMP_ECHO_REQUEST, 8);
    assert_eq!(ICMP_ECHO_REPLY, 0);
    assert_eq!(ICMPV6_ECHO_REQUEST, 128);
    assert_eq!(ICMPV6_ECHO_REPLY, 129);
    assert_eq!(request_type_of(Family::V4), 8);
    assert_eq!(request_type_of(Family::V6), 128);
    assert_eq!(reply_type_of(Family::V4), 0);
    assert_eq!(reply_type_of(Family::V6), 129);
}

#[test]
fn v4_request_carries_numbers_and_checksum() {
    // 0x0800 + 0x1234 + 0x0001 = 0x1a35, and its complement is 0xe5ca
    let packet = encode_request(Family::V4, 0x1234, 0x0001, 16);
    assert_eq!(packet, vec![8, 0, 0xe5, 0xca, 0x12, 0x34, 0x00, 0x01, 0, 0, 0, 0, 0, 0, 0, 0]);
}

#[test]
fn v4_checksum_folds_the_carry() {
    // 0x0800 + 0xffff + 0xffff = 0x207fe; folded 0x0800; complement 0xf7ff
    let packet = encode_request(Family::V4, 0xffff, 0xffff, 8);
    assert_eq!(packet, vec![8, 0, 0xf7, 0xff, 0xff, 0xff, 0xff, 0xff]);
}

#[test]
fn v4_request_of_odd_length() {
    let packet = encode_request(Family::V4, 0x0102, 0x0304, 9);
    // 0x0800 + 0x0102 + 0x0304 = 0x0c06; complement 0xf3f9
    assert_eq!(packet, vec![8, 0, 0xf3, 0xf9, 1, 2, 3, 4, 0]);
}

#[test]
fn v6_request_leaves_the_checksum_to_the_stack() {
    let packet = encode_request(Family::V6, 0x1234, 0x0001, 16);
    assert_eq!(packet, vec![128, 0, 0, 0, 0x12, 0x34, 0x00, 0x01, 0, 0, 0, 0, 0, 0, 0, 0]);
}

#[test]
fn request_has_the_configured_length_and_zero_payload() {
    for size in [8usize, 16, 64, 1500] {
        let packet = encode_request(Family::V6, 1, 2, size);
        assert_eq!(packet.len(), size);
        assert!(packet[8..].iter().all(|b| *b == 0));
    }
    let big = encode_request(Family::V4, 1, 2, 200_000);
    assert_eq!(big.len(), 200_000);
    assert!(big[8..].iter().all(|b| *b == 0));
}

#[test]
fn header_only_request() {
    let packet = encode_request(Family::V6, 0xabcd, 0x00ff, 8);
    assert_eq!(packet, vec![128, 0, 0, 0, 0xab, 0xcd, 0x00, 0xff]);
}

#[test]
fn reply_is_decoded() {
    let bytes = [0u8, 0, 0x11, 0x22, 0x12, 0x34, 0xab, 0xcd, 9, 9];
    assert_eq!(
        decode_reply(Family::V4, &bytes),
        Some(EchoReply { identifier: 0x1234, sequence_number: 0xabcd })
    );
    let bytes6 = [129u8, 0, 0, 0, 0xff, 0xff, 0x00, 0x00];
    assert_eq!(
        decode_reply(Family::V6, &bytes6),
        Some(EchoReply { identifier: 0xffff, sequence_number: 0 })
    );
}

#[test]
fn short_frame_is_no_reply() {
    assert_eq!(decode_reply(Family::V4, &[]), None);
    assert_eq!(decode_reply(Family::V4, &[0]), None);
    assert_eq!(decode_reply(Family::V4, &[0, 0, 0, 0, 0, 0, 0]), None);
    assert_eq!(decode_reply(Family::V6, &[129, 0, 0, 0, 0, 0, 0]), None);
}

#[test]
fn other_message_types_are_no_reply() {
    // an echo request, destination unreachable, and the other family's reply
    assert_eq!(decode_reply(Family::V4, &[8, 0, 0, 0, 0, 1, 0, 1]), None);
    assert_eq!(decode_reply(Family::V4, &[3, 1, 0, 0, 0, 1, 0, 1]), None);
    assert_eq!(decode_reply(Family::V4, &[129, 0, 0, 0, 0, 1, 0, 1]), None);
    assert_eq!(decode_reply(Family::V6, &[0, 0, 0, 0, 0, 1, 0, 1]), None);
    assert_eq!(decode_reply(Family::V6, &[128, 0, 0, 0, 0, 1, 0, 1]), None);
}

#[test]
fn own_request_is_no_reply() {
    for family in [Family::V4, Family::V6] {
        let packet = encode_request(family, 77, 3, 16);
        assert_eq!(decode_reply(family, &packet), None);
    }
}

#[test]
fn answer_to_a_request_carries_its_numbers() {
    for family in [Family::V4, Family::V6] {
        for (identifier, sequence) in [(0u16, 0u16), (1, 65535), (0x8000, 0x00ff), (65535, 1)] {
            let mut answer = encode_request(family, identifier, sequence, 24);
            answer[0] = reply_type_of(family);
            assert_eq!(
                decode_reply(family, &answer),
                Some(EchoReply { identifier, sequence_number: sequence })
            );
        }
    }
}

#[test]
fn v4_request_sums_to_sixteen_ones() {
    // a receiver adds up all the words, the checksum among them, and folds the carries
    for (identifier, sequence, size) in [
        (0u16, 0u16, 8usize),
        (0x1234, 1, 16),
        (0xffff, 0xffff, 8),
        (0xf7ff, 0, 9),
        (0xabcd, 0x8001, 63),
        (1, 65535, 1500),
    ] {
        let packet = encode_request(Family::V4, identifier, sequence, size);
        let mut sum: u64 = 0;
        for pair in packet.chunks(2) {
            let high = pair[0] as u64;
            let low = if pair.len() == 2 { pair[1] as u64 } else { 0 };
            sum += high * 256 + low;
        }
        while sum > 0xffff {
            sum = sum / 0x1_0000 + sum % 0x1_0000;
        }
        assert_eq!(sum, 0xffff);
    }
}
