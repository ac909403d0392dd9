//! The echo codec: framing of echo requests and reading of echo replies, for
//! ICMP and ICMPv6.
//!
//! Both families share one layout. Octet 0 holds the message type, octet 1 the
//! code, octets 2 and 3 the checksum, octets 4 and 5 the identifier, octets 6
//! and 7 the sequence number, and the payload follows. Numbers of two octets
//! are written most significant octet first.

use vstd::prelude::*;
use crate::addr::Family;

verus! {

/// Length of the header of an echo message, and so the least length of one.
pub const ECHO_HEADER_LEN: usize = 8;

/// Message type of an ICMP echo request.
pub const ICMP_ECHO_REQUEST: u8 = 8;

/// Message type of an ICMP echo reply.
pub const ICMP_ECHO_REPLY: u8 = 0;

/// Message type of an ICMPv6 echo request.
pub const ICMPV6_ECHO_REQUEST: u8 = 128;

/// Message type of an ICMPv6 echo reply.
pub const ICMPV6_ECHO_REPLY: u8 = 129;

/// What an echo reply carries back: the two numbers by which it is matched
/// with the request that caused it.
#[derive(Clone, Copy, Debug, PartialEq, Eq, Structural)]
pub struct EchoReply {
    pub identifier: u16,
    pub sequence_number: u16,
}

/// The message type of an echo request in `family`.
pub open spec fn request_type(family: Family) -> u8 {
    match family {
        Family::V4 => ICMP_ECHO_REQUEST,
        Family::V6 => ICMPV6_ECHO_REQUEST,
    }
}

/// The message type of an echo reply in `family`.
pub open spec fn reply_type(family: Family) -> u8 {
    match family {
        Family::V4 => ICMP_ECHO_REPLY,
        Family::V6 => ICMPV6_ECHO_REPLY,
    }
}

/// The more significant octet of `n`.
pub open spec fn high_octet(n: u16) -> u8 {
    (n / 0x100) as u8
}

/// The less significant octet of `n`.
pub open spec fn low_octet(n: u16) -> u8 {
    (n % 0x100) as u8
}

/// The number written in the two octets `high` and `low`.
pub open spec fn join_octets(high: u8, low: u8) -> u16 {
    (high * 0x100 + low) as u16
}

/// `packet` with `sum` written into its checksum field.
pub open spec fn with_checksum(packet: Seq<u8>, sum: u16) -> Seq<u8> {
    packet.update(2, high_octet(sum)).update(3, low_octet(sum))
}

/// The sum of the 16-bit words of `data`, each read most significant octet
/// first. An odd last octet counts as the high octet of one more word.
pub open spec fn word_sum(data: Seq<u8>) -> nat
    decreases data.len(),
{
    if data.len() == 0 {
        0
    } else if data.len() == 1 {
        data[0] as nat * 0x100
    } else {
        data[0] as nat * 0x100 + data[1] as nat + word_sum(data.skip(2))
    }
}

/// `sum` with every carry out of the low sixteen bits added back in: the
/// sum in one's complement arithmetic of sixteen bits.
pub open spec fn fold_carries(sum: nat) -> nat
    decreases sum,
{
    if sum < 0x1_0000 {
        sum
    } else {
        fold_carries(sum / 0x1_0000 + sum % 0x1_0000)
    }
}

/// The Internet checksum of an ICMP message: the complement of the one's
/// complement sum of its 16-bit words, the message's own checksum field
/// taken as zero.
pub open spec fn internet_checksum(packet: Seq<u8>) -> u16 {
    (0xFFFF - fold_carries(word_sum(with_checksum(packet, 0)))) as u16
}

/// An echo request of `size` octets before its checksum is filled in: type,
/// identifier and sequence number in their places and zero everywhere else.
pub open spec fn unsummed_request(family: Family, identifier: u16, sequence: u16, size: nat) -> Seq<
    u8,
> {
    Seq::new(
        size,
        |i: int|
            if i == 0 {
                request_type(family)
            } else if i == 4 {
                high_octet(identifier)
            } else if i == 5 {
                low_octet(identifier)
            } else if i == 6 {
                high_octet(sequence)
            } else if i == 7 {
                low_octet(sequence)
            } else {
                0u8
            },
    )
}

/// The echo request of `size` octets that carries `identifier` and `sequence`.
///
/// An ICMP request holds the checksum of the whole message. An ICMPv6 request
/// leaves the field zero: its checksum covers a pseudo-header that only the
/// network stack knows, and the stack fills it in.
pub open spec fn echo_request(family: Family, identifier: u16, sequence: u16, size: nat) -> Seq<
    u8,
> {
    let raw = unsummed_request(family, identifier, sequence, size);
    match family {
        Family::V4 => with_checksum(raw, internet_checksum(raw)),
        Family::V6 => raw,
    }
}

/// What `bytes` says as an echo reply of `family`: nothing if it is too short
/// to hold a header or is a message of another type.
pub open spec fn decode(family: Family, bytes: Seq<u8>) -> Option<EchoReply> {
    if bytes.len() >= ECHO_HEADER_LEN && bytes[0] == reply_type(family) {
        Some(
            EchoReply {
                identifier: join_octets(bytes[4], bytes[5]),
                sequence_number: join_octets(bytes[6], bytes[7]),
            },
        )
    } else {
        None
    }
}

/// Calls `pnet::util::checksum` on `packet` with the second 16-bit word, the
/// checksum field, skipped.
///
/// Trusted: that function adds up the 16-bit words of the message but the
/// skipped one, most significant octet first and an odd last octet as a high
/// octet, adds the carries back in until none is left, and returns the
/// complement of the low sixteen bits. It adds in 32 bits; on a message
/// whose payload is zero the sum stays below four times 65536, so the
/// addition cannot overflow.
#[verifier::external_body]
fn checksum(packet: &Vec<u8>) -> (sum: u16)
    requires
        packet@.len() >= ECHO_HEADER_LEN,
        forall|i: int| ECHO_HEADER_LEN <= i < packet@.len() ==> packet@[i] == 0,
    ensures
        sum == internet_checksum(packet@),
{
    pnet::util::checksum(packet.as_slice(), 1)
}

/// The message type of an echo request in `family`.
pub fn request_type_of(family: Family) -> (kind: u8)
    ensures
        kind == request_type(family),
{
    match family {
        Family::V4 => ICMP_ECHO_REQUEST,
        Family::V6 => ICMPV6_ECHO_REQUEST,
    }
}

/// The message type of an echo reply in `family`.
pub fn reply_type_of(family: Family) -> (kind: u8)
    ensures
        kind == reply_type(family),
{
    match family {
        Family::V4 => ICMP_ECHO_REPLY,
        Family::V6 => ICMPV6_ECHO_REPLY,
    }
}

/// Builds the echo request of `size` octets that carries `identifier` and
/// `sequence`: header first, then a payload of zeros.
///
/// `size` counts the whole message, header included, so it is at least
/// [`ECHO_HEADER_LEN`].
pub fn encode_request(family: Family, identifier: u16, sequence: u16, size: usize) -> (packet: Vec<
    u8,
>)
    requires
        size >= ECHO_HEADER_LEN,
    ensures
        packet@ == echo_request(family, identifier, sequence, size as nat),
{
    let mut packet: Vec<u8> = vec![0u8; size];
    packet.set(0, request_type_of(family));
    packet.set(4, (identifier / 0x100) as u8);
    packet.set(5, (identifier % 0x100) as u8);
    packet.set(6, (sequence / 0x100) as u8);
    packet.set(7, (sequence % 0x100) as u8);
    assert(packet@ =~= unsummed_request(family, identifier, sequence, size as nat));
    match family {
        Family::V4 => {
            let sum = checksum(&packet);
            packet.set(2, (sum / 0x100) as u8);
            packet.set(3, (sum % 0x100) as u8);
        },
        Family::V6 => {},
    }
    packet
}

/// Reads `bytes` as an echo reply of `family`.
///
/// A frame too short to hold a header, or of another message type, is no
/// reply: the answer is `None`, not an error.
pub fn decode_reply(family: Family, bytes: &[u8]) -> (reply: Option<EchoReply>)
    ensures
        reply == decode(family, bytes@),
{
    if bytes.len() < ECHO_HEADER_LEN {
        return None;
    }
    if bytes[0] != reply_type_of(family) {
        return None;
    }
    let identifier: u16 = (bytes[4] as u16) * 0x100 + (bytes[5] as u16);
    let sequence_number: u16 = (bytes[6] as u16) * 0x100 + (bytes[7] as u16);
    Some(EchoReply { identifier, sequence_number })
}

/// Splitting a number into two octets and joining them gives it back.
pub proof fn lemma_octets_round_trip(n: u16)
    ensures
        join_octets(high_octet(n), low_octet(n)) == n,
{
}

/// A host that answers an echo request sends the message back with the type
/// changed to echo reply (and the checksum set anew). Read as a reply, its
/// answer carries the identifier and the sequence number of the request.
pub proof fn lemma_answer_carries_request_numbers(
    family: Family,
    identifier: u16,
    sequence: u16,
    size: nat,
    sum: u16,
)
    requires
        size >= ECHO_HEADER_LEN,
    ensures
        decode(
            family,
            with_checksum(
                echo_request(family, identifier, sequence, size).update(0, reply_type(family)),
                sum,
            ),
        ) == Some(EchoReply { identifier, sequence_number: sequence }),
{
    lemma_octets_round_trip(identifier);
    lemma_octets_round_trip(sequence);
}

/// Adding the carries back in leaves a number of sixteen bits that differs
/// from the sum by a multiple of 65535, and that is zero only if the sum is.
pub proof fn lemma_fold_carries(sum: nat)
    ensures
        fold_carries(sum) < 0x1_0000,
        fold_carries(sum) % 0xFFFF == sum % 0xFFFF,
        sum > 0 ==> fold_carries(sum) > 0,
    decreases sum,
{
    if sum >= 0x1_0000 {
        let q = sum / 0x1_0000;
        let r = sum % 0x1_0000;
        assert(sum == 0x1_0000 * q + r);
        assert(sum == 0xFFFF * q + (q + r));
        lemma_fold_carries(q + r);
        assert((q + r) % 0xFFFF == sum % 0xFFFF) by {
            lemma_multiple_more(q + r, q);
        }
    }
}

/// Adding a multiple of 65535 changes nothing modulo 65535.
proof fn lemma_multiple_more(x: nat, q: nat)
    ensures
        (x + 0xFFFF * q) % 0xFFFF == x % 0xFFFF,
    decreases q,
{
    if q > 0 {
        lemma_multiple_more(x, (q - 1) as nat);
        assert(x + 0xFFFF * q == (x + 0xFFFF * (q - 1)) + 0xFFFF);
    }
}

/// Writing `sum` into an empty checksum field adds `sum` to the sum of the
/// words.
pub proof fn lemma_word_sum_with_checksum(packet: Seq<u8>, sum: u16)
    requires
        packet.len() >= 4,
        packet[2] == 0,
        packet[3] == 0,
    ensures
        word_sum(with_checksum(packet, sum)) == word_sum(packet) + sum,
{
    let summed = with_checksum(packet, sum);
    assert(summed.skip(2).skip(2) =~= packet.skip(2).skip(2));
    assert(summed.skip(2)[0] == high_octet(sum) && summed.skip(2)[1] == low_octet(sum));
    assert(packet.skip(2)[0] == 0 && packet.skip(2)[1] == 0);
    assert(summed[0] == packet[0] && summed[1] == packet[1]);
    lemma_octets_round_trip(sum);
    assert(word_sum(summed) == summed[0] as nat * 0x100 + summed[1] as nat + word_sum(
        summed.skip(2),
    ));
    assert(word_sum(summed.skip(2)) == summed.skip(2)[0] as nat * 0x100 + summed.skip(2)[1] as nat
        + word_sum(summed.skip(2).skip(2)));
    assert(word_sum(packet) == packet[0] as nat * 0x100 + packet[1] as nat + word_sum(
        packet.skip(2),
    ));
    assert(word_sum(packet.skip(2)) == packet.skip(2)[0] as nat * 0x100 + packet.skip(2)[1] as nat
        + word_sum(packet.skip(2).skip(2)));
}

/// An ICMP request is correctly summed. Its checksum field holds the
/// checksum of the message with that field taken as zero; and a receiver
/// that adds up all the words of the message, the checksum among them, gets
/// sixteen ones.
pub proof fn lemma_request_holds_its_checksum(identifier: u16, sequence: u16, size: nat)
    requires
        size >= ECHO_HEADER_LEN,
    ensures
        ({
            let packet = echo_request(Family::V4, identifier, sequence, size);
            &&& join_octets(packet[2], packet[3]) == internet_checksum(packet)
            &&& fold_carries(word_sum(packet)) == 0xFFFF
        }),
{
    let raw = unsummed_request(Family::V4, identifier, sequence, size);
    let packet = echo_request(Family::V4, identifier, sequence, size);
    assert(with_checksum(raw, 0) =~= raw);
    assert(with_checksum(packet, 0) =~= raw);
    let total = word_sum(raw);
    let folded = fold_carries(total);
    lemma_fold_carries(total);
    let sum = internet_checksum(raw);
    assert(sum == 0xFFFF - folded);
    assert(internet_checksum(packet) == sum);
    lemma_octets_round_trip(sum);
    lemma_word_sum_with_checksum(raw, sum);
    let all = word_sum(packet);
    assert(all == total + 0xFFFF - folded);
    lemma_fold_carries(all);
    assert(all % 0xFFFF == 0) by {
        lemma_same_remainder(total, folded);
    }
    assert(all > 0);
}

/// Two numbers with the same remainder differ by a multiple of 65535.
proof fn lemma_same_remainder(x: nat, y: nat)
    requires
        x % 0xFFFF == y % 0xFFFF,
        y <= 0xFFFF,
    ensures
        (x + 0xFFFF - y) % 0xFFFF == 0,
{
    let a = x / 0xFFFF;
    let b = y / 0xFFFF;
    let m = x % 0xFFFF;
    assert(x == 0xFFFF * a + m);
    assert(y == 0xFFFF * b + m);
    assert(x + 0xFFFF - y == 0xFFFF * (a + 1 - b));
    assert(a + 1 >= b);
    lemma_multiple_more(0, (a + 1 - b) as nat);
}

/// An echo request is never read as an echo reply, so a prober that hears
/// its own requests does not take them for answers.
pub proof fn lemma_request_is_no_reply(family: Family, identifier: u16, sequence: u16, size: nat)
    requires
        size >= ECHO_HEADER_LEN,
    ensures
        decode(family, echo_request(family, identifier, sequence, size)) is None,
{
    let raw = unsummed_request(family, identifier, sequence, size);
    assert(raw[0] == request_type(family));
    assert(echo_request(family, identifier, sequence, size)[0] == raw[0]);
}

} // verus!
