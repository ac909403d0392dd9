//! One target's probing state, the reply that a listener hands over, and the
//! request that goes out to a target.

use vstd::prelude::*;
use crate::addr::Address;
use crate::codec::{echo_request, encode_request, ECHO_HEADER_LEN};
use crate::time::TimeSpan;

verus! {

/// A target and the state by which its replies are recognised.
///
/// `identifier` is drawn at random when the target is made. `sequence_number`
/// counts the requests sent to it and is the number that the latest request
/// carried. `seen` says whether the current round has had a reply from it.
#[derive(Clone, Copy, Debug, PartialEq, Eq, Structural)]
pub struct Ping {
    pub addr: Address,
    pub identifier: u16,
    pub sequence_number: u16,
    pub seen: bool,
}

/// An echo reply as a listener read it: who sent it, the two numbers it
/// carried, and the time from the start of the round to its arrival.
#[derive(Clone, Copy, Debug, PartialEq, Eq, Structural)]
pub struct ReceivedPing {
    pub addr: Address,
    pub identifier: u16,
    pub sequence_number: u16,
    pub rtt: TimeSpan,
}

/// A reply that came from the address of a target but does not answer the
/// target's latest request: `expected` is the state of the target, `got` is
/// the reply, and the two differ in the identifier or the sequence number.
#[derive(Clone, Copy, Debug, PartialEq, Eq, Structural)]
pub struct Mismatch {
    pub expected: Ping,
    pub got: ReceivedPing,
}

/// An encoded echo request and the address it is to be sent to.
#[derive(Debug)]
pub struct EchoRequest {
    pub addr: Address,
    pub packet: Vec<u8>,
}

/// An [`EchoRequest`] as a value: its address and its octets.
pub struct EchoRequestView {
    pub addr: Address,
    pub packet: Seq<u8>,
}

impl View for EchoRequest {
    type V = EchoRequestView;

    open spec fn view(&self) -> EchoRequestView {
        EchoRequestView { addr: self.addr, packet: self.packet@ }
    }
}

/// The sequence number after `n`. The field is sixteen bits wide on the wire,
/// so the number after 65535 is 0.
pub open spec fn next_sequence(n: u16) -> u16 {
    if n == u16::MAX {
        0
    } else {
        (n + 1) as u16
    }
}

/// Calls `rand::random::<u16>()`.
///
/// Trusted, and nothing is claimed of the number: any of the 65536 values may
/// come back, and two calls may differ. The generator stops the program if
/// the operating system gives it no seed.
#[verifier::external_body]
fn random_identifier() -> (identifier: u16) {
    rand::random::<u16>()
}

impl Ping {
    /// The state of a target that was just registered under `identifier`: no
    /// request sent, no reply seen.
    pub open spec fn fresh(addr: Address, identifier: u16) -> Ping {
        Ping { addr, identifier, sequence_number: 0, seen: false }
    }

    /// The state after one more request has gone out: the sequence number has
    /// moved on and the round has seen no reply yet.
    pub open spec fn probed(self) -> Ping {
        Ping { sequence_number: next_sequence(self.sequence_number), seen: false, ..self }
    }

    /// The state once a reply of this round has been accepted.
    pub open spec fn answered(self) -> Ping {
        Ping { seen: true, ..self }
    }

    /// Whether `reply` answers the latest request to this target: address,
    /// identifier and sequence number must all agree.
    pub open spec fn matches(self, reply: ReceivedPing) -> bool {
        &&& self.addr == reply.addr
        &&& self.identifier == reply.identifier
        &&& self.sequence_number == reply.sequence_number
    }

    /// The request that carries this target's identifier and sequence number,
    /// `size` octets long.
    pub open spec fn request(self, size: nat) -> EchoRequestView {
        EchoRequestView {
            addr: self.addr,
            packet: echo_request(
                self.addr.spec_family(),
                self.identifier,
                self.sequence_number,
                size,
            ),
        }
    }

    /// A new target for `addr` with an identifier drawn at random.
    pub fn new(addr: Address) -> (ping: Ping)
        ensures
            ping == Ping::fresh(addr, ping.identifier),
    {
        Ping::with_identifier(addr, random_identifier())
    }

    /// A new target for `addr` with the given identifier.
    pub fn with_identifier(addr: Address, identifier: u16) -> (ping: Ping)
        ensures
            ping == Ping::fresh(addr, identifier),
    {
        Ping { addr, identifier, sequence_number: 0, seen: false }
    }

    /// The address of the target.
    pub fn get_addr(&self) -> (addr: Address)
        ensures
            addr == self.addr,
    {
        self.addr
    }

    /// The identifier that the target's requests carry.
    pub fn get_identifier(&self) -> (identifier: u16)
        ensures
            identifier == self.identifier,
    {
        self.identifier
    }

    /// The sequence number that the latest request to the target carried.
    pub fn get_sequence_number(&self) -> (sequence_number: u16)
        ensures
            sequence_number == self.sequence_number,
    {
        self.sequence_number
    }

    /// Moves the sequence number on by one and returns the new number.
    pub fn increment_sequence_number(&mut self) -> (sequence_number: u16)
        ensures
            sequence_number == next_sequence(old(self).sequence_number),
            *final(self) == (Ping { sequence_number, ..*old(self) }),
    {
        if self.sequence_number == u16::MAX {
            self.sequence_number = 0;
        } else {
            self.sequence_number = self.sequence_number + 1;
        }
        self.sequence_number
    }

    /// Whether `reply` answers the latest request to this target.
    pub fn accepts(&self, reply: &ReceivedPing) -> (yes: bool)
        ensures
            yes == self.matches(*reply),
    {
        self.addr == reply.addr && self.identifier == reply.identifier && self.sequence_number
            == reply.sequence_number
    }

    /// Prepares the next request to this target: moves the sequence number
    /// on, forgets any reply seen before, and encodes a request of `size`
    /// octets that carries the identifier and the new sequence number.
    pub fn next_request(&mut self, size: usize) -> (request: EchoRequest)
        requires
            size >= ECHO_HEADER_LEN,
        ensures
            *final(self) == old(self).probed(),
            request@ == old(self).probed().request(size as nat),
    {
        let sequence_number = self.increment_sequence_number();
        self.seen = false;
        let packet = encode_request(self.addr.family(), self.identifier, sequence_number, size);
        EchoRequest { addr: self.addr, packet }
    }
}

} // verus!
