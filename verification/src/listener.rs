//! What a reply listener decides.
//!
//! One listener runs for each address family. Its driver reads datagrams from
//! the transport and forwards replies to the scheduler; what to do with each
//! thing that happens is decided here.

use vstd::prelude::*;
use crate::addr::{Address, Family};
use crate::codec::{decode, decode_reply, ECHO_HEADER_LEN};
use crate::ping::ReceivedPing;
use crate::time::TimeSpan;

verus! {

/// What can happen to a listener.
#[derive(Debug)]
pub enum ListenerEvent {
    /// The transport delivered the ICMP message `bytes` from `source`;
    /// `elapsed` is the time since the round's timer was armed.
    Packet { bytes: Vec<u8>, source: Address, elapsed: TimeSpan },
    /// Reading from the transport failed.
    ReadFailed,
    /// A reply could not be forwarded because the scheduler's end of the
    /// channel is gone; `stopping` is the stop flag at that moment.
    ForwardFailed { stopping: bool },
}

/// What the listener's driver is to do next.
#[derive(Clone, Copy, Debug, PartialEq, Eq, Structural)]
pub enum ListenerAction {
    /// Forward `reply` to the scheduler, then read on.
    Forward { reply: ReceivedPing },
    /// Say nothing and read on: the frame is too short to hold a header.
    Discard,
    /// Drop the message and read on: it came from `source` and is of type
    /// `kind`, which is not an echo reply of the listener's family. The
    /// driver may note that at debug level.
    DiscardOther { source: Address, kind: u8 },
    /// Log that reading failed, then read on.
    LogReadError,
    /// Log that forwarding failed, then read on.
    LogForwardError,
    /// Leave the loop without a word: the prober is shutting down.
    Exit,
}

/// The reply that a listener of `family` forwards for the message `bytes`
/// from `source`, if the message is an echo reply of that family. The
/// round-trip time is the time since the round began.
pub open spec fn heard(family: Family, bytes: Seq<u8>, source: Address, elapsed: TimeSpan) -> Option<
    ReceivedPing,
> {
    match decode(family, bytes) {
        Some(echo) => Some(
            ReceivedPing {
                addr: source,
                identifier: echo.identifier,
                sequence_number: echo.sequence_number,
                rtt: elapsed,
            },
        ),
        None => None,
    }
}

/// The action that answers `event`.
///
/// A message that is no echo reply of the listener's family is dropped: it
/// is no fault, and there is at most a note of its type. A failed read is
/// logged and the listener reads on. A reply that cannot be forwarded ends
/// the listener if the prober is stopping, and is logged otherwise.
pub open spec fn listener_action(family: Family, event: ListenerEvent) -> ListenerAction {
    match event {
        ListenerEvent::Packet { bytes, source, elapsed } => match heard(
            family,
            bytes@,
            source,
            elapsed,
        ) {
            Some(reply) => ListenerAction::Forward { reply },
            None => if bytes@.len() >= ECHO_HEADER_LEN {
                ListenerAction::DiscardOther { source, kind: bytes@[0] }
            } else {
                ListenerAction::Discard
            },
        },
        ListenerEvent::ReadFailed => ListenerAction::LogReadError,
        ListenerEvent::ForwardFailed { stopping } => if stopping {
            ListenerAction::Exit
        } else {
            ListenerAction::LogForwardError
        },
    }
}

/// Reads the message `bytes` from `source` as a listener of `family` does.
pub fn hear(family: Family, bytes: &[u8], source: Address, elapsed: TimeSpan) -> (reply: Option<
    ReceivedPing,
>)
    ensures
        reply == heard(family, bytes@, source, elapsed),
{
    match decode_reply(family, bytes) {
        Some(echo) => Some(
            ReceivedPing {
                addr: source,
                identifier: echo.identifier,
                sequence_number: echo.sequence_number,
                rtt: elapsed,
            },
        ),
        None => None,
    }
}

/// One step of a listener of `family`: the action that answers `event`.
pub fn listener_step(family: Family, event: &ListenerEvent) -> (action: ListenerAction)
    ensures
        action == listener_action(family, *event),
{
    match event {
        ListenerEvent::Packet { bytes, source, elapsed } => match hear(
            family,
            bytes.as_slice(),
            *source,
            *elapsed,
        ) {
            Some(reply) => ListenerAction::Forward { reply },
            None => if bytes.len() >= ECHO_HEADER_LEN {
                ListenerAction::DiscardOther { source: *source, kind: bytes[0] }
            } else {
                ListenerAction::Discard
            },
        },
        ListenerEvent::ReadFailed => ListenerAction::LogReadError,
        ListenerEvent::ForwardFailed { stopping } => if *stopping {
            ListenerAction::Exit
        } else {
            ListenerAction::LogForwardError
        },
    }
}

/// A listener leaves its loop only when forwarding failed while the prober
/// was stopping: no message, however malformed, and no failed read ends it.
pub proof fn lemma_listener_exits_only_when_stopping(family: Family, event: ListenerEvent)
    ensures
        listener_action(family, event) == ListenerAction::Exit <==> event
            == (ListenerEvent::ForwardFailed { stopping: true }),
{
}

/// A listener forwards nothing but echo replies of its own family, and what
/// it forwards names the sender and carries the numbers of the message.
pub proof fn lemma_listener_forwards_replies_only(
    family: Family,
    bytes: Vec<u8>,
    source: Address,
    elapsed: TimeSpan,
)
    ensures
        listener_action(family, ListenerEvent::Packet { bytes, source, elapsed }) matches ListenerAction::Forward {
            reply,
        } ==> {
            &&& decode(family, bytes@) matches Some(echo)
            &&& reply.addr == source
            &&& reply.identifier == echo.identifier
            &&& reply.sequence_number == echo.sequence_number
            &&& reply.rtt == elapsed
        },
        decode(family, bytes@) is None ==> !(listener_action(
            family,
            ListenerEvent::Packet { bytes, source, elapsed },
        ) is Forward),
{
}

} // verus!
