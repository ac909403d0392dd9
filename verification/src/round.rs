//! One probing round as a value: what the send phase does to the registry,
//! which replies the wait phase accepts, what the report phase says, and the
//! laws that hold of a whole round.
//!
//! Everything here speaks of the registry as the sequence of its entries in
//! address order.

use vstd::prelude::*;
use crate::addr::Address;
use crate::codec::{
    lemma_answer_carries_request_numbers, reply_type, with_checksum, ECHO_HEADER_LEN,
};
use crate::listener::heard;
use crate::ping::{EchoRequestView, Mismatch, Ping, ReceivedPing};
use crate::time::TimeSpan;
use crate::registry::{ascending, entry_map, holds, lemma_entry_at, position};
use crate::PingResult;

verus! {

/// The step that the send phase takes on one target.
pub open spec fn probe() -> spec_fn(Ping) -> Ping {
    |p: Ping| p.probed()
}

/// The request that goes out to a target, `size` octets long.
pub open spec fn request_of(size: nat) -> spec_fn(Ping) -> EchoRequestView {
    |p: Ping| p.request(size)
}

/// The step that a reply makes a target take: the one target it answers
/// counts as seen from then on, every other stays as it is.
pub open spec fn take_reply(reply: ReceivedPing) -> spec_fn(Ping) -> Ping {
    |p: Ping|
        if p.matches(reply) {
            p.answered()
        } else {
            p
        }
}

/// Whether a target has had no reply in this round.
pub open spec fn unseen() -> spec_fn(Ping) -> bool {
    |p: Ping| !p.seen
}

/// The report on a target that has had no reply.
pub open spec fn idle_of() -> spec_fn(Ping) -> PingResult {
    |p: Ping| PingResult::Idle { addr: p.addr }
}

/// Whether a reply answers the latest request to `p`.
pub open spec fn answering(p: Ping) -> spec_fn(ReceivedPing) -> bool {
    |reply: ReceivedPing| p.matches(reply)
}

/// Whether a result says that `addr` was idle.
pub open spec fn idle_about(addr: Address) -> spec_fn(PingResult) -> bool {
    |o: PingResult| o == (PingResult::Idle { addr })
}

/// Whether a result says that a reply from `addr` was received.
pub open spec fn receive_about(addr: Address) -> spec_fn(PingResult) -> bool {
    |o: PingResult| o is Receive && o.spec_addr() == addr
}

/// The registry after the send phase: every target has taken one step.
pub open spec fn after_send(t: Seq<Ping>) -> Seq<Ping> {
    t.map_values(probe())
}

/// The requests of a round, one for each target of the registry `t` as the
/// send phase left it, in address order.
pub open spec fn requests(t: Seq<Ping>, size: nat) -> Seq<EchoRequestView> {
    t.map_values(request_of(size))
}

/// Whether `reply` answers the latest request to a target of the registry:
/// there is a target of that address whose identifier and sequence number
/// are those of the reply.
pub open spec fn matched(t: Seq<Ping>, reply: ReceivedPing) -> bool {
    exists|i: int| 0 <= i < t.len() && #[trigger] t[i].matches(reply)
}

/// Whether the registry accepts `reply`: it answers the latest request to a
/// target, and it is the first reply of the round to do so. A reply to a
/// target that has been heard in this round is a repetition and is not
/// accepted.
pub open spec fn accepted(t: Seq<Ping>, reply: ReceivedPing) -> bool {
    exists|i: int| 0 <= i < t.len() && #[trigger] t[i].matches(reply) && !t[i].seen
}

/// The registry after `reply` was handed over in the wait phase.
pub open spec fn after_reply(t: Seq<Ping>, reply: ReceivedPing) -> Seq<Ping> {
    t.map_values(take_reply(reply))
}

/// What the wait phase emits for `reply`: a `Receive` if the registry
/// accepts it, nothing otherwise.
pub open spec fn reply_outcome(t: Seq<Ping>, reply: ReceivedPing) -> Option<PingResult> {
    if accepted(t, reply) {
        Some(PingResult::Receive { addr: reply.addr, rtt: reply.rtt })
    } else {
        None
    }
}

/// What there is to note of a reply that is dropped because it does not
/// carry its sender's numbers: the sender is a target, but the identifier or
/// the sequence number of the reply is not the target's. It may be the
/// answer to a request of an earlier round, or no answer to this prober at
/// all. Nothing is noted of a reply from a stranger, nor of a repetition.
pub open spec fn reply_mismatch(t: Seq<Ping>, reply: ReceivedPing) -> Option<Mismatch> {
    if holds(t, reply.addr) && !entry_map(t)[reply.addr].matches(reply) {
        Some(Mismatch { expected: entry_map(t)[reply.addr], got: reply })
    } else {
        None
    }
}

/// What the report phase emits: an `Idle` for each target that has had no
/// reply, in address order.
pub open spec fn idle_outcomes(t: Seq<Ping>) -> Seq<PingResult> {
    t.filter(unseen()).map_values(idle_of())
}

/// The registry after the replies `replies` were handed over in turn.
pub open spec fn after_replies(t: Seq<Ping>, replies: Seq<ReceivedPing>) -> Seq<Ping>
    decreases replies.len(),
{
    if replies.len() == 0 {
        t
    } else {
        after_reply(after_replies(t, replies.drop_last()), replies.last())
    }
}

/// What the wait phase emits while the replies `replies` are handed over in
/// turn.
pub open spec fn receive_outcomes(t: Seq<Ping>, replies: Seq<ReceivedPing>) -> Seq<PingResult>
    decreases replies.len(),
{
    if replies.len() == 0 {
        Seq::empty()
    } else {
        let earlier = receive_outcomes(t, replies.drop_last());
        match reply_outcome(after_replies(t, replies.drop_last()), replies.last()) {
            Some(outcome) => earlier.push(outcome),
            None => earlier,
        }
    }
}

/// Everything that a round emits, in order: `t` is the registry as the send
/// phase left it, `replies` are the replies handed over in the wait phase,
/// and the report follows.
pub open spec fn round_outcomes(t: Seq<Ping>, replies: Seq<ReceivedPing>) -> Seq<PingResult> {
    receive_outcomes(t, replies) + idle_outcomes(after_replies(t, replies))
}

/// How many of `replies` answer the latest request to `p`.
pub open spec fn answers(p: Ping, replies: Seq<ReceivedPing>) -> nat {
    replies.filter(answering(p)).len()
}

/// How many of `outcomes` say that `addr` was idle.
pub open spec fn idle_count(outcomes: Seq<PingResult>, addr: Address) -> nat {
    outcomes.filter(idle_about(addr)).len()
}

/// How many of `outcomes` say that a reply from `addr` was received.
pub open spec fn receive_count(outcomes: Seq<PingResult>, addr: Address) -> nat {
    outcomes.filter(receive_about(addr)).len()
}

/// One if the target `p` gets a `Receive` from a wait phase in which
/// `replies` are handed over, and zero if it gets none: it gets one exactly
/// if it had not been heard before and one of the replies answers it.
pub open spec fn heard_count(p: Ping, replies: Seq<ReceivedPing>) -> nat {
    if !p.seen && answers(p, replies) > 0 {
        1
    } else {
        0
    }
}

/// Whether no target of `t` counts as seen.
pub open spec fn all_unseen(t: Seq<Ping>) -> bool {
    forall|i: int| 0 <= i < t.len() ==> !(#[trigger] t[i]).seen
}

// ---------------------------------------------------------------------------
// Counting in sequences that grow at the end.
// ---------------------------------------------------------------------------
proof fn lemma_count_empty<A>(pred: spec_fn(A) -> bool)
    ensures
        Seq::<A>::empty().filter(pred).len() == 0,
{
    Seq::<A>::empty().lemma_filter_len(pred);
}

proof fn lemma_count_push<A>(s: Seq<A>, x: A, pred: spec_fn(A) -> bool)
    ensures
        s.push(x).filter(pred).len() == s.filter(pred).len() + (if pred(x) {
            1int
        } else {
            0int
        }),
{
    s.lemma_filter_push(x, pred);
}

proof fn lemma_count_none<A>(s: Seq<A>, pred: spec_fn(A) -> bool)
    requires
        forall|i: int| 0 <= i < s.len() ==> !pred(#[trigger] s[i]),
    ensures
        s.filter(pred).len() == 0,
    decreases s.len(),
{
    if s.len() == 0 {
        assert(s =~= Seq::<A>::empty());
        lemma_count_empty(pred);
    } else {
        let front = s.drop_last();
        assert forall|i: int| 0 <= i < front.len() implies !pred(#[trigger] front[i]) by {
            assert(front[i] == s[i]);
        }
        lemma_count_none(front, pred);
        assert(s =~= front.push(s.last()));
        lemma_count_push(front, s.last(), pred);
    }
}

proof fn lemma_count_some<A>(s: Seq<A>, pred: spec_fn(A) -> bool, i: int)
    requires
        0 <= i < s.len(),
        pred(s[i]),
    ensures
        s.filter(pred).len() > 0,
    decreases s.len(),
{
    let front = s.drop_last();
    assert(s =~= front.push(s.last()));
    lemma_count_push(front, s.last(), pred);
    if i < s.len() - 1 {
        assert(front[i] == s[i]);
        lemma_count_some(front, pred, i);
    }
}

proof fn lemma_count_all<A>(s: Seq<A>, pred: spec_fn(A) -> bool)
    requires
        forall|i: int| 0 <= i < s.len() ==> pred(#[trigger] s[i]),
    ensures
        s.filter(pred).len() == s.len(),
    decreases s.len(),
{
    if s.len() == 0 {
        assert(s =~= Seq::<A>::empty());
        lemma_count_empty(pred);
    } else {
        let front = s.drop_last();
        assert forall|i: int| 0 <= i < front.len() implies pred(#[trigger] front[i]) by {
            assert(front[i] == s[i]);
        }
        lemma_count_all(front, pred);
        assert(s =~= front.push(s.last()));
        lemma_count_push(front, s.last(), pred);
    }
}

proof fn lemma_count_update<A>(s: Seq<A>, i: int, x: A, pred: spec_fn(A) -> bool)
    requires
        0 <= i < s.len(),
    ensures
        s.update(i, x).filter(pred).len() + (if pred(s[i]) {
            1int
        } else {
            0int
        }) == s.filter(pred).len() + (if pred(x) {
            1int
        } else {
            0int
        }),
    decreases s.len(),
{
    let front = s.drop_last();
    assert(s =~= front.push(s.last()));
    lemma_count_push(front, s.last(), pred);
    if i == s.len() - 1 {
        assert(s.update(i, x) =~= front.push(x));
        lemma_count_push(front, x, pred);
    } else {
        assert(front[i] == s[i]);
        assert(s.update(i, x) =~= front.update(i, x).push(s.last()));
        lemma_count_push(front.update(i, x), s.last(), pred);
        lemma_count_update(front, i, x, pred);
    }
}

// ---------------------------------------------------------------------------
// The phases, one step at a time.
// ---------------------------------------------------------------------------
/// The report on a registry that grew by one entry at the end.
pub proof fn lemma_idle_outcomes_push(t: Seq<Ping>, p: Ping)
    ensures
        idle_outcomes(t.push(p)) == (if p.seen {
            idle_outcomes(t)
        } else {
            idle_outcomes(t).push(PingResult::Idle { addr: p.addr })
        }),
{
    t.lemma_filter_push(p, unseen());
    if !p.seen {
        assert(t.filter(unseen()).push(p).map_values(idle_of()) =~= t.filter(
            unseen(),
        ).map_values(idle_of()).push(PingResult::Idle { addr: p.addr }));
    }
}

/// The report on an empty registry is empty.
pub proof fn lemma_idle_outcomes_empty()
    ensures
        idle_outcomes(Seq::<Ping>::empty()) == Seq::<PingResult>::empty(),
{
    lemma_count_empty(unseen());
    assert(idle_outcomes(Seq::<Ping>::empty()) =~= Seq::<PingResult>::empty());
}

/// The send phase keeps the registry in order, keeps every address and
/// identifier, moves every sequence number on by one, and leaves no target
/// seen.
pub proof fn lemma_send_phase(t: Seq<Ping>)
    requires
        ascending(t),
    ensures
        ascending(after_send(t)),
        all_unseen(after_send(t)),
        after_send(t).len() == t.len(),
        forall|i: int| 0 <= i < t.len() ==> #[trigger] after_send(t)[i] == t[i].probed(),
{
}

/// A reply changes no address, identifier or sequence number, so it keeps
/// the registry in order and leaves it as ready for the next reply as it was.
pub proof fn lemma_reply_keeps_identity(t: Seq<Ping>, reply: ReceivedPing)
    ensures
        after_reply(t, reply).len() == t.len(),
        forall|i: int|
            0 <= i < t.len() ==> {
                let now = #[trigger] after_reply(t, reply)[i];
                &&& now.addr == t[i].addr
                &&& now.identifier == t[i].identifier
                &&& now.sequence_number == t[i].sequence_number
                &&& now.seen == (t[i].seen || t[i].matches(reply))
            },
        ascending(t) ==> ascending(after_reply(t, reply)),
{
    let t2 = after_reply(t, reply);
    if ascending(t) {
        assert forall|i: int, j: int| 0 <= i < j < t2.len() implies t2[i].addr.rank()
            < t2[j].addr.rank() by {
            assert(t2[i].addr == t[i].addr && t2[j].addr == t[j].addr);
        }
    }
}

/// Correlation goes by the registry's entry for the reply's address: a
/// reply is accepted exactly if that address is registered, the entry's
/// identifier and sequence number are those of the reply, and the entry has
/// not been heard in this round.
pub proof fn lemma_accepted_by_lookup(t: Seq<Ping>, reply: ReceivedPing)
    requires
        ascending(t),
    ensures
        matched(t, reply) <==> (holds(t, reply.addr) && entry_map(t)[reply.addr].matches(reply)),
        accepted(t, reply) <==> (holds(t, reply.addr) && entry_map(t)[reply.addr].matches(reply)
            && !entry_map(t)[reply.addr].seen),
{
    if matched(t, reply) {
        let i = choose|i: int| 0 <= i < t.len() && #[trigger] t[i].matches(reply);
        lemma_entry_at(t, i);
    }
    if accepted(t, reply) {
        let i = choose|i: int| 0 <= i < t.len() && #[trigger] t[i].matches(reply) && !t[i].seen;
        lemma_entry_at(t, i);
    }
    if holds(t, reply.addr) && entry_map(t)[reply.addr].matches(reply) {
        let k = position(t, reply.addr);
        assert(0 <= k < t.len() && t[k].addr == reply.addr);
        assert(t[k].matches(reply));
    }
}

/// A reply of which a mismatch is noted is dropped: it is not received and
/// it changes nothing.
pub proof fn lemma_mismatch_is_dropped(t: Seq<Ping>, reply: ReceivedPing)
    requires
        ascending(t),
        reply_mismatch(t, reply) is Some,
    ensures
        reply_outcome(t, reply) is None,
        after_reply(t, reply) == t,
{
    lemma_accepted_by_lookup(t, reply);
    lemma_reply_marks_one(t, reply);
}

/// An accepted reply marks the one target it answers and nothing else; a
/// reply that is not accepted changes nothing.
pub proof fn lemma_reply_marks_one(t: Seq<Ping>, reply: ReceivedPing)
    requires
        ascending(t),
    ensures
        accepted(t, reply) ==> {
            let i = position(t, reply.addr);
            &&& 0 <= i < t.len()
            &&& t[i].matches(reply)
            &&& !t[i].seen
            &&& after_reply(t, reply) == t.update(i, t[i].answered())
        },
        !accepted(t, reply) ==> after_reply(t, reply) == t,
{
    let t2 = after_reply(t, reply);
    if matched(t, reply) {
        let i = choose|i: int| 0 <= i < t.len() && #[trigger] t[i].matches(reply);
        lemma_entry_at(t, i);
        assert forall|j: int| 0 <= j < t.len() && j != i implies !t[j].matches(reply) by {
            if t[j].matches(reply) {
                lemma_entry_at(t, j);
            }
        }
        assert(t2 =~= t.update(i, t[i].answered()));
        if t[i].seen {
            assert(t[i].answered() == t[i]);
            assert(t2 =~= t);
        }
    } else {
        assert(t2 =~= t);
    }
}

/// The answer to a round's request is attributed to the target it came from.
///
/// Let `t` be the registry as the send phase left it and take the request
/// of one of its targets that has not been heard yet. A host that answers
/// sends the message back with the type changed to echo reply and the
/// checksum set anew. The listener of the target's family forwards that
/// answer, and the registry accepts what it forwards: the round emits a
/// `Receive` that names the target and carries the time the listener
/// measured.
pub proof fn lemma_answer_is_accepted(
    t: Seq<Ping>,
    k: int,
    size: nat,
    sum: u16,
    elapsed: TimeSpan,
)
    requires
        0 <= k < t.len(),
        !t[k].seen,
        size >= ECHO_HEADER_LEN,
    ensures
        ({
            let family = t[k].addr.spec_family();
            let answer = with_checksum(
                t[k].request(size).packet.update(0, reply_type(family)),
                sum,
            );
            &&& heard(family, answer, t[k].addr, elapsed) matches Some(reply)
            &&& t[k].matches(reply)
            &&& reply_outcome(t, reply) == Some(
                PingResult::Receive { addr: t[k].addr, rtt: elapsed },
            )
            &&& after_reply(t, reply)[k].seen
        }),
{
    let family = t[k].addr.spec_family();
    lemma_answer_carries_request_numbers(
        family,
        t[k].identifier,
        t[k].sequence_number,
        size,
        sum,
    );
    let answer = with_checksum(t[k].request(size).packet.update(0, reply_type(family)), sum);
    let reply = heard(family, answer, t[k].addr, elapsed)->0;
    assert(t[k].matches(reply));
}

/// A reply that answers a target's request of the round before is not
/// accepted in this round: the send phase has moved the sequence number on,
/// and the number after a sequence number is never that number itself.
pub proof fn lemma_stale_reply_is_dropped(t: Seq<Ping>, reply: ReceivedPing)
    requires
        ascending(t),
    ensures
        matched(t, reply) ==> !matched(after_send(t), reply),
        matched(t, reply) ==> reply_outcome(after_send(t), reply) is None,
        matched(t, reply) ==> after_reply(after_send(t), reply) == after_send(t),
{
    let sent = after_send(t);
    if matched(t, reply) {
        lemma_send_phase(t);
        let i = choose|i: int| 0 <= i < t.len() && #[trigger] t[i].matches(reply);
        if matched(sent, reply) {
            let j = choose|j: int| 0 <= j < sent.len() && #[trigger] sent[j].matches(reply);
            assert(sent[j] == t[j].probed());
            lemma_entry_at(t, i);
            lemma_entry_at(t, j);
            assert(i == j);
        }
        if accepted(sent, reply) {
            let j = choose|j: int|
                0 <= j < sent.len() && #[trigger] sent[j].matches(reply) && !sent[j].seen;
            assert(sent[j].matches(reply));
        }
        lemma_reply_marks_one(sent, reply);
    }
}

// ---------------------------------------------------------------------------
// The wait phase as a whole.
// ---------------------------------------------------------------------------
/// However many replies were handed over, every target is the one it was:
/// only `seen` may have changed, and it is set exactly if the target was
/// seen before or one of the replies answers it.
pub proof fn lemma_after_replies(t: Seq<Ping>, replies: Seq<ReceivedPing>)
    ensures
        after_replies(t, replies).len() == t.len(),
        forall|i: int|
            0 <= i < t.len() ==> {
                let now = #[trigger] after_replies(t, replies)[i];
                &&& now.addr == t[i].addr
                &&& now.identifier == t[i].identifier
                &&& now.sequence_number == t[i].sequence_number
                &&& now.seen == (t[i].seen || answers(t[i], replies) > 0)
            },
        ascending(t) ==> ascending(after_replies(t, replies)),
        forall|reply: ReceivedPing|
            matched(after_replies(t, replies), reply) <==> matched(t, reply),
    decreases replies.len(),
{
    let now = after_replies(t, replies);
    if replies.len() == 0 {
        assert(replies =~= Seq::<ReceivedPing>::empty());
        assert forall|i: int| 0 <= i < t.len() implies answers(t[i], replies) == 0 by {
            lemma_count_empty(answering(t[i]));
        }
    } else {
        let front = replies.drop_last();
        let last = replies.last();
        let mid = after_replies(t, front);
        lemma_after_replies(t, front);
        lemma_reply_keeps_identity(mid, last);
        assert(replies =~= front.push(last));
        assert forall|i: int| 0 <= i < t.len() implies {
            let e = #[trigger] now[i];
            &&& e.addr == t[i].addr
            &&& e.identifier == t[i].identifier
            &&& e.sequence_number == t[i].sequence_number
            &&& e.seen == (t[i].seen || answers(t[i], replies) > 0)
        } by {
            lemma_count_push(front, last, answering(t[i]));
            assert(now[i] == after_reply(mid, last)[i]);
            assert(mid[i].matches(last) == t[i].matches(last));
        }
    }
    assert forall|reply: ReceivedPing| matched(now, reply) <==> matched(t, reply) by {
        if matched(now, reply) {
            let i = choose|i: int| 0 <= i < now.len() && #[trigger] now[i].matches(reply);
            assert(t[i].matches(reply));
        }
        if matched(t, reply) {
            let i = choose|i: int| 0 <= i < t.len() && #[trigger] t[i].matches(reply);
            assert(now[i].matches(reply));
        }
    }
    if ascending(t) {
        assert forall|i: int, j: int| 0 <= i < j < now.len() implies now[i].addr.rank()
            < now[j].addr.rank() by {
            assert(now[i].addr == t[i].addr && now[j].addr == t[j].addr);
        }
    }
}

/// No reply answers a target exactly if the count of its answers is zero.
pub proof fn lemma_answers_zero(p: Ping, replies: Seq<ReceivedPing>)
    ensures
        answers(p, replies) == 0 <==> forall|j: int|
            0 <= j < replies.len() ==> !p.matches(#[trigger] replies[j]),
{
    if forall|j: int| 0 <= j < replies.len() ==> !p.matches(#[trigger] replies[j]) {
        assert forall|j: int| 0 <= j < replies.len() implies !answering(p)(
            #[trigger] replies[j],
        ) by {}
        lemma_count_none(replies, answering(p));
    } else {
        let j = choose|j: int| 0 <= j < replies.len() && p.matches(#[trigger] replies[j]);
        lemma_count_some(replies, answering(p), j);
    }
}

/// The wait phase emits `Receive` results only, and for a registered target
/// one at most: one if a reply answers it and it had not been heard before,
/// however often it is answered, and none otherwise.
pub proof fn lemma_receive_outcomes(t: Seq<Ping>, replies: Seq<ReceivedPing>)
    requires
        ascending(t),
    ensures
        forall|addr: Address| idle_count(receive_outcomes(t, replies), addr) == 0,
        forall|k: int|
            0 <= k < t.len() ==> receive_count(receive_outcomes(t, replies), (#[trigger] t[k]).addr)
                == heard_count(t[k], replies),
        forall|addr: Address|
            !holds(t, addr) ==> receive_count(receive_outcomes(t, replies), addr) == 0,
    decreases replies.len(),
{
    let out = receive_outcomes(t, replies);
    if replies.len() == 0 {
        assert(replies =~= Seq::<ReceivedPing>::empty());
        assert forall|addr: Address|
            idle_count(out, addr) == 0 && receive_count(out, addr) == 0 by {
            lemma_count_empty(idle_about(addr));
            lemma_count_empty(receive_about(addr));
        }
        assert forall|k: int| 0 <= k < t.len() implies answers((#[trigger] t[k]), replies)
            == 0 by {
            lemma_count_empty(answering(t[k]));
        }
    } else {
        let front = replies.drop_last();
        let last = replies.last();
        let earlier = receive_outcomes(t, front);
        lemma_receive_outcomes(t, front);
        lemma_after_replies(t, front);
        assert(replies =~= front.push(last));
        let mid = after_replies(t, front);
        let receive = PingResult::Receive { addr: last.addr, rtt: last.rtt };
        assert forall|addr: Address| idle_count(out, addr) == 0 by {
            lemma_count_push(earlier, receive, idle_about(addr));
            assert(!idle_about(addr)(receive));
            assert(idle_count(earlier, addr) == 0);
        }
        assert forall|k: int| 0 <= k < t.len() implies receive_count(
            out,
            (#[trigger] t[k]).addr,
        ) == heard_count(t[k], replies) by {
            lemma_count_push(front, last, answering(t[k]));
            lemma_count_push(earlier, receive, receive_about(t[k].addr));
            assert(receive_about(t[k].addr)(receive) == (last.addr == t[k].addr));
            assert(answering(t[k])(last) == t[k].matches(last));
            assert(receive_count(earlier, t[k].addr) == heard_count(t[k], front));
            assert(mid[k].seen == (t[k].seen || answers(t[k], front) > 0));
            if accepted(mid, last) && last.addr == t[k].addr {
                let i = choose|i: int|
                    0 <= i < mid.len() && #[trigger] mid[i].matches(last) && !mid[i].seen;
                assert(mid[i].addr == t[i].addr);
                lemma_entry_at(t, i);
                lemma_entry_at(t, k);
                assert(i == k);
            }
            if t[k].matches(last) && !mid[k].seen {
                assert(mid[k].matches(last));
                assert(accepted(mid, last));
            }
        }
        assert forall|addr: Address| !holds(t, addr) implies receive_count(out, addr) == 0 by {
            lemma_count_push(earlier, receive, receive_about(addr));
            assert(receive_about(addr)(receive) == (last.addr == addr));
            assert(receive_count(earlier, addr) == 0);
            if accepted(mid, last) && last.addr == addr {
                let i = choose|i: int|
                    0 <= i < mid.len() && #[trigger] mid[i].matches(last) && !mid[i].seen;
                assert(mid[i].addr == t[i].addr);
                assert(t[i].addr == addr);
            }
        }
    }
}

/// The report phase emits `Idle` results only: one for each registered
/// target that has had no reply, and none for anyone else.
pub proof fn lemma_idle_outcomes(t: Seq<Ping>)
    requires
        ascending(t),
    ensures
        forall|addr: Address| receive_count(idle_outcomes(t), addr) == 0,
        forall|k: int|
            0 <= k < t.len() ==> idle_count(idle_outcomes(t), (#[trigger] t[k]).addr) == (if t[k].seen {
                0int
            } else {
                1int
            }),
        forall|addr: Address| !holds(t, addr) ==> idle_count(idle_outcomes(t), addr) == 0,
    decreases t.len(),
{
    let out = idle_outcomes(t);
    if t.len() == 0 {
        assert(t =~= Seq::<Ping>::empty());
        lemma_idle_outcomes_empty();
        assert forall|addr: Address|
            idle_count(out, addr) == 0 && receive_count(out, addr) == 0 by {
            lemma_count_empty(idle_about(addr));
            lemma_count_empty(receive_about(addr));
        }
    } else {
        let front = t.drop_last();
        let last = t.last();
        let earlier = idle_outcomes(front);
        assert(t =~= front.push(last));
        assert(ascending(front)) by {
            assert forall|i: int, j: int| 0 <= i < j < front.len() implies front[i].addr.rank()
                < front[j].addr.rank() by {
                assert(front[i] == t[i] && front[j] == t[j]);
            }
        }
        lemma_idle_outcomes(front);
        lemma_idle_outcomes_push(front, last);
        let idle = PingResult::Idle { addr: last.addr };
        assert(!holds(front, last.addr)) by {
            if holds(front, last.addr) {
                let k = position(front, last.addr);
                assert(0 <= k < front.len() && front[k].addr == last.addr);
                assert(t[k].addr.rank() < t[t.len() - 1].addr.rank());
            }
        }
        assert forall|addr: Address| receive_count(out, addr) == 0 by {
            lemma_count_push(earlier, idle, receive_about(addr));
            assert(!receive_about(addr)(idle));
            assert(receive_count(earlier, addr) == 0);
        }
        assert forall|k: int| 0 <= k < t.len() implies idle_count(out, (#[trigger] t[k]).addr) == (
        if t[k].seen {
            0int
        } else {
            1int
        }) by {
            lemma_count_push(earlier, idle, idle_about(t[k].addr));
            assert(idle_about(t[k].addr)(idle) == (last.addr == t[k].addr));
            if k < t.len() - 1 {
                assert(front[k] == t[k]);
                assert(t[k].addr.rank() < t[t.len() - 1].addr.rank());
                assert(idle_count(earlier, front[k].addr) == (if front[k].seen {
                    0int
                } else {
                    1int
                }));
            } else {
                assert(idle_count(earlier, last.addr) == 0);
            }
        }
        assert forall|addr: Address| !holds(t, addr) implies idle_count(out, addr) == 0 by {
            lemma_count_push(earlier, idle, idle_about(addr));
            assert(t[t.len() - 1].addr != addr);
            assert(idle_about(addr)(idle) == (last.addr == addr));
            if holds(front, addr) {
                let k = position(front, addr);
                assert(0 <= k < front.len() && front[k].addr == addr);
                assert(t[k].addr == addr);
            }
        }
    }
}

// ---------------------------------------------------------------------------
// Laws of a round.
// ---------------------------------------------------------------------------
/// What a round says about one registered target.
///
/// Let `t` be the registry as the send phase left it, and let any replies
/// whatever be handed over in the wait phase, the same one as often as the
/// network pleases. Then the round emits exactly one result about the
/// target: one `Receive` and no `Idle` if a reply answers its latest
/// request, one `Idle` and no `Receive` if none does. A target is never
/// reported twice, never both as heard and as idle, and never passed over.
pub proof fn lemma_round_reports_target(t: Seq<Ping>, replies: Seq<ReceivedPing>, k: int)
    requires
        ascending(t),
        all_unseen(t),
        0 <= k < t.len(),
    ensures
        receive_count(round_outcomes(t, replies), t[k].addr) == (if answers(t[k], replies) > 0 {
            1int
        } else {
            0int
        }),
        idle_count(round_outcomes(t, replies), t[k].addr) == (if answers(t[k], replies) == 0 {
            1int
        } else {
            0int
        }),
        receive_count(round_outcomes(t, replies), t[k].addr) + idle_count(
            round_outcomes(t, replies),
            t[k].addr,
        ) == 1,
{
    let addr = t[k].addr;
    let heard = receive_outcomes(t, replies);
    let end = after_replies(t, replies);
    let idle = idle_outcomes(end);
    lemma_receive_outcomes(t, replies);
    lemma_after_replies(t, replies);
    lemma_idle_outcomes(end);
    assert(end[k].addr == addr);
    assert(!t[k].seen);
    assert(end[k].seen == (answers(t[k], replies) > 0));
    assert(receive_count(heard, t[k].addr) == heard_count(t[k], replies));
    assert(idle_count(heard, addr) == 0);
    assert(receive_count(idle, addr) == 0);
    assert(idle_count(idle, end[k].addr) == (if end[k].seen {
        0int
    } else {
        1int
    }));
    Seq::filter_distributes_over_add(heard, idle, receive_about(addr));
    Seq::filter_distributes_over_add(heard, idle, idle_about(addr));
}

/// A round says nothing about an address that is not registered.
pub proof fn lemma_round_ignores_strangers(
    t: Seq<Ping>,
    replies: Seq<ReceivedPing>,
    addr: Address,
)
    requires
        ascending(t),
        !holds(t, addr),
    ensures
        receive_count(round_outcomes(t, replies), addr) == 0,
        idle_count(round_outcomes(t, replies), addr) == 0,
{
    let heard = receive_outcomes(t, replies);
    let end = after_replies(t, replies);
    let idle = idle_outcomes(end);
    lemma_receive_outcomes(t, replies);
    lemma_after_replies(t, replies);
    lemma_idle_outcomes(end);
    assert(!holds(end, addr)) by {
        if holds(end, addr) {
            let i = position(end, addr);
            assert(0 <= i < end.len() && end[i].addr == addr);
            assert(t[i].addr == addr);
        }
    }
    assert(receive_count(heard, addr) == 0);
    assert(idle_count(heard, addr) == 0);
    assert(receive_count(idle, addr) == 0);
    assert(idle_count(idle, addr) == 0);
    Seq::filter_distributes_over_add(heard, idle, receive_about(addr));
    Seq::filter_distributes_over_add(heard, idle, idle_about(addr));
}

/// A target to which no reply of the round carries the right identifier and
/// sequence number is reported idle, once, and never as heard. This holds of
/// a target that nobody answers, and as well of one whose replies come from
/// the right address with a wrong identifier or a wrong sequence number.
pub proof fn lemma_unanswered_target_is_idle(t: Seq<Ping>, replies: Seq<ReceivedPing>, k: int)
    requires
        ascending(t),
        all_unseen(t),
        0 <= k < t.len(),
        forall|j: int|
            0 <= j < replies.len() ==> {
                ||| (#[trigger] replies[j]).addr != t[k].addr
                ||| replies[j].identifier != t[k].identifier
                ||| replies[j].sequence_number != t[k].sequence_number
            },
    ensures
        receive_count(round_outcomes(t, replies), t[k].addr) == 0,
        idle_count(round_outcomes(t, replies), t[k].addr) == 1,
{
    lemma_answers_zero(t[k], replies);
    lemma_round_reports_target(t, replies, k);
}

/// A round emits exactly as many results as there are targets, one for each
/// target, whatever replies come in and however often.
pub proof fn lemma_round_reports_each_target_once(t: Seq<Ping>, replies: Seq<ReceivedPing>)
    requires
        ascending(t),
        all_unseen(t),
    ensures
        round_outcomes(t, replies).len() == t.len(),
        forall|k: int|
            0 <= k < t.len() ==> receive_count(
                round_outcomes(t, replies),
                (#[trigger] t[k]).addr,
            ) + idle_count(round_outcomes(t, replies), t[k].addr) == 1,
{
    assert forall|k: int| 0 <= k < t.len() implies receive_count(
        round_outcomes(t, replies),
        (#[trigger] t[k]).addr,
    ) + idle_count(round_outcomes(t, replies), t[k].addr) == 1 by {
        lemma_round_reports_target(t, replies, k);
    }
    lemma_round_length(t, replies);
    assert(forall|i: int| 0 <= i < t.len() ==> unseen()(#[trigger] t[i]));
    lemma_count_all(t, unseen());
}

/// The number of results of a round, counted reply by reply: each accepted
/// reply turns one `Idle` to come into a `Receive`, and no other reply
/// changes anything. So a round emits one result for each target that was
/// unseen when the wait began.
proof fn lemma_round_length(t: Seq<Ping>, replies: Seq<ReceivedPing>)
    requires
        ascending(t),
    ensures
        round_outcomes(t, replies).len() == idle_outcomes(t).len(),
    decreases replies.len(),
{
    if replies.len() > 0 {
        let front = replies.drop_last();
        let last = replies.last();
        let mid = after_replies(t, front);
        assert(replies =~= front.push(last));
        lemma_round_length(t, front);
        lemma_after_replies(t, front);
        lemma_reply_marks_one(mid, last);
        if accepted(mid, last) {
            let i = position(mid, last.addr);
            lemma_count_update(mid, i, mid[i].answered(), unseen());
        }
    }
}

} // verus!
