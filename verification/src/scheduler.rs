//! The round scheduler as a state machine.
//!
//! A scheduler is in one of four phases. In `Send` it prepares the requests
//! of a round. In `Wait` it correlates the replies that come in until the
//! round's budget is used up. In `Report` it names the targets that stayed
//! silent and decides whether another round follows. `Terminate` is final.
//!
//! The machine does no work of its own on the outside world. Each step
//! answers with an [`Action`] that tells the driver what to send, what to
//! emit and what to wait for; the driver comes back with an [`Event`].

use vstd::prelude::*;
use crate::ping::{EchoRequest, EchoRequestView, Mismatch, Ping, ReceivedPing};
use crate::registry::ascending;
use crate::round::{
    after_replies, after_reply, after_send, answers, idle_count, idle_outcomes,
    lemma_round_reports_each_target_once, lemma_send_phase, receive_count, receive_outcomes,
    reply_mismatch, reply_outcome, requests, round_outcomes,
};
use crate::time::TimeSpan;
use crate::PingResult;

verus! {

/// The phase that a scheduler is in.
#[derive(Clone, Copy, Debug, PartialEq, Eq, Structural)]
pub enum Phase {
    Send,
    Wait,
    Report,
    Terminate,
}

/// What the driver reports to the scheduler. `elapsed` is the time since the
/// round's timer was armed; it counts in the wait phase only.
#[derive(Clone, Copy, Debug, PartialEq, Eq, Structural)]
pub enum Event {
    /// Nothing came in: the driver did what it was told, or the wait ran out.
    Tick { elapsed: TimeSpan },
    /// A listener handed over a reply.
    Reply { reply: ReceivedPing, elapsed: TimeSpan },
}

/// What the scheduler tells the driver to do.
#[derive(Debug)]
pub enum Action {
    /// Send each request to its address, in order; a request that cannot be
    /// sent is logged and the others still go out. Then arm the round's
    /// timer and come back.
    Transmit { requests: Vec<EchoRequest> },
    /// Emit `outcome` if there is one. Then wait for a reply, for `timeout`
    /// at most, and come back with what happened. `note` tells of a reply
    /// that was dropped for its numbers; it is for the log, at debug level.
    Wait { outcome: Option<PingResult>, note: Option<Mismatch>, timeout: TimeSpan },
    /// Emit `outcome` if there is one, and come back at once: the round's
    /// budget is used up. `note` is as in `Wait`.
    Expired { outcome: Option<PingResult>, note: Option<Mismatch> },
    /// Emit each result, in order, and come back.
    Report { results: Vec<PingResult> },
    /// Stop: the scheduler has terminated.
    Terminate,
}

/// What can go wrong while the driver does what an action says.
#[derive(Clone, Copy, Debug, PartialEq, Eq, Structural)]
pub enum Failure {
    /// A request could not be sent to its target.
    Transmit,
    /// A result could not be emitted: the consumer of the results is gone.
    Emit,
}

/// What the driver does about a failure. Whatever failed, the round goes on:
/// there is no remedy that ends it.
#[derive(Clone, Copy, Debug, PartialEq, Eq, Structural)]
pub enum Remedy {
    /// Log the failure and go on.
    Log,
    /// Go on without a word.
    Ignore,
}

/// An [`Action`] as a value.
pub enum ActionView {
    Transmit { requests: Seq<EchoRequestView> },
    Wait { outcome: Option<PingResult>, note: Option<Mismatch>, timeout: TimeSpan },
    Expired { outcome: Option<PingResult>, note: Option<Mismatch> },
    Report { results: Seq<PingResult> },
    Terminate,
}

impl View for Action {
    type V = ActionView;

    open spec fn view(&self) -> ActionView {
        match *self {
            Action::Transmit { requests } => ActionView::Transmit {
                requests: requests@.map_values(|r: EchoRequest| r@),
            },
            Action::Wait { outcome, note, timeout } => ActionView::Wait { outcome, note, timeout },
            Action::Expired { outcome, note } => ActionView::Expired { outcome, note },
            Action::Report { results } => ActionView::Report { results: results@ },
            Action::Terminate => ActionView::Terminate,
        }
    }
}

/// What a scheduler works on: the configuration, the registry in address
/// order, and the stop flag.
pub struct State {
    /// The budget of a round: how long replies are waited for.
    pub max_rtt: TimeSpan,
    /// The length of a request in octets.
    pub size: usize,
    /// The registry.
    pub targets: Seq<Ping>,
    /// Whether the scheduler is to terminate at the end of the round.
    pub stop: bool,
}

impl Event {
    /// The time since the round's timer was armed.
    pub open spec fn spec_elapsed(self) -> TimeSpan {
        match self {
            Event::Tick { elapsed } => elapsed,
            Event::Reply { elapsed, .. } => elapsed,
        }
    }

    /// The time since the round's timer was armed.
    #[verifier::when_used_as_spec(spec_elapsed)]
    pub fn elapsed(self) -> (elapsed: TimeSpan)
        ensures
            elapsed == self.spec_elapsed(),
    {
        match self {
            Event::Tick { elapsed } => elapsed,
            Event::Reply { elapsed, .. } => elapsed,
        }
    }
}

/// The registry after a step.
///
/// The send phase lets every target take one step. The wait phase correlates
/// the reply, if the event is one. The other phases leave the registry alone.
pub open spec fn next_targets(s: State, phase: Phase, event: Event) -> Seq<Ping> {
    match phase {
        Phase::Send => after_send(s.targets),
        Phase::Wait => match event {
            Event::Reply { reply, .. } => after_reply(s.targets, reply),
            Event::Tick { .. } => s.targets,
        },
        Phase::Report => s.targets,
        Phase::Terminate => s.targets,
    }
}

/// The phase after a step.
///
/// Sending is followed by waiting. Waiting goes on until the time since the
/// timer was armed reaches the budget; then the report follows. After the
/// report the scheduler terminates if the stop flag is set, and begins the
/// next round at once if it is not. A scheduler that has terminated stays so.
pub open spec fn next_phase(s: State, phase: Phase, event: Event) -> Phase {
    match phase {
        Phase::Send => Phase::Wait,
        Phase::Wait => if event.spec_elapsed().spec_reaches(s.max_rtt) {
            Phase::Report
        } else {
            Phase::Wait
        },
        Phase::Report => if s.stop {
            Phase::Terminate
        } else {
            Phase::Send
        },
        Phase::Terminate => Phase::Terminate,
    }
}

/// What the wait phase emits for an event: the outcome of the reply, if the
/// event is one.
pub open spec fn wait_outcome(s: State, event: Event) -> Option<PingResult> {
    match event {
        Event::Reply { reply, .. } => reply_outcome(s.targets, reply),
        Event::Tick { .. } => None,
    }
}

/// What the wait phase notes of an event: the mismatch of the reply, if the
/// event is a reply that is dropped for its numbers.
pub open spec fn wait_note(s: State, event: Event) -> Option<Mismatch> {
    match event {
        Event::Reply { reply, .. } => reply_mismatch(s.targets, reply),
        Event::Tick { .. } => None,
    }
}

/// The action that a step answers with.
pub open spec fn action(s: State, phase: Phase, event: Event) -> ActionView {
    match phase {
        Phase::Send => ActionView::Transmit {
            requests: requests(after_send(s.targets), s.size as nat),
        },
        Phase::Wait => if event.spec_elapsed().spec_reaches(s.max_rtt) {
            ActionView::Expired { outcome: wait_outcome(s, event), note: wait_note(s, event) }
        } else {
            ActionView::Wait {
                outcome: wait_outcome(s, event),
                note: wait_note(s, event),
                timeout: s.max_rtt.spec_saturating_sub(event.spec_elapsed()),
            }
        },
        Phase::Report => ActionView::Report { results: idle_outcomes(s.targets) },
        Phase::Terminate => ActionView::Terminate,
    }
}

/// What is done about a failure.
///
/// A request that cannot be sent is logged, and the other targets are still
/// probed. A result that cannot be emitted is passed over in silence while
/// the prober is stopping, and logged otherwise.
pub open spec fn remedy(s: State, failure: Failure) -> Remedy {
    match failure {
        Failure::Transmit => Remedy::Log,
        Failure::Emit => if s.stop {
            Remedy::Ignore
        } else {
            Remedy::Log
        },
    }
}

/// The state after a step: only the registry can have changed.
pub open spec fn next_state(s: State, phase: Phase, event: Event) -> State {
    State { targets: next_targets(s, phase, event), ..s }
}

/// The result of the wait phase, if there is one, as a sequence.
pub open spec fn one_or_none(outcome: Option<PingResult>) -> Seq<PingResult> {
    match outcome {
        Some(o) => seq![o],
        None => Seq::empty(),
    }
}

/// The results that an action tells the driver to emit.
pub open spec fn emitted(a: ActionView) -> Seq<PingResult> {
    match a {
        ActionView::Transmit { .. } => Seq::empty(),
        ActionView::Wait { outcome, .. } => one_or_none(outcome),
        ActionView::Expired { outcome, .. } => one_or_none(outcome),
        ActionView::Report { results } => results,
        ActionView::Terminate => Seq::empty(),
    }
}

/// The state and the phase that a scheduler is in after it has answered
/// `events` in turn.
pub open spec fn run(s: State, phase: Phase, events: Seq<Event>) -> (State, Phase)
    decreases events.len(),
{
    if events.len() == 0 {
        (s, phase)
    } else {
        let before = run(s, phase, events.drop_last());
        (
            next_state(before.0, before.1, events.last()),
            next_phase(before.0, before.1, events.last()),
        )
    }
}

/// The results that a scheduler tells its driver to emit while it answers
/// `events` in turn.
pub open spec fn run_emitted(s: State, phase: Phase, events: Seq<Event>) -> Seq<PingResult>
    decreases events.len(),
{
    if events.len() == 0 {
        Seq::empty()
    } else {
        let before = run(s, phase, events.drop_last());
        run_emitted(s, phase, events.drop_last()) + emitted(
            action(before.0, before.1, events.last()),
        )
    }
}

/// The replies among `events`, in order.
pub open spec fn replies_of(events: Seq<Event>) -> Seq<ReceivedPing>
    decreases events.len(),
{
    if events.len() == 0 {
        Seq::empty()
    } else {
        match events.last() {
            Event::Reply { reply, .. } => replies_of(events.drop_last()).push(reply),
            Event::Tick { .. } => replies_of(events.drop_last()),
        }
    }
}

/// Whether every one of `events` happened before the budget of `s` was used
/// up.
pub open spec fn within_budget(s: State, events: Seq<Event>) -> bool {
    forall|i: int|
        0 <= i < events.len() ==> !(#[trigger] events[i]).spec_elapsed().spec_reaches(s.max_rtt)
}

/// Answering one sequence of events and then another is answering the two
/// in a row.
pub proof fn lemma_run_append(s: State, phase: Phase, a: Seq<Event>, b: Seq<Event>)
    ensures
        run(s, phase, a + b) == run(run(s, phase, a).0, run(s, phase, a).1, b),
        run_emitted(s, phase, a + b) == run_emitted(s, phase, a) + run_emitted(
            run(s, phase, a).0,
            run(s, phase, a).1,
            b,
        ),
    decreases b.len(),
{
    let mid = run(s, phase, a);
    if b.len() == 0 {
        assert(a + b =~= a);
        assert(run_emitted(s, phase, a) + Seq::<PingResult>::empty() =~= run_emitted(
            s,
            phase,
            a,
        ));
    } else {
        let front = b.drop_last();
        assert((a + b).drop_last() =~= a + front);
        assert((a + b).last() == b.last());
        lemma_run_append(s, phase, a, front);
        let before = run(mid.0, mid.1, front);
        let tail = emitted(action(before.0, before.1, b.last()));
        assert(run_emitted(s, phase, a) + run_emitted(mid.0, mid.1, front) + tail
            =~= run_emitted(s, phase, a) + (run_emitted(mid.0, mid.1, front) + tail));
    }
}

/// A step changes neither the configuration nor the stop flag.
pub proof fn lemma_run_keeps_settings(s: State, phase: Phase, events: Seq<Event>)
    ensures
        run(s, phase, events).0 == (State { targets: run(s, phase, events).0.targets, ..s }),
    decreases events.len(),
{
    if events.len() > 0 {
        lemma_run_keeps_settings(s, phase, events.drop_last());
    }
}

/// Once the stop flag is set and the round in progress is under way, no
/// round begins any more: whatever the driver reports, and however long it
/// goes on, the scheduler never enters the send phase again. The flag is
/// looked at only at the end of the report, so the round in progress is not
/// cut short.
pub proof fn lemma_no_round_after_stop(s: State, phase: Phase, events: Seq<Event>)
    requires
        s.stop,
        phase != Phase::Send,
    ensures
        run(s, phase, events).1 != Phase::Send,
        run(s, phase, events).0.stop,
    decreases events.len(),
{
    if events.len() > 0 {
        lemma_no_round_after_stop(s, phase, events.drop_last());
    }
}

/// A scheduler that has terminated stays as it is and emits nothing, whatever
/// the driver reports.
pub proof fn lemma_terminated_is_quiet(s: State, events: Seq<Event>)
    ensures
        run(s, Phase::Terminate, events) == (s, Phase::Terminate),
        run_emitted(s, Phase::Terminate, events) == Seq::<PingResult>::empty(),
    decreases events.len(),
{
    if events.len() > 0 {
        lemma_terminated_is_quiet(s, events.drop_last());
        assert(run_emitted(s, Phase::Terminate, events) =~= Seq::<PingResult>::empty());
    }
}

/// With the stop flag set, the round in progress is the last: the event that
/// finds the budget used up leads to the report, the report to `Terminate`,
/// and nothing is emitted after that.
pub proof fn lemma_stop_ends_with_the_round(
    s: State,
    last: Event,
    report: Event,
    later: Seq<Event>,
)
    requires
        s.stop,
        last.spec_elapsed().spec_reaches(s.max_rtt),
    ensures
        run(s, Phase::Wait, seq![last, report]).1 == Phase::Terminate,
        run(s, Phase::Wait, seq![last, report] + later).1 == Phase::Terminate,
        run_emitted(s, Phase::Wait, seq![last, report] + later) == run_emitted(
            s,
            Phase::Wait,
            seq![last, report],
        ),
{
    let two = seq![last, report];
    let one = seq![last];
    assert(two.drop_last() =~= one);
    assert(two.last() == report);
    assert(one.drop_last() =~= Seq::<Event>::empty());
    assert(one.last() == last);
    assert(run(s, Phase::Wait, one.drop_last()) == (s, Phase::Wait));
    assert(run(s, Phase::Wait, one).1 == Phase::Report);
    lemma_run_keeps_settings(s, Phase::Wait, one);
    assert(run(s, Phase::Wait, two).1 == Phase::Terminate);
    lemma_run_append(s, Phase::Wait, two, later);
    lemma_terminated_is_quiet(run(s, Phase::Wait, two).0, later);
    assert(run_emitted(s, Phase::Wait, two) + Seq::<PingResult>::empty() =~= run_emitted(
        s,
        Phase::Wait,
        two,
    ));
}

/// The report is always followed by a decision, and the decision goes by the
/// stop flag alone: terminate if it is set, send again at once if it is not.
/// No other step leads to `Terminate`.
pub proof fn lemma_terminate_only_after_report(s: State, phase: Phase, event: Event)
    requires
        phase != Phase::Terminate,
    ensures
        next_phase(s, phase, event) == Phase::Terminate <==> (phase == Phase::Report && s.stop),
        next_phase(s, phase, event) == Phase::Send <==> (phase == Phase::Report && !s.stop),
{
}

/// A reply that is accepted while the budget lasts is reported with a
/// round-trip time within the budget, provided the listener read the round's
/// timer no later than the scheduler did.
pub proof fn lemma_receive_within_budget(s: State, reply: ReceivedPing, elapsed: TimeSpan)
    requires
        reply.rtt.nanos <= elapsed.nanos,
        !elapsed.spec_reaches(s.max_rtt),
    ensures
        next_phase(s, Phase::Wait, Event::Reply { reply, elapsed }) == Phase::Wait,
        wait_outcome(s, Event::Reply { reply, elapsed }) matches Some(result) ==> result
            == (PingResult::Receive { addr: reply.addr, rtt: reply.rtt }) && reply.rtt.nanos
            < s.max_rtt.nanos,
{
}

/// While the budget lasts the scheduler stays in the wait phase, takes the
/// replies in turn and emits what each of them brings.
pub proof fn lemma_wait_trace(s: State, events: Seq<Event>)
    requires
        within_budget(s, events),
    ensures
        run(s, Phase::Wait, events) == (
            State { targets: after_replies(s.targets, replies_of(events)), ..s },
            Phase::Wait,
        ),
        run_emitted(s, Phase::Wait, events) == receive_outcomes(s.targets, replies_of(events)),
    decreases events.len(),
{
    if events.len() > 0 {
        let front = events.drop_last();
        let last = events.last();
        assert forall|i: int| 0 <= i < front.len() implies !(#[trigger] front[i]).spec_elapsed().spec_reaches(
            s.max_rtt,
        ) by {
            assert(front[i] == events[i]);
        }
        lemma_wait_trace(s, front);
        let now = State { targets: after_replies(s.targets, replies_of(front)), ..s };
        lemma_wait_step(now, s.targets, front, last);
        assert(events =~= front.push(last));
        assert(!events[events.len() - 1].spec_elapsed().spec_reaches(s.max_rtt));
        assert(emitted(action(now, Phase::Wait, last)) == one_or_none(wait_outcome(now, last)));
    } else {
        assert(State { targets: s.targets, ..s } == s);
    }
}

/// One more event in the wait phase: the registry and the results grow as
/// the round's account of the replies says.
proof fn lemma_wait_step(now: State, t: Seq<Ping>, front: Seq<Event>, last: Event)
    requires
        now.targets == after_replies(t, replies_of(front)),
    ensures
        next_targets(now, Phase::Wait, last) == after_replies(t, replies_of(front.push(last))),
        receive_outcomes(t, replies_of(front)) + one_or_none(wait_outcome(now, last))
            == receive_outcomes(t, replies_of(front.push(last))),
{
    let events = front.push(last);
    assert(events.drop_last() =~= front);
    assert(events.last() == last);
    let earlier = receive_outcomes(t, replies_of(front));
    match last {
        Event::Reply { reply, .. } => {
            let replies = replies_of(front).push(reply);
            assert(replies_of(events) == replies);
            assert(replies.drop_last() =~= replies_of(front));
            assert(replies.last() == reply);
            match reply_outcome(now.targets, reply) {
                Some(o) => {
                    assert(earlier + seq![o] =~= earlier.push(o));
                },
                None => {
                    assert(earlier + Seq::<PingResult>::empty() =~= earlier);
                },
            }
        },
        Event::Tick { .. } => {
            assert(replies_of(events) == replies_of(front));
            assert(earlier + Seq::<PingResult>::empty() =~= earlier);
        },
    }
}

/// One whole round, step by step.
///
/// A scheduler in the send phase answers `first` with the requests of the
/// round. It then waits: `waits` are the events that come while the budget
/// lasts, `last` is the first one at which the budget is found used up.
/// Then it reports, and decides. All that it tells its driver to emit on
/// the way is what the round's account says: the results of the replies in
/// the order of their arrival, then the idle targets in address order. At
/// the end the scheduler has terminated if the stop flag is set, and is
/// about to send again if it is not.
pub proof fn lemma_round_trace(
    s: State,
    first: Event,
    waits: Seq<Event>,
    last: Event,
    report: Event,
)
    requires
        within_budget(s, waits),
        last.spec_elapsed().spec_reaches(s.max_rtt),
    ensures
        ({
            let events = seq![first] + waits + seq![last, report];
            let replies = replies_of(waits.push(last));
            &&& run_emitted(s, Phase::Send, events) == round_outcomes(
                after_send(s.targets),
                replies,
            )
            &&& run(s, Phase::Send, events).0 == (State {
                targets: after_replies(after_send(s.targets), replies),
                ..s
            })
            &&& run(s, Phase::Send, events).1 == (if s.stop {
                Phase::Terminate
            } else {
                Phase::Send
            })
        }),
{
    let t1 = after_send(s.targets);
    let s1 = State { targets: t1, ..s };
    let replies = replies_of(waits.push(last));
    // the send step
    let e1 = seq![first];
    assert(e1.drop_last() =~= Seq::<Event>::empty());
    assert(e1.last() == first);
    assert(run(s, Phase::Send, e1.drop_last()) == (s, Phase::Send));
    assert(run(s, Phase::Send, e1) == (s1, Phase::Wait));
    assert(run_emitted(s, Phase::Send, e1.drop_last()) =~= Seq::<PingResult>::empty());
    assert(run_emitted(s, Phase::Send, e1) =~= Seq::<PingResult>::empty());
    // the waits within the budget
    lemma_wait_trace(s1, waits);
    let s2 = State { targets: after_replies(t1, replies_of(waits)), ..s };
    // the event that finds the budget used up, and the report
    lemma_wait_step(s2, t1, waits, last);
    let s3 = State { targets: after_replies(t1, replies), ..s };
    let e3 = seq![last, report];
    let e3a = seq![last];
    assert(e3.drop_last() =~= e3a);
    assert(e3.last() == report);
    assert(e3a.drop_last() =~= Seq::<Event>::empty());
    assert(e3a.last() == last);
    assert(run(s2, Phase::Wait, e3a.drop_last()) == (s2, Phase::Wait));
    assert(run(s2, Phase::Wait, e3a) == (s3, Phase::Report));
    assert(run_emitted(s2, Phase::Wait, e3a.drop_last()) =~= Seq::<PingResult>::empty());
    let heard_last = one_or_none(wait_outcome(s2, last));
    assert(run_emitted(s2, Phase::Wait, e3a) =~= heard_last);
    assert(run_emitted(s2, Phase::Wait, e3) =~= heard_last + idle_outcomes(s3.targets));
    // all in a row
    lemma_run_append(s, Phase::Send, e1, waits);
    lemma_run_append(s, Phase::Send, e1 + waits, e3);
    assert(run_emitted(s, Phase::Send, e1 + waits + e3) =~= receive_outcomes(t1, replies_of(waits))
        + heard_last + idle_outcomes(s3.targets));
}

/// A run of one round reports each target once.
///
/// Let a scheduler go through one round as in [`lemma_round_trace`], on a
/// registry in address order that nobody changes meanwhile. Whatever
/// replies come in, and however often the same one, the scheduler emits
/// exactly as many results as there are targets, and for each target
/// exactly one: a `Receive` if a reply answered it, an `Idle` if none did.
/// The registry is in address order again when the round is over and holds
/// the same targets, so the same is true of the round that follows, in a
/// run of one round and in a run of round after round alike.
pub proof fn lemma_single_round_reports_each_target_once(
    s: State,
    first: Event,
    waits: Seq<Event>,
    last: Event,
    report: Event,
)
    requires
        ascending(s.targets),
        within_budget(s, waits),
        last.spec_elapsed().spec_reaches(s.max_rtt),
    ensures
        ({
            let events = seq![first] + waits + seq![last, report];
            let out = run_emitted(s, Phase::Send, events);
            let replies = replies_of(waits.push(last));
            &&& ascending(run(s, Phase::Send, events).0.targets)
            &&& run(s, Phase::Send, events).0.targets.len() == s.targets.len()
            &&& out.len() == s.targets.len()
            &&& forall|k: int|
                0 <= k < s.targets.len() ==> {
                    let target = (#[trigger] s.targets[k]).probed();
                    &&& receive_count(out, target.addr) == (if answers(target, replies) > 0 {
                        1int
                    } else {
                        0int
                    })
                    &&& idle_count(out, target.addr) == (if answers(target, replies) == 0 {
                        1int
                    } else {
                        0int
                    })
                }
        }),
{
    let t1 = after_send(s.targets);
    let replies = replies_of(waits.push(last));
    lemma_round_trace(s, first, waits, last, report);
    lemma_send_phase(s.targets);
    lemma_round_reports_each_target_once(t1, replies);
    crate::round::lemma_after_replies(t1, replies);
    let out = round_outcomes(t1, replies);
    assert forall|k: int| 0 <= k < s.targets.len() implies {
        let target = (#[trigger] s.targets[k]).probed();
        &&& receive_count(out, target.addr) == (if answers(target, replies) > 0 {
            1int
        } else {
            0int
        })
        &&& idle_count(out, target.addr) == (if answers(target, replies) == 0 {
            1int
        } else {
            0int
        })
    } by {
        assert(t1[k] == s.targets[k].probed());
        crate::round::lemma_round_reports_target(t1, replies, k);
    }
}

} // verus!
