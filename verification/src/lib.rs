//! A multi-target ICMP / ICMPv6 reachability prober, as a verified core.
//!
//! The crate holds everything the prober decides: how an echo request is
//! framed and a reply is read, which targets are registered and in what state,
//! what one probing round sends, which replies it accepts, and what it reports.
//! It opens no socket, starts no thread and reads no clock: a driver performs
//! those and hands the library plain values.

use vstd::prelude::*;

pub mod addr;
pub mod codec;
pub mod error;
pub mod listener;
pub mod ping;
pub mod registry;
pub mod round;
pub mod scheduler;
pub mod time;

use crate::addr::Address;
use crate::codec::ECHO_HEADER_LEN;
use crate::ping::Ping;
use crate::registry::{ascending, entry_map, holds, Targets};
use crate::scheduler::{
    action, next_phase, next_state, remedy, Action, Event, Failure, Phase, Remedy, State,
};
use crate::time::{TimeSpan, NANOS_PER_MILLI};

verus! {

/// What one round found out about one target.
#[derive(Clone, Copy, Debug, PartialEq, Eq, Structural)]
pub enum PingResult {
    /// No reply that answers the round's request came within the budget.
    Idle { addr: Address },
    /// A reply that answers the round's request came after `rtt`, counted
    /// from the start of the round.
    Receive { addr: Address, rtt: TimeSpan },
}

impl PingResult {
    /// The target that this result is about.
    pub open spec fn spec_addr(self) -> Address {
        match self {
            PingResult::Idle { addr } => addr,
            PingResult::Receive { addr, .. } => addr,
        }
    }

    /// The target that this result is about.
    #[verifier::when_used_as_spec(spec_addr)]
    pub fn addr(self) -> (addr: Address)
        ensures
            addr == self.spec_addr(),
    {
        match self {
            PingResult::Idle { addr } => addr,
            PingResult::Receive { addr, .. } => addr,
        }
    }
}

/// The budget of a round where none is given, in milliseconds.
pub const DEFAULT_MAX_RTT_MILLIS: u64 = 2000;

/// The length of a request where none is given, in octets.
pub const DEFAULT_SIZE: usize = 16;

/// The prober: its configuration, its registry of targets and its stop flag,
/// and the steps of the scheduler that works on them.
///
/// A `Pinger` is plain data behind `&mut`. A driver that shares it between
/// threads keeps it behind one lock and takes the lock for one call at a
/// time, never across a wait; targets can then be added and removed while a
/// round is waiting.
///
/// Such a change shows in the round that is under way. An address added
/// during the wait was sent no request in that round: it stands in the
/// registry unseen, so the round's report names it idle, and it is probed
/// from the next send phase on. An address removed during the wait is no
/// longer named in the round's report, and a reply from it that comes later
/// is dropped.
#[derive(Debug)]
pub struct Pinger {
    max_rtt: TimeSpan,
    size: usize,
    targets: Targets,
    stop: bool,
}

impl View for Pinger {
    type V = State;

    closed spec fn view(&self) -> State {
        State { max_rtt: self.max_rtt, size: self.size, targets: self.targets@, stop: self.stop }
    }
}

impl Pinger {
    /// The invariant of the prober: its registry is in address order, and so
    /// holds no address twice.
    pub open spec fn wf(&self) -> bool {
        ascending(self@.targets)
    }

    /// A prober with no targets that is not stopping. A round's budget is
    /// `max_rtt`, or 2000 milliseconds if none is given; a request is `size`
    /// octets long, or 16 if none is given.
    pub fn new(max_rtt: Option<TimeSpan>, size: Option<usize>) -> (pinger: Pinger)
        ensures
            pinger.wf(),
            pinger@.max_rtt == (match max_rtt {
                Some(budget) => budget,
                None => TimeSpan { nanos: (DEFAULT_MAX_RTT_MILLIS * NANOS_PER_MILLI) as u128 },
            }),
            pinger@.size == (match size {
                Some(octets) => octets,
                None => DEFAULT_SIZE,
            }),
            pinger@.targets == Seq::<Ping>::empty(),
            !pinger@.stop,
    {
        let max_rtt = match max_rtt {
            Some(budget) => budget,
            None => TimeSpan::from_millis(DEFAULT_MAX_RTT_MILLIS),
        };
        let size = match size {
            Some(octets) => octets,
            None => DEFAULT_SIZE,
        };
        Pinger { max_rtt, size, targets: Targets::new(), stop: false }
    }

    /// The budget of a round.
    pub fn max_rtt(&self) -> (max_rtt: TimeSpan)
        ensures
            max_rtt == self@.max_rtt,
    {
        self.max_rtt
    }

    /// The length of a request in octets.
    pub fn size(&self) -> (size: usize)
        ensures
            size == self@.size,
    {
        self.size
    }

    /// Whether the stop flag is set.
    pub fn is_stopping(&self) -> (stop: bool)
        ensures
            stop == self@.stop,
    {
        self.stop
    }

    /// The number of targets.
    pub fn target_count(&self) -> (n: usize)
        ensures
            n == self@.targets.len(),
    {
        self.targets.len()
    }

    /// Whether `addr` is a target.
    pub fn has_target(&self, addr: Address) -> (found: bool)
        requires
            self.wf(),
        ensures
            found == holds(self@.targets, addr),
    {
        self.targets.contains_key(addr)
    }

    /// The state of the target `addr`, if it is one.
    pub fn target(&self, addr: Address) -> (entry: Option<Ping>)
        requires
            self.wf(),
        ensures
            entry == (if holds(self@.targets, addr) {
                Some(entry_map(self@.targets)[addr])
            } else {
                None
            }),
    {
        self.targets.get(addr)
    }

    /// The targets with their states, in address order.
    pub fn targets(&self) -> (entries: Vec<Ping>)
        ensures
            entries@ == self@.targets,
    {
        self.targets.entries()
    }

    /// Makes `addr` a target, with an identifier drawn at random, sequence
    /// number zero and no reply seen. If it is a target already, its old
    /// state is replaced whole.
    pub fn add_ipaddr(&mut self, addr: Address)
        requires
            old(self).wf(),
        ensures
            final(self).wf(),
            holds(final(self)@.targets, addr),
            entry_map(final(self)@.targets) == entry_map(
                old(self)@.targets,
            ).insert(
                addr,
                Ping::fresh(addr, entry_map(final(self)@.targets)[addr].identifier),
            ),
            final(self)@.targets.len() == old(self)@.targets.len() + (if holds(
                old(self)@.targets,
                addr,
            ) {
                0int
            } else {
                1int
            }),
            final(self)@ == (State { targets: final(self)@.targets, ..old(self)@ }),
    {
        self.targets.add(addr);
    }

    /// Registers the target `ping` under its address, in the state given. If
    /// the address is a target already, its old state is replaced whole.
    pub fn add_ping(&mut self, ping: Ping)
        requires
            old(self).wf(),
        ensures
            final(self).wf(),
            entry_map(final(self)@.targets) == entry_map(
                old(self)@.targets,
            ).insert(ping.addr, ping),
            final(self)@.targets.len() == old(self)@.targets.len() + (if holds(
                old(self)@.targets,
                ping.addr,
            ) {
                0int
            } else {
                1int
            }),
            final(self)@ == (State { targets: final(self)@.targets, ..old(self)@ }),
    {
        self.targets.insert(ping);
    }

    /// Takes `addr` out of the targets; does nothing if it is none.
    pub fn remove_ipaddr(&mut self, addr: Address)
        requires
            old(self).wf(),
        ensures
            final(self).wf(),
            !holds(final(self)@.targets, addr),
            entry_map(final(self)@.targets) == entry_map(
                old(self)@.targets,
            ).remove(addr),
            final(self)@.targets.len() == old(self)@.targets.len() - (if holds(
                old(self)@.targets,
                addr,
            ) {
                1int
            } else {
                0int
            }),
            final(self)@ == (State { targets: final(self)@.targets, ..old(self)@ }),
    {
        self.targets.remove(addr);
        assert(!entry_map(self@.targets).dom().contains(addr));
    }

    /// Sets the stop flag. A scheduler sees it at the end of its round: the
    /// round in progress runs to its end, and no other follows.
    pub fn stop_pinger(&mut self)
        ensures
            final(self)@ == (State { stop: true, ..old(self)@ }),
            final(self).wf() == old(self).wf(),
    {
        self.stop = true;
    }

    /// Prepares a run of one round: sets the stop flag, so that the
    /// scheduler terminates at the end of its first round, and returns the
    /// phase in which the scheduler starts.
    pub fn ping_once(&mut self) -> (phase: Phase)
        ensures
            phase == Phase::Send,
            final(self)@ == (State { stop: true, ..old(self)@ }),
            final(self).wf() == old(self).wf(),
    {
        self.stop = true;
        Phase::Send
    }

    /// Prepares a run of round after round: clears the stop flag and returns
    /// the phase in which the scheduler starts.
    pub fn run_pinger(&mut self) -> (phase: Phase)
        ensures
            phase == Phase::Send,
            final(self)@ == (State { stop: false, ..old(self)@ }),
            final(self).wf() == old(self).wf(),
    {
        self.stop = false;
        Phase::Send
    }

    /// What the driver is to do about a failure: log it or pass it over. The
    /// round goes on in either case.
    pub fn on_failure(&self, failure: Failure) -> (what: Remedy)
        ensures
            what == remedy(self@, failure),
    {
        match failure {
            Failure::Transmit => Remedy::Log,
            Failure::Emit => if self.stop {
                Remedy::Ignore
            } else {
                Remedy::Log
            },
        }
    }

    /// One step of the scheduler: from the phase it is in and what the
    /// driver reports, to the phase it is in next and what the driver is to
    /// do.
    ///
    /// A request cannot be shorter than its header: where the send phase has
    /// a target to send to, the configured length has to be at least
    /// [`ECHO_HEADER_LEN`].
    pub fn step(&mut self, phase: Phase, event: Event) -> (next: (Phase, Action))
        requires
            old(self).wf(),
            phase == Phase::Send && old(self)@.targets.len() > 0 ==> old(self)@.size
                >= ECHO_HEADER_LEN,
        ensures
            final(self).wf(),
            final(self)@ == next_state(old(self)@, phase, event),
            next.0 == next_phase(old(self)@, phase, event),
            next.1@ == action(old(self)@, phase, event),
    {
        match phase {
            Phase::Send => {
                let requests = self.targets.begin_round(self.size);
                (Phase::Wait, Action::Transmit { requests })
            },
            Phase::Wait => {
                let (outcome, note) = match event {
                    Event::Reply { reply, .. } => {
                        let note = self.targets.mismatch(&reply);
                        (self.targets.correlate(&reply), note)
                    },
                    Event::Tick { .. } => (None, None),
                };
                let elapsed = event.elapsed();
                if elapsed.reaches(self.max_rtt) {
                    (Phase::Report, Action::Expired { outcome, note })
                } else {
                    (
                        Phase::Wait,
                        Action::Wait {
                            outcome,
                            note,
                            timeout: self.max_rtt.saturating_sub(elapsed),
                        },
                    )
                }
            },
            Phase::Report => {
                let results = self.targets.report();
                let next = if self.stop {
                    Phase::Terminate
                } else {
                    Phase::Send
                };
                (next, Action::Report { results })
            },
            Phase::Terminate => (Phase::Terminate, Action::Terminate),
        }
    }
}

} // verus!
