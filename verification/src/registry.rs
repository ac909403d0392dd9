//! The target registry: every monitored target with its probing state, one
//! entry for each address, kept in address order.

use vstd::prelude::*;
use crate::addr::{lemma_rank_is_injective, Address};
use crate::codec::ECHO_HEADER_LEN;
use crate::ping::{EchoRequest, Mismatch, Ping, ReceivedPing};
use crate::round::{
    after_reply, after_send, idle_outcomes, lemma_accepted_by_lookup, lemma_idle_outcomes_empty,
    lemma_idle_outcomes_push, lemma_reply_marks_one, reply_mismatch, reply_outcome, requests,
};
use crate::PingResult;

verus! {

/// Whether the entries of `t` stand in strictly ascending address order. No
/// address then occurs twice.
pub open spec fn ascending(t: Seq<Ping>) -> bool {
    forall|i: int, j: int| 0 <= i < j < t.len() ==> t[i].addr.rank() < t[j].addr.rank()
}

/// Whether `t` has an entry for `addr`.
pub open spec fn holds(t: Seq<Ping>, addr: Address) -> bool {
    exists|i: int| 0 <= i < t.len() && t[i].addr == addr
}

/// Where the entry for `addr` stands in `t`, if `t` has one.
pub open spec fn position(t: Seq<Ping>, addr: Address) -> int {
    choose|i: int| 0 <= i < t.len() && t[i].addr == addr
}

/// The entries of `t` as a map from address to state.
pub open spec fn entry_map(t: Seq<Ping>) -> Map<Address, Ping> {
    Map::new(|addr: Address| holds(t, addr), |addr: Address| t[position(t, addr)])
}

/// Whether `addr` belongs at index `slot` of `t` and is not there yet: all
/// entries before the slot come before `addr`, all others after it.
pub open spec fn is_gap(t: Seq<Ping>, addr: Address, slot: int) -> bool {
    &&& 0 <= slot <= t.len()
    &&& forall|j: int| 0 <= j < slot ==> t[j].addr.rank() < addr.rank()
    &&& forall|j: int| slot <= j < t.len() ==> addr.rank() < t[j].addr.rank()
}

/// In an ascending sequence the entry at index `i` is the one and only entry
/// for its address.
pub proof fn lemma_entry_at(t: Seq<Ping>, i: int)
    requires
        ascending(t),
        0 <= i < t.len(),
    ensures
        holds(t, t[i].addr),
        position(t, t[i].addr) == i,
        entry_map(t).dom().contains(t[i].addr),
        entry_map(t)[t[i].addr] == t[i],
{
    let addr = t[i].addr;
    let k = position(t, addr);
    assert(0 <= k < t.len() && t[k].addr == addr);
    if k < i {
        assert(t[k].addr.rank() < t[i].addr.rank());
    }
    if i < k {
        assert(t[i].addr.rank() < t[k].addr.rank());
    }
}

/// An address that belongs in a gap of an ascending sequence has no entry.
pub proof fn lemma_gap_is_empty(t: Seq<Ping>, addr: Address, slot: int)
    requires
        is_gap(t, addr, slot),
    ensures
        !holds(t, addr),
{
    if holds(t, addr) {
        let k = position(t, addr);
        assert(0 <= k < t.len() && t[k].addr == addr);
        if k < slot {
            assert(t[k].addr.rank() < addr.rank());
        } else {
            assert(addr.rank() < t[k].addr.rank());
        }
    }
}

/// Putting a new entry into its gap keeps the order and adds just that entry
/// to the map.
pub proof fn lemma_insert_in_gap(t: Seq<Ping>, ping: Ping, slot: int)
    requires
        ascending(t),
        is_gap(t, ping.addr, slot),
    ensures
        ascending(t.insert(slot, ping)),
        entry_map(t.insert(slot, ping)) == entry_map(t).insert(ping.addr, ping),
{
    let t2 = t.insert(slot, ping);
    assert forall|i: int, j: int| 0 <= i < j < t2.len() implies t2[i].addr.rank()
        < t2[j].addr.rank() by {
        let a = if i < slot {
            i
        } else {
            i - 1
        };
        let b = if j < slot {
            j
        } else {
            j - 1
        };
        if i != slot && j != slot {
            assert(t2[i] == t[a] && t2[j] == t[b]);
            assert(a < b);
        } else if i == slot {
            assert(t2[j] == t[b]);
        } else {
            assert(t2[i] == t[a]);
        }
    }
    lemma_gap_is_empty(t, ping.addr, slot);
    let m2 = entry_map(t2);
    let m = entry_map(t).insert(ping.addr, ping);
    assert forall|addr: Address| m2.dom().contains(addr) <==> m.dom().contains(addr) by {
        if holds(t2, addr) {
            let k = position(t2, addr);
            assert(0 <= k < t2.len() && t2[k].addr == addr);
            if k < slot {
                assert(t[k].addr == addr);
            } else if k > slot {
                assert(t[k - 1].addr == addr);
            }
        }
        if holds(t, addr) {
            let k = position(t, addr);
            assert(0 <= k < t.len() && t[k].addr == addr);
            if k < slot {
                assert(t2[k].addr == addr);
            } else {
                assert(t2[k + 1].addr == addr);
            }
        }
        if addr == ping.addr {
            assert(t2[slot].addr == addr);
        }
    }
    assert forall|addr: Address| m2.dom().contains(addr) implies m2[addr] == m[addr] by {
        let k = position(t2, addr);
        assert(0 <= k < t2.len() && t2[k].addr == addr);
        lemma_entry_at(t2, k);
        if k < slot {
            lemma_entry_at(t, k);
        } else if k > slot {
            lemma_entry_at(t, k - 1);
        }
    }
    assert(m2 =~= m);
}

/// Writing a new state over the entry of the same address keeps the order
/// and changes just that entry of the map.
pub proof fn lemma_replace_entry(t: Seq<Ping>, ping: Ping, i: int)
    requires
        ascending(t),
        0 <= i < t.len(),
        t[i].addr == ping.addr,
    ensures
        ascending(t.update(i, ping)),
        entry_map(t.update(i, ping)) == entry_map(t).insert(ping.addr, ping),
{
    let t2 = t.update(i, ping);
    assert forall|a: int, b: int| 0 <= a < b < t2.len() implies t2[a].addr.rank()
        < t2[b].addr.rank() by {
        assert(t2[a].addr == t[a].addr && t2[b].addr == t[b].addr);
    }
    let m2 = entry_map(t2);
    let m = entry_map(t).insert(ping.addr, ping);
    assert forall|addr: Address| m2.dom().contains(addr) <==> m.dom().contains(addr) by {
        if holds(t2, addr) {
            let k = position(t2, addr);
            assert(0 <= k < t2.len() && t2[k].addr == addr);
            assert(t[k].addr == addr);
        }
        if holds(t, addr) {
            let k = position(t, addr);
            assert(0 <= k < t.len() && t[k].addr == addr);
            assert(t2[k].addr == addr);
        }
        if addr == ping.addr {
            assert(t2[i].addr == addr);
        }
    }
    assert forall|addr: Address| m2.dom().contains(addr) implies m2[addr] == m[addr] by {
        let k = position(t2, addr);
        assert(0 <= k < t2.len() && t2[k].addr == addr);
        lemma_entry_at(t2, k);
        lemma_entry_at(t, k);
    }
    assert(m2 =~= m);
}

/// Taking an entry out keeps the order and removes just its address from the
/// map.
pub proof fn lemma_remove_entry(t: Seq<Ping>, i: int)
    requires
        ascending(t),
        0 <= i < t.len(),
    ensures
        ascending(t.remove(i)),
        entry_map(t.remove(i)) == entry_map(t).remove(t[i].addr),
{
    let t2 = t.remove(i);
    let gone = t[i].addr;
    assert forall|a: int, b: int| 0 <= a < b < t2.len() implies t2[a].addr.rank()
        < t2[b].addr.rank() by {
        let a0 = if a < i {
            a
        } else {
            a + 1
        };
        let b0 = if b < i {
            b
        } else {
            b + 1
        };
        assert(t2[a] == t[a0] && t2[b] == t[b0]);
        assert(a0 < b0);
    }
    let m2 = entry_map(t2);
    let m = entry_map(t).remove(gone);
    assert forall|addr: Address| m2.dom().contains(addr) <==> m.dom().contains(addr) by {
        if holds(t2, addr) {
            let k = position(t2, addr);
            assert(0 <= k < t2.len() && t2[k].addr == addr);
            let k0 = if k < i {
                k
            } else {
                k + 1
            };
            assert(t[k0].addr == addr);
            if k0 < i {
                assert(t[k0].addr.rank() < t[i].addr.rank());
            } else {
                assert(t[i].addr.rank() < t[k0].addr.rank());
            }
        }
        if holds(t, addr) && addr != gone {
            let k = position(t, addr);
            assert(0 <= k < t.len() && t[k].addr == addr);
            if k < i {
                assert(t2[k].addr == addr);
            } else {
                assert(t2[k - 1].addr == addr);
            }
        }
    }
    assert forall|addr: Address| m2.dom().contains(addr) implies m2[addr] == m[addr] by {
        let k = position(t2, addr);
        assert(0 <= k < t2.len() && t2[k].addr == addr);
        lemma_entry_at(t2, k);
        if k < i {
            lemma_entry_at(t, k);
        } else {
            lemma_entry_at(t, k + 1);
        }
    }
    assert(m2 =~= m);
}

/// A registry in address order is determined by its map: two of them that
/// hold the same targets in the same states are the same sequence. So a
/// statement about the map of a registry says all there is to say of it.
pub proof fn lemma_map_determines_entries(a: Seq<Ping>, b: Seq<Ping>)
    requires
        ascending(a),
        ascending(b),
        entry_map(a) == entry_map(b),
    ensures
        a == b,
    decreases a.len(),
{
    if a.len() == 0 {
        if b.len() > 0 {
            lemma_entry_at(b, 0);
            assert(entry_map(a).dom().contains(b[0].addr));
            let k = position(a, b[0].addr);
            assert(0 <= k < a.len());
        }
        assert(a =~= b);
    } else {
        let la = a.last();
        lemma_entry_at(a, a.len() - 1);
        assert(entry_map(b).dom().contains(la.addr));
        let j = position(b, la.addr);
        assert(0 <= j < b.len() && b[j].addr == la.addr);
        let lb = b.last();
        lemma_entry_at(b, b.len() - 1);
        assert(entry_map(a).dom().contains(lb.addr));
        let i = position(a, lb.addr);
        assert(0 <= i < a.len() && a[i].addr == lb.addr);
        if j < b.len() - 1 {
            assert(b[j].addr.rank() < b[b.len() - 1].addr.rank());
        }
        if i < a.len() - 1 {
            assert(a[i].addr.rank() < a[a.len() - 1].addr.rank());
        }
        lemma_rank_is_injective(la.addr, lb.addr);
        assert(la.addr == lb.addr);
        assert(la == lb);
        lemma_remove_entry(a, a.len() - 1);
        lemma_remove_entry(b, b.len() - 1);
        assert(a.remove(a.len() - 1) =~= a.drop_last());
        assert(b.remove(b.len() - 1) =~= b.drop_last());
        lemma_map_determines_entries(a.drop_last(), b.drop_last());
        assert(a =~= a.drop_last().push(la));
        assert(b =~= b.drop_last().push(lb));
    }
}

/// A change to the registry: a target is registered in a given state, or an
/// address is taken out.
pub enum Change {
    Add { ping: Ping },
    Remove { addr: Address },
}

impl Change {
    /// The address that the change is about.
    pub open spec fn addr(self) -> Address {
        match self {
            Change::Add { ping } => ping.addr,
            Change::Remove { addr } => addr,
        }
    }
}

/// The registry's map after one change.
pub open spec fn changed(m: Map<Address, Ping>, change: Change) -> Map<Address, Ping> {
    match change {
        Change::Add { ping } => m.insert(ping.addr, ping),
        Change::Remove { addr } => m.remove(addr),
    }
}

/// The registry's map after `changes` were made in turn.
pub open spec fn changed_by_all(m: Map<Address, Ping>, changes: Seq<Change>) -> Map<
    Address,
    Ping,
>
    decreases changes.len(),
{
    if changes.len() == 0 {
        m
    } else {
        changed(changed_by_all(m, changes.drop_last()), changes.last())
    }
}

/// Changes that are about other addresses leave the entry of `addr` alone,
/// and it makes no difference to them whether `addr` is registered.
pub proof fn lemma_changes_elsewhere(m: Map<Address, Ping>, addr: Address, changes: Seq<Change>)
    requires
        forall|i: int| 0 <= i < changes.len() ==> (#[trigger] changes[i]).addr() != addr,
    ensures
        changed_by_all(m, changes).dom().contains(addr) == m.dom().contains(addr),
        m.dom().contains(addr) ==> changed_by_all(m, changes)[addr] == m[addr],
        changed_by_all(m, changes).remove(addr) == changed_by_all(m.remove(addr), changes),
    decreases changes.len(),
{
    if changes.len() == 0 {
    } else {
        let front = changes.drop_last();
        assert forall|i: int| 0 <= i < front.len() implies (#[trigger] front[i]).addr()
            != addr by {
            assert(front[i] == changes[i]);
        }
        lemma_changes_elsewhere(m, addr, front);
        let last = changes.last();
        assert(last == changes[changes.len() - 1]);
        assert(last.addr() != addr);
        let with = changed_by_all(m, front);
        let without = changed_by_all(m.remove(addr), front);
        assert(changed(with, last).remove(addr) =~= changed(without, last));
    }
}

/// An address that is added and later removed is gone, and it has left no
/// trace: whatever changes to other addresses were made in between, the
/// registry is the one it would be had the address been taken out first and
/// never added.
pub proof fn lemma_add_then_remove(m: Map<Address, Ping>, ping: Ping, between: Seq<Change>)
    requires
        forall|i: int| 0 <= i < between.len() ==> (#[trigger] between[i]).addr() != ping.addr,
    ensures
        ({
            let changes = seq![Change::Add { ping }] + between + seq![
                Change::Remove { addr: ping.addr },
            ];
            &&& !changed_by_all(m, changes).dom().contains(ping.addr)
            &&& changed_by_all(m, changes) == changed_by_all(m.remove(ping.addr), between)
        }),
{
    let add = Change::Add { ping };
    let remove = Change::Remove { addr: ping.addr };
    let head = seq![add] + between;
    let changes = head + seq![remove];
    assert(changes.drop_last() =~= head);
    assert(changes.last() == remove);
    lemma_changes_from(m, add, between);
    lemma_changes_elsewhere(m.insert(ping.addr, ping), ping.addr, between);
    assert(m.insert(ping.addr, ping).remove(ping.addr) =~= m.remove(ping.addr));
}

/// Making a change and then others is making them all in a row.
proof fn lemma_changes_from(m: Map<Address, Ping>, first: Change, rest: Seq<Change>)
    ensures
        changed_by_all(m, seq![first] + rest) == changed_by_all(changed(m, first), rest),
    decreases rest.len(),
{
    let all = seq![first] + rest;
    if rest.len() == 0 {
        assert(all.drop_last() =~= Seq::<Change>::empty());
        assert(all.last() == first);
        assert(changed_by_all(m, all.drop_last()) == m);
    } else {
        assert(all.drop_last() =~= seq![first] + rest.drop_last());
        assert(all.last() == rest.last());
        lemma_changes_from(m, first, rest.drop_last());
    }
}

/// Adding an address again forgets what was there: the registry is the one
/// it would be had the earlier entry never been made.
pub proof fn lemma_add_again_forgets(m: Map<Address, Ping>, earlier: Ping, later: Ping)
    requires
        earlier.addr == later.addr,
    ensures
        changed(changed(m, Change::Add { ping: earlier }), Change::Add { ping: later }) == changed(
            m,
            Change::Add { ping: later },
        ),
{
    assert(m.insert(earlier.addr, earlier).insert(later.addr, later) =~= m.insert(
        later.addr,
        later,
    ));
}

/// The registry of targets.
///
/// It holds at most one entry for each address and keeps the entries in
/// address order; that order is the order in which a round sends its requests
/// and reports its idle targets.
///
/// The entries stand in a vector, found by halving. A map of the standard
/// library keyed by `Address` would order them by a derived comparison that
/// nothing here could hold to [`Address::rank`]; in the vector the order is
/// the stated one, and every function is proved to keep it.
#[derive(Debug)]
pub struct Targets {
    entries: Vec<Ping>,
}

impl View for Targets {
    type V = Seq<Ping>;

    closed spec fn view(&self) -> Seq<Ping> {
        self.entries@
    }
}

impl Targets {
    /// The invariant of the registry: its entries are in strictly ascending
    /// address order.
    pub open spec fn wf(&self) -> bool {
        ascending(self@)
    }

    /// The registry as a map from address to state.
    pub open spec fn map(&self) -> Map<Address, Ping> {
        entry_map(self@)
    }

    /// Whether the registry has an entry for `addr`.
    pub open spec fn has(&self, addr: Address) -> bool {
        holds(self@, addr)
    }

    /// An empty registry.
    pub fn new() -> (targets: Targets)
        ensures
            targets.wf(),
            targets@ == Seq::<Ping>::empty(),
    {
        Targets { entries: Vec::new() }
    }

    /// The number of targets.
    pub fn len(&self) -> (n: usize)
        ensures
            n == self@.len(),
    {
        self.entries.len()
    }

    /// Whether there is no target.
    pub fn is_empty(&self) -> (empty: bool)
        ensures
            empty == (self@.len() == 0),
    {
        self.entries.len() == 0
    }

    /// Looks for `addr` by halving: `Ok` with the index of its entry, or
    /// `Err` with the index at which an entry for it belongs.
    fn search(&self, addr: Address) -> (slot: Result<usize, usize>)
        requires
            self.wf(),
        ensures
            match slot {
                Ok(i) => 0 <= i < self@.len() && self@[i as int].addr == addr,
                Err(i) => is_gap(self@, addr, i as int),
            },
    {
        let mut low: usize = 0;
        let mut high: usize = self.entries.len();
        while low < high
            invariant
                0 <= low <= high <= self@.len(),
                self@ == self.entries@,
                ascending(self@),
                forall|j: int| 0 <= j < low ==> self@[j].addr.rank() < addr.rank(),
                forall|j: int| high <= j < self@.len() ==> addr.rank() < self@[j].addr.rank(),
            decreases high - low,
        {
            let mid = low + (high - low) / 2;
            let here = self.entries[mid].addr;
            if here == addr {
                return Ok(mid);
            }
            proof {
                lemma_rank_is_injective(here, addr);
            }
            if here.precedes(addr) {
                low = mid + 1;
            } else {
                high = mid;
            }
        }
        Err(low)
    }

    /// Whether the registry has an entry for `addr`.
    pub fn contains_key(&self, addr: Address) -> (found: bool)
        requires
            self.wf(),
        ensures
            found == self.has(addr),
            found == self.map().dom().contains(addr),
    {
        match self.search(addr) {
            Ok(i) => {
                proof {
                    lemma_entry_at(self@, i as int);
                }
                true
            },
            Err(i) => {
                proof {
                    lemma_gap_is_empty(self@, addr, i as int);
                }
                false
            },
        }
    }

    /// The state of the target `addr`, if it is registered.
    pub fn get(&self, addr: Address) -> (entry: Option<Ping>)
        requires
            self.wf(),
        ensures
            entry == (if self.has(addr) {
                Some(self.map()[addr])
            } else {
                None
            }),
    {
        match self.search(addr) {
            Ok(i) => {
                proof {
                    lemma_entry_at(self@, i as int);
                }
                Some(self.entries[i])
            },
            Err(i) => {
                proof {
                    lemma_gap_is_empty(self@, addr, i as int);
                }
                None
            },
        }
    }

    /// Registers `ping` under its address. An entry that was there for the
    /// same address is replaced whole and handed back.
    pub fn insert(&mut self, ping: Ping) -> (previous: Option<Ping>)
        requires
            old(self).wf(),
        ensures
            final(self).wf(),
            final(self).map() == old(self).map().insert(ping.addr, ping),
            previous == (if old(self).has(ping.addr) {
                Some(old(self).map()[ping.addr])
            } else {
                None
            }),
            final(self)@.len() == old(self)@.len() + (if old(self).has(ping.addr) {
                0int
            } else {
                1int
            }),
    {
        match self.search(ping.addr) {
            Ok(i) => {
                proof {
                    lemma_entry_at(self@, i as int);
                    lemma_replace_entry(self@, ping, i as int);
                }
                let previous = self.entries[i];
                self.entries.set(i, ping);
                Some(previous)
            },
            Err(i) => {
                proof {
                    lemma_gap_is_empty(self@, ping.addr, i as int);
                    lemma_insert_in_gap(self@, ping, i as int);
                }
                self.entries.insert(i, ping);
                None
            },
        }
    }

    /// Registers `addr` as a new target with an identifier drawn at random.
    /// If the address is registered already, nothing of its old state stays:
    /// the identifier is drawn anew, the sequence number is zero again and no
    /// reply counts as seen.
    pub fn add(&mut self, addr: Address)
        requires
            old(self).wf(),
        ensures
            final(self).wf(),
            final(self).has(addr),
            final(self).map() == old(self).map().insert(
                addr,
                Ping::fresh(addr, final(self).map()[addr].identifier),
            ),
            final(self)@.len() == old(self)@.len() + (if old(self).has(addr) {
                0int
            } else {
                1int
            }),
    {
        let ping = Ping::new(addr);
        self.insert(ping);
        assert(self.map().dom().contains(addr));
    }

    /// Takes the target `addr` out of the registry and hands back its state;
    /// does nothing if it is not registered.
    pub fn remove(&mut self, addr: Address) -> (removed: Option<Ping>)
        requires
            old(self).wf(),
        ensures
            final(self).wf(),
            final(self).map() == old(self).map().remove(addr),
            removed == (if old(self).has(addr) {
                Some(old(self).map()[addr])
            } else {
                None
            }),
            final(self)@.len() == old(self)@.len() - (if old(self).has(addr) {
                1int
            } else {
                0int
            }),
    {
        match self.search(addr) {
            Ok(i) => {
                proof {
                    lemma_entry_at(self@, i as int);
                    lemma_remove_entry(self@, i as int);
                }
                let removed = self.entries.remove(i);
                Some(removed)
            },
            Err(i) => {
                proof {
                    lemma_gap_is_empty(self@, addr, i as int);
                    assert(self.map().remove(addr) =~= self.map());
                }
                None
            },
        }
    }

    /// The targets with their states, in address order.
    pub fn entries(&self) -> (entries: Vec<Ping>)
        ensures
            entries@ == self@,
    {
        self.entries.clone()
    }

    /// The send phase of a round. Every target takes one step: its sequence
    /// number moves on and it counts as unseen. The result holds one request
    /// of `size` octets for each target, in address order, each with the
    /// target's identifier and its new sequence number.
    ///
    /// Where there is a target, `size` has to leave room for the header.
    pub fn begin_round(&mut self, size: usize) -> (out: Vec<EchoRequest>)
        requires
            old(self).wf(),
            old(self)@.len() > 0 ==> size >= ECHO_HEADER_LEN,
        ensures
            final(self).wf(),
            final(self)@ == after_send(old(self)@),
            out@.map_values(|r: EchoRequest| r@) == requests(final(self)@, size as nat),
    {
        let ghost before = self@;
        let n = self.entries.len();
        let mut out: Vec<EchoRequest> = Vec::new();
        let mut i: usize = 0;
        while i < n
            invariant
                i <= n,
                n == before.len(),
                self@ == self.entries@,
                self@.len() == n,
                n > 0 ==> size >= ECHO_HEADER_LEN,
                forall|j: int| 0 <= j < i ==> self@[j] == before[j].probed(),
                forall|j: int| i <= j < n ==> self@[j] == before[j],
                out@.len() == i,
                forall|j: int| 0 <= j < i ==> out@[j]@ == self@[j].request(size as nat),
            decreases n - i,
        {
            let mut ping = self.entries[i];
            let request = ping.next_request(size);
            self.entries.set(i, ping);
            out.push(request);
            i += 1;
        }
        proof {
            assert(self@ =~= after_send(before));
            assert(out@.map_values(|r: EchoRequest| r@) =~= requests(self@, size as nat));
            assert forall|a: int, b: int| 0 <= a < b < self@.len() implies self@[a].addr.rank()
                < self@[b].addr.rank() by {
                assert(self@[a].addr == before[a].addr && self@[b].addr == before[b].addr);
            }
        }
        out
    }

    /// What there is to note of `reply` if it comes from a target's address
    /// with another identifier or sequence number than the target's.
    pub fn mismatch(&self, reply: &ReceivedPing) -> (note: Option<Mismatch>)
        requires
            self.wf(),
        ensures
            note == reply_mismatch(self@, *reply),
    {
        match self.get(reply.addr) {
            Some(expected) => if expected.accepts(reply) {
                None
            } else {
                Some(Mismatch { expected, got: *reply })
            },
            None => None,
        }
    }

    /// Correlates one reply in the wait phase. If the registry has a target
    /// of the reply's address whose identifier and sequence number are those
    /// of the reply, and the target has not been heard in this round, the
    /// target counts as seen and the result is the `Receive` to emit. Any
    /// other reply is dropped: nothing changes and nothing is emitted. That
    /// goes for a reply from a stranger, for one with another identifier or
    /// sequence number, and for a second reply to a target already heard.
    pub fn correlate(&mut self, reply: &ReceivedPing) -> (outcome: Option<PingResult>)
        requires
            old(self).wf(),
        ensures
            final(self).wf(),
            final(self)@ == after_reply(old(self)@, *reply),
            outcome == reply_outcome(old(self)@, *reply),
    {
        let ghost before = self@;
        proof {
            lemma_reply_marks_one(before, *reply);
            lemma_accepted_by_lookup(before, *reply);
        }
        match self.search(reply.addr) {
            Ok(i) => {
                let ping = self.entries[i];
                proof {
                    lemma_entry_at(before, i as int);
                }
                if ping.accepts(reply) && !ping.seen {
                    self.entries.set(i, Ping { seen: true, ..ping });
                    proof {
                        lemma_replace_entry(before, ping.answered(), i as int);
                    }
                    Some(PingResult::Receive { addr: reply.addr, rtt: reply.rtt })
                } else {
                    None
                }
            },
            Err(i) => {
                proof {
                    lemma_gap_is_empty(before, reply.addr, i as int);
                }
                None
            },
        }
    }

    /// The report phase of a round: an `Idle` for each target that has had
    /// no reply, in address order.
    pub fn report(&self) -> (out: Vec<PingResult>)
        ensures
            out@ == idle_outcomes(self@),
    {
        let n = self.entries.len();
        let mut out: Vec<PingResult> = Vec::new();
        let mut i: usize = 0;
        proof {
            lemma_idle_outcomes_empty();
            assert(self@.take(0) =~= Seq::<Ping>::empty());
        }
        while i < n
            invariant
                i <= n,
                n == self@.len(),
                self@ == self.entries@,
                out@ == idle_outcomes(self@.take(i as int)),
            decreases n - i,
        {
            let ping = self.entries[i];
            proof {
                lemma_idle_outcomes_push(self@.take(i as int), ping);
                assert(self@.take(i as int + 1) =~= self@.take(i as int).push(ping));
            }
            if !ping.seen {
                out.push(PingResult::Idle { addr: ping.addr });
            }
            i += 1;
        }
        proof {
            assert(self@.take(n as int) =~= self@);
        }
        out
    }
}

} // verus!
