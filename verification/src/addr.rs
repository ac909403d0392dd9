//! Target addresses of both families, as plain integers.

use vstd::prelude::*;

verus! {

/// The two address families that the prober speaks.
#[derive(Clone, Copy, Debug, PartialEq, Eq, Structural)]
pub enum Family {
    V4,
    V6,
}

/// An IP address: the 32 bits of an IPv4 address or the 128 bits of an IPv6
/// address, most significant octet first.
///
/// Addresses are ordered by [`Address::rank`]: every IPv4 address comes before
/// every IPv6 address, and within a family the numerically smaller one first.
#[derive(Clone, Copy, Debug, PartialEq, Eq, Structural)]
pub enum Address {
    V4(u32),
    V6(u128),
}

impl Address {
    /// The place of an address in the total order of addresses.
    pub open spec fn rank(self) -> int {
        match self {
            Address::V4(bits) => bits as int,
            Address::V6(bits) => 0x1_0000_0000 + bits as int,
        }
    }

    /// Whether `self` comes strictly before `other`.
    pub open spec fn spec_precedes(self, other: Address) -> bool {
        self.rank() < other.rank()
    }

    /// The family of an address.
    pub open spec fn spec_family(self) -> Family {
        match self {
            Address::V4(_) => Family::V4,
            Address::V6(_) => Family::V6,
        }
    }

    /// The IPv4 address `a.b.c.d`.
    pub fn v4(a: u8, b: u8, c: u8, d: u8) -> (addr: Address)
        ensures
            addr == Address::V4((a * 0x100_0000 + b * 0x1_0000 + c * 0x100 + d) as u32),
    {
        let bits: u32 = (a as u32) * 0x100_0000 + (b as u32) * 0x1_0000 + (c as u32) * 0x100 + (
        d as u32);
        Address::V4(bits)
    }

    /// The IPv6 address whose eight 16-bit groups are `groups`, first group
    /// first.
    pub fn v6(groups: [u16; 8]) -> (addr: Address)
        ensures
            addr == Address::V6(Self::join_groups(groups@) as u128),
            Self::join_groups(groups@) <= u128::MAX,
    {
        let mut bits: u128 = 0;
        let mut i: usize = 0;
        while i < 8
            invariant
                i <= 8,
                bits == Self::join_groups(groups@.take(i as int)),
                bits < Self::group_bound(i as nat),
            decreases 8 - i,
        {
            proof {
                assert(groups@.take(i as int + 1).drop_last() == groups@.take(i as int));
                Self::group_bound_values();
            }
            bits = bits * 0x1_0000 + groups[i] as u128;
            i += 1;
        }
        proof {
            assert(groups@.take(8) == groups@);
            Self::group_bound_values();
        }
        Address::V6(bits)
    }

    /// The number whose base-65536 digits are `groups`, most significant
    /// first.
    pub open spec fn join_groups(groups: Seq<u16>) -> nat
        decreases groups.len(),
    {
        if groups.len() == 0 {
            0
        } else {
            Self::join_groups(groups.drop_last()) * 0x1_0000 + groups.last() as nat
        }
    }

    /// 65536 to the power `n`: the least number that `n` groups cannot reach.
    pub open spec fn group_bound(n: nat) -> nat
        decreases n,
    {
        if n == 0 {
            1
        } else {
            Self::group_bound((n - 1) as nat) * 0x1_0000
        }
    }

    proof fn group_bound_values()
        ensures
            Self::group_bound(0) == 1,
            Self::group_bound(1) == 0x1_0000,
            Self::group_bound(2) == 0x1_0000_0000,
            Self::group_bound(3) == 0x1_0000_0000_0000,
            Self::group_bound(4) == 0x1_0000_0000_0000_0000,
            Self::group_bound(5) == 0x1_0000_0000_0000_0000_0000,
            Self::group_bound(6) == 0x1_0000_0000_0000_0000_0000_0000,
            Self::group_bound(7) == 0x1_0000_0000_0000_0000_0000_0000_0000,
            Self::group_bound(8) == 0x1_0000_0000_0000_0000_0000_0000_0000_0000,
    {
        reveal_with_fuel(Address::group_bound, 9);
    }

    /// The family of this address.
    #[verifier::when_used_as_spec(spec_family)]
    pub fn family(self) -> (family: Family)
        ensures
            family == self.spec_family(),
    {
        match self {
            Address::V4(_) => Family::V4,
            Address::V6(_) => Family::V6,
        }
    }

    /// Whether this is an IPv4 address.
    pub fn is_ipv4(self) -> (yes: bool)
        ensures
            yes == (self.spec_family() == Family::V4),
    {
        match self {
            Address::V4(_) => true,
            Address::V6(_) => false,
        }
    }

    /// Whether this is an IPv6 address.
    pub fn is_ipv6(self) -> (yes: bool)
        ensures
            yes == (self.spec_family() == Family::V6),
    {
        match self {
            Address::V4(_) => false,
            Address::V6(_) => true,
        }
    }

    /// Whether this address comes strictly before `other` in address order.
    #[verifier::when_used_as_spec(spec_precedes)]
    pub fn precedes(self, other: Address) -> (before: bool)
        ensures
            before == self.spec_precedes(other),
    {
        match (self, other) {
            (Address::V4(x), Address::V4(y)) => x < y,
            (Address::V4(_), Address::V6(_)) => true,
            (Address::V6(_), Address::V4(_)) => false,
            (Address::V6(x), Address::V6(y)) => x < y,
        }
    }
}

/// Two addresses of the same rank are the same address, and of two different
/// addresses one comes before the other.
pub proof fn lemma_rank_is_injective(a: Address, b: Address)
    ensures
        a.rank() == b.rank() <==> a == b,
        a != b ==> (a.spec_precedes(b) || b.spec_precedes(a)),
        !(a.spec_precedes(b) && b.spec_precedes(a)),
{
}

} // verus!
