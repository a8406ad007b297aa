//! 256-bit unsigned integers and the absolute-difference metric used to rank
//! submission hashes in the lottery tie-break.

use vstd::prelude::*;

verus! {

/// A 256-bit unsigned integer as four 64-bit limbs, least significant first.
#[derive(Debug, PartialEq, Eq, Clone, Copy)]
pub struct BigInt256 {
    pub l0: u64,
    pub l1: u64,
    pub l2: u64,
    pub l3: u64,
}

impl BigInt256 {
    /// The integer this value denotes.
    pub open spec fn value(&self) -> int {
        self.l0 + self.l1 * 0x1_0000_0000_0000_0000 + self.l2
            * 0x1_0000_0000_0000_0000_0000_0000_0000_0000 + self.l3
            * 0x1_0000_0000_0000_0000_0000_0000_0000_0000_0000_0000_0000_0000
    }

    /// The 256-bit integer with the given low limb.
    pub fn from_u64(n: u64) -> (r: BigInt256)
        ensures
            r.value() == n,
    {
        BigInt256 { l0: n, l1: 0, l2: 0, l3: 0 }
    }

    /// Builds the integer from its four limbs, least significant first.
    pub fn from_limbs(l0: u64, l1: u64, l2: u64, l3: u64) -> (r: BigInt256)
        ensures
            r.l0 == l0 && r.l1 == l1 && r.l2 == l2 && r.l3 == l3,
    {
        BigInt256 { l0, l1, l2, l3 }
    }

    /// Whether this integer is at least `other`, decided limb by limb from
    /// the most significant end.
    pub fn ge(&self, other: &BigInt256) -> (r: bool)
        ensures
            r == (self.value() >= other.value()),
    {
        if self.l3 != other.l3 {
            return self.l3 > other.l3;
        }
        if self.l2 != other.l2 {
            return self.l2 > other.l2;
        }
        if self.l1 != other.l1 {
            return self.l1 > other.l1;
        }
        self.l0 >= other.l0
    }
}

/// One limb of a borrowing subtraction: `x - y - borrow`, wrapped into a
/// 64-bit limb and an outgoing borrow.
fn sub_limb(x: u64, y: u64, borrow: u64) -> (r: (u64, u64))
    requires
        borrow <= 1,
    ensures
        r.1 <= 1,
        r.0 == x - y - borrow + r.1 * 0x1_0000_0000_0000_0000,
{
    let xx: u128 = x as u128;
    let yy: u128 = y as u128 + borrow as u128;
    if xx >= yy {
        ((xx - yy) as u64, 0u64)
    } else {
        ((xx + 0x1_0000_0000_0000_0000u128 - yy) as u64, 1u64)
    }
}

/// Subtracts the smaller 256-bit integer from the larger with a borrow chain.
fn sub_ordered(a: &BigInt256, b: &BigInt256) -> (r: BigInt256)
    requires
        a.value() >= b.value(),
    ensures
        r.value() == a.value() - b.value(),
{
    let (d0, c0) = sub_limb(a.l0, b.l0, 0);
    let (d1, c1) = sub_limb(a.l1, b.l1, c0);
    let (d2, c2) = sub_limb(a.l2, b.l2, c1);
    let (d3, c3) = sub_limb(a.l3, b.l3, c2);
    let r = BigInt256 { l0: d0, l1: d1, l2: d2, l3: d3 };
    proof {
        assert(r.value() == a.value() - b.value() + c3
            * 0x1_0000_0000_0000_0000_0000_0000_0000_0000_0000_0000_0000_0000_0000_0000_0000_0000);
        if c3 == 1 {
            assert(r.value()
                < 0x1_0000_0000_0000_0000_0000_0000_0000_0000_0000_0000_0000_0000_0000_0000_0000_0000);
            assert(false);
        }
    }
    r
}

/// Computes `|a - b|` for 256-bit integers.
pub fn big_integer_metric(a: &BigInt256, b: &BigInt256) -> (r: BigInt256)
    ensures
        r.value() == if a.value() >= b.value() {
            a.value() - b.value()
        } else {
            b.value() - a.value()
        },
{
    if a.ge(b) {
        sub_ordered(a, b)
    } else {
        sub_ordered(b, a)
    }
}

} // verus!
