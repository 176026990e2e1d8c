//! Fixed-width unsigned words used throughout the ledger: 256-bit
//! quantities (balances, nonces, storage keys and values, hashes) and
//! 160-bit account addresses.
//!
//! A word is four little-endian 64-bit limbs; its mathematical value is
//! given by [`W256::as_nat`], and every arithmetic operation is specified
//! against that value.

use vstd::prelude::*;

verus! {

/// 2^64, the weight of the second limb.
pub open spec fn pow64() -> nat {
    0x1_0000_0000_0000_0000nat
}

/// 2^128, the weight of the third limb.
pub open spec fn pow128() -> nat {
    0x1_0000_0000_0000_0000_0000_0000_0000_0000nat
}

/// 2^192, the weight of the fourth limb.
pub open spec fn pow192() -> nat {
    0x1_0000_0000_0000_0000_0000_0000_0000_0000_0000_0000_0000_0000nat
}

/// 2^256, one past the largest representable word.
pub open spec fn pow256() -> nat {
    0x1_0000_0000_0000_0000_0000_0000_0000_0000_0000_0000_0000_0000_0000_0000_0000_0000nat
}

/// An unsigned 256-bit word, stored as four 64-bit limbs, least
/// significant first.
#[derive(Clone, Copy, PartialEq, Eq, Structural, Debug)]
pub struct W256 {
    pub limb0: u64,
    pub limb1: u64,
    pub limb2: u64,
    pub limb3: u64,
}

impl W256 {
    /// The value this word denotes.
    pub open spec fn as_nat(self) -> nat {
        (self.limb0 + self.limb1 * pow64() + self.limb2 * pow128() + self.limb3 * pow192()) as nat
    }

    pub open spec fn spec_zero() -> W256 {
        W256 { limb0: 0, limb1: 0, limb2: 0, limb3: 0 }
    }

    /// The word of value zero.
    pub fn zero() -> (r: W256)
        ensures
            r == W256::spec_zero(),
            r.as_nat() == 0,
    {
        W256 { limb0: 0, limb1: 0, limb2: 0, limb3: 0 }
    }

    /// The largest representable word, 2^256 - 1.
    pub fn max_value() -> (r: W256)
        ensures
            r.as_nat() == pow256() - 1,
    {
        W256 {
            limb0: 0xffff_ffff_ffff_ffff,
            limb1: 0xffff_ffff_ffff_ffff,
            limb2: 0xffff_ffff_ffff_ffff,
            limb3: 0xffff_ffff_ffff_ffff,
        }
    }

    /// Embeds a 64-bit value.
    pub fn from_u64(x: u64) -> (r: W256)
        ensures
            r.as_nat() == x,
    {
        W256 { limb0: x, limb1: 0, limb2: 0, limb3: 0 }
    }

    /// Every word is below 2^256.
    pub proof fn lemma_bound(self)
        ensures
            self.as_nat() < pow256(),
    {
    }

    /// Words with equal values are equal limb for limb.
    pub proof fn lemma_value_injective(self, other: W256)
        requires
            self.as_nat() == other.as_nat(),
        ensures
            self == other,
    {
        assert(self.limb0 == other.limb0 && self.limb1 == other.limb1 && self.limb2
            == other.limb2 && self.limb3 == other.limb3) by {
            lemma_limb_decomposition(self);
            lemma_limb_decomposition(other);
        }
    }

    /// Sum of two words, or `None` when the sum does not fit in 256 bits.
    pub fn checked_add(self, other: W256) -> (r: Option<W256>)
        ensures
            match r {
                Some(s) => s.as_nat() == self.as_nat() + other.as_nat(),
                None => self.as_nat() + other.as_nat() >= pow256(),
            },
    {
        let t0: u128 = self.limb0 as u128 + other.limb0 as u128;
        let s0: u64 = (t0 % 0x1_0000_0000_0000_0000u128) as u64;
        let c0: u128 = t0 / 0x1_0000_0000_0000_0000u128;
        let t1: u128 = self.limb1 as u128 + other.limb1 as u128 + c0;
        let s1: u64 = (t1 % 0x1_0000_0000_0000_0000u128) as u64;
        let c1: u128 = t1 / 0x1_0000_0000_0000_0000u128;
        let t2: u128 = self.limb2 as u128 + other.limb2 as u128 + c1;
        let s2: u64 = (t2 % 0x1_0000_0000_0000_0000u128) as u64;
        let c2: u128 = t2 / 0x1_0000_0000_0000_0000u128;
        let t3: u128 = self.limb3 as u128 + other.limb3 as u128 + c2;
        let s3: u64 = (t3 % 0x1_0000_0000_0000_0000u128) as u64;
        let c3: u128 = t3 / 0x1_0000_0000_0000_0000u128;
        let sum = W256 { limb0: s0, limb1: s1, limb2: s2, limb3: s3 };
        proof {
            assert(t0 == s0 + c0 * pow64());
            assert(t1 == s1 + c1 * pow64());
            assert(t2 == s2 + c2 * pow64());
            assert(t3 == s3 + c3 * pow64());
            assert(self.as_nat() + other.as_nat() == sum.as_nat() + c3 * pow256());
        }
        if c3 == 0 {
            Some(sum)
        } else {
            None
        }
    }

    /// Sum of two words, clamped to the largest representable value.
    pub fn saturating_add(self, other: W256) -> (r: W256)
        ensures
            r.as_nat() == if self.as_nat() + other.as_nat() < pow256() {
                self.as_nat() + other.as_nat()
            } else {
                (pow256() - 1) as nat
            },
    {
        match self.checked_add(other) {
            Some(s) => s,
            None => W256::max_value(),
        }
    }

    /// Difference of two words; the subtrahend must not exceed the
    /// minuend.
    pub fn sub(self, other: W256) -> (r: W256)
        requires
            other.as_nat() <= self.as_nat(),
        ensures
            r.as_nat() == self.as_nat() - other.as_nat(),
    {
        let t0: u128 = self.limb0 as u128 + 0x1_0000_0000_0000_0000u128 - other.limb0 as u128;
        let d0: u64 = (t0 % 0x1_0000_0000_0000_0000u128) as u64;
        let b0: u128 = 1 - t0 / 0x1_0000_0000_0000_0000u128;
        let t1: u128 = self.limb1 as u128 + 0x1_0000_0000_0000_0000u128 - other.limb1 as u128
            - b0;
        let d1: u64 = (t1 % 0x1_0000_0000_0000_0000u128) as u64;
        let b1: u128 = 1 - t1 / 0x1_0000_0000_0000_0000u128;
        let t2: u128 = self.limb2 as u128 + 0x1_0000_0000_0000_0000u128 - other.limb2 as u128
            - b1;
        let d2: u64 = (t2 % 0x1_0000_0000_0000_0000u128) as u64;
        let b2: u128 = 1 - t2 / 0x1_0000_0000_0000_0000u128;
        let t3: u128 = self.limb3 as u128 + 0x1_0000_0000_0000_0000u128 - other.limb3 as u128
            - b2;
        let d3: u64 = (t3 % 0x1_0000_0000_0000_0000u128) as u64;
        let b3: u128 = 1 - t3 / 0x1_0000_0000_0000_0000u128;
        let diff = W256 { limb0: d0, limb1: d1, limb2: d2, limb3: d3 };
        proof {
            assert(t0 == d0 + (1 - b0) * pow64());
            assert(t1 == d1 + (1 - b1) * pow64());
            assert(t2 == d2 + (1 - b2) * pow64());
            assert(t3 == d3 + (1 - b3) * pow64());
            assert(self.as_nat() - other.as_nat() == diff.as_nat() - b3 * pow256());
            assert(b3 == 0);
        }
        diff
    }

    /// `self * 10 + d`, or `None` when that does not fit in 256 bits;
    /// the step of a base-10 accumulator.
    pub fn mul10_add(self, d: u64) -> (r: Option<W256>)
        requires
            d < 10,
        ensures
            match r {
                Some(s) => s.as_nat() == self.as_nat() * 10 + d,
                None => self.as_nat() * 10 + d >= pow256(),
            },
    {
        let t0: u128 = self.limb0 as u128 * 10 + d as u128;
        let s0: u64 = (t0 % 0x1_0000_0000_0000_0000u128) as u64;
        let c0: u128 = t0 / 0x1_0000_0000_0000_0000u128;
        let t1: u128 = self.limb1 as u128 * 10 + c0;
        let s1: u64 = (t1 % 0x1_0000_0000_0000_0000u128) as u64;
        let c1: u128 = t1 / 0x1_0000_0000_0000_0000u128;
        let t2: u128 = self.limb2 as u128 * 10 + c1;
        let s2: u64 = (t2 % 0x1_0000_0000_0000_0000u128) as u64;
        let c2: u128 = t2 / 0x1_0000_0000_0000_0000u128;
        let t3: u128 = self.limb3 as u128 * 10 + c2;
        let s3: u64 = (t3 % 0x1_0000_0000_0000_0000u128) as u64;
        let c3: u128 = t3 / 0x1_0000_0000_0000_0000u128;
        let prod = W256 { limb0: s0, limb1: s1, limb2: s2, limb3: s3 };
        proof {
            assert(t0 == s0 + c0 * pow64());
            assert(t1 == s1 + c1 * pow64());
            assert(t2 == s2 + c2 * pow64());
            assert(t3 == s3 + c3 * pow64());
            assert(self.as_nat() * 10 + d == prod.as_nat() + c3 * pow256());
        }
        if c3 == 0 {
            Some(prod)
        } else {
            None
        }
    }

    /// `self * 16 + d`, or `None` when that does not fit in 256 bits;
    /// the step of a base-16 accumulator.
    pub fn mul16_add(self, d: u64) -> (r: Option<W256>)
        requires
            d < 16,
        ensures
            match r {
                Some(s) => s.as_nat() == self.as_nat() * 16 + d,
                None => self.as_nat() * 16 + d >= pow256(),
            },
    {
        let t0: u128 = self.limb0 as u128 * 16 + d as u128;
        let s0: u64 = (t0 % 0x1_0000_0000_0000_0000u128) as u64;
        let c0: u128 = t0 / 0x1_0000_0000_0000_0000u128;
        let t1: u128 = self.limb1 as u128 * 16 + c0;
        let s1: u64 = (t1 % 0x1_0000_0000_0000_0000u128) as u64;
        let c1: u128 = t1 / 0x1_0000_0000_0000_0000u128;
        let t2: u128 = self.limb2 as u128 * 16 + c1;
        let s2: u64 = (t2 % 0x1_0000_0000_0000_0000u128) as u64;
        let c2: u128 = t2 / 0x1_0000_0000_0000_0000u128;
        let t3: u128 = self.limb3 as u128 * 16 + c2;
        let s3: u64 = (t3 % 0x1_0000_0000_0000_0000u128) as u64;
        let c3: u128 = t3 / 0x1_0000_0000_0000_0000u128;
        let prod = W256 { limb0: s0, limb1: s1, limb2: s2, limb3: s3 };
        proof {
            assert(t0 == s0 + c0 * pow64());
            assert(t1 == s1 + c1 * pow64());
            assert(t2 == s2 + c2 * pow64());
            assert(t3 == s3 + c3 * pow64());
            assert(self.as_nat() * 16 + d == prod.as_nat() + c3 * pow256());
        }
        if c3 == 0 {
            Some(prod)
        } else {
            None
        }
    }

    /// Whether this word's value is at most the other's.
    pub fn le(self, other: W256) -> (r: bool)
        ensures
            r == (self.as_nat() <= other.as_nat()),
    {
        proof {
            lemma_limb_order(self, other);
        }
        if self.limb3 != other.limb3 {
            self.limb3 < other.limb3
        } else if self.limb2 != other.limb2 {
            self.limb2 < other.limb2
        } else if self.limb1 != other.limb1 {
            self.limb1 < other.limb1
        } else {
            self.limb0 <= other.limb0
        }
    }

    /// Whether this word's value is strictly below the other's.
    pub fn lt(self, other: W256) -> (r: bool)
        ensures
            r == (self.as_nat() < other.as_nat()),
    {
        let le = other.le(self);
        !le
    }
}

/// Each limb is the corresponding base-2^64 digit of the word's value.
proof fn lemma_limb_decomposition(w: W256)
    ensures
        w.limb0 == w.as_nat() % pow64(),
        w.limb1 == (w.as_nat() / pow64()) % pow64(),
        w.limb2 == (w.as_nat() / pow128()) % pow64(),
        w.limb3 == w.as_nat() / pow192(),
{
    let n = w.as_nat();
    assert(n == w.limb0 + (w.limb1 + (w.limb2 + w.limb3 * pow64()) * pow64()) * pow64());
}

/// Limb-lexicographic comparison agrees with value comparison.
proof fn lemma_limb_order(a: W256, b: W256)
    ensures
        a.limb3 < b.limb3 ==> a.as_nat() < b.as_nat(),
        a.limb3 == b.limb3 && a.limb2 < b.limb2 ==> a.as_nat() < b.as_nat(),
        a.limb3 == b.limb3 && a.limb2 == b.limb2 && a.limb1 < b.limb1 ==> a.as_nat()
            < b.as_nat(),
        a.limb3 == b.limb3 && a.limb2 == b.limb2 && a.limb1 == b.limb1 ==> (a.as_nat()
            <= b.as_nat() <==> a.limb0 <= b.limb0),
{
    if a.limb3 < b.limb3 {
        assert(a.as_nat() < (a.limb3 + 1) * pow192());
        assert((a.limb3 + 1) * pow192() <= b.limb3 * pow192());
    } else if a.limb3 == b.limb3 && a.limb2 < b.limb2 {
        assert(a.limb0 + a.limb1 * pow64() < pow128());
        assert(a.as_nat() < a.limb3 * pow192() + (a.limb2 + 1) * pow128());
    } else if a.limb3 == b.limb3 && a.limb2 == b.limb2 && a.limb1 < b.limb1 {
        assert(a.as_nat() < a.limb3 * pow192() + a.limb2 * pow128() + (a.limb1 + 1) * pow64());
    }
}

/// A 160-bit account address: two 64-bit limbs and one 32-bit limb,
/// least significant first.
#[derive(Clone, Copy, PartialEq, Eq, Structural, Debug)]
pub struct Address {
    pub limb0: u64,
    pub limb1: u64,
    pub limb2: u32,
}

impl Address {
    /// The value this address denotes.
    pub open spec fn as_nat(self) -> nat {
        (self.limb0 + self.limb1 * pow64() + self.limb2 * pow128()) as nat
    }

    pub open spec fn spec_zero() -> Address {
        Address { limb0: 0, limb1: 0, limb2: 0 }
    }

    /// The all-zero address.
    pub fn zero() -> (r: Address)
        ensures
            r == Address::spec_zero(),
    {
        Address { limb0: 0, limb1: 0, limb2: 0 }
    }

    /// Embeds a 64-bit value.
    pub fn from_u64(x: u64) -> (r: Address)
        ensures
            r.as_nat() == x,
            r.limb0 == x && r.limb1 == 0 && r.limb2 == 0,
    {
        Address { limb0: x, limb1: 0, limb2: 0 }
    }
}

} // verus!
