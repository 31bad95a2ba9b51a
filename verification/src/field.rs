//! The Mersenne-31 prime field: every trace cell is a residue modulo `P`.

use vstd::prelude::*;

verus! {

use vstd::arithmetic::div_mod::{lemma_fundamental_div_mod, lemma_fundamental_div_mod_converse, lemma_mod_add_multiples_vanish, lemma_mod_multiples_vanish, lemma_small_mod};
use vstd::arithmetic::mul::lemma_mul_upper_bound;

/// The field modulus, the Mersenne prime 2^31 - 1.
pub const P: u32 = 0x7fff_ffff;

/// One element of the prime field of order [`P`], stored as its canonical
/// residue. A value is well formed when the residue is below the modulus.
#[derive(Clone, Copy, PartialEq, Eq, Structural, Debug)]
pub struct M31 {
    pub v: u32,
}

impl M31 {
    /// The residue is canonical.
    pub open spec fn inv(self) -> bool {
        self.v < P
    }

    pub open spec fn spec_add(self, other: M31) -> M31 {
        M31 { v: ((self.v + other.v) % (P as int)) as u32 }
    }

    pub open spec fn spec_sub(self, other: M31) -> M31 {
        M31 { v: ((self.v - other.v) % (P as int)) as u32 }
    }

    pub open spec fn spec_mul(self, other: M31) -> M31 {
        M31 { v: ((self.v * other.v) % (P as int)) as u32 }
    }

    /// The additive identity.
    pub fn zero() -> (r: M31)
        ensures
            r.v == 0,
            r.inv(),
    {
        M31 { v: 0 }
    }

    /// The multiplicative identity.
    pub fn one() -> (r: M31)
        ensures
            r.v == 1,
            r.inv(),
    {
        M31 { v: 1 }
    }

    /// Reduces an arbitrary machine word into the field.
    pub fn new(v: u32) -> (r: M31)
        ensures
            r.v == v % P,
            r.inv(),
    {
        M31 { v: v % P }
    }

    /// Embeds a byte; bytes are always canonical residues.
    pub fn from_u8(b: u8) -> (r: M31)
        ensures
            r.v == b,
            r.inv(),
    {
        M31 { v: b as u32 }
    }

    /// Field addition.
    pub fn add(self, other: M31) -> (r: M31)
        requires
            self.inv(),
            other.inv(),
        ensures
            r == self.spec_add(other),
            r.inv(),
    {
        let s: u32 = self.v + other.v;
        if s >= P {
            proof {
                lemma_fundamental_div_mod_converse(s as int, P as int, 1, s - P);
            }
            M31 { v: s - P }
        } else {
            proof {
                lemma_small_mod(s as nat, P as nat);
            }
            M31 { v: s }
        }
    }

    /// Field subtraction.
    pub fn sub(self, other: M31) -> (r: M31)
        requires
            self.inv(),
            other.inv(),
        ensures
            r == self.spec_sub(other),
            r.inv(),
    {
        if self.v >= other.v {
            proof {
                lemma_small_mod((self.v - other.v) as nat, P as nat);
            }
            M31 { v: self.v - other.v }
        } else {
            proof {
                lemma_mod_add_multiples_vanish(self.v - other.v, P as int);
                lemma_small_mod((self.v + P - other.v) as nat, P as nat);
            }
            M31 { v: self.v + P - other.v }
        }
    }

    /// Field multiplication.
    pub fn mul(self, other: M31) -> (r: M31)
        requires
            self.inv(),
            other.inv(),
        ensures
            r == self.spec_mul(other),
            r.inv(),
    {
        proof {
            lemma_mul_upper_bound(self.v as int, 0x7fff_fffe, other.v as int, 0x7fff_fffe);
            assert(self.v as int * other.v as int <= 0x7fff_fffe * 0x7fff_fffe) by (nonlinear_arith)
                requires self.v <= 0x7fff_fffe && other.v <= 0x7fff_fffe;
        }
        let wide: u64 = (self.v as u64) * (other.v as u64);
        let m: u64 = wide % (P as u64);
        M31 { v: m as u32 }
    }
}

/// A product with a zero factor is zero, whichever side the factor stands
/// on.
pub proof fn lemma_mul_zero(a: M31, b: M31)
    requires
        a.v == 0 || b.v == 0,
    ensures
        a.spec_mul(b).v == 0,
{
    assert(a.v as int * b.v as int == 0) by (nonlinear_arith)
        requires a.v == 0 || b.v == 0;
}

/// Subtracting an element from itself gives zero.
pub proof fn lemma_sub_self(a: M31)
    ensures
        a.spec_sub(a).v == 0,
{
}

/// Adding an element and then subtracting it again returns the other
/// addend.
pub proof fn lemma_add_then_sub(a: M31, b: M31)
    requires
        a.inv(),
        b.inv(),
    ensures
        a.spec_add(b).spec_sub(a) == b,
{
    let s = (a.v + b.v) % (P as int);
    lemma_fundamental_div_mod(a.v + b.v, P as int);
    let q = (a.v + b.v) / (P as int);
    assert(s - a.v == (P as int) * (-q) + b.v);
    lemma_mod_multiples_vanish(-q, b.v as int, P as int);
    lemma_small_mod(b.v as nat, P as nat);
}

} // verus!
