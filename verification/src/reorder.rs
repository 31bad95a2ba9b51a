//! The domain reorderer: the pure permutation taking a column from natural
//! (coset) row order into the circle-domain canonical order, composed with
//! the bit-reversal permutation that recursive-halving interpolation expects.
//! The permutation depends only on the row count, never on cell content, and
//! is proved to be a bijection by exhibiting its inverse.

use vstd::prelude::*;

verus! {

use vstd::arithmetic::div_mod::{
    lemma_div_denominator, lemma_div_multiples_vanish_fancy, lemma_fundamental_div_mod,
    lemma_mod_breakdown, lemma_mod_mod, lemma_mod_multiples_vanish, lemma_small_mod,
};
use vstd::arithmetic::mul::lemma_mul_inequality;
use vstd::arithmetic::power2::{lemma2_to64, lemma_pow2_pos, lemma_pow2_strictly_increases, lemma_pow2_unfold, pow2};
use crate::field::M31;

broadcast use lemma_pow2_pos;

/// Source index read by output position `i` when `n` coset-ordered values
/// are rearranged into circle-domain order: the first half of the output
/// walks the even source indices upward, the second half walks the odd
/// source indices downward.
pub open spec fn cdo_index(n: int, i: int) -> int {
    if i < n / 2 {
        2 * i
    } else {
        2 * n - 1 - 2 * i
    }
}

/// Output position that reads source index `j`: the inverse of
/// [`cdo_index`].
pub open spec fn cdo_inv(n: int, j: int) -> int {
    if j % 2 == 0 {
        j / 2
    } else {
        n - (j + 1) / 2
    }
}

/// The value of `i` with its low `k` bits written in reverse order.
pub open spec fn rev_bits(k: nat, i: nat) -> nat
    decreases k,
{
    if k == 0 {
        0
    } else {
        2 * rev_bits((k - 1) as nat, i % pow2((k - 1) as nat)) + i / pow2((k - 1) as nat)
    }
}

/// A reversed `k`-bit value is again a `k`-bit value.
pub proof fn lemma_rev_bits_bound(k: nat, i: nat)
    requires
        i < pow2(k),
    ensures
        rev_bits(k, i) < pow2(k),
    decreases k,
{
    if k > 0 {
        let h = pow2((k - 1) as nat);
        lemma_pow2_unfold(k);
        lemma_rev_bits_bound((k - 1) as nat, i % h);
        lemma_fundamental_div_mod(i as int, h as int);
        if i / h >= 2 {
            lemma_mul_inequality(2, (i / h) as int, h as int);
            assert(false);
        }
    }
}

/// The low-bit-first unfolding of [`rev_bits`]: the lowest bit of the input
/// lands on the highest output position.
proof fn lemma_rev_bits_alt(k: nat, i: nat)
    requires
        k >= 1,
        i < pow2(k),
    ensures
        rev_bits(k, i) == pow2((k - 1) as nat) * (i % 2) + rev_bits((k - 1) as nat, i / 2),
    decreases k,
{
    if k == 1 {
        lemma2_to64();
        lemma_small_mod(i, 2);
        assert(rev_bits(1, i) == 2 * rev_bits(0, i % 1) + i / 1);
    } else {
        let q = pow2((k - 2) as nat);
        let h = pow2((k - 1) as nat);
        lemma_pow2_unfold(k);
        lemma_pow2_unfold((k - 1) as nat);
        assert(h == 2 * q);
        lemma_mod_mod(i as int, 2, q as int);
        assert((i as int % (2 * q as int)) % 2 == i as int % 2);
        lemma_mod_breakdown(i as int, 2, q as int);
        assert(i as int % (2 * q as int) == 2 * ((i as int / 2) % q as int) + i as int % 2);
        lemma_div_multiples_vanish_fancy((i as int / 2) % q as int, i as int % 2, 2);
        assert((i as int % (2 * q as int)) / 2 == (i as int / 2) % q as int);
        lemma_div_denominator(i as int, 2, q as int);
        assert((i as int / 2) / q as int == i as int / (2 * q as int));
        lemma_rev_bits_alt((k - 1) as nat, i % h);
        let rlow = rev_bits((k - 2) as nat, (i / 2) % q);
        assert(rev_bits((k - 1) as nat, i % h) == q * (i % 2) + rlow);
        assert(2 * (q * (i % 2) + rlow) == 2 * (q * (i % 2)) + 2 * rlow);
        assert(2 * (q * (i % 2)) == h * (i % 2)) by (nonlinear_arith)
            requires h == 2 * q;
        assert(rev_bits(k, i) == 2 * rev_bits((k - 1) as nat, i % h) + i / h);
        assert(rev_bits(k, i) == h * (i % 2) + 2 * rlow + i / h);
        assert(rev_bits((k - 1) as nat, i / 2) == 2 * rlow + (i / 2) / q);
        assert(rev_bits(k, i) == pow2((k - 1) as nat) * (i % 2) + rev_bits((k - 1) as nat, i / 2));
    }
}

/// Reversing the low `k` bits twice gives the input back.
pub proof fn lemma_rev_bits_involution(k: nat, i: nat)
    requires
        i < pow2(k),
    ensures
        rev_bits(k, rev_bits(k, i)) == i,
    decreases k,
{
    if k == 0 {
        assert(pow2(0) == 1) by {
            lemma2_to64();
        }
    } else {
        let h = pow2((k - 1) as nat);
        lemma_pow2_unfold(k);
        let r1 = rev_bits((k - 1) as nat, i % h);
        let bit = i / h;
        lemma_rev_bits_bound((k - 1) as nat, i % h);
        lemma_fundamental_div_mod(i as int, h as int);
        if bit >= 2 {
            lemma_mul_inequality(2, bit as int, h as int);
            assert(h as int * bit as int == bit as int * h as int) by (nonlinear_arith);
            assert(false);
        }
        let j = rev_bits(k, i);
        assert(j == 2 * r1 + bit);
        lemma_rev_bits_bound(k, i);
        lemma_mod_multiples_vanish(r1 as int, bit as int, 2);
        lemma_small_mod(bit, 2);
        assert(j % 2 == bit);
        lemma_div_multiples_vanish_fancy(r1 as int, bit as int, 2);
        assert(j as int / 2 == r1);
        lemma_rev_bits_alt(k, j);
        assert(rev_bits(k, j) == h * (j % 2) + rev_bits((k - 1) as nat, j / 2));
        lemma_rev_bits_involution((k - 1) as nat, i % h);
        assert(rev_bits((k - 1) as nat, r1) == i % h);
        assert(h * bit == h * (i as int / h as int));
    }
}

/// A column in circle-domain order further permuted by bit reversal: output
/// position `i` holds the value the coset-ordered column assigns to source
/// index `cdo_index(n, rev_bits(log_n, i))`.
pub open spec fn domain_order(s: Seq<M31>, log_n: nat) -> Seq<M31> {
    Seq::new(s.len(), |i: int| s[cdo_index(s.len() as int, rev_bits(log_n, i as nat) as int)])
}

/// The inverse permutation of [`domain_order`].
pub open spec fn inverse_domain_order(s: Seq<M31>, log_n: nat) -> Seq<M31> {
    Seq::new(s.len(), |j: int| s[rev_bits(log_n, cdo_inv(s.len() as int, j) as nat) as int])
}

/// The circle-domain reordering is inverted exactly by [`cdo_inv`].
proof fn lemma_cdo_round_trip(n: int, j: int)
    requires
        n % 2 == 0,
        0 <= j < n,
    ensures
        0 <= cdo_inv(n, j) < n,
        cdo_index(n, cdo_inv(n, j)) == j,
{
    lemma_fundamental_div_mod(j, 2);
    if j % 2 == 0 {
        assert(cdo_inv(n, j) == j / 2);
        lemma_fundamental_div_mod(n, 2);
        assert(j / 2 < n / 2);
    } else {
        let m = n - (j + 1) / 2;
        lemma_fundamental_div_mod(j + 1, 2);
        assert((j + 1) % 2 == 0) by {
            lemma_mod_multiples_vanish((j - 1) / 2 + 1, 0, 2);
            assert(j + 1 == 2 * ((j - 1) / 2 + 1) + 0) by {
                lemma_fundamental_div_mod(j - 1, 2);
                assert((j - 1) % 2 == 0) by {
                    lemma_mod_multiples_vanish((j / 2) as int, j % 2 - 1, 2);
                }
            }
        }
        assert(j + 1 == 2 * ((j + 1) / 2));
        lemma_fundamental_div_mod(n, 2);
        assert((j + 1) / 2 <= n / 2);
        assert(m >= n / 2);
    }
}

/// Domain round trip on the reordering side: sending a power-of-two-length
/// column into circle-domain bit-reversed order and applying the inverse
/// permutation recovers the column exactly, so the reordering is a bijection
/// on row indices whatever the cell contents are.
pub proof fn lemma_domain_order_round_trip(s: Seq<M31>, log_n: nat)
    requires
        log_n >= 1,
        s.len() == pow2(log_n),
    ensures
        inverse_domain_order(domain_order(s, log_n), log_n) == s,
{
    let n = s.len() as int;
    assert(n % 2 == 0) by {
        lemma_pow2_unfold(log_n);
        lemma_mod_multiples_vanish(pow2((log_n - 1) as nat) as int, 0, 2);
    }
    let d = domain_order(s, log_n);
    let r = inverse_domain_order(d, log_n);
    assert forall|j: int| 0 <= j < n implies r[j] == s[j] by {
        lemma_cdo_round_trip(n, j);
        let m = cdo_inv(n, j);
        lemma_rev_bits_bound(log_n, m as nat);
        lemma_rev_bits_involution(log_n, m as nat);
        let w = rev_bits(log_n, m as nat);
        assert(r[j] == d[w as int]);
        assert(d[w as int] == s[cdo_index(n, rev_bits(log_n, w) as int)]);
        assert(rev_bits(log_n, w) == m);
    }
    assert(r =~= s);
}

/// Computes the bit reversal of `i` within `k` bits.
fn rev_index(i: usize, k: u32) -> (r: usize)
    requires
        k <= 31,
        i < pow2(k as nat),
    ensures
        r == rev_bits(k as nat, i as nat),
        r < pow2(k as nat),
{
    let mut j: usize = 0;
    let mut cur: usize = i;
    let mut b: u32 = 0;
    proof {
        lemma2_to64();
        assert(rev_bits(0, (i as nat) % pow2(0)) == 0);
    }
    while b < k
        invariant
            b <= k,
            cur == i as nat / pow2(b as nat),
            j == rev_bits(b as nat, (i as nat) % pow2(b as nat)),
            j < pow2(b as nat),
        decreases k - b,
    {
        proof {
            let bb = b as nat;
            let h = pow2(bb);
            lemma_pow2_unfold((bb + 1) as nat);
            lemma_mod_mod(i as int, h as int, 2);
            lemma_mod_breakdown(i as int, h as int, 2);
            lemma_div_multiples_vanish_fancy(
                (i as int / h as int) % 2,
                i as int % h as int,
                h as int,
            );
            lemma_div_denominator(i as int, h as int, 2);
            if b + 1 <= 31 {
                lemma_pow2_strictly_increases((b + 1) as nat, 32);
                lemma2_to64();
            }
        }
        j = 2 * j + cur % 2;
        cur = cur / 2;
        b = b + 1;
    }
    proof {
        lemma_small_mod(i as nat, pow2(k as nat));
    }
    j
}

/// Rearranges a coset-ordered column of even length into circle-domain
/// order: even source indices walked upward, then odd source indices walked
/// downward.
pub fn coset_order_to_circle_domain_order(values: &Vec<M31>) -> (r: Vec<M31>)
    requires
        values@.len() % 2 == 0,
    ensures
        r@.len() == values@.len(),
        forall|i: int|
            0 <= i < r@.len() ==> (#[trigger] r@[i]) == values@[cdo_index(values@.len() as int, i)],
{
    let n = values.len();
    let half = n / 2;
    let mut r: Vec<M31> = Vec::new();
    let mut i: usize = 0;
    while i < half
        invariant
            i <= half,
            r@.len() == i,
            forall|k: int| 0 <= k < i ==> (#[trigger] r@[k]) == values@[2 * k],
        decreases half - i,
    {
        r.push(values[2 * i]);
        i = i + 1;
    }
    let mut i2: usize = 0;
    while i2 < half
        invariant
            i2 <= half,
            r@.len() == half + i2,
            forall|k: int| 0 <= k < half ==> (#[trigger] r@[k]) == values@[2 * k],
            forall|k: int|
                half <= k < half + i2 ==> (#[trigger] r@[k]) == values@[2 * (n as int) - 1 - 2 * k],
        decreases half - i2,
    {
        r.push(values[n - 1 - 2 * i2]);
        i2 = i2 + 1;
    }
    proof {
        assert(n == 2 * half);
        assert forall|i: int| 0 <= i < r@.len() implies (#[trigger] r@[i]) == values@[cdo_index(
            values@.len() as int,
            i,
        )] by {
            assert(values@.len() as int / 2 == half as int);
        }
    }
    r
}

/// Permutes a power-of-two-length column in place into bit-reversed index
/// order.
pub fn bit_reverse(values: &mut Vec<M31>, log_n: u32)
    requires
        log_n <= 31,
        old(values)@.len() == pow2(log_n as nat),
    ensures
        final(values)@.len() == old(values)@.len(),
        forall|i: int|
            0 <= i < final(values)@.len() ==> (#[trigger] final(values)@[i]) == old(values)@[rev_bits(
                log_n as nat,
                i as nat,
            ) as int],
{
    let n = values.len();
    let mut out: Vec<M31> = Vec::new();
    let mut i: usize = 0;
    while i < n
        invariant
            i <= n,
            out@.len() == i,
            values@ == old(values)@,
            forall|k: int|
                0 <= k < i ==> (#[trigger] out@[k]) == values@[rev_bits(log_n as nat, k as nat) as int],
        decreases n - i,
    {
        let j = rev_index(i, log_n);
        out.push(values[j]);
        i = i + 1;
    }
    *values = out;
}

/// Applies the full domain reordering to every column of a raw column set.
pub fn columns_to_domain_order(cols: &Vec<Vec<M31>>, log_n: u32) -> (r: Vec<Vec<M31>>)
    requires
        1 <= log_n <= 31,
        forall|i: int| 0 <= i < cols@.len() ==> (#[trigger] cols@[i])@.len() == pow2(log_n as nat),
    ensures
        r@.len() == cols@.len(),
        forall|i: int|
            0 <= i < r@.len() ==> (#[trigger] r@[i])@ == domain_order(cols@[i]@, log_n as nat),
{
    let n_cols = cols.len();
    let mut r: Vec<Vec<M31>> = Vec::new();
    let mut i: usize = 0;
    while i < n_cols
        invariant
            i <= n_cols,
            r@.len() == i,
            forall|m: int|
                0 <= m < i ==> (#[trigger] r@[m])@ == domain_order(cols@[m]@, log_n as nat),
        decreases n_cols - i,
    {
        r.push(to_domain_order(&cols[i], log_n));
        i = i + 1;
    }
    r
}

/// Applies the full domain reordering to one column: circle-domain order,
/// then bit reversal.
pub fn to_domain_order(values: &Vec<M31>, log_n: u32) -> (r: Vec<M31>)
    requires
        log_n <= 31,
        log_n >= 1,
        values@.len() == pow2(log_n as nat),
    ensures
        r@.len() == values@.len(),
        r@ == domain_order(values@, log_n as nat),
{
    proof {
        lemma_pow2_unfold(log_n as nat);
        lemma_mod_multiples_vanish(pow2((log_n - 1) as nat) as int, 0, 2);
    }
    let mut tmp = coset_order_to_circle_domain_order(values);
    bit_reverse(&mut tmp, log_n);
    proof {
        assert forall|i: int| 0 <= i < tmp@.len() implies (#[trigger] tmp@[i]) == domain_order(
            values@,
            log_n as nat,
        )[i] by {
            lemma_rev_bits_bound(log_n as nat, i as nat);
        }
        assert(tmp@ =~= domain_order(values@, log_n as nat));
    }
    tmp
}

} // verus!
