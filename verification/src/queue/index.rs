//! Capacities and cell indices: a ring of a power-of-two capacity finds the
//! cell of a position by masking.

use vstd::prelude::*;
use vstd::arithmetic::power2::lemma_pow2_strictly_increases;
use vstd::arithmetic::power2::lemma_pow2_unfold;
use vstd::arithmetic::power2::lemma2_to64;
use vstd::arithmetic::power2::lemma2_to64_rest;
use vstd::arithmetic::power2::pow2;
use vstd::bits::lemma_u64_low_bits_mask_is_mod;
use vstd::bits::low_bits_mask;

verus! {

/// `n` is 1, 2, 4, 8, ...
pub open spec fn power_of_two(n: nat) -> bool {
    exists|k: nat| n == pow2(k)
}

/// `mask` is the index mask of a ring of `cells` cells: one less than
/// their number, which is a power of two.
pub open spec fn masks(mask: usize, cells: usize) -> bool {
    &&& cells == mask + 1
    &&& power_of_two(cells as nat)
}

/// A power of two lies strictly between no two neighbouring powers of two.
proof fn lemma_between_powers(n: nat, k: nat)
    requires
        forall|j: nat| j < k ==> pow2(j) < n,
        n < pow2(k),
    ensures
        !power_of_two(n),
{
    assert forall|j: nat| n != pow2(j) by {
        if j > k {
            lemma_pow2_strictly_increases(k, j);
        }
    }
}

/// An exponent whose power fits in 64 bits is below 64.
proof fn lemma_exponent_fits(k: nat)
    requires
        pow2(k) <= u64::MAX,
    ensures
        k < 64,
{
    if k >= 64 {
        lemma2_to64();
        lemma2_to64_rest();
        if k > 64 {
            lemma_pow2_strictly_increases(64, k);
        }
    }
}

/// Tells whether `capacity` is a power of two.
pub fn is_power_of_two(capacity: usize) -> (ok: bool)
    ensures
        ok == power_of_two(capacity as nat),
{
    let mut c: usize = 1;
    let ghost mut k: nat = 0;
    proof {
        lemma2_to64();
    }
    while c < capacity && c <= usize::MAX / 2
        invariant
            c >= 1,
            c == pow2(k),
            forall|j: nat| j < k ==> pow2(j) < capacity,
        decreases usize::MAX - c,
    {
        proof {
            lemma_pow2_unfold(k + 1);
        }
        c = c * 2;
        proof {
            k = k + 1;
        }
    }
    proof {
        if c < capacity {
            lemma_pow2_unfold(k + 1);
            assert forall|j: nat| j < k + 1 implies pow2(j) < capacity by {}
            lemma_between_powers(capacity as nat, k + 1);
        } else if c > capacity {
            lemma_between_powers(capacity as nat, k);
        }
    }
    c == capacity
}

/// The cell of position `pos` in a ring whose capacity is `mask + 1`, a
/// power of two: `pos` modulo the capacity.
pub fn slot_index(pos: u64, mask: usize) -> (i: usize)
    requires
        mask < usize::MAX,
        power_of_two((mask + 1) as nat),
    ensures
        i == pos as int % (mask + 1),
        i <= mask,
{
    let wide: u64 = mask as u64;
    let low: u64 = pos & wide;
    proof {
        let k = choose|k: nat| (mask + 1) as nat == pow2(k);
        assert(low <= wide) by (bit_vector)
            requires
                low == pos & wide,
        ;
        lemma_exponent_fits(k);
        lemma_u64_low_bits_mask_is_mod(pos, k);
        assert(low_bits_mask(k) as u64 == wide);
        assert(pow2(k) as u64 == wide + 1);
        assert(low == pos % ((wide + 1) as u64));
    }
    low as usize
}

} // verus!
