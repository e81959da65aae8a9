//! Powers of two as machine words: the bit test, the index mask and the
//! facts about both that the ring buffer and the transform rest on.

use vstd::prelude::*;
use vstd::arithmetic::power2::{is_pow2, lemma2_to64, lemma_pow2_adds, lemma_pow2_pos,
    lemma_pow2_strictly_increases, lemma_pow2_unfold, pow2};
use vstd::arithmetic::div_mod::{lemma_fundamental_div_mod, lemma_fundamental_div_mod_converse_mod,
    lemma_mod_multiples_basic, lemma_small_mod};
use vstd::bits::{low_bits_mask, lemma_usize_low_bits_mask_is_mod};

verus! {

/// The number of values a cursor of machine-word width can take.
pub open spec fn word_modulus() -> int {
    usize::MAX as int + 1
}

/// `value` reduced to an index below the power of two `capacity`.
pub open spec fn masked(value: usize, capacity: usize) -> usize {
    value & ((capacity - 1) as usize)
}

/// `position` brought back into `0..capacity` after at most one lap.
pub open spec fn folded(position: int, capacity: int) -> int {
    if position >= capacity {
        position - capacity
    } else {
        position
    }
}

/// The exponent of a power of two.
pub proof fn lemma_exponent(n: int) -> (e: nat)
    requires
        is_pow2(n),
    ensures
        n == pow2(e),
    decreases n,
{
    reveal(is_pow2);
    if n == 1 {
        lemma2_to64();
        0
    } else {
        let below = lemma_exponent(n / 2);
        lemma_pow2_unfold(below + 1);
        below + 1
    }
}

/// The word size is itself a power of two.
pub proof fn lemma_word_modulus()
    ensures
        word_modulus() == pow2(usize::BITS as nat),
{
    lemma2_to64();
}

/// The exponent of a power of two that fits a machine word is below the
/// word's width, and the power divides the word modulus.
pub proof fn lemma_word_exponent(capacity: usize) -> (e: nat)
    requires
        is_pow2(capacity as int),
    ensures
        capacity == pow2(e),
        e < usize::BITS,
        word_modulus() == capacity * pow2((usize::BITS - e) as nat),
        pow2((usize::BITS - e) as nat) >= 2,
{
    let e = lemma_exponent(capacity as int);
    lemma_word_modulus();
    let bits = usize::BITS as nat;
    if e >= bits {
        if e > bits {
            lemma_pow2_strictly_increases(bits, e);
        }
        assert(false);
    }
    lemma_pow2_adds(e, (bits - e) as nat);
    lemma_pow2_unfold((bits - e) as nat);
    lemma_pow2_pos((bits - e - 1) as nat);
    e
}

/// Twice a power of two that fits a machine word is at most the word
/// modulus.
pub proof fn lemma_double_fits(capacity: usize)
    requires
        is_pow2(capacity as int),
    ensures
        2 * capacity <= word_modulus(),
{
    let e = lemma_word_exponent(capacity);
    let cofactor = pow2((usize::BITS - e) as nat) as int;
    assert(capacity * cofactor >= capacity * 2) by (nonlinear_arith)
        requires
            cofactor >= 2,
            capacity >= 0,
    ;
}

/// Twice a power of two is a power of two.
pub proof fn lemma_double_is_pow2(n: int)
    requires
        is_pow2(n),
    ensures
        is_pow2(2 * n),
{
    reveal(is_pow2);
    assert((2 * n) / 2 == n);
}

/// Halving a power of two above one gives a power of two.
pub proof fn lemma_half_is_pow2(count: int)
    requires
        is_pow2(count),
        count >= 2,
    ensures
        count % 2 == 0,
        is_pow2(count / 2),
{
    reveal(is_pow2);
}

/// Of two unequal powers of two the smaller is at most half the larger,
/// and the larger is a whole number of the smaller.
pub proof fn lemma_pow2_below(small: int, large: int) -> (times: int)
    requires
        is_pow2(small),
        is_pow2(large),
        small <= large,
    ensures
        times >= 1,
        large == times * small,
        small < large ==> 2 * small <= large && times % 2 == 0,
    decreases large,
{
    reveal(is_pow2);
    if small == large {
        assert(large == 1 * small);
        1
    } else if small == 1 {
        assert(large == large * 1);
        large
    } else {
        let times = lemma_pow2_below(small / 2, large / 2);
        assert(large == times * small) by (nonlinear_arith)
            requires
                large / 2 == times * (small / 2),
                large == 2 * (large / 2),
                small == 2 * (small / 2),
        ;
        times
    }
}

/// Masking with a power of two less one is the remainder of the division.
pub proof fn lemma_masked_is_remainder(value: usize, capacity: usize)
    requires
        is_pow2(capacity as int),
    ensures
        masked(value, capacity) == value as int % capacity as int,
        0 <= masked(value, capacity) < capacity,
{
    let e = lemma_word_exponent(capacity);
    lemma_usize_low_bits_mask_is_mod(value, e);
    assert(low_bits_mask(e) as usize == (capacity - 1) as usize);
}

/// Stepping a cursor by one, with wraparound at the word size, steps its
/// masked index by one, with wraparound at the capacity.
pub proof fn lemma_masked_successor(cursor: usize, capacity: usize)
    requires
        is_pow2(capacity as int),
    ensures
        masked(cursor.wrapping_add(1), capacity) == folded(
            masked(cursor, capacity) + 1,
            capacity as int,
        ),
{
    let e = lemma_word_exponent(capacity);
    let cofactor = pow2((usize::BITS - e) as nat) as int;
    let c = capacity as int;
    let next = cursor.wrapping_add(1);
    lemma_masked_is_remainder(cursor, capacity);
    lemma_masked_is_remainder(next, capacity);
    lemma_fundamental_div_mod(cursor as int, c);
    let q = cursor as int / c;
    let r = cursor as int % c;
    if cursor == usize::MAX {
        // cursor + 1 is the word modulus, a multiple of the capacity
        assert(c * cofactor == c * q + r + 1);
        assert(r + 1 == c * (cofactor - q)) by (nonlinear_arith)
            requires
                c * cofactor == c * q + r + 1,
        ;
        assert(r + 1 == c) by (nonlinear_arith)
            requires
                r + 1 == c * (cofactor - q),
                0 <= r < c,
        ;
        assert(next == 0);
        lemma_small_mod(0, c as nat);
    } else {
        assert(next == cursor + 1);
        if r + 1 == c {
            assert(cursor + 1 == c * (q + 1)) by (nonlinear_arith)
                requires
                    cursor == c * q + r,
                    r + 1 == c,
            ;
            lemma_mod_multiples_basic(q + 1, c);
            assert((cursor + 1) % c == 0) by (nonlinear_arith)
                requires
                    cursor + 1 == c * (q + 1),
                    ((q + 1) * c) % c == 0,
            ;
        } else {
            lemma_fundamental_div_mod_converse_mod(
                cursor + 1,
                c,
                q,
                r + 1,
            );
        }
    }
}

/// A count taken modulo the word size steps as a wrapping cursor does.
pub proof fn lemma_count_successor(count: nat)
    ensures
        ((count % word_modulus() as nat) as usize).wrapping_add(1) == (count + 1) % word_modulus()
            as nat,
{
    let w = word_modulus();
    let c = count as int;
    lemma_fundamental_div_mod(c, w);
    let q = c / w;
    let r = c % w;
    if r + 1 == w {
        assert(c + 1 == w * (q + 1)) by (nonlinear_arith)
            requires
                c == w * q + r,
                r + 1 == w,
        ;
        lemma_mod_multiples_basic(q + 1, w);
        assert((c + 1) % w == 0) by (nonlinear_arith)
            requires
                c + 1 == w * (q + 1),
                ((q + 1) * w) % w == 0,
        ;
    } else {
        lemma_fundamental_div_mod_converse_mod(c + 1, w, q, r + 1);
    }
}

/// Two counts less than a word apart are as far apart as their remainders
/// modulo the word size are, the later one taken a lap ahead where it is
/// the smaller.
pub proof fn lemma_count_distance(later: nat, earlier: nat)
    requires
        earlier <= later,
        later - earlier < word_modulus(),
    ensures
        later - earlier == if later % word_modulus() as nat >= earlier % word_modulus() as nat {
            later % word_modulus() as nat - earlier % word_modulus() as nat
        } else {
            later % word_modulus() as nat - earlier % word_modulus() as nat + word_modulus()
        },
{
    let w = word_modulus();
    lemma_fundamental_div_mod(later as int, w);
    lemma_fundamental_div_mod(earlier as int, w);
    let ql = later as int / w;
    let rl = later as int % w;
    let qe = earlier as int / w;
    let re = earlier as int % w;
    let laps = ql - qe;
    assert(later - earlier == w * laps + (rl - re)) by (nonlinear_arith)
        requires
            later == w * ql + rl,
            earlier == w * qe + re,
            laps == ql - qe,
    ;
    assert(laps == 0 || laps == 1) by (nonlinear_arith)
        requires
            0 <= w * laps + (rl - re) < w,
            0 <= rl < w,
            0 <= re < w,
    ;
    assert(laps == 0 ==> w * laps == 0);
    assert(laps == 1 ==> w * laps == w);
}

/// The bit test for a power of two agrees with halving down to one.
pub proof fn lemma_bit_test(value: usize)
    requires
        value != 0,
    ensures
        (value & (value - 1) as usize) == 0 <==> is_pow2(value as int),
    decreases value,
{
    reveal(is_pow2);
    if value == 1 {
        assert(1usize & 0usize == 0) by (bit_vector);
    } else {
        let half = value / 2;
        assert(half != 0);
        lemma_bit_test(half);
        assert(((value & (value - 1) as usize) == 0) == (value % 2 == 0 && (half & (half - 1) as usize)
            == 0)) by (bit_vector)
            requires
                value >= 2,
                half == value / 2,
        ;
    }
}

} // verus!
