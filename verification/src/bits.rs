//! Bit-level view of a 64-bit square set: the predicate `bit64` reads
//! one bit, and the broadcast lemmas below characterize how the bitwise
//! operators act on it.
use vstd::prelude::*;

verus! {

/// Whether bit `i` of `b` is set.
pub open spec fn bit64(b: u64, i: u64) -> bool {
    (b >> i) & 1 == 1
}

pub broadcast proof fn lemma_bit64_or(b: u64, c: u64, i: u64)
    by (bit_vector)
    requires
        i < 64,
    ensures
        #[trigger] bit64(b | c, i) == (bit64(b, i) || bit64(c, i)),
{
}

pub broadcast proof fn lemma_bit64_and(b: u64, c: u64, i: u64)
    by (bit_vector)
    requires
        i < 64,
    ensures
        #[trigger] bit64(b & c, i) == (bit64(b, i) && bit64(c, i)),
{
}

pub broadcast proof fn lemma_bit64_xor(b: u64, c: u64, i: u64)
    by (bit_vector)
    requires
        i < 64,
    ensures
        #[trigger] bit64(b ^ c, i) == (bit64(b, i) != bit64(c, i)),
{
}

pub broadcast proof fn lemma_bit64_not(b: u64, i: u64)
    by (bit_vector)
    requires
        i < 64,
    ensures
        #[trigger] bit64(!b, i) == !bit64(b, i),
{
}

pub broadcast proof fn lemma_bit64_zero(i: u64)
    by (bit_vector)
    requires
        i < 64,
    ensures
        !#[trigger] bit64(0u64, i),
{
}

/// Shifting left by `k` moves every bit up by `k`; nothing enters from
/// below and bits pushed past the top disappear.
pub broadcast proof fn lemma_bit64_shl(b: u64, k: u64, i: u64)
    by (bit_vector)
    requires
        i < 64,
        k < 64,
    ensures
        #[trigger] bit64(b << k, i) == (i >= k && bit64(b, (i - k) as u64)),
{
}

/// Shifting right by `k` moves every bit down by `k`.
pub broadcast proof fn lemma_bit64_shr(b: u64, k: u64, i: u64)
    by (bit_vector)
    requires
        i < 64,
        k < 64,
    ensures
        #[trigger] bit64(b >> k, i) == (i + k < 64 && bit64(b, (i + k) as u64)),
{
}

/// A shifted one is a singleton.
pub broadcast proof fn lemma_bit64_single(s: u64, i: u64)
    by (bit_vector)
    requires
        i < 64,
        s < 64,
    ensures
        #[trigger] bit64(1u64 << s, i) == (i == s),
{
}

/// The two guard masks used by the sideways shifts: all squares not on
/// file `h`, and all squares not on file `a`.
pub broadcast proof fn lemma_bit64_file_guards(i: u64)
    by (bit_vector)
    requires
        i < 64,
    ensures
        #[trigger] bit64(0x7F7F7F7F7F7F7F7Fu64, i) == (i % 8 != 7),
        #[trigger] bit64(0xFEFEFEFEFEFEFEFEu64, i) == (i % 8 != 0),
{
}

/// The mask of one whole file, obtained by shifting the file-`a` mask.
pub broadcast proof fn lemma_bit64_file_mask(f: u64, i: u64)
    by (bit_vector)
    requires
        f < 8,
        i < 64,
    ensures
        #[trigger] bit64(0x0101010101010101u64 << f, i) == (i % 8 == f),
{
}

/// The mask of one whole rank, obtained by shifting the rank-1 mask.
pub broadcast proof fn lemma_bit64_rank_mask(r: u64, i: u64)
    by (bit_vector)
    requires
        r < 8,
        i < 64,
    ensures
        #[trigger] bit64(0xFFu64 << (8 * r) as u64, i) == (i / 8 == r),
{
}

/// Membership of a square, given by rank and file, in a 64-bit mask.
/// Off-board coordinates are never members.
pub open spec fn sq_bit(b: u64, r: int, f: int) -> bool {
    0 <= r < 8 && 0 <= f < 8 && bit64(b, (8 * r + f) as u64)
}

/// Halving a nonzero word makes it strictly smaller; this grounds the
/// termination of every bit-by-bit recursion below.
pub broadcast proof fn lemma_u64_shr1_lt(b: u64)
    by (bit_vector)
    requires
        b != 0,
    ensures
        #[trigger] (b >> 1u64) < b,
{
}

/// How many bits of `b` are set.
pub open spec fn popcnt64(b: u64) -> nat
    decreases b,
    via popcnt64_decreases
{
    if b == 0 {
        0
    } else {
        ((b & 1) + popcnt64(b >> 1u64)) as nat
    }
}

#[via_fn]
proof fn popcnt64_decreases(b: u64) {
    broadcast use lemma_u64_shr1_lt;

}

/// The mask of the bits strictly below position `t`.
pub broadcast proof fn lemma_low_mask_bits(t: u64, j: u64)
    by (bit_vector)
    requires
        t < 64,
        j < 64,
    ensures
        #[trigger] bit64(((1u64 << t) - 1) as u64, j) == (j < t),
{
}

/// Clearing the lowest set bit: `b & (b - 1)` removes exactly the
/// lowest set bit `t` of a nonzero word.
pub proof fn lemma_clear_lowest(b: u64, t: u64, j: u64)
    by (bit_vector)
    requires
        b != 0,
        t < 64,
        j < 64,
        (b >> t) & 1 == 1,
        b & (((1u64 << t) - 1) as u64) == 0,
    ensures
        bit64(b & ((b - 1) as u64), j) == (bit64(b, j) && j != t),
        b & ((b - 1) as u64) < b,
{
}

/// A word with no bits below `t` set is divisible by the low mask.
pub proof fn lemma_no_low_bits(b: u64, t: u64)
    requires
        t < 64,
        forall|j: u64| j < t ==> !bit64(b, j),
    ensures
        b & (((1u64 << t) - 1) as u64) == 0,
{
    let m = ((1u64 << t) - 1) as u64;
    assert forall|j: u64| j < 64 implies bit64(b & m, j) == bit64(0u64, j) by {
        lemma_bit64_and(b, m, j);
        lemma_low_mask_bits(t, j);
        lemma_bit64_zero(j);
    }
    lemma_bit64_ext(b & m, 0);
}

/// Clearing the lowest set bit lowers the population count by one.
pub proof fn lemma_popcnt_clear_lowest(b: u64)
    requires
        b != 0,
    ensures
        popcnt64(b & ((b - 1) as u64)) + 1 == popcnt64(b),
    decreases b,
{
    broadcast use lemma_u64_shr1_lt;

    let x = b & ((b - 1) as u64);
    if b & 1 == 1 {
        assert(x & 1 == 0 && x >> 1u64 == b >> 1u64 && (x == 0 ==> b >> 1u64 == 0)) by (bit_vector)
            requires
                b & 1 == 1 && x == b & ((b - 1) as u64),
        ;
        if x == 0 {
            assert(popcnt64(x) == popcnt64(b >> 1u64));
        } else {
            assert(popcnt64(x) == (x & 1) + popcnt64(x >> 1u64));
            assert(popcnt64(x) == popcnt64(b >> 1u64));
        }
        assert(popcnt64(b) == 1 + popcnt64(b >> 1u64));
    } else {
        assert(b & 1 == 0) by (bit_vector)
            requires
                b & 1 != 1,
        ;
        let h = b >> 1u64;
        assert(x & 1 == 0 && x >> 1u64 == h & ((h - 1) as u64) && h != 0 && (x == 0 ==> h & ((h
            - 1) as u64) == 0)) by (bit_vector)
            requires
                b != 0 && b & 1 == 0 && x == b & ((b - 1) as u64) && h == b >> 1u64,
        ;
        lemma_popcnt_clear_lowest(h);
        if x == 0 {
            assert(popcnt64(x) == 0);
            assert(popcnt64(h) == 1);
        } else {
            assert(popcnt64(x) == (x & 1) + popcnt64(x >> 1u64));
            assert(popcnt64(x) == popcnt64(h & ((h - 1) as u64)));
        }
        assert(popcnt64(b) == (b & 1) + popcnt64(h));
    }
}

/// An upper bound on the position of the highest set bit, used to keep
/// the running count of `popcount` within `usize`.
pub open spec fn popcnt_width(b: u64) -> nat
    decreases b,
    via popcnt_width_decreases
{
    if b == 0 {
        0
    } else {
        (1 + popcnt_width(b >> 1u64)) as nat
    }
}

#[via_fn]
proof fn popcnt_width_decreases(b: u64) {
    broadcast use lemma_u64_shr1_lt;

}

/// The population count is at most the bit width.
pub proof fn lemma_popcnt_width(b: u64)
    ensures
        popcnt64(b) <= popcnt_width(b) <= 64,
    decreases b,
{
    broadcast use lemma_u64_shr1_lt;

    if b != 0 {
        lemma_popcnt_width(b >> 1u64);
        assert(b & 1 <= 1) by (bit_vector);
        assert(popcnt_width(b) <= 64) by {
            vstd::arithmetic::power2::lemma2_to64_rest();
            lemma_width_bound(b, 64);
        }
    }
}

/// A word below `2^n` has width at most `n`.
proof fn lemma_width_bound(b: u64, n: nat)
    requires
        b < vstd::arithmetic::power2::pow2(n),
    ensures
        popcnt_width(b) <= n,
    decreases b,
{
    broadcast use lemma_u64_shr1_lt;

    if b != 0 {
        assert(n > 0) by {
            vstd::arithmetic::power2::lemma2_to64();
        }
        assert(b >> 1u64 == b / 2) by (bit_vector);
        lemma_pow2_half(n);
        lemma_width_bound(b >> 1u64, (n - 1) as nat);
    }
}

/// Splitting one power of two off `pow2(n)`.
spec fn pow2_half(n: nat) -> bool {
    n > 0 ==> vstd::arithmetic::power2::pow2(n) == 2 * vstd::arithmetic::power2::pow2((n - 1) as nat)
}

proof fn lemma_pow2_half(n: nat)
    ensures
        pow2_half(n),
{
    if n > 0 {
        vstd::arithmetic::power2::lemma_pow2_unfold(n);
    }
}

/// Restricting to a mask is idempotent.
pub proof fn lemma_mask_idem(v: u64, m: u64)
    by (bit_vector)
    ensures
        (v & m) & m == v & m,
{
}

/// Two words with the same bits are the same word.
pub proof fn lemma_bit64_ext(a: u64, b: u64)
    requires
        forall|i: u64| i < 64 ==> bit64(a, i) == bit64(b, i),
    ensures
        a == b,
{
    let x = a ^ b;
    if x != 0 {
        broadcast use vstd::std_specs::bits::axiom_u64_trailing_zeros;

        let t = vstd::std_specs::bits::u64_trailing_zeros(x) as u64;
        assert(bit64(x, t));
        lemma_bit64_xor(a, b, t);
        assert(false);
    } else {
        assert(a ^ b == 0 ==> a == b) by (bit_vector);
    }
}

pub broadcast group group_bit64 {
    lemma_bit64_or,
    lemma_bit64_and,
    lemma_bit64_xor,
    lemma_bit64_not,
    lemma_bit64_zero,
    lemma_bit64_shl,
    lemma_bit64_shr,
    lemma_bit64_single,
    lemma_bit64_file_guards,
    lemma_bit64_file_mask,
    lemma_bit64_rank_mask,
}

} // verus!
