//! The bit-gather (parallel bit extract) that indexes the attack table:
//! the set bits of a mask are mapped, in ascending order, onto a dense
//! low-order index. `gather_bits` is the mathematical function; the
//! lemmas show it is a bijection between subsets of the mask and the
//! range below two to the mask's population count, and that the
//! carry-rippler step advances it by exactly one.
use vstd::prelude::*;

use crate::bits::lemma_popcnt_width;
use crate::bits::lemma_u64_shr1_lt;
use crate::bits::popcnt64;
use crate::bits::popcnt_width;
use vstd::arithmetic::power2::pow2;

verus! {

/// The dense index of a subset `v` of the mask `m`: the bit of `v` at
/// the `k`-th lowest set position of `m` becomes bit `k` of the result.
pub open spec fn gather_bits(v: u64, m: u64) -> nat
    decreases m,
    via gather_bits_decreases
{
    if m == 0 {
        0
    } else if m & 1 == 1 {
        ((v & 1) + 2 * gather_bits(v >> 1u64, m >> 1u64)) as nat
    } else {
        gather_bits(v >> 1u64, m >> 1u64)
    }
}

#[via_fn]
proof fn gather_bits_decreases(v: u64, m: u64) {
    broadcast use lemma_u64_shr1_lt;

}

/// The wrapping difference of two words, as the carry-rippler forms it.
pub open spec fn wsub64(a: u64, b: u64) -> u64 {
    (if a >= b {
        a - b
    } else {
        a - b + 0x10000000000000000
    }) as u64
}

/// The next subset visited by the carry-rippler enumeration.
pub open spec fn rippler_next(s: u64, m: u64) -> u64 {
    wsub64(s, m) & m
}

/// Shared bit facts about one low-bit step over a subset of a mask.
proof fn lemma_subset_step(v: u64, m: u64)
    by (bit_vector)
    requires
        v & m == v,
    ensures
        (v >> 1u64) & (m >> 1u64) == v >> 1u64,
        m & 1 == 0 ==> v & 1 == 0,
        v & 1 <= 1,
        m & 1 <= 1,
        m == 0 ==> v == 0,
        v != m ==> v < m,
{
}

/// Gathering the empty subset gives index zero.
pub proof fn lemma_gather_zero(m: u64)
    ensures
        gather_bits(0, m) == 0,
        0u64 & m == 0,
    decreases m,
{
    broadcast use lemma_u64_shr1_lt;

    assert(0u64 >> 1u64 == 0 && 0u64 & 1 == 0 && 0u64 & m == 0) by (bit_vector);
    if m != 0 {
        lemma_gather_zero(m >> 1u64);
    }
}

/// The gathered index of a subset is below two to the population count
/// of the mask.
pub proof fn lemma_gather_bound(v: u64, m: u64)
    requires
        v & m == v,
    ensures
        gather_bits(v, m) < pow2(popcnt64(m)),
    decreases m,
{
    broadcast use lemma_u64_shr1_lt;

    lemma_subset_step(v, m);
    if m == 0 {
        assert(pow2(0) == 1) by {
            vstd::arithmetic::power2::lemma2_to64();
        }
    } else {
        lemma_gather_bound(v >> 1u64, m >> 1u64);
        let p = popcnt64(m >> 1u64);
        assert(popcnt64(m) == (m & 1) + p);
        if m & 1 == 1 {
            assert(pow2(p + 1) == 2 * pow2(p)) by {
                vstd::arithmetic::power2::lemma_pow2_unfold(p + 1);
            }
        }
    }
}

/// The gather is injective on subsets of the mask: distinct relevant
/// occupancies never share an index.
pub proof fn lemma_gather_injective(v1: u64, v2: u64, m: u64)
    requires
        v1 & m == v1,
        v2 & m == v2,
        gather_bits(v1, m) == gather_bits(v2, m),
    ensures
        v1 == v2,
    decreases m,
{
    broadcast use lemma_u64_shr1_lt;

    lemma_subset_step(v1, m);
    lemma_subset_step(v2, m);
    if m == 0 {
    } else {
        if m & 1 == 1 {
            assert(v1 & 1 == v2 & 1);
        }
        lemma_gather_injective(v1 >> 1u64, v2 >> 1u64, m >> 1u64);
        assert(v1 >> 1u64 == v2 >> 1u64 && v1 & 1 == v2 & 1 ==> v1 == v2) by (bit_vector);
    }
}

/// The carry-rippler step `(s - m) & m` visits the subset whose
/// gathered index is one higher.
pub proof fn lemma_gather_next(s: u64, m: u64)
    requires
        s & m == s,
        s != m,
    ensures
        rippler_next(s, m) & m == rippler_next(s, m),
        gather_bits(rippler_next(s, m), m) == gather_bits(s, m) + 1,
    decreases m,
{
    broadcast use lemma_u64_shr1_lt;

    lemma_subset_step(s, m);
    let d = wsub64(s, m);
    let n = rippler_next(s, m);
    assert(d + m == s + 0x10000000000000000);
    assert(n & m == n) by (bit_vector)
        requires
            n == d & m,
    ;
    let s1 = s >> 1u64;
    let m1 = m >> 1u64;
    if m & 1 == 1 && s & 1 == 1 {
        assert(s1 & m1 == s1 && s1 != m1) by (bit_vector)
            requires
                s & m == s && s != m && m & 1 == 1 && s & 1 == 1 && s1 == s >> 1u64 && m1 == m
                    >> 1u64,
        ;
        lemma_subset_step(s1, m1);
        let d2 = wsub64(s1, m1);
        assert(d2 + m1 == s1 + 0x10000000000000000);
        assert(n & 1 == 0 && n >> 1u64 == d2 & m1) by (bit_vector)
            requires
                n == d & m && d + m == s + 0x10000000000000000 && d2 + m1 == s1
                    + 0x10000000000000000 && m & 1 == 1 && s & 1 == 1 && s1 == s >> 1u64 && m1 == m
                    >> 1u64,
        ;
        lemma_gather_next(s1, m1);
        assert(gather_bits(n, m) == 2 * gather_bits(n >> 1u64, m1));
        assert(gather_bits(s, m) == 1 + 2 * gather_bits(s1, m1));
    } else if m & 1 == 1 {
        assert(n & 1 == 1 && n >> 1u64 == s1) by (bit_vector)
            requires
                n == d & m && d + m == s + 0x10000000000000000 && m & 1 == 1 && s & 1 == 0 && s & m
                    == s && s1 == s >> 1u64,
        ;
        assert(gather_bits(n, m) == 1 + 2 * gather_bits(s1, m1));
        assert(gather_bits(s, m) == 0 + 2 * gather_bits(s1, m1));
    } else {
        assert(s & 1 == 0 && s1 & m1 == s1 && s1 != m1) by (bit_vector)
            requires
                s & m == s && s != m && m & 1 != 1 && s1 == s >> 1u64 && m1 == m >> 1u64,
        ;
        lemma_subset_step(s1, m1);
        let d2 = wsub64(s1, m1);
        assert(d2 + m1 == s1 + 0x10000000000000000);
        assert(n & 1 == 0 && n >> 1u64 == d2 & m1) by (bit_vector)
            requires
                n == d & m && d + m == s + 0x10000000000000000 && d2 + m1 == s1
                    + 0x10000000000000000 && m & 1 != 1 && s & 1 == 0 && s1 == s >> 1u64 && m1 == m
                    >> 1u64,
        ;
        lemma_gather_next(s1, m1);
        assert(gather_bits(n, m) == gather_bits(n >> 1u64, m1));
        assert(gather_bits(s, m) == gather_bits(s1, m1));
    }
}

/// From the full subset the carry-rippler returns to the empty one.
pub proof fn lemma_rippler_wraps(m: u64)
    ensures
        rippler_next(m, m) == 0,
{
    assert(0u64 & m == 0) by (bit_vector);
}


/// The full mask gathers to the top of the index range.
pub proof fn lemma_gather_full(m: u64)
    ensures
        gather_bits(m, m) == pow2(popcnt64(m)) - 1,
    decreases m,
{
    broadcast use lemma_u64_shr1_lt;

    if m == 0 {
        assert(pow2(0) == 1) by {
            vstd::arithmetic::power2::lemma2_to64();
        }
    } else {
        assert(m & m == m && (m >> 1u64) & (m >> 1u64) == m >> 1u64 && m & 1 <= 1) by (bit_vector);
        lemma_gather_full(m >> 1u64);
        let p = popcnt64(m >> 1u64);
        assert(popcnt64(m) == (m & 1) + p);
        if m & 1 == 1 {
            assert(pow2(p + 1) == 2 * pow2(p)) by {
                vstd::arithmetic::power2::lemma_pow2_unfold(p + 1);
            }
        }
    }
}

/// The software bit-gather: walks the mask's set bits from low to high
/// and packs the corresponding occupancy bits into a dense index. This
/// is the portable equivalent of a hardware parallel bit extract.
pub fn extract_bits(v: u64, m: u64) -> (r: u64)
    ensures
        r == gather_bits(v & m, m),
        r < pow2(popcnt64(m)),
{
    proof {
        assert((v & m) & m == v & m) by (bit_vector);
        lemma_gather_bound(v & m, m);
    }
    let mut a = v & m;
    let mut mm = m;
    let mut res: u64 = 0;
    let mut sh: u64 = 0;
    proof {
        lemma_popcnt_width(m);
        assert((v & m) & m == v & m) by (bit_vector);
        assert(pow2(0) == 1) by {
            vstd::arithmetic::power2::lemma2_to64();
        }
    }
    while mm != 0
        invariant
            a & mm == a,
            sh + popcnt_width(mm) <= 64,
            res < pow2(sh as nat),
            gather_bits(v & m, m) == res + pow2(sh as nat) * gather_bits(a, mm),
        decreases mm,
    {
        proof {
            broadcast use lemma_u64_shr1_lt;

            lemma_subset_step(a, mm);
            assert(pow2((sh + 1) as nat) == 2 * pow2(sh as nat)) by {
                vstd::arithmetic::power2::lemma_pow2_unfold((sh + 1) as nat);
            }
        }
        if mm & 1 == 1 {
            let ghost g = gather_bits(a, mm);
            let ghost g1 = gather_bits(a >> 1u64, mm >> 1u64);
            proof {
                assert(g == (a & 1) + 2 * g1);
                assert(1u64 << sh == pow2(sh as nat)) by {
                    vstd::bits::lemma_u64_pow2_no_overflow(sh as nat);
                    vstd::bits::lemma_u64_shl_is_mul(1u64, sh);
                }
                assert(res < (1u64 << sh) ==> (res | (1u64 << sh)) == res + (1u64 << sh))
                    by (bit_vector)
                    requires
                        sh < 64,
                ;
                assert(res + (a & 1) * pow2(sh as nat) + pow2((sh + 1) as nat) * g1 == res + pow2(
                    sh as nat,
                ) * g) by (nonlinear_arith)
                    requires
                        g == (a & 1) + 2 * g1 && pow2((sh + 1) as nat) == 2 * pow2(sh as nat),
                ;
            }
            if a & 1 == 1 {
                res = res | (1u64 << sh);
            }
            sh = sh + 1;
        } else {
            proof {
                assert(gather_bits(a, mm) == gather_bits(a >> 1u64, mm >> 1u64));
            }
        }
        a = a >> 1u64;
        mm = mm >> 1u64;
    }
    proof {
        assert(gather_bits(a, 0) == 0);
    }
    res
}

} // verus!
