//! Double precision bit patterns that the library computes exactly.

use vstd::prelude::*;
use vstd::arithmetic::power2::{
    pow2, lemma_pow2_unfold, lemma2_to64, lemma2_to64_rest, lemma_pow2_strictly_increases,
};

verus! {

/// The position of the highest set bit of a positive number.
pub open spec fn ilog2(m: nat) -> nat
    decreases m,
{
    if m < 2 {
        0
    } else {
        1 + ilog2(m / 2)
    }
}

/// The IEEE-754 double bit pattern of an integer of magnitude below 2^52,
/// which a double holds exactly: the sign bit, the biased exponent of the
/// highest set bit, and the bits below that bit as the fraction.
pub open spec fn double_of_int(x: int) -> u64 {
    if x == 0 {
        0
    } else {
        let m = (if x < 0 {
            -x
        } else {
            x
        }) as nat;
        let e = ilog2(m);
        ((if x < 0 {
            pow2(63)
        } else {
            0
        }) + (1023 + e) * pow2(52) + (m - pow2(e)) * pow2((52 - e) as nat)) as u64
    }
}

proof fn lemma_ilog2(m: nat, e: nat)
    requires
        pow2(e) <= m < 2 * pow2(e),
    ensures
        ilog2(m) == e,
    decreases e,
{
    lemma2_to64();
        lemma2_to64_rest();
    if e > 0 {
        lemma_pow2_unfold(e);
        let q = pow2((e - 1) as nat);
        assert(q <= m / 2 < 2 * q);
        lemma_ilog2(m / 2, (e - 1) as nat);
    }
}

/// The bit pattern of the double equal to `x`.
pub fn int_to_double(x: i32) -> (r: u64)
    ensures
        r == double_of_int(x as int),
{
    if x == 0 {
        return 0;
    }
    proof {
        lemma2_to64();
        lemma2_to64_rest();
    }
    let m: u64 = if x < 0 {
        (0i64 - (x as i64)) as u64
    } else {
        x as u64
    };
    let mut e: u64 = 0;
    let mut p: u64 = 1;
    while p <= m / 2
        invariant
            1 <= m <= 0x8000_0000,
            p as nat == pow2(e as nat),
            1 <= p <= m,
            e <= 31,
        decreases m - p,
    {
        proof {
            lemma2_to64();
        lemma2_to64_rest();
            lemma_pow2_unfold((e + 1) as nat);
            if e + 1 > 31 {
                lemma_pow2_strictly_increases(31, (e + 1) as nat);
            }
        }
        p = p * 2;
        e = e + 1;
    }
    proof {
        lemma_ilog2(m as nat, e as nat);
    }
    let mut mant: u64 = m - p;
    let mut k: u64 = e;
    assert(((m - p) as nat) * pow2(0) == (m - p) as nat);
    while k < 52
        invariant
            e <= k <= 52,
            e <= 31,
            p as nat == pow2(e as nat),
            p <= m < 2 * p,
            mant as nat == ((m - p) as nat) * pow2((k - e) as nat),
            (mant as nat) < pow2(k as nat),
        decreases 52 - k,
    {
        proof {
            lemma2_to64();
        lemma2_to64_rest();
            lemma_pow2_unfold((k + 1) as nat);
            lemma_pow2_unfold((k + 1 - e) as nat);
            if k < 51 {
                lemma_pow2_strictly_increases(k as nat, 51);
            }
            assert(pow2(k as nat) <= pow2(51));
            assert(mant < 0x0008_0000_0000_0000);
            assert(((m - p) as nat) * pow2((k + 1 - e) as nat) == 2 * (((m - p) as nat) * pow2(
                (k - e) as nat,
            ))) by (nonlinear_arith)
                requires
                    pow2((k + 1 - e) as nat) == 2 * pow2((k - e) as nat),
            ;
        }
        mant = mant * 2;
        k = k + 1;
    }
    proof {
        lemma2_to64();
        lemma2_to64_rest();
        assert(k == 52);
        assert(mant < 0x0010_0000_0000_0000);
        assert(m as nat == (if (x as int) < 0 { -(x as int) } else { x as int }) as nat);
    }
    let sign: u64 = if x < 0 {
        0x8000_0000_0000_0000
    } else {
        0
    };
    assert((1023 + e) * 0x0010_0000_0000_0000 <= 1054 * 0x0010_0000_0000_0000) by (nonlinear_arith)
        requires
            e <= 31,
    ;
    let exp: u64 = (1023 + e) * 0x0010_0000_0000_0000;
    assert(sign as nat + exp as nat + mant as nat <= u64::MAX as nat);
    sign + exp + mant
}

} // verus!
