//! IEEE-754 single-precision encodings of exact rational values, computed
//! with integers: the transfer buffer carries `f32` values as their bit
//! patterns.
use vstd::arithmetic::power2::{
    lemma2_to64,
    lemma_pow2_adds,
    lemma_pow2_pos,
    lemma_pow2_strictly_increases,
    lemma_pow2_unfold,
    pow2,
};
use vstd::prelude::*;

verus! {

/// Bit pattern of `0.0`.
pub const ZERO_BITS: u32 = 0;

/// Bit pattern of `0.5`.
pub const HALF_BITS: u32 = 0x3f00_0000;

/// Bit pattern of `10.0`.
pub const TEN_BITS: u32 = 0x4120_0000;

/// The value `n / d`, scaled by `2^(j - 64)`, lies in `[2^23, 2^24)`: a
/// 24-bit significand with the implicit leading one.
pub open spec fn in_binade(n: nat, d: nat, j: nat) -> bool {
    &&& pow2(87) * d <= n * pow2(j)
    &&& n * pow2(j) < pow2(88) * d
}

/// `a / b` rounded to the nearest integer, ties to even.
pub open spec fn round_half_even(a: nat, b: nat) -> nat {
    let q = a / b;
    let r = a % b;
    if 2 * r > b || (2 * r == b && q % 2 == 1) {
        q + 1
    } else {
        q
    }
}

/// Bits of the binary32 value whose significand (implicit bit included) is
/// `q` in `[2^23, 2^24]` at scale `j`.
pub open spec fn encode(j: nat, q: nat) -> int {
    if q == pow2(24) {
        (214 - j + 1) * pow2(23)
    } else {
        (214 - j) * pow2(23) + (q - pow2(23))
    }
}

/// Bits of the binary32 value nearest to `n / d` (ties to even).
pub open spec fn nearest_bits(n: nat, d: nat) -> int {
    if n == 0 {
        0
    } else {
        let j = choose|j: nat| in_binade(n, d, j);
        encode(j, round_half_even(n * pow2(j), d * pow2(64)))
    }
}

/// Bits of the binary32 value nearest to the integer `x` (what `x as f32`
/// gives).
pub open spec fn int_bits(x: int) -> int {
    if x < 0 {
        pow2(31) + nearest_bits((-x) as nat, 1)
    } else {
        nearest_bits(x as nat, 1)
    }
}

/// The scale that brings a positive ratio into the binade is unique.
pub proof fn lemma_binade_unique(n: nat, d: nat, j1: nat, j2: nat)
    requires
        in_binade(n, d, j1),
        in_binade(n, d, j2),
    ensures
        j1 == j2,
{
    if j1 < j2 {
        lemma_below_next_binade(n, d, j1, j2);
    } else if j2 < j1 {
        lemma_below_next_binade(n, d, j2, j1);
    }
}

proof fn lemma_below_next_binade(n: nat, d: nat, lo: nat, hi: nat)
    requires
        lo < hi,
        in_binade(n, d, lo),
    ensures
        n * pow2(hi) >= pow2(88) * d,
{
    let k = (hi - lo) as nat;
    lemma_pow2_adds(lo, k);
    lemma_pow2_unfold(k);
    lemma_pow2_pos((k - 1) as nat);
    lemma_pow2_adds(87, 1);
    lemma2_to64();
    assert(pow2(k) >= 2);
    assert(n * pow2(hi) == (n * pow2(lo)) * pow2(k)) by (nonlinear_arith)
        requires
            pow2(hi) == pow2(lo) * pow2(k),
    ;
    assert((n * pow2(lo)) * pow2(k) >= (n * pow2(lo)) * 2) by (nonlinear_arith)
        requires
            pow2(k) >= 2,
    ;
    assert(2 * (pow2(87) * d) == pow2(88) * d) by (nonlinear_arith)
        requires
            pow2(88) == pow2(87) * 2,
    ;
}

proof fn lemma_constants()
    ensures
        pow2(23) == 0x80_0000,
        pow2(24) == 0x100_0000,
        pow2(31) == 0x8000_0000,
        pow2(64) == 0x1_0000_0000_0000_0000,
        pow2(87) == 0x80_0000_0000_0000_0000_0000,
        pow2(88) == 0x100_0000_0000_0000_0000_0000,
        pow2(95) == 0x8000_0000_0000_0000_0000_0000,
{
    lemma2_to64();
    lemma_pow2_adds(64, 23);
    lemma_pow2_adds(64, 24);
    lemma_pow2_adds(64, 31);
}

/// Bits of the binary32 value nearest to `n / d`, ties to even.
pub fn ratio_bits(n: u64, d: u64) -> (r: u32)
    requires
        1 <= d <= 255,
    ensures
        r == nearest_bits(n as nat, d as nat),
        r < 0x8000_0000,
{
    if n == 0 {
        return 0;
    }
    proof {
        lemma_constants();
    }
    // Double `num = n * 2^j` until `num / (d * 2^64)` reaches `2^23`.
    let lower: u128 = 0x80_0000_0000_0000_0000_0000u128 * (d as u128);
    let mut num: u128 = n as u128;
    let mut j: u32 = 0;
    proof {
        lemma2_to64();
        assert(num < pow2(88) * d) by (nonlinear_arith)
            requires
                num < 0x1_0000_0000_0000_0000,
                pow2(88) == 0x100_0000_0000_0000_0000_0000,
                d >= 1,
        ;
    }
    while num < lower
        invariant
            lower == pow2(87) * d,
            1 <= d <= 255,
            n >= 1,
            num == n * pow2(j as nat),
            num < pow2(88) * d,
            pow2(j as nat) <= num,
            j <= 95,
            pow2(87) == 0x80_0000_0000_0000_0000_0000,
            pow2(88) == 0x100_0000_0000_0000_0000_0000,
            pow2(95) == 0x8000_0000_0000_0000_0000_0000,
        decreases 95 - j,
    {
        proof {
            lemma_pow2_pos(j as nat);
            assert(lower < pow2(95)) by (nonlinear_arith)
                requires
                    lower == pow2(87) * d,
                    d <= 255,
                    pow2(87) == 0x80_0000_0000_0000_0000_0000,
                    pow2(95) == 0x8000_0000_0000_0000_0000_0000,
            ;
            if j >= 95 {
                if j > 95 {
                    lemma_pow2_strictly_increases(95, j as nat);
                }
                assert(false);
            }
            lemma_pow2_unfold((j + 1) as nat);
            assert(pow2((j + 1) as nat) == 2 * pow2(j as nat));
            assert(n * pow2((j + 1) as nat) == 2 * num) by (nonlinear_arith)
                requires
                    num == n * pow2(j as nat),
                    pow2((j + 1) as nat) == 2 * pow2(j as nat),
            ;
        }
        num = num * 2;
        j = j + 1;
    }
    // The 24-bit significand, rounded half to even; rounding may carry it
    // to `2^24`, which moves the value to the next exponent.
    let den: u128 = 0x1_0000_0000_0000_0000u128 * (d as u128);
    assert(in_binade(n as nat, d as nat, j as nat));
    proof {
        let c = choose|c: nat| in_binade(n as nat, d as nat, c);
        lemma_binade_unique(n as nat, d as nat, c, j as nat);
        assert(0x80_0000 * den <= num < 0x100_0000 * den) by (nonlinear_arith)
            requires
                lower <= num < pow2(88) * d,
                lower == 0x80_0000_0000_0000_0000_0000 * d,
                pow2(88) == 0x100_0000_0000_0000_0000_0000,
                den == 0x1_0000_0000_0000_0000 * d,
        ;
    }
    let mut q: u128 = num / den;
    let rem: u128 = num % den;
    proof {
        assert(0x80_0000 <= q < 0x100_0000) by (nonlinear_arith)
            requires
                0x80_0000 * den <= num < 0x100_0000 * den,
                q == num / den,
                den > 0,
        ;
    }
    if 2 * rem > den || (2 * rem == den && q % 2 == 1) {
        q = q + 1;
    }
    assert(q == round_half_even(num as nat, den as nat));
    if q == 0x100_0000 {
        ((215 - j) * 0x80_0000) as u32
    } else {
        ((214 - j) * 0x80_0000) as u32 + (q - 0x80_0000) as u32
    }
}

/// Bits of `x as f32`.
pub fn int_to_bits(x: i64) -> (r: u32)
    ensures
        r == int_bits(x as int),
{
    proof {
        lemma_constants();
    }
    if x < 0 {
        let mag: u64 = if x == i64::MIN {
            0x8000_0000_0000_0000
        } else {
            (-x) as u64
        };
        let b = ratio_bits(mag, 1);
        0x8000_0000 + b
    } else {
        ratio_bits(x as u64, 1)
    }
}

} // verus!
