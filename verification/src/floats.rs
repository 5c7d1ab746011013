//! Floating-point values as bit patterns.
//!
//! A float32 is held as the 32-bit pattern of its IEEE 754 encoding, a float16
//! as its 16-bit pattern.
use crate::bytes;
use vstd::arithmetic::power2::{lemma2_to64, lemma_pow2_pos, lemma_pow2_unfold, pow2};
use vstd::prelude::*;

verus! {

pub const F32_ONE: u32 = 0x3f80_0000;

pub const F32_INFINITY: u32 = 0x7f80_0000;

/// A float value by its bit pattern, in single or in half precision.
#[derive(Debug, Clone, Copy, PartialEq, Eq, Structural)]
pub enum FloatBits {
    Single(u32),
    Half(u16),
}

// ---------------------------------------------------------------------------
// Tests on single values
// ---------------------------------------------------------------------------

/// The value is plus or minus zero.
pub open spec fn is_zero(f: u32) -> bool {
    f % 0x8000_0000 == 0
}

/// The value is neither infinite nor NaN.
pub open spec fn is_finite(f: u32) -> bool {
    (f / 0x80_0000) % 256 != 255
}

/// The value with its sign flipped.
pub open spec fn negated(f: u32) -> u32 {
    if f >= 0x8000_0000 {
        (f - 0x8000_0000) as u32
    } else {
        (f + 0x8000_0000) as u32
    }
}

/// The value differs from one by at most the spacing of float32 values there,
/// or is NaN.
pub open spec fn is_about_one(f: u32) -> bool {
    0x3f7f_fffe <= f <= 0x3f80_0001 || f % 0x8000_0000 > F32_INFINITY
}

pub fn f32_is_zero(f: u32) -> (r: bool)
    ensures
        r == is_zero(f),
{
    f % 0x8000_0000 == 0
}

pub fn f32_is_finite(f: u32) -> (r: bool)
    ensures
        r == is_finite(f),
{
    (f / 0x80_0000) % 256 != 255
}

pub fn f32_negate(f: u32) -> (r: u32)
    ensures
        r == negated(f),
{
    if f >= 0x8000_0000 {
        f - 0x8000_0000
    } else {
        f + 0x8000_0000
    }
}

pub fn f32_is_about_one(f: u32) -> (r: bool)
    ensures
        r == is_about_one(f),
{
    (0x3f7f_fffe <= f && f <= 0x3f80_0001) || f % 0x8000_0000 > F32_INFINITY
}

// ---------------------------------------------------------------------------
// Integers as float32
// ---------------------------------------------------------------------------

/// The position of the highest bit of a positive integer.
pub open spec fn high_bit(n: int) -> nat
    decreases n,
{
    if n < 2 {
        0
    } else {
        1 + high_bit(n / 2)
    }
}

/// A positive integer scaled so that its highest bit is bit 23, rounded to the
/// nearest integer, ties to even.
pub open spec fn significand(n: int) -> int {
    let k = high_bit(n);
    if k <= 23 {
        n * pow2((23 - k) as nat) as int
    } else {
        let d = pow2((k - 23) as nat) as int;
        let q = n / d;
        let r = n % d;
        if 2 * r > d || (2 * r == d && q % 2 == 1) {
            q + 1
        } else {
            q
        }
    }
}

/// The float32 pattern nearest to an integer, ties to even. A significand that
/// rounds up to the next power of two carries into the exponent.
pub open spec fn int_bits(v: int) -> int {
    if v == 0 {
        0
    } else if v < 0 {
        0x8000_0000 + (126 + high_bit(-v)) * 0x80_0000 + significand(-v)
    } else {
        (126 + high_bit(v)) * 0x80_0000 + significand(v)
    }
}

proof fn lemma_high_bit(n: int, k: nat)
    requires
        n > 0,
        pow2(k) <= n < 2 * pow2(k),
    ensures
        high_bit(n) == k,
    decreases k,
{
    lemma2_to64();
    if k > 0 {
        lemma_pow2_unfold(k);
        lemma_pow2_pos((k - 1) as nat);
        lemma_high_bit(n / 2, (k - 1) as nat);
    }
}

/// Two to the power of `k`.
fn power_of_two(k: u32) -> (r: u64)
    requires
        k <= 63,
    ensures
        r == pow2(k as nat),
{
    let mut p: u64 = 1;
    let mut i: u32 = 0;
    proof {
        lemma2_to64();
    }
    while i < k
        invariant
            i <= k <= 63,
            p == pow2(i as nat),
        decreases k - i,
    {
        proof {
            lemma_pow2_unfold((i + 1) as nat);
            lemma_pow2_le((i + 1) as nat, 63);
            lemma2_to64();
            lemma2_63();
        }
        p = p * 2;
        i = i + 1;
    }
    p
}

proof fn lemma2_63()
    ensures
        pow2(63) == 0x8000_0000_0000_0000,
{
    lemma2_to64();
    lemma_pow2_unfold(64);
}

proof fn lemma_pow2_le(a: nat, b: nat)
    requires
        a <= b,
    ensures
        pow2(a) <= pow2(b),
    decreases b,
{
    if a < b {
        lemma_pow2_unfold(b);
        lemma_pow2_pos((b - 1) as nat);
        lemma_pow2_le(a, (b - 1) as nat);
    }
}

/// The float32 pattern of a magnitude, without a sign.
fn magnitude_bits(n: u64) -> (r: u32)
    requires
        0 < n <= 0x8000_0000_0000_0000,
    ensures
        r == int_bits(n as int),
        r < 0x8000_0000,
{
    let mut p: u64 = 1;
    let mut k: u32 = 0;
    proof {
        lemma2_to64();
        lemma2_63();
    }
    while n / 2 >= p
        invariant
            0 < n <= 0x8000_0000_0000_0000,
            p == pow2(k as nat),
            0 < p <= n,
            k <= 63,
            pow2(63) == 0x8000_0000_0000_0000,
        decreases n - p,
    {
        proof {
            lemma_pow2_unfold((k + 1) as nat);
            if k == 63 {
                assert(false);
            }
        }
        p = p * 2;
        k = k + 1;
    }
    proof {
        lemma_high_bit(n as int, k as nat);
    }
    let q: u64 = if k <= 23 {
        let scale: u64 = power_of_two(23 - k);
        proof {
            vstd::arithmetic::power2::lemma_pow2_adds((23 - k) as nat, k as nat);
            lemma2_to64();
            assert(n * scale < 2 * 0x80_0000) by (nonlinear_arith)
                requires
                    n < 2 * p,
                    scale * p == 0x80_0000,
                    scale > 0,
            ;
            lemma_pow2_pos((23 - k) as nat);
            assert(n * scale >= 0x80_0000) by (nonlinear_arith)
                requires
                    n >= p,
                    scale * p == 0x80_0000,
                    scale > 0,
            ;
        }
        n * scale
    } else {
        let d: u64 = power_of_two(k - 23);
        proof {
            lemma_pow2_pos((k - 23) as nat);
        }
        let q: u64 = n / d;
        let r: u64 = n % d;
        proof {
            vstd::arithmetic::power2::lemma_pow2_adds((k - 23) as nat, 23);
            lemma2_to64();
            lemma_pow2_pos((k - 23) as nat);
            assert(q < 2 * 0x80_0000) by (nonlinear_arith)
                requires
                    q == n / d,
                    n < 2 * p,
                    d * 0x80_0000 == p,
                    d > 0,
            ;
            lemma_pow2_le((k - 23) as nat, 40);
        }
        if 2 * r > d || (2 * r == d && q % 2 == 1) {
            q + 1
        } else {
            q
        }
    };
    (126 + k) * 0x80_0000 + q as u32
}

/// The float32 pattern of an integer, as a cast gives it.
pub fn int_to_f32(v: i64) -> (r: u32)
    ensures
        r == int_bits(v as int),
{
    if v == 0 {
        0
    } else if v < 0 {
        let n: u64 = (0i128 - v as i128) as u64;
        magnitude_bits(n) + 0x8000_0000
    } else {
        magnitude_bits(v as u64)
    }
}

/// The patterns of integers as float32, in little-endian bytes.
pub open spec fn f32_all(v: Seq<i64>) -> Seq<u8>
    decreases v.len(),
{
    if v.len() == 0 {
        seq![]
    } else {
        f32_all(v.drop_last()) + bytes::le_bytes(int_bits(v.last() as int), 4)
    }
}

/// Serializes integers as float32.
pub fn to_f32_bytes(values: &Vec<i64>) -> (r: Vec<u8>)
    ensures
        r@ == f32_all(values@),
{
    let mut out: Vec<u8> = Vec::new();
    let mut i: usize = 0;
    assert(values@.take(0) =~= Seq::<i64>::empty());
    while i < values.len()
        invariant
            i <= values@.len(),
            out@ == f32_all(values@.take(i as int)),
        decreases values@.len() - i,
    {
        assert(values@.take(i + 1).drop_last() =~= values@.take(i as int));
        bytes::put_u32(&mut out, int_to_f32(values[i]));
        i = i + 1;
    }
    assert(values@.take(i as int) =~= values@);
    out
}

/// The float32 patterns of integers.
pub open spec fn int_floats(v: Seq<i64>) -> Seq<FloatBits> {
    Seq::new(v.len(), |i: int| FloatBits::Single(int_bits(v[i] as int) as u32))
}

/// The float32 patterns of integers, as a cast gives them.
pub fn ints_to_floats(values: &Vec<i64>) -> (r: Vec<FloatBits>)
    ensures
        r@ == int_floats(values@),
{
    let mut out: Vec<FloatBits> = Vec::new();
    let mut i: usize = 0;
    while i < values.len()
        invariant
            i <= values@.len(),
            out@.len() == i,
            forall|k: int|
                0 <= k < i ==> #[trigger] out@[k] == FloatBits::Single(
                    int_bits(values@[k] as int) as u32,
                ),
        decreases values@.len() - i,
    {
        out.push(FloatBits::Single(int_to_f32(values[i])));
        i = i + 1;
    }
    assert(out@ =~= int_floats(values@));
    out
}

/// Twice the distance between an integer and its float32 value is at most the
/// spacing of float32 values there; up to 2^24 there is no distance at all.
pub proof fn law_int_bits_nearest(n: i64)
    requires
        n > 0,
    ensures
        high_bit(n as int) <= 23 ==> significand(n as int) == n * pow2(
            (23 - high_bit(n as int)) as nat,
        ),
        high_bit(n as int) > 23 ==> ({
            let unit = pow2((high_bit(n as int) - 23) as nat) as int;
            let value = significand(n as int) * unit;
            -unit <= 2 * (value - n) <= unit
        }),
{
    let k = high_bit(n as int);
    if k > 23 {
        let d = pow2((k - 23) as nat) as int;
        lemma_pow2_pos((k - 23) as nat);
        let q = n as int / d;
        let r = n as int % d;
        assert(n == d * q + r) by {
            vstd::arithmetic::div_mod::lemma_fundamental_div_mod(n as int, d);
        }
        assert(d * q == q * d) by (nonlinear_arith);
        assert((q + 1) * d == q * d + d) by (nonlinear_arith);
    }
}

} // verus!
