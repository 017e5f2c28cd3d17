//! Real numbers as IEEE-754 bit patterns.
//!
//! Positions, depths and thresholds cross this library as the bit patterns of
//! binary32 (`u32`) and binary64 (`u64`) numbers. The library never does
//! arithmetic on them; it only compares them. The comparisons work on the bit
//! patterns and are proved to agree with the order of the numbers themselves.
use vstd::arithmetic::power2::{lemma_pow2_adds, lemma_pow2_pos, lemma2_to64, pow2};
use vstd::prelude::*;

verus! {

/// Bit pattern of the binary32 number closest to 0.01, the smallest depth that
/// is not taken for a hole in a depth map.
pub const DEPTH_EPSILON: u32 = 0x3C23_D70A;

/// Bit pattern of the binary32 number closest to 0.1, the smallest depth at
/// which densification samples a pixel.
pub const MIN_DENSIFY_DEPTH: u32 = 0x3DCC_CCCD;

/// The magnitude encoded by an exponent and fraction field `m` whose fraction
/// has `unit` values, in multiples of the smallest subnormal number. The
/// pattern of infinity is given the value that the next exponent would have,
/// which is above every finite magnitude.
pub open spec fn scaled_magnitude(m: nat, unit: nat) -> nat {
    let exponent = m / unit;
    let fraction = m % unit;
    if exponent == 0 {
        fraction
    } else {
        (unit + fraction) * pow2((exponent - 1) as nat)
    }
}

/// The exponent and fraction fields of a binary32 pattern.
pub open spec fn magnitude32(b: u32) -> nat {
    if b >= 0x8000_0000 {
        (b - 0x8000_0000) as nat
    } else {
        b as nat
    }
}

pub open spec fn is_nan32(b: u32) -> bool {
    magnitude32(b) > 0x7F80_0000
}

/// The number that a binary32 pattern stands for, in multiples of 2^-149.
/// Both zeros are 0; the infinities are beyond every finite number.
pub open spec fn value32(b: u32) -> int {
    let v = scaled_magnitude(magnitude32(b), 0x80_0000) as int;
    if b >= 0x8000_0000 {
        -v
    } else {
        v
    }
}

/// Whether `a < b` holds of the binary32 numbers; never with a NaN.
pub open spec fn less32(a: u32, b: u32) -> bool {
    !is_nan32(a) && !is_nan32(b) && value32(a) < value32(b)
}

/// Whether `a <= b` holds of the binary32 numbers; never with a NaN.
pub open spec fn at_most32(a: u32, b: u32) -> bool {
    !is_nan32(a) && !is_nan32(b) && value32(a) <= value32(b)
}

/// The exponent and fraction fields of a binary64 pattern.
pub open spec fn magnitude64(b: u64) -> nat {
    if b >= 0x8000_0000_0000_0000 {
        (b - 0x8000_0000_0000_0000) as nat
    } else {
        b as nat
    }
}

pub open spec fn is_nan64(b: u64) -> bool {
    magnitude64(b) > 0x7FF0_0000_0000_0000
}

/// The number that a binary64 pattern stands for, in multiples of 2^-1074.
pub open spec fn value64(b: u64) -> int {
    let v = scaled_magnitude(magnitude64(b), 0x10_0000_0000_0000) as int;
    if b >= 0x8000_0000_0000_0000 {
        -v
    } else {
        v
    }
}

/// Whether `a < b` holds of the binary64 numbers; never with a NaN.
pub open spec fn less64(a: u64, b: u64) -> bool {
    !is_nan64(a) && !is_nan64(b) && value64(a) < value64(b)
}

/// Whether the binary64 number is zero, of either sign.
pub open spec fn is_zero64(b: u64) -> bool {
    !is_nan64(b) && value64(b) == 0
}

proof fn lemma_scaled_step(m: nat, unit: nat)
    requires
        unit > 0,
    ensures
        scaled_magnitude(m, unit) < scaled_magnitude((m + 1) as nat, unit),
{
    let e = m / unit;
    let f = m % unit;
    assert(m == unit * e + f) by {
        vstd::arithmetic::div_mod::lemma_fundamental_div_mod(m as int, unit as int);
    }
    if f + 1 < unit {
        vstd::arithmetic::div_mod::lemma_fundamental_div_mod_converse(
            (m + 1) as int,
            unit as int,
            e as int,
            (f + 1) as int,
        );
        if e > 0 {
            let p = pow2((e - 1) as nat);
            lemma_pow2_pos((e - 1) as nat);
            assert((unit + f) * p < (unit + (f + 1)) * p) by (nonlinear_arith)
                requires
                    p > 0,
            ;
        }
    } else {
        assert(m + 1 == unit * (e + 1) + 0) by (nonlinear_arith)
            requires
                m == unit * e + f,
                f + 1 == unit,
        ;
        vstd::arithmetic::div_mod::lemma_fundamental_div_mod_converse(
            (m + 1) as int,
            unit as int,
            (e + 1) as int,
            0,
        );
        lemma2_to64();
        if e > 0 {
            let p = pow2((e - 1) as nat);
            lemma_pow2_pos((e - 1) as nat);
            lemma_pow2_adds(1, (e - 1) as nat);
            assert(pow2(e) == 2 * p);
            assert((unit + f) * p < unit * (2 * p)) by (nonlinear_arith)
                requires
                    p > 0,
                    f + 1 == unit,
            ;
        } else {
            assert(unit * pow2(0) == unit) by (nonlinear_arith)
                requires
                    pow2(0) == 1,
            ;
        }
    }
}

/// The order of the exponent and fraction fields is the order of the
/// magnitudes that they encode.
pub proof fn lemma_scaled_magnitude_monotonic(a: nat, b: nat, unit: nat)
    requires
        unit > 0,
        a < b,
    ensures
        scaled_magnitude(a, unit) < scaled_magnitude(b, unit),
    decreases b - a,
{
    if a + 1 < b {
        lemma_scaled_magnitude_monotonic(a, (b - 1) as nat, unit);
    }
    lemma_scaled_step((b - 1) as nat, unit);
}

proof fn lemma_key_order(a: int, b: int, unit: nat)
    requires
        unit > 0,
    ensures
        ({
            let va = if a < 0 { -scaled_magnitude((-a) as nat, unit) } else { scaled_magnitude(a as nat, unit) as int };
            let vb = if b < 0 { -scaled_magnitude((-b) as nat, unit) } else { scaled_magnitude(b as nat, unit) as int };
            &&& a < b <==> va < vb
            &&& a == b <==> va == vb
        }),
{
    assert(scaled_magnitude(0, unit) == 0) by {
        vstd::arithmetic::div_mod::lemma_div_basics(unit as int);
        vstd::arithmetic::div_mod::lemma_small_mod(0, unit);
    }
    let ma: nat = if a < 0 { (-a) as nat } else { a as nat };
    let mb: nat = if b < 0 { (-b) as nat } else { b as nat };
    if 0 < ma {
        lemma_scaled_magnitude_monotonic(0, ma, unit);
    }
    if 0 < mb {
        lemma_scaled_magnitude_monotonic(0, mb, unit);
    }
    if ma < mb {
        lemma_scaled_magnitude_monotonic(ma, mb, unit);
    }
    if mb < ma {
        lemma_scaled_magnitude_monotonic(mb, ma, unit);
    }
}

/// A signed key whose order is the order of the binary32 numbers.
fn key32(b: u32) -> (k: i64)
    ensures
        k < 0 ==> b >= 0x8000_0000 && -k == magnitude32(b),
        k > 0 ==> b < 0x8000_0000 && k == magnitude32(b),
        k == 0 ==> magnitude32(b) == 0,
        -0x8000_0000 < k < 0x8000_0000,
{
    if b >= 0x8000_0000 {
        -((b - 0x8000_0000) as i64)
    } else {
        b as i64
    }
}

fn nan32(b: u32) -> (r: bool)
    ensures
        r == is_nan32(b),
{
    if b >= 0x8000_0000 {
        b - 0x8000_0000 > 0x7F80_0000
    } else {
        b > 0x7F80_0000
    }
}

proof fn lemma_values32(a: u32, b: u32, ka: i64, kb: i64)
    requires
        ka < 0 ==> a >= 0x8000_0000 && -ka == magnitude32(a),
        ka > 0 ==> a < 0x8000_0000 && ka == magnitude32(a),
        ka == 0 ==> magnitude32(a) == 0,
        kb < 0 ==> b >= 0x8000_0000 && -kb == magnitude32(b),
        kb > 0 ==> b < 0x8000_0000 && kb == magnitude32(b),
        kb == 0 ==> magnitude32(b) == 0,
    ensures
        ka < kb <==> value32(a) < value32(b),
        ka == kb <==> value32(a) == value32(b),
{
    lemma_key_order(ka as int, kb as int, 0x80_0000);
    lemma_key_order(0, 0, 0x80_0000);
    assert(scaled_magnitude(0, 0x80_0000) == 0);
}

/// `a < b` on binary32 numbers.
pub fn lt32(a: u32, b: u32) -> (r: bool)
    ensures
        r == less32(a, b),
{
    let ka = key32(a);
    let kb = key32(b);
    proof {
        lemma_values32(a, b, ka, kb);
    }
    !nan32(a) && !nan32(b) && ka < kb
}

/// `a <= b` on binary32 numbers.
pub fn le32(a: u32, b: u32) -> (r: bool)
    ensures
        r == at_most32(a, b),
{
    let ka = key32(a);
    let kb = key32(b);
    proof {
        lemma_values32(a, b, ka, kb);
    }
    !nan32(a) && !nan32(b) && ka <= kb
}

/// A signed key whose order is the order of the binary64 numbers.
fn key64(b: u64) -> (k: i128)
    ensures
        k < 0 ==> b >= 0x8000_0000_0000_0000 && -k == magnitude64(b),
        k > 0 ==> b < 0x8000_0000_0000_0000 && k == magnitude64(b),
        k == 0 ==> magnitude64(b) == 0,
{
    if b >= 0x8000_0000_0000_0000 {
        -((b - 0x8000_0000_0000_0000) as i128)
    } else {
        b as i128
    }
}

fn nan64(b: u64) -> (r: bool)
    ensures
        r == is_nan64(b),
{
    if b >= 0x8000_0000_0000_0000 {
        b - 0x8000_0000_0000_0000 > 0x7FF0_0000_0000_0000
    } else {
        b > 0x7FF0_0000_0000_0000
    }
}

/// `a < b` on binary64 numbers.
pub fn lt64(a: u64, b: u64) -> (r: bool)
    ensures
        r == less64(a, b),
{
    let ka = key64(a);
    let kb = key64(b);
    proof {
        lemma_key_order(ka as int, kb as int, 0x10_0000_0000_0000);
        assert(scaled_magnitude(0, 0x10_0000_0000_0000) == 0);
    }
    !nan64(a) && !nan64(b) && ka < kb
}

/// Whether a binary64 number is zero.
pub fn zero64(a: u64) -> (r: bool)
    ensures
        r == is_zero64(a),
{
    let k = key64(a);
    proof {
        lemma_key_order(k as int, 0, 0x10_0000_0000_0000);
        assert(scaled_magnitude(0, 0x10_0000_0000_0000) == 0);
    }
    k == 0
}

/// The numbers that patterns stand for. Without the sign bit, larger patterns
/// are larger numbers, from zero on; the sign bit negates. One is 2^149 times
/// the smallest number above zero. Beyond infinity there are no numbers.
pub proof fn lemma_patterns32(a: u32, b: u32)
    ensures
        value32(0) == 0,
        value32(1) == 1,
        value32(0x3F80_0000) == pow2(149),
        a < b < 0x8000_0000 ==> value32(a) < value32(b),
        a < 0x8000_0000 ==> value32((a + 0x8000_0000) as u32) == -value32(a),
        is_nan32(a) <==> 0x7F80_0000 < a < 0x8000_0000 || 0xFF80_0000 < a,
{
    assert(scaled_magnitude(0, 0x80_0000) == 0);
    assert(scaled_magnitude(1, 0x80_0000) == 1);
    lemma2_to64();
    lemma_pow2_adds(23, 126);
    assert(0x3F80_0000nat / 0x80_0000nat == 127 && 0x3F80_0000nat % 0x80_0000nat == 0);
    assert(pow2(149) == 0x80_0000 * pow2(126));
    if a < b {
        lemma_scaled_magnitude_monotonic(a as nat, b as nat, 0x80_0000);
    }
}

/// The order of binary32 numbers. Nothing is compared with what is no number;
/// of two numbers one is less, or they stand for the same.
pub proof fn lemma_order32(a: u32, b: u32)
    ensures
        is_nan32(a) || is_nan32(b) ==> !less32(a, b) && !at_most32(a, b),
        !is_nan32(a) && !is_nan32(b) ==> {
            &&& less32(a, b) <==> value32(a) < value32(b)
            &&& at_most32(a, b) <==> value32(a) <= value32(b)
            &&& at_most32(a, b) <==> !less32(b, a)
        },
        less32(a, b) ==> !less32(b, a),
{
}

/// As for binary32: larger patterns without the sign bit are larger numbers,
/// the sign bit negates, and both zeros are zero.
pub proof fn lemma_patterns64(a: u64, b: u64)
    ensures
        value64(0) == 0,
        value64(1) == 1,
        a < b < 0x8000_0000_0000_0000 ==> value64(a) < value64(b),
        a < 0x8000_0000_0000_0000 ==> value64((a + 0x8000_0000_0000_0000) as u64) == -value64(a),
        is_nan64(a) <==> 0x7FF0_0000_0000_0000 < a < 0x8000_0000_0000_0000 || 0xFFF0_0000_0000_0000 < a,
        is_zero64(a) <==> a == 0 || a == 0x8000_0000_0000_0000,
        is_nan64(a) || is_nan64(b) ==> !less64(a, b),
        !is_nan64(a) && !is_nan64(b) ==> (less64(a, b) <==> value64(a) < value64(b)),
{
    assert(scaled_magnitude(0, 0x10_0000_0000_0000) == 0);
    assert(scaled_magnitude(1, 0x10_0000_0000_0000) == 1);
    if a < b {
        lemma_scaled_magnitude_monotonic(a as nat, b as nat, 0x10_0000_0000_0000);
    }
    if magnitude64(a) > 0 {
        lemma_scaled_magnitude_monotonic(0, magnitude64(a), 0x10_0000_0000_0000);
    }
}

} // verus!
