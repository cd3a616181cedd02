//! IEEE 754 numbers as bit patterns: rounding to an integer, converting an integer, scaling a
//! 16-bit sample. A number is held as the integer of its bit pattern, and all arithmetic is on
//! integers.

use vstd::arithmetic::power2;
use vstd::prelude::*;

verus! {

// ---------------------------------------------------------------------------------------------
// Powers of two
// ---------------------------------------------------------------------------------------------

/// The index of the highest set bit of `v`; 0 for 0.
pub open spec fn top_bit(v: nat) -> nat
    decreases v,
{
    if v <= 1 {
        0
    } else {
        1 + top_bit(v / 2)
    }
}

/// A positive number lies between two neighbouring powers of two.
pub proof fn lemma_top_bit(v: nat)
    requires
        v > 0,
    ensures
        power2::pow2(top_bit(v)) <= v < power2::pow2(top_bit(v) + 1),
    decreases v,
{
    power2::lemma2_to64();
    if v > 1 {
        lemma_top_bit(v / 2);
        power2::lemma_pow2_unfold(top_bit(v));
        power2::lemma_pow2_unfold(top_bit(v) + 1);
    }
}

/// Powers of two do not decrease.
pub proof fn lemma_pow2_monotone(a: nat, b: nat)
    requires
        a <= b,
    ensures
        0 < power2::pow2(a) <= power2::pow2(b),
{
    power2::lemma_pow2_pos(a);
    if a < b {
        power2::lemma_pow2_strictly_increases(a, b);
    }
}

/// The highest set bit is the only one whose power of two is at most the number while the next one
/// is above it.
pub proof fn lemma_top_bit_unique(v: nat, b: nat)
    requires
        power2::pow2(b) <= v < power2::pow2(b + 1),
    ensures
        top_bit(v) == b,
{
    power2::lemma_pow2_pos(b);
    lemma_top_bit(v);
    if top_bit(v) < b {
        lemma_pow2_monotone(top_bit(v) + 1, b);
    } else if top_bit(v) > b {
        lemma_pow2_monotone(b + 1, top_bit(v));
    }
}

/// Two to the power `n`.
fn power(n: u32) -> (r: u64)
    requires
        n < 64,
    ensures
        r == power2::pow2(n as nat),
{
    proof {
        power2::lemma2_to64_rest();
        lemma_pow2_monotone(n as nat, 63);
        vstd::bits::lemma_u64_shl_is_mul(1, n as u64);
    }
    1u64 << n
}

/// The index of the highest set bit.
fn highest_bit(v: u64) -> (r: u32)
    ensures
        r == top_bit(v as nat),
        r < 64,
{
    let mut rest: u64 = v;
    let mut n: u32 = 0;
    assert(top_bit(v as nat) < 64) by {
        if v > 0 {
            lemma_top_bit(v as nat);
            power2::lemma2_to64_rest();
            if top_bit(v as nat) >= 64 {
                lemma_pow2_monotone(64, top_bit(v as nat));
            }
        }
    }
    while rest > 1
        invariant
            top_bit(v as nat) == n + top_bit(rest as nat),
            top_bit(v as nat) < 64,
        decreases rest,
    {
        rest = rest / 2;
        n = n + 1;
    }
    n
}

// ---------------------------------------------------------------------------------------------
// Rounding to an integer
// ---------------------------------------------------------------------------------------------

/// The integer nearest to `m * 2^k`, halves up.
pub open spec fn nearest(m: nat, k: int) -> nat {
    if k >= 0 {
        m * power2::pow2(k as nat)
    } else {
        (m + power2::pow2((-k - 1) as nat)) / power2::pow2((-k) as nat)
    }
}

/// `v`, or the largest 64-bit integer where `v` is larger.
pub open spec fn saturated(v: nat) -> u64 {
    if v > u64::MAX {
        u64::MAX
    } else {
        v as u64
    }
}

/// What a double-precision number becomes when it is rounded to the nearest integer, halves away
/// from zero, and converted to an unsigned 64-bit integer: negative numbers and NaNs give 0, too
/// large ones the largest integer.
pub open spec fn double_rounded(bits: u64) -> u64 {
    let exponent = (bits / 0x10_0000_0000_0000) % 0x800;
    let fraction = bits % 0x10_0000_0000_0000;
    if bits >= 0x8000_0000_0000_0000 {
        0
    } else if exponent == 0x7FF {
        if fraction == 0 {
            u64::MAX
        } else {
            0
        }
    } else if exponent == 0 {
        saturated(nearest(fraction as nat, -1074))
    } else {
        saturated(nearest((0x10_0000_0000_0000 + fraction) as nat, exponent - 1075))
    }
}

/// What a single-precision number becomes when it is rounded to the nearest integer, halves away
/// from zero, and converted to an unsigned 64-bit integer.
pub open spec fn float_rounded(bits: u32) -> u64 {
    let exponent = (bits / 0x80_0000) % 0x100;
    let fraction = bits % 0x80_0000;
    if bits >= 0x8000_0000 {
        0
    } else if exponent == 0xFF {
        if fraction == 0 {
            u64::MAX
        } else {
            0
        }
    } else if exponent == 0 {
        saturated(nearest(fraction as nat, -149))
    } else {
        saturated(nearest((0x80_0000 + fraction) as nat, exponent - 150))
    }
}

/// The integer nearest to `m * 2^k`, halves up, or the largest one.
fn round_scaled(m: u64, k: i32) -> (r: u64)
    requires
        m < 0x20_0000_0000_0000,
        -2000 < k < 2000,
    ensures
        r == saturated(nearest(m as nat, k as int)),
{
    proof {
        power2::lemma2_to64();
        power2::lemma2_to64_rest();
    }
    if k >= 0 {
        if m == 0 {
            assert(0 * power2::pow2(k as nat) == 0);
            return 0;
        }
        if k >= 64 {
            proof {
                lemma_pow2_monotone(64, k as nat);
                assert(m * power2::pow2(k as nat) >= power2::pow2(64)) by (nonlinear_arith)
                    requires
                        m >= 1,
                        power2::pow2(k as nat) >= power2::pow2(64),
                ;
            }
            return u64::MAX;
        }
        let p: u64 = power(k as u32);
        proof {
            power2::lemma_pow2_pos(k as nat);
        }
        let most: u64 = u64::MAX / p;
        assert(most * p <= u64::MAX < (most + 1) * p) by (nonlinear_arith)
            requires
                p > 0,
                most == u64::MAX / p,
        ;
        if m > most {
            assert(m * p >= (most + 1) * p) by (nonlinear_arith)
                requires
                    m >= most + 1,
                    p > 0,
            ;
            return u64::MAX;
        }
        assert(m * p <= most * p) by (nonlinear_arith)
            requires
                m <= most,
                p > 0,
        ;
        m * p
    } else {
        let n: u32 = (-k) as u32;
        if n > 53 {
            proof {
                lemma_pow2_monotone(53, (n - 1) as nat);
                power2::lemma_pow2_unfold(n as nat);
                vstd::arithmetic::div_mod::lemma_basic_div(
                    m + power2::pow2((n - 1) as nat),
                    power2::pow2(n as nat) as int,
                );
            }
            return 0;
        }
        let half: u64 = power(n - 1);
        let whole: u64 = power(n);
        proof {
            lemma_pow2_monotone((n - 1) as nat, 52);
            lemma_pow2_monotone(n as nat, 53);
            assert((m + half) / (whole as int) <= m + half) by (nonlinear_arith)
                requires
                    whole > 0,
            ;
        }
        (m + half) / whole
    }
}

/// Rounds a double-precision number, given by its bit pattern, to an unsigned 64-bit integer.
pub fn round_double(bits: u64) -> (r: u64)
    ensures
        r == double_rounded(bits),
{
    let exponent: u64 = (bits / 0x10_0000_0000_0000) % 0x800;
    let fraction: u64 = bits % 0x10_0000_0000_0000;
    if bits >= 0x8000_0000_0000_0000 {
        0
    } else if exponent == 0x7FF {
        if fraction == 0 {
            u64::MAX
        } else {
            0
        }
    } else if exponent == 0 {
        round_scaled(fraction, -1074)
    } else {
        round_scaled(0x10_0000_0000_0000 + fraction, exponent as i32 - 1075)
    }
}

/// Rounds a single-precision number, given by its bit pattern, to an unsigned 64-bit integer.
pub fn round_float(bits: u32) -> (r: u64)
    ensures
        r == float_rounded(bits),
{
    let exponent: u32 = (bits / 0x80_0000) % 0x100;
    let fraction: u32 = bits % 0x80_0000;
    if bits >= 0x8000_0000 {
        0
    } else if exponent == 0xFF {
        if fraction == 0 {
            u64::MAX
        } else {
            0
        }
    } else if exponent == 0 {
        round_scaled(fraction as u64, -149)
    } else {
        round_scaled(0x80_0000 + fraction as u64, exponent as i32 - 150)
    }
}

// ---------------------------------------------------------------------------------------------
// From an integer
// ---------------------------------------------------------------------------------------------

/// `v / 2^s` rounded to the nearest integer, halves to the even one.
pub open spec fn halved(v: nat, s: nat) -> nat {
    let down = v / power2::pow2(s);
    let left = v % power2::pow2(s);
    if s > 0 && (left > power2::pow2((s - 1) as nat) || left == power2::pow2((s - 1) as nat) && down % 2 == 1) {
        down + 1
    } else {
        down
    }
}

/// The bit pattern of the double-precision number nearest to `v`, of two equally near ones the one
/// with an even significand. A significand that rounds up to 2^53 carries into the exponent.
pub open spec fn double_of(v: u64) -> u64 {
    let top = top_bit(v as nat);
    if v == 0 {
        0
    } else if top <= 52 {
        ((top + 1022) * 0x10_0000_0000_0000 + v * power2::pow2((52 - top) as nat)) as u64
    } else {
        ((top + 1022) * 0x10_0000_0000_0000 + halved(v as nat, (top - 52) as nat)) as u64
    }
}

proof fn lemma_significand(v: u64)
    requires
        v > 0,
        top_bit(v as nat) <= 52,
    ensures
        0x10_0000_0000_0000 <= v * power2::pow2((52 - top_bit(v as nat)) as nat) < 0x20_0000_0000_0000,
{
    let top = top_bit(v as nat);
    lemma_top_bit(v as nat);
    power2::lemma2_to64();
    power2::lemma2_to64_rest();
    power2::lemma_pow2_adds(top, (52 - top) as nat);
    power2::lemma_pow2_adds(top + 1, (52 - top) as nat);
    let p = power2::pow2((52 - top) as nat);
    power2::lemma_pow2_pos((52 - top) as nat);
    assert(power2::pow2(top) * p <= v * p < power2::pow2(top + 1) * p) by (nonlinear_arith)
        requires
            power2::pow2(top) <= v < power2::pow2(top + 1),
            p > 0,
    ;
}

proof fn lemma_halved(v: u64)
    requires
        top_bit(v as nat) > 52,
    ensures
        0x10_0000_0000_0000 <= halved(v as nat, (top_bit(v as nat) - 52) as nat)
            <= 0x20_0000_0000_0000,
{
    let top = top_bit(v as nat);
    let s = (top - 52) as nat;
    lemma_top_bit(v as nat);
    power2::lemma2_to64();
    power2::lemma2_to64_rest();
    power2::lemma_pow2_adds(52, s);
    power2::lemma_pow2_adds(53, s);
    power2::lemma_pow2_pos(s);
    let p = power2::pow2(s) as int;
    let q = v as int / p;
    assert(0x10_0000_0000_0000 <= q < 0x20_0000_0000_0000) by (nonlinear_arith)
        requires
            p > 0,
            0x10_0000_0000_0000 * p <= v < 0x20_0000_0000_0000 * p,
            q == v as int / p,
    ;
}

/// Converts an integer to the bit pattern of the nearest double-precision number.
pub fn double_from(v: u64) -> (r: u64)
    ensures
        r == double_of(v),
{
    if v == 0 {
        return 0;
    }
    let top: u32 = highest_bit(v);
    if top <= 52 {
        proof {
            lemma_significand(v);
        }
        (top as u64 + 1022) * 0x10_0000_0000_0000 + v * power(52 - top)
    } else {
        let s: u32 = top - 52;
        proof {
            lemma_halved(v);
            power2::lemma_pow2_pos(s as nat);
        }
        let whole: u64 = power(s);
        let half: u64 = power(s - 1);
        let down: u64 = v / whole;
        let left: u64 = v % whole;
        let up: u64 = if left > half || (left == half && down % 2 == 1) {
            1
        } else {
            0
        };
        assert(down + up == halved(v as nat, s as nat));
        (top as u64 + 1022) * 0x10_0000_0000_0000 + (down + up)
    }
}

// ---------------------------------------------------------------------------------------------
// From a sample
// ---------------------------------------------------------------------------------------------

/// The magnitude of a sample.
pub open spec fn magnitude(sample: i16) -> nat {
    if sample < 0 {
        (-sample) as nat
    } else {
        sample as nat
    }
}

/// The bit pattern of the single-precision number `sample / 32768`.
pub open spec fn sample_bits(sample: i16) -> u32 {
    let top = top_bit(magnitude(sample));
    let sign: nat = if sample < 0 {
        0x8000_0000
    } else {
        0
    };
    if sample == 0 {
        0
    } else {
        (sign + (top + 111) * 0x80_0000 + magnitude(sample) * power2::pow2((23 - top) as nat)) as u32
    }
}

proof fn lemma_sample(sample: i16)
    requires
        sample != 0,
    ensures
        top_bit(magnitude(sample)) <= 15,
        0x80_0000 <= magnitude(sample) * power2::pow2((23 - top_bit(magnitude(sample))) as nat)
            < 0x100_0000,
{
    let m = magnitude(sample);
    let top = top_bit(m);
    lemma_top_bit(m);
    power2::lemma2_to64();
    if top > 15 {
        lemma_pow2_monotone(16, top);
    }
    power2::lemma_pow2_adds(top, (23 - top) as nat);
    power2::lemma_pow2_adds(top + 1, (23 - top) as nat);
    let p = power2::pow2((23 - top) as nat);
    power2::lemma_pow2_pos((23 - top) as nat);
    assert(power2::pow2(top) * p <= m * p < power2::pow2(top + 1) * p) by (nonlinear_arith)
        requires
            power2::pow2(top) <= m < power2::pow2(top + 1),
            p > 0,
    ;
}

/// Scales a 16-bit sample by 1/32768 to a single-precision number, given by its bit pattern.
pub fn scale_sample(sample: i16) -> (r: u32)
    ensures
        r == sample_bits(sample),
{
    if sample == 0 {
        return 0;
    }
    let mag: u64 = if sample < 0 {
        (-(sample as i32)) as u64
    } else {
        sample as u64
    };
    let sign: u64 = if sample < 0 {
        0x8000_0000
    } else {
        0
    };
    proof {
        lemma_sample(sample);
    }
    let top: u32 = highest_bit(mag);
    (sign + (top as u64 + 111) * 0x80_0000 + mag * power(23 - top)) as u32
}

// ---------------------------------------------------------------------------------------------
// Laws
// ---------------------------------------------------------------------------------------------

/// An integer of at most 53 bits survives the way to double precision and back.
pub proof fn law_double_round_trip(v: u64)
    requires
        v <= 0x20_0000_0000_0000,
    ensures
        double_rounded(double_of(v)) == v,
{
    power2::lemma2_to64();
    power2::lemma2_to64_rest();
    let bits = double_of(v);
    if v == 0 {
        let d = power2::pow2(1074) as int;
        lemma_pow2_monotone(1073, 1074);
        power2::lemma_pow2_unfold(1074);
        power2::lemma_pow2_pos(1073);
        vstd::arithmetic::div_mod::lemma_basic_div(power2::pow2(1073) as int, d);
    } else if v == 0x20_0000_0000_0000 {
        lemma_top_bit_unique(v as nat, 53);
        assert(halved(v as nat, 1) == 0x10_0000_0000_0000);
        assert(bits == 1076 * 0x10_0000_0000_0000);
        assert(nearest(0x10_0000_0000_0000, 1) == v);
    } else {
        let top = top_bit(v as nat);
        lemma_top_bit(v as nat);
        if top > 52 {
            lemma_pow2_monotone(53, top);
        }
        lemma_significand(v);
        let p = power2::pow2((52 - top) as nat);
        let m = v * p;
        assert(bits == (top + 1022) * 0x10_0000_0000_0000 + m);
        assert((bits / 0x10_0000_0000_0000) % 0x800 == top + 1023);
        assert(bits % 0x10_0000_0000_0000 == m - 0x10_0000_0000_0000);
        if top == 52 {
            assert(p == 1);
            assert(v * 1 == v && (v * 1) * 1 == v);
        } else {
            let half = power2::pow2((51 - top) as nat);
            power2::lemma_pow2_unfold((52 - top) as nat);
            power2::lemma_pow2_pos((51 - top) as nat);
            vstd::arithmetic::div_mod::lemma_fundamental_div_mod_converse(
                (m + half) as int,
                p as int,
                v as int,
                half as int,
            );
        }
    }
}

/// The single-precision number of a sample is exactly the sample divided by 32768: its sign is
/// that of the sample, and its significand scaled by its exponent is the magnitude divided by
/// 2^15.
pub proof fn law_sample_is_exact(sample: i16)
    requires
        sample != 0,
    ensures
        sample_bits(sample) >= 0x8000_0000 <==> sample < 0,
        ({
            let exponent = (sample_bits(sample) / 0x80_0000) % 0x100;
            let significand = 0x80_0000 + sample_bits(sample) % 0x80_0000;
            &&& 112 <= exponent <= 127
            &&& significand == (if sample < 0 {
                -sample
            } else {
                sample as int
            }) * power2::pow2((135 - exponent) as nat)
        }),
{
    lemma_sample(sample);
    power2::lemma2_to64();
}

/// What `nearest` gives for a fraction lies no further than a half from it, and not a half below it.
proof fn lemma_nearest(m: nat, k: nat)
    requires
        k > 0,
    ensures
        ({
            let r = nearest(m, -(k as int));
            let d = power2::pow2(k);
            &&& (2 * r - 1) * d <= 2 * m < (2 * r + 1) * d
            &&& r <= m
        }),
{
    let h = power2::pow2((k - 1) as nat) as int;
    let d = power2::pow2(k) as int;
    let r = nearest(m, -(k as int)) as int;
    power2::lemma_pow2_unfold(k);
    power2::lemma_pow2_pos((k - 1) as nat);
    vstd::arithmetic::div_mod::lemma_fundamental_div_mod(m + h, d);
    let left = (m + h) % d;
    assert(d * r == r * d) by (nonlinear_arith);
    assert(r * d + left == m + h && 0 <= left < d);
    assert((2 * r - 1) * d == 2 * (r * d) - d) by (nonlinear_arith);
    assert((2 * r + 1) * d == 2 * (r * d) + d) by (nonlinear_arith);
    if r > m {
        assert(r * d >= (m + 1) * d) by (nonlinear_arith)
            requires
                r >= m + 1,
                d > 0,
        ;
        assert((m + 1) * d >= m + d) by (nonlinear_arith)
            requires
                d >= 1,
                m >= 0,
        ;
    }
}

/// Rounding a double: the result is the nearest integer, of two equally near ones the larger. What is
/// too large gives the largest integer, and so does infinity; what is negative or no number gives 0.
/// The number is its significand, with the leading bit that is not written, times a power of two.
pub proof fn law_double_is_rounded(bits: u64)
    ensures
        ({
            let exponent = (bits / 0x10_0000_0000_0000) % 0x800;
            let significand = 0x10_0000_0000_0000 + bits % 0x10_0000_0000_0000;
            let r = double_rounded(bits);
            if bits >= 0x8000_0000_0000_0000 || bits > 0x7FF0_0000_0000_0000 || exponent == 0 {
                r == 0
            } else if exponent >= 1075 {
                let exact = significand * power2::pow2((exponent - 1075) as nat);
                r == (if exponent == 0x7FF || exact > u64::MAX {
                    u64::MAX as int
                } else {
                    exact
                })
            } else {
                let d = power2::pow2((1075 - exponent) as nat);
                (2 * r - 1) * d <= 2 * significand < (2 * r + 1) * d
            }
        }),
{
    let exponent = (bits / 0x10_0000_0000_0000) % 0x800;
    let fraction = bits % 0x10_0000_0000_0000;
    assert(bits < 0x8000_0000_0000_0000 ==> bits == exponent * 0x10_0000_0000_0000 + fraction);
    if exponent == 0 {
        lemma_nearest(fraction as nat, 1074);
        lemma_small_is_zero(fraction as nat, 1074);
    } else if exponent < 1075 {
        lemma_nearest((0x10_0000_0000_0000 + fraction) as nat, (1075 - exponent) as nat);
    }
}

/// A number far below a half is nearest to 0.
proof fn lemma_small_is_zero(m: nat, k: nat)
    requires
        m < 0x10_0000_0000_0000,
        k > 60,
    ensures
        nearest(m, -(k as int)) == 0,
{
    let r = nearest(m, -(k as int));
    let d = power2::pow2(k);
    lemma_nearest(m, k);
    power2::lemma2_to64_rest();
    lemma_pow2_monotone(60, k);
    assert(power2::pow2(60) > 2 * m);
    if r > 0 {
        assert((2 * r - 1) * d >= d) by (nonlinear_arith)
            requires
                r >= 1,
                d >= 0,
        ;
    }
}

/// Rounding a float: as for a double.
pub proof fn law_float_is_rounded(bits: u32)
    ensures
        ({
            let exponent = (bits / 0x80_0000) % 0x100;
            let significand = 0x80_0000 + bits % 0x80_0000;
            let r = float_rounded(bits);
            if bits >= 0x8000_0000 || bits > 0x7F80_0000 || exponent == 0 {
                r == 0
            } else if exponent >= 150 {
                let exact = significand * power2::pow2((exponent - 150) as nat);
                r == (if exponent == 0xFF || exact > u64::MAX {
                    u64::MAX as int
                } else {
                    exact
                })
            } else {
                let d = power2::pow2((150 - exponent) as nat);
                (2 * r - 1) * d <= 2 * significand < (2 * r + 1) * d
            }
        }),
{
    let exponent = (bits / 0x80_0000) % 0x100;
    let fraction = bits % 0x80_0000;
    assert(bits < 0x8000_0000 ==> bits == exponent * 0x80_0000 + fraction);
    if exponent == 0 {
        lemma_nearest(fraction as nat, 149);
        lemma_small_is_zero(fraction as nat, 149);
    } else if exponent < 150 {
        lemma_nearest((0x80_0000 + fraction) as nat, (150 - exponent) as nat);
    }
}

/// The double of an integer of at most 53 bits is exactly that integer: its significand times a power
/// of two, with a plus sign.
pub proof fn law_double_is_exact(v: u64)
    requires
        v <= 0x20_0000_0000_0000,
    ensures
        v == 0 ==> double_of(v) == 0,
        v > 0 ==> {
            let exponent = double_of(v) / 0x10_0000_0000_0000;
            let significand = 0x10_0000_0000_0000 + double_of(v) % 0x10_0000_0000_0000;
            &&& 1023 <= exponent <= 1076
            &&& exponent <= 1075 ==> significand == v * power2::pow2((1075 - exponent) as nat)
            &&& exponent == 1076 ==> v == 2 * significand
        },
{
    power2::lemma2_to64();
    power2::lemma2_to64_rest();
    if v == 0x20_0000_0000_0000 {
        lemma_top_bit_unique(v as nat, 53);
        assert(halved(v as nat, 1) == 0x10_0000_0000_0000);
        assert(double_of(v) == 1076 * 0x10_0000_0000_0000);
    } else if v > 0 {
        let top = top_bit(v as nat);
        lemma_top_bit(v as nat);
        if top > 52 {
            lemma_pow2_monotone(53, top);
        }
        lemma_significand(v);
        let m = v * power2::pow2((52 - top) as nat);
        assert(double_of(v) == (top + 1022) * 0x10_0000_0000_0000 + m);
        assert(double_of(v) / 0x10_0000_0000_0000 == top + 1023);
        assert(double_of(v) % 0x10_0000_0000_0000 == m - 0x10_0000_0000_0000);
    }
}

/// The double of an integer of more than 53 bits is a multiple of the last place that 53 bits leave,
/// and no further from the integer than half of that; of two equally near ones it is the even one.
pub proof fn law_double_is_nearest(v: u64, top: nat)
    requires
        53 <= top < 64,
        power2::pow2(top) <= v < power2::pow2(top + 1),
    ensures
        ({
            let exponent = double_of(v) / 0x10_0000_0000_0000;
            let significand = 0x10_0000_0000_0000 + double_of(v) % 0x10_0000_0000_0000;
            let value = significand * power2::pow2((exponent - 1075) as nat);
            let place = power2::pow2((top - 52) as nat) as int;
            let count = value / place;
            &&& 1076 <= exponent <= 1087
            &&& value == count * place
            &&& -place <= 2 * (value - v) <= place
            &&& 2 * (value - v) == place || 2 * (value - v) == -place ==> count % 2 == 0
        }),
{
    power2::lemma2_to64();
    power2::lemma2_to64_rest();
    lemma_top_bit_unique(v as nat, top);
    let s = (top - 52) as nat;
    let place = power2::pow2(s) as int;
    power2::lemma_pow2_pos(s);
    power2::lemma_pow2_unfold(s);
    power2::lemma_pow2_adds(52, s);
    power2::lemma_pow2_adds(53, s);
    let down = v as int / place;
    let left = v as int % place;
    vstd::arithmetic::div_mod::lemma_fundamental_div_mod(v as int, place);
    assert(place * down == down * place) by (nonlinear_arith);
    assert(0x10_0000_0000_0000 <= down < 0x20_0000_0000_0000) by (nonlinear_arith)
        requires
            down * place + left == v,
            0 <= left < place,
            0x10_0000_0000_0000 * place <= v < 0x20_0000_0000_0000 * place,
    ;
    let q = halved(v as nat, s) as int;
    assert(q == down || q == down + 1);
    assert((down + 1) * place == down * place + place) by (nonlinear_arith);
    assert(double_of(v) == (top + 1022) * 0x10_0000_0000_0000 + q);
    let exponent = double_of(v) / 0x10_0000_0000_0000;
    let significand = 0x10_0000_0000_0000 + double_of(v) % 0x10_0000_0000_0000;
    let value = significand * power2::pow2((exponent - 1075) as nat);
    if q < 0x20_0000_0000_0000 {
        assert(exponent == top + 1023);
        assert(significand == q);
        assert(value == q * place);
    } else {
        assert(exponent == top + 1024);
        assert(significand == 0x10_0000_0000_0000);
        power2::lemma_pow2_unfold((s + 1) as nat);
        assert(power2::pow2((exponent - 1075) as nat) == 2 * place);
        assert(value == q * place) by (nonlinear_arith)
            requires
                value == 0x10_0000_0000_0000 * (2 * place),
                q == 0x20_0000_0000_0000,
        ;
    }
    vstd::arithmetic::div_mod::lemma_div_multiples_vanish(q, place);
    assert(place * q == q * place) by (nonlinear_arith);
    assert(value / place == q);
}

/// Silence is the number zero.
pub proof fn law_silence_is_zero()
    ensures
        sample_bits(0) == 0,
{
}

} // verus!
