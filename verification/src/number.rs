//! IEEE 754 double-precision numbers, given by their bits.
//!
//! A number is `sign * significand * 2^(exponent - 1075)`. The library only needs to know which
//! small whole number a double is, if it is one, and what is left of it when it is cut down to
//! sixteen bits.

use vstd::arithmetic::power2::pow2;
use vstd::prelude::*;

verus! {

/// Whether the sign bit is set.
pub open spec fn is_negative(bits: u64) -> bool {
    bits >= 0x8000_0000_0000_0000
}

/// The exponent field.
pub open spec fn exponent(bits: u64) -> int {
    (bits as int / 0x10_0000_0000_0000) % 2048
}

/// The fraction field.
pub open spec fn fraction(bits: u64) -> int {
    bits as int % 0x10_0000_0000_0000
}

/// The significand of a normal number, as a whole number.
pub open spec fn significand(bits: u64) -> int {
    0x10_0000_0000_0000 + fraction(bits)
}

/// Whether the bits are those of a number, and not of an infinity or of "not a number".
pub open spec fn is_finite(bits: u64) -> bool {
    exponent(bits) < 2047
}

/// `n` with the sign of the double.
pub open spec fn signed(bits: u64, n: int) -> int {
    if is_negative(bits) {
        -n
    } else {
        n
    }
}

/// The whole number that a double is, if it is one and nearer to zero than `2^53`.
pub open spec fn small_whole(bits: u64) -> Option<int> {
    let power = pow2((1075 - exponent(bits)) as nat) as int;
    if exponent(bits) == 0 && fraction(bits) == 0 {
        Some(0)
    } else if 1023 <= exponent(bits) <= 1075 && significand(bits) % power == 0 {
        Some(signed(bits, significand(bits) / power))
    } else {
        None
    }
}

/// The double without its fractional part, cut down to the nearest unsigned number of sixteen
/// bits; "not a number" counts as zero.
pub open spec fn clamped(bits: u64) -> u16 {
    if is_negative(bits) || exponent(bits) < 1023 || (exponent(bits) == 2047 && fraction(bits)
        != 0) {
        0
    } else if exponent(bits) >= 1039 {
        0xffff
    } else {
        (significand(bits) / (pow2((1075 - exponent(bits)) as nat) as int)) as u16
    }
}

/// Two to the power of `n`.
fn power_of_two(n: u64) -> (power: u64)
    requires
        n <= 63,
    ensures
        power == pow2(n as nat),
        power > 0,
{
    let mut power: u64 = 1;
    let mut i: u64 = 0;
    proof {
        vstd::arithmetic::power2::lemma2_to64();
    }
    while i < n
        invariant
            i <= n <= 63,
            power == pow2(i as nat),
            power > 0,
        decreases n - i,
    {
        proof {
            vstd::arithmetic::power2::lemma2_to64();
            vstd::arithmetic::power2::lemma2_to64_rest();
            vstd::arithmetic::power2::lemma_pow2_unfold((i + 1) as nat);
            if i < 62 {
                vstd::arithmetic::power2::lemma_pow2_strictly_increases(i as nat, 62);
            }
        }
        power = power * 2;
        i += 1;
    }
    power
}

/// The exponent and the fraction field.
fn fields(bits: u64) -> (fields: (u64, u64))
    ensures
        fields.0 == exponent(bits),
        fields.1 == fraction(bits),
        fields.0 < 2048,
        fields.1 < 0x10_0000_0000_0000,
{
    ((bits / 0x10_0000_0000_0000) % 2048, bits % 0x10_0000_0000_0000)
}

/// The whole number that a double is, if it is one and nearer to zero than `2^53`.
pub fn whole(bits: u64) -> (n: Option<i64>)
    ensures
        match n {
            Some(n) => small_whole(bits) == Some(n as int) && -0x20_0000_0000_0000 < n
                < 0x20_0000_0000_0000,
            None => small_whole(bits) is None,
        },
{
    let (exponent, fraction) = fields(bits);
    if exponent == 0 && fraction == 0 {
        return Some(0);
    }
    if exponent < 1023 || exponent > 1075 {
        return None;
    }
    let power = power_of_two(1075 - exponent);
    let significand: u64 = 0x10_0000_0000_0000 + fraction;
    if significand % power != 0 {
        return None;
    }
    let size = significand / power;
    assert(size <= significand) by (nonlinear_arith)
        requires
            size == significand / power,
            power > 0,
    ;
    if bits >= 0x8000_0000_0000_0000 {
        Some(-(size as i64))
    } else {
        Some(size as i64)
    }
}

/// The double without its fractional part, cut down to the nearest unsigned number of sixteen
/// bits; "not a number" counts as zero.
pub fn clamp(bits: u64) -> (n: u16)
    ensures
        n == clamped(bits),
{
    let (exponent, fraction) = fields(bits);
    if bits >= 0x8000_0000_0000_0000 || exponent < 1023 || (exponent == 2047 && fraction != 0) {
        return 0;
    }
    if exponent >= 1039 {
        return 0xffff;
    }
    let power = power_of_two(1075 - exponent);
    let significand: u64 = 0x10_0000_0000_0000 + fraction;
    proof {
        vstd::arithmetic::power2::lemma2_to64();
        vstd::arithmetic::power2::lemma2_to64_rest();
        if exponent < 1038 {
            vstd::arithmetic::power2::lemma_pow2_strictly_increases(37, (1075 - exponent) as nat);
        }
        assert(power >= 0x20_0000_0000);
        assert(significand / power < 0x1_0000) by (nonlinear_arith)
            requires
                significand < 0x20_0000_0000_0000,
                power >= 0x20_0000_0000,
        ;
    }
    (significand / power) as u16
}

/// A double that is a whole number of sixteen bits is cut down to that number.
pub proof fn law_whole_and_clamp_agree(bits: u64, n: int)
    requires
        small_whole(bits) == Some(n),
        0 <= n <= 0xffff,
    ensures
        clamped(bits) == n,
{
    let power = pow2((1075 - exponent(bits)) as nat) as int;
    vstd::arithmetic::power2::lemma_pow2_pos((1075 - exponent(bits)) as nat);
    if exponent(bits) != 0 {
        let size = significand(bits) / power;
        vstd::arithmetic::power2::lemma2_to64();
        vstd::arithmetic::power2::lemma2_to64_rest();
        vstd::arithmetic::div_mod::lemma_fundamental_div_mod(significand(bits), power);
        if exponent(bits) > 1038 {
            if exponent(bits) > 1039 {
                vstd::arithmetic::power2::lemma_pow2_strictly_increases(
                    (1075 - exponent(bits)) as nat,
                    36,
                );
            }
            assert(size > 0xffff) by (nonlinear_arith)
                requires
                    power * size == 0x10_0000_0000_0000 + fraction(bits),
                    0 <= fraction(bits),
                    0 < power <= 0x10_0000_0000,
            ;
        }
        assert(size > 0) by (nonlinear_arith)
            requires
                power * size == 0x10_0000_0000_0000 + fraction(bits),
                0 <= fraction(bits),
                0 < power,
        ;
    }
}

/// A double is the whole number `n`, other than zero and nearer to zero than `2^53`, if and only if
/// its significand is as many times the unit of its exponent as `n` says, and its sign that of `n`.
/// The doubles without any exponent or fraction are zero.
pub proof fn law_whole_number(bits: u64, n: int)
    ensures
        n != 0 ==> (small_whole(bits) == Some(n) <==> {
            let exponent = (bits as int / 0x10_0000_0000_0000) % 2048;
            &&& 1023 <= exponent <= 1075
            &&& bits < 0x8000_0000_0000_0000 <==> n > 0
            &&& 0x10_0000_0000_0000 + bits as int % 0x10_0000_0000_0000 == (if n > 0 {
                n
            } else {
                -n
            }) * pow2((1075 - exponent) as nat)
        }),
        small_whole(bits) == Some(0int) <==> bits == 0 || bits == 0x8000_0000_0000_0000,
{
    let e = exponent(bits);
    if 1023 <= e <= 1075 {
        let power = pow2((1075 - e) as nat) as int;
        let size = if n > 0 {
            n
        } else {
            -n
        };
        let whole = significand(bits);
        vstd::arithmetic::power2::lemma_pow2_pos((1075 - e) as nat);
        vstd::arithmetic::div_mod::lemma_fundamental_div_mod(whole, power);
        if whole == size * power {
            vstd::arithmetic::div_mod::lemma_mod_multiples_basic(size, power);
            vstd::arithmetic::div_mod::lemma_div_multiples_vanish(size, power);
            assert(whole == power * size) by (nonlinear_arith)
                requires
                    whole == size * power,
            ;
        }
        if whole % power == 0 {
            assert(whole == (whole / power) * power) by (nonlinear_arith)
                requires
                    whole == power * (whole / power) + whole % power,
                    whole % power == 0,
            ;
            assert(whole / power > 0) by (nonlinear_arith)
                requires
                    whole == (whole / power) * power,
                    whole > 0,
                    power > 0,
            ;
        }
    }
}

/// A double is cut down to the whole number below it, where that has sixteen bits; to the largest
/// number of sixteen bits where it is larger; and to zero where it is below zero or not a number.
pub proof fn law_clamp_cuts_fraction(bits: u64)
    ensures
        ({
            let exponent = (bits as int / 0x10_0000_0000_0000) % 2048;
            let fraction = bits as int % 0x10_0000_0000_0000;
            &&& bits >= 0x8000_0000_0000_0000 ==> clamped(bits) == 0
            &&& exponent < 1023 ==> clamped(bits) == 0
            &&& exponent == 2047 && fraction != 0 ==> clamped(bits) == 0
            &&& bits < 0x8000_0000_0000_0000 && exponent == 2047 && fraction == 0 ==> clamped(bits)
                == 0xffff
            &&& bits < 0x8000_0000_0000_0000 && 1039 <= exponent < 2047 ==> clamped(bits) == 0xffff
            &&& bits < 0x8000_0000_0000_0000 && 1023 <= exponent < 1039 ==> clamped(bits) * pow2(
                (1075 - exponent) as nat,
            ) <= 0x10_0000_0000_0000 + fraction < (clamped(bits) + 1) * pow2(
                (1075 - exponent) as nat,
            )
        }),
{
    let e = exponent(bits);
    if bits < 0x8000_0000_0000_0000 && 1023 <= e < 1039 {
        let power = pow2((1075 - e) as nat) as int;
        let whole = significand(bits);
        let cut = whole / power;
        vstd::arithmetic::power2::lemma2_to64();
        vstd::arithmetic::power2::lemma2_to64_rest();
        if e < 1038 {
            vstd::arithmetic::power2::lemma_pow2_strictly_increases(37, (1075 - e) as nat);
        }
        assert(power >= 0x20_0000_0000);
        vstd::arithmetic::div_mod::lemma_fundamental_div_mod(whole, power);
        vstd::arithmetic::div_mod::lemma_mod_bound(whole, power);
        assert(0 <= cut < 0x1_0000) by (nonlinear_arith)
            requires
                cut == whole / power,
                0 < whole < 0x20_0000_0000_0000,
                power >= 0x20_0000_0000,
        ;
        assert(cut * power <= whole < (cut + 1) * power) by (nonlinear_arith)
            requires
                whole == power * cut + whole % power,
                0 <= whole % power < power,
        ;
    }
}

/// A double is finite unless all bits of its exponent are set.
pub proof fn law_finite(bits: u64)
    ensures
        is_finite(bits) <==> (bits as int / 0x10_0000_0000_0000) % 2048 != 2047,
{
}

} // verus!
