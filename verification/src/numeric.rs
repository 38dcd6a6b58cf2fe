//! Bit-level arithmetic on IEEE-754 binary64 values.
//!
//! The library carries every number as the 64-bit pattern of its IEEE-754
//! value, so the operations the evaluator needs on numbers themselves —
//! reading the sign, negating, deciding whether a value is a non-negative
//! whole number and extracting it, and encoding an unsigned integer back
//! into a value — are ordinary integer arithmetic on the bit pattern and
//! are implemented and proved here. A binary64 pattern is, from the top:
//! one sign bit, an 11-bit biased exponent, and a 52-bit fraction; a
//! biased exponent `e` between 1 and 2046 denotes the value
//! `(2^52 + fraction) * 2^(e - 1075)`.

use vstd::prelude::*;

verus! {

use vstd::arithmetic::power2::pow2;
use vstd::arithmetic::power2::lemma_pow2_adds;
use vstd::arithmetic::power2::lemma_pow2_pos;
use vstd::arithmetic::power2::lemma_pow2_strictly_increases;
use vstd::arithmetic::power2::lemma_pow2_unfold;
use vstd::arithmetic::power2::lemma2_to64;
use vstd::arithmetic::power2::lemma2_to64_rest;

/// The bit pattern of the IEEE-754 binary64 value nearest to the
/// mathematical constant pi; the constant that the identifier `pi`
/// resolves to.
pub const PI_BITS: u64 = 0x4009_21FB_5444_2D18;

/// The biased exponent field of a binary64 bit pattern: bits 52 to 62.
pub open spec fn exp_field(bits: u64) -> u64 {
    (bits / 0x10_0000_0000_0000) % 0x800
}

/// The fraction field of a binary64 bit pattern: the low 52 bits.
pub open spec fn frac_field(bits: u64) -> u64 {
    bits % 0x10_0000_0000_0000
}

/// Whether the sign bit of a binary64 bit pattern is set, i.e. whether
/// the value is negative, counting negative zero as negative.
pub open spec fn sign_bit(bits: u64) -> bool {
    bits / 0x8000_0000_0000_0000 == 1
}

/// The bit pattern of the negated value: the sign bit flipped, every
/// other bit kept. This is exactly IEEE-754 negation.
pub open spec fn negated(bits: u64) -> u64 {
    if bits >= 0x8000_0000_0000_0000 {
        (bits - 0x8000_0000_0000_0000) as u64
    } else {
        (bits + 0x8000_0000_0000_0000) as u64
    }
}

/// Whether the bit pattern denotes a non-negative value that is a whole
/// number. Zero qualifies; negative zero, subnormals, values below one,
/// values with a fractional part, infinities and NaNs do not. A value
/// with biased exponent `e` of at least 1023 is whole exactly when its
/// fraction's low `1075 - e` bits vanish (none are left once `e` reaches
/// 1075).
pub open spec fn is_nonneg_integer(bits: u64) -> bool {
    !sign_bit(bits) && {
        let e = exp_field(bits) as int;
        let m = frac_field(bits) as nat;
        if e == 0 {
            m == 0
        } else if e == 0x7FF {
            false
        } else if e < 1023 {
            false
        } else if e < 1075 {
            m % pow2((1075 - e) as nat) == 0
        } else {
            true
        }
    }
}

/// The whole number a non-negative integral bit pattern denotes,
/// saturated to `u64::MAX` when it does not fit in 64 bits — the
/// behaviour of a float-to-unsigned cast. Meaningful under
/// [`is_nonneg_integer`]; elsewhere it is the truncation toward zero.
pub open spec fn int_value_sat(bits: u64) -> u64 {
    let e = exp_field(bits) as int;
    let m = frac_field(bits) as nat;
    if e < 1023 {
        0
    } else if e < 1075 {
        (((0x10_0000_0000_0000 + m) / pow2((1075 - e) as nat) as nat) as u64)
    } else if e < 1087 {
        (((0x10_0000_0000_0000 + m) * pow2((e - 1075) as nat)) as u64)
    } else {
        0xFFFF_FFFF_FFFF_FFFF
    }
}

/// The position of the highest set bit of `n`, i.e. the floor of its
/// base-2 logarithm; 0 for inputs 0 and 1.
pub open spec fn msb(n: u64) -> nat
    decreases n,
{
    if n <= 1 {
        0
    } else {
        1 + msb(n / 2)
    }
}

/// The highest set bit brackets `n` between two powers of two.
pub proof fn lemma_msb_bounds(n: u64)
    requires
        n >= 1,
    ensures
        pow2(msb(n)) <= n < pow2(msb(n) + 1),
        msb(n) <= 63,
    decreases n,
{
    lemma2_to64();
    if n <= 1 {
    } else {
        lemma_msb_bounds(n / 2);
        lemma_pow2_unfold(msb(n));
        lemma_pow2_unfold(msb(n) + 1);
        if msb(n) > 63 {
            lemma_pow2_strictly_increases(64, msb(n));
        }
    }
}

/// The bit pattern of the binary64 value nearest to the whole number `n`,
/// breaking a tie toward the even mantissa — the IEEE-754
/// round-to-nearest, ties-to-even conversion of an unsigned integer.
///
/// Up to `2^53` every whole number is represented exactly. Above that,
/// the leading 53 bits of `n` are kept, the `s` low bits are rounded
/// away, and a carry out of the mantissa moves to the exponent.
pub open spec fn bits_of_uint(n: u64) -> u64 {
    if n == 0 {
        0
    } else {
        let e = msb(n) as int;
        if e <= 52 {
            (((e + 1023) * 0x10_0000_0000_0000 + (n * pow2((52 - e) as nat) - 0x10_0000_0000_0000)) as u64)
        } else {
            let s = (e - 52) as nat;
            let q = n as nat / pow2(s);
            let r = n as nat % pow2(s);
            let half = pow2((s - 1) as nat);
            let q2: nat = if r > half || (r == half && q % 2 == 1) {
                q + 1
            } else {
                q
            };
            if q2 == pow2(53) {
                (((e + 1024) * 0x10_0000_0000_0000) as u64)
            } else {
                (((e + 1023) * 0x10_0000_0000_0000 + (q2 - 0x10_0000_0000_0000)) as u64)
            }
        }
    }
}

/// Negation is an involution that flips exactly the sign: negating
/// twice restores every bit pattern, and one negation always turns the
/// sign around.
pub proof fn lemma_negated_involution(bits: u64)
    ensures
        negated(negated(bits)) == bits,
        sign_bit(negated(bits)) == !sign_bit(bits),
{
}

/// Encoding and decoding are mutually inverse on the whole numbers
/// below 2^53, where the binary64 format is exact: the encoding of
/// such a number is recognized as a non-negative whole value and
/// decodes to the same number.
pub proof fn lemma_uint_round_trip(n: u64)
    requires
        n < 0x20_0000_0000_0000,
    ensures
        is_nonneg_integer(bits_of_uint(n)),
        int_value_sat(bits_of_uint(n)) == n,
{
    lemma2_to64();
    lemma2_to64_rest();
    if n == 0 {
        return;
    }
    lemma_msb_bounds(n);
    let e = msb(n) as int;
    if e > 53 {
        lemma_pow2_strictly_increases(53, e as nat);
    }
    if e == 53 {
        assert(pow2(53) <= n);
    }
    assert(e <= 52);
    let p = pow2((52 - e) as nat);
    assert(pow2(e as nat) * p == 0x10_0000_0000_0000) by {
        lemma_pow2_adds(e as nat, (52 - e) as nat);
    }
    assert(pow2((e + 1) as nat) * p == 0x20_0000_0000_0000) by {
        lemma_pow2_unfold((e + 1) as nat);
        assert((2 * pow2(e as nat)) * p == 2 * (pow2(e as nat) * p)) by (nonlinear_arith);
    }
    lemma_pow2_pos((52 - e) as nat);
    let scaled = n * p;
    assert(0x10_0000_0000_0000 <= scaled < 0x20_0000_0000_0000) by (nonlinear_arith)
        requires
            scaled == n * p,
            pow2(e as nat) <= n < pow2((e + 1) as nat),
            p > 0,
            pow2(e as nat) * p == 0x10_0000_0000_0000,
            pow2((e + 1) as nat) * p == 0x20_0000_0000_0000,
    ;
    let m = scaled - 0x10_0000_0000_0000;
    let bits = bits_of_uint(n);
    assert(bits == (e + 1023) * 0x10_0000_0000_0000 + m);
    assert(bits / 0x10_0000_0000_0000 == e + 1023) by (nonlinear_arith)
        requires
            bits == (e + 1023) * 0x10_0000_0000_0000 + m,
            0 <= m < 0x10_0000_0000_0000,
            0 <= e <= 52,
    ;
    assert(exp_field(bits) == e + 1023);
    assert(frac_field(bits) == m) by (nonlinear_arith)
        requires
            bits == (e + 1023) * 0x10_0000_0000_0000 + m,
            0 <= m < 0x10_0000_0000_0000,
            0 <= e <= 52,
    ;
    assert(!sign_bit(bits)) by (nonlinear_arith)
        requires
            bits == (e + 1023) * 0x10_0000_0000_0000 + m,
            0 <= m < 0x10_0000_0000_0000,
            0 <= e <= 52,
    ;
    if e < 52 {
        // The fraction's low 52 - e bits vanish, and shifting them out
        // recovers n.
        assert(m == (n - pow2(e as nat)) * p) by (nonlinear_arith)
            requires
                m == n * p - pow2(e as nat) * p,
        ;
        assert(m % (p as int) == 0) by (nonlinear_arith)
            requires
                m == (n - pow2(e as nat)) * p,
                p > 0,
                n >= pow2(e as nat),
        ;
        assert((0x10_0000_0000_0000 + m) / (p as int) == n) by (nonlinear_arith)
            requires
                0x10_0000_0000_0000 + m == n * p,
                p > 0,
        ;
        assert(1075 - exp_field(bits) == 52 - e);
        assert(is_nonneg_integer(bits));
        assert(int_value_sat(bits) == n);
    } else {
        // With the point at the fraction's end the value is immediate.
        assert(p == 1);
        assert(m == n - 0x10_0000_0000_0000) by (nonlinear_arith)
            requires
                m == n * p - 0x10_0000_0000_0000,
                p == 1,
        ;
        assert(exp_field(bits) == 1075);
        assert(pow2((exp_field(bits) - 1075) as nat) == 1);
        assert(is_nonneg_integer(bits));
        assert(int_value_sat(bits) == (0x10_0000_0000_0000 + m) * 1);
        assert(int_value_sat(bits) == n);
    }
}

/// Read the sign bit: whether the value is negative, counting negative
/// zero as negative.
pub fn is_negative(bits: u64) -> (r: bool)
    ensures
        r == sign_bit(bits),
{
    bits / 0x8000_0000_0000_0000 == 1
}

/// Negate a value by flipping its sign bit.
pub fn negate(bits: u64) -> (r: u64)
    ensures
        r == negated(bits),
{
    if bits >= 0x8000_0000_0000_0000 {
        bits - 0x8000_0000_0000_0000
    } else {
        bits + 0x8000_0000_0000_0000
    }
}

/// Compute `2^e` for `e` up to 63.
fn pow2_u64(e: u64) -> (r: u64)
    requires
        e <= 63,
    ensures
        r == pow2(e as nat),
{
    let mut r: u64 = 1;
    let mut i: u64 = 0;
    proof {
        lemma2_to64();
        lemma2_to64_rest();
    }
    while i < e
        invariant
            i <= e <= 63,
            r == pow2(i as nat),
        decreases e - i,
    {
        proof {
            lemma_pow2_unfold((i + 1) as nat);
            if (i + 1) as nat <= 63 {
                lemma_pow2_strictly_increases((i + 1) as nat, 64);
            }
            lemma2_to64();
            lemma2_to64_rest();
        }
        r = r * 2;
        i = i + 1;
    }
    r
}

/// Decide whether the bit pattern denotes a non-negative whole number,
/// and extract that number if so, saturated to `u64::MAX` when the value
/// does not fit in 64 bits.
pub fn integer_value(bits: u64) -> (r: Option<u64>)
    ensures
        match r {
            Some(v) => is_nonneg_integer(bits) && v == int_value_sat(bits),
            None => !is_nonneg_integer(bits),
        },
{
    if bits / 0x8000_0000_0000_0000 == 1 {
        return None;
    }
    let e: u64 = (bits / 0x10_0000_0000_0000) % 0x800;
    let m: u64 = bits % 0x10_0000_0000_0000;
    if e == 0 {
        if m == 0 {
            Some(0)
        } else {
            None
        }
    } else if e == 0x7FF {
        None
    } else if e < 1023 {
        None
    } else if e < 1075 {
        let p = pow2_u64(1075 - e);
        proof {
            lemma_pow2_pos((1075 - e) as nat);
        }
        if m % p == 0 {
            Some((0x10_0000_0000_0000 + m) / p)
        } else {
            None
        }
    } else if e < 1087 {
        let p = pow2_u64(e - 1075);
        proof {
            lemma_value_fits(e as int, m as nat);
        }
        Some((0x10_0000_0000_0000 + m) * p)
    } else {
        Some(0xFFFF_FFFF_FFFF_FFFF)
    }
}

/// The denoted value fits in 64 bits while the biased exponent stays
/// below 1087.
proof fn lemma_value_fits(e: int, m: nat)
    requires
        1075 <= e < 1087,
        m < 0x10_0000_0000_0000,
    ensures
        (0x10_0000_0000_0000 + m) * pow2((e - 1075) as nat) < 0x1_0000_0000_0000_0000,
{
    lemma2_to64();
    lemma2_to64_rest();
    if e < 1086 {
        lemma_pow2_strictly_increases((e - 1075) as nat, 11);
    }
    assert((0x10_0000_0000_0000 + m) * pow2((e - 1075) as nat) <= 0x1F_FFFF_FFFF_FFFF * 0x800)
        by (nonlinear_arith)
        requires
            m < 0x10_0000_0000_0000,
            pow2((e - 1075) as nat) <= 0x800,
    ;
}

/// Encode the whole number `n` as the nearest binary64 value, rounding
/// to nearest and breaking ties toward the even mantissa.
pub fn uint_to_bits(n: u64) -> (r: u64)
    ensures
        r == bits_of_uint(n),
{
    if n == 0 {
        return 0;
    }
    proof {
        lemma_msb_bounds(n);
    }
    let mut e: u64 = 0;
    let mut t: u64 = n;
    while t > 1
        invariant
            t >= 1,
            msb(n) == e + msb(t),
            msb(n) <= 63,
        decreases t,
    {
        proof {
            assert(msb(t) == 1 + msb(t / 2));
        }
        t = t / 2;
        e = e + 1;
    }
    if e <= 52 {
        let p = pow2_u64(52 - e);
        proof {
            lemma_pow2_pos((52 - e) as nat);
            lemma_pow2_adds(e as nat, (52 - e) as nat);
            assert(n * pow2((52 - e) as nat) < pow2(e as nat + 1) * pow2((52 - e) as nat))
                by (nonlinear_arith)
                requires
                    n < pow2(e as nat + 1),
                    pow2((52 - e) as nat) > 0,
            ;
            lemma_pow2_adds(e as nat + 1, (52 - e) as nat);
            assert(pow2(e as nat) * pow2((52 - e) as nat) <= n * pow2((52 - e) as nat))
                by (nonlinear_arith)
                requires
                    pow2(e as nat) <= n,
                    pow2((52 - e) as nat) > 0,
            ;
            lemma2_to64();
            lemma2_to64_rest();
            lemma_pow2_pos((52 - e) as nat);
        }
        (e + 1023) * 0x10_0000_0000_0000 + (n * p - 0x10_0000_0000_0000)
    } else {
        let s = e - 52;
        let ps = pow2_u64(s);
        proof {
            lemma_pow2_pos(s as nat);
            lemma_pow2_unfold(s as nat);
            lemma_pow2_adds(s as nat, 52);
            lemma_pow2_adds(s as nat, 53);
            lemma2_to64();
            lemma2_to64_rest();
            assert(n as nat / pow2(s as nat) < pow2(53)) by (nonlinear_arith)
                requires
                    (n as nat) < pow2(s as nat) * pow2(53),
                    pow2(s as nat) > 0,
            ;
            assert(pow2(52) <= n as nat / pow2(s as nat)) by (nonlinear_arith)
                requires
                    pow2(s as nat) * pow2(52) <= (n as nat),
                    pow2(s as nat) > 0,
            ;
        }
        let q = n / ps;
        let r = n % ps;
        let half = ps / 2;
        let q2: u64 = if r > half || (r == half && q % 2 == 1) {
            q + 1
        } else {
            q
        };
        if q2 == 0x20_0000_0000_0000 {
            (e + 1024) * 0x10_0000_0000_0000
        } else {
            (e + 1023) * 0x10_0000_0000_0000 + (q2 - 0x10_0000_0000_0000)
        }
    }
}

} // verus!
