//! Scalars of the computation graph, kept as IEEE-754 double-precision bit
//! patterns in `u64`, so that the graph logic itself stays free of machine
//! floating point. Arithmetic on the bit patterns is delegated to outside
//! crates behind trusted wrappers; classification, comparison with zero,
//! decoding into significand and exponent, and the derived functions
//! (hyperbolic tangent, powers) are verified bit-level logic.

use rustc_apfloat::Float;
use vstd::prelude::*;

verus! {

/// Bit pattern of +0.0.
pub const ZERO_BITS: u64 = 0x0000_0000_0000_0000;
/// Bit pattern of -0.0.
pub const NEG_ZERO_BITS: u64 = 0x8000_0000_0000_0000;
/// Bit pattern of 1.0.
pub const ONE_BITS: u64 = 0x3FF0_0000_0000_0000;
/// Bit pattern of 2.0.
pub const TWO_BITS: u64 = 0x4000_0000_0000_0000;
/// Bit pattern of -1.0.
pub const NEG_ONE_BITS: u64 = 0xBFF0_0000_0000_0000;
/// Bit pattern of +infinity.
pub const POS_INF_BITS: u64 = 0x7FF0_0000_0000_0000;
/// Bit pattern of -infinity.
pub const NEG_INF_BITS: u64 = 0xFFF0_0000_0000_0000;
/// Bit pattern of the canonical quiet not-a-number.
pub const QNAN_BITS: u64 = 0x7FF8_0000_0000_0000;

/// Mask of the sign bit.
pub const SIGN_MASK: u64 = 0x8000_0000_0000_0000;
/// Mask of everything but the sign bit.
pub const ABS_MASK: u64 = 0x7FFF_FFFF_FFFF_FFFF;
/// Mask of the biased-exponent field.
pub const EXP_MASK: u64 = 0x7FF0_0000_0000_0000;
/// Mask of the fraction field.
pub const FRAC_MASK: u64 = 0x000F_FFFF_FFFF_FFFF;
/// The implicit leading significand bit of a normal number.
pub const HIDDEN_BIT: u64 = 0x0010_0000_0000_0000;

/// The biased-exponent field, 0 ..= 0x7FF.
pub open spec fn exp_field(x: u64) -> u64 {
    (x & EXP_MASK) >> 52u64
}

/// The fraction field, the low 52 bits.
pub open spec fn frac_field(x: u64) -> u64 {
    x & FRAC_MASK
}

/// The sign bit as a boolean.
pub open spec fn sign_bit(x: u64) -> bool {
    (x >> 63u64) == 1u64
}

/// Not-a-number: exponent field all ones and a nonzero fraction.
pub open spec fn is_nan_bits(x: u64) -> bool {
    exp_field(x) == 0x7FFu64 && frac_field(x) != 0u64
}

/// Either zero.
pub open spec fn is_zero_bits(x: u64) -> bool {
    (x & ABS_MASK) == 0u64
}

/// A finite value: neither infinity nor not-a-number.
pub open spec fn is_finite_bits(x: u64) -> bool {
    exp_field(x) != 0x7FFu64
}

/// The magnitude of the significand: fraction plus the implicit bit of a
/// normal number. The represented magnitude is `sig_mag × 2^pow2_exp`.
pub open spec fn sig_mag(x: u64) -> u64 {
    if exp_field(x) == 0u64 {
        frac_field(x)
    } else {
        frac_field(x) | HIDDEN_BIT
    }
}

/// The power-of-two exponent paired with `sig_mag`.
pub open spec fn pow2_exp(x: u64) -> int {
    if exp_field(x) == 0u64 {
        -1074
    } else {
        exp_field(x) as int - 1075
    }
}

/// The signed significand: `sig_mag`, negated when the sign bit is set.
pub open spec fn signed_sig(x: u64) -> int {
    if sign_bit(x) {
        -(sig_mag(x) as int)
    } else {
        sig_mag(x) as int
    }
}

/// `x < 0.0` in IEEE-754 order: negative sign, nonzero magnitude, and not
/// not-a-number (comparisons with not-a-number are false).
pub open spec fn lt_zero(x: u64) -> bool {
    sign_bit(x) && !is_zero_bits(x) && !is_nan_bits(x)
}

/// `x > 0.0` in IEEE-754 order.
pub open spec fn gt_zero(x: u64) -> bool {
    !sign_bit(x) && !is_zero_bits(x) && !is_nan_bits(x)
}

/// IEEE-754 double-precision addition, round to nearest, ties to even.
pub uninterp spec fn add_bits(a: u64, b: u64) -> u64;

/// IEEE-754 double-precision subtraction, round to nearest, ties to even.
pub uninterp spec fn sub_bits(a: u64, b: u64) -> u64;

/// IEEE-754 double-precision multiplication, round to nearest, ties to even.
pub uninterp spec fn mul_bits(a: u64, b: u64) -> u64;

/// IEEE-754 double-precision division, round to nearest, ties to even.
pub uninterp spec fn div_bits(a: u64, b: u64) -> u64;

/// The double nearest `u`, for an integer `u` below 2^53 (where it is exact).
pub uninterp spec fn u53_bits(u: u64) -> u64;

/// The double nearest `exp(sig × 2^e2)`, as dashu computes and rounds it.
pub uninterp spec fn exp_parts_bits(sig: i64, e2: i64) -> u64;

/// The double nearest `ln(sig × 2^e2)`, for positive `sig`, as dashu
/// computes and rounds it.
pub uninterp spec fn ln_parts_bits(sig: i64, e2: i64) -> u64;

/// Relies on `rustc_apfloat::ieee::Double::add_r`, LLVM's softfloat library:
/// IEEE-754 addition of the two operand bit patterns, fully determined by
/// them, including the propagation of infinities and not-a-number.
#[verifier::external_body]
pub(crate) fn fadd(a: u64, b: u64) -> (r: u64)
    ensures
        r == add_bits(a, b),
{
    let x = rustc_apfloat::ieee::Double::from_bits(a as u128);
    let y = rustc_apfloat::ieee::Double::from_bits(b as u128);
    x.add_r(y, rustc_apfloat::Round::NearestTiesToEven).value.to_bits() as u64
}

/// Relies on `rustc_apfloat::ieee::Double::sub_r`: IEEE-754 subtraction of
/// the two operand bit patterns.
#[verifier::external_body]
pub(crate) fn fsub(a: u64, b: u64) -> (r: u64)
    ensures
        r == sub_bits(a, b),
{
    let x = rustc_apfloat::ieee::Double::from_bits(a as u128);
    let y = rustc_apfloat::ieee::Double::from_bits(b as u128);
    x.sub_r(y, rustc_apfloat::Round::NearestTiesToEven).value.to_bits() as u64
}

/// Relies on `rustc_apfloat::ieee::Double::mul_r`: IEEE-754 multiplication
/// of the two operand bit patterns.
#[verifier::external_body]
pub(crate) fn fmul(a: u64, b: u64) -> (r: u64)
    ensures
        r == mul_bits(a, b),
{
    let x = rustc_apfloat::ieee::Double::from_bits(a as u128);
    let y = rustc_apfloat::ieee::Double::from_bits(b as u128);
    x.mul_r(y, rustc_apfloat::Round::NearestTiesToEven).value.to_bits() as u64
}

/// Relies on `rustc_apfloat::ieee::Double::div_r`: IEEE-754 division of the
/// two operand bit patterns.
#[verifier::external_body]
pub(crate) fn fdiv(a: u64, b: u64) -> (r: u64)
    ensures
        r == div_bits(a, b),
{
    let x = rustc_apfloat::ieee::Double::from_bits(a as u128);
    let y = rustc_apfloat::ieee::Double::from_bits(b as u128);
    x.div_r(y, rustc_apfloat::Round::NearestTiesToEven).value.to_bits() as u64
}

/// Relies on `rustc_apfloat::ieee::Double::from_u128`: the conversion of an
/// integer below 2^53 to the double representing it exactly.
#[verifier::external_body]
pub(crate) fn from_u53(u: u64) -> (r: u64)
    requires
        u < 0x20_0000_0000_0000u64,
    ensures
        r == u53_bits(u),
{
    rustc_apfloat::ieee::Double::from_u128(u as u128).value.to_bits() as u64
}

/// Relies on `dashu_float::FBig::exp` and `FBig::to_f64`: the exponential of
/// `sig × 2^e2`, computed at the significand's precision and rounded to a
/// double, ties to even; overflow and underflow saturate to infinity or zero.
/// The bounds keep the argument's magnitude below 1024, where dashu's
/// exponential cannot fail.
#[verifier::external_body]
pub(crate) fn exp_parts(sig: i64, e2: i64) -> (r: u64)
    requires
        -0x20_0000_0000_0000i64 < sig < 0x20_0000_0000_0000i64,
        -1100i64 <= e2 <= -43i64,
    ensures
        r == exp_parts_bits(sig, e2),
{
    let x = dashu_float::FBig::<dashu_float::round::mode::HalfEven, 2>::from_parts(
        sig.into(),
        e2 as isize,
    );
    x.exp().to_f64().value().to_bits()
}

/// Relies on `dashu_float::FBig::ln` and `FBig::to_f64`: the natural
/// logarithm of `sig × 2^e2`, computed at the significand's precision and
/// rounded to a double, ties to even. The significand must be positive: on
/// zero or a negative number dashu's logarithm does not return.
#[verifier::external_body]
pub(crate) fn ln_parts(sig: i64, e2: i64) -> (r: u64)
    requires
        0i64 < sig < 0x20_0000_0000_0000i64,
        -1100i64 <= e2 <= 1100i64,
    ensures
        r == ln_parts_bits(sig, e2),
{
    let x = dashu_float::FBig::<dashu_float::round::mode::HalfEven, 2>::from_parts(
        sig.into(),
        e2 as isize,
    );
    x.ln().to_f64().value().to_bits()
}

/// Decomposes a finite bit pattern into its signed significand and
/// power-of-two exponent: the value is `r.0 × 2^(r.1)`.
pub fn decode_finite(x: u64) -> (r: (i64, i64))
    requires
        is_finite_bits(x),
    ensures
        r.0 as int == signed_sig(x),
        r.1 as int == pow2_exp(x),
        -0x20_0000_0000_0000i64 < r.0 < 0x20_0000_0000_0000i64,
        -1100i64 <= r.1 <= 1100i64,
        (!sign_bit(x) && !is_zero_bits(x)) ==> r.0 > 0i64,
{
    let ef: u64 = (x & EXP_MASK) >> 52u64;
    let fr: u64 = x & FRAC_MASK;
    assert((x & 0x000F_FFFF_FFFF_FFFFu64) < 0x10_0000_0000_0000u64) by (bit_vector);
    assert(((x & 0x000F_FFFF_FFFF_FFFFu64) | 0x0010_0000_0000_0000u64)
        < 0x20_0000_0000_0000u64) by (bit_vector);
    assert(((x & 0x000F_FFFF_FFFF_FFFFu64) | 0x0010_0000_0000_0000u64) != 0u64) by (bit_vector);
    assert((((x & 0x7FF0_0000_0000_0000u64) >> 52u64) == 0u64
        && (x & 0x7FFF_FFFF_FFFF_FFFFu64) != 0u64) ==> (x & 0x000F_FFFF_FFFF_FFFFu64)
        != 0u64) by (bit_vector);
    assert(((x & 0x7FF0_0000_0000_0000u64) >> 52u64) <= 0x7FFu64) by (bit_vector);
    let mag: u64 = if ef == 0 {
        fr
    } else {
        fr | HIDDEN_BIT
    };
    let e2: i64 = if ef == 0 {
        -1074
    } else {
        (ef as i64) - 1075
    };
    let sig: i64 = if (x >> 63u64) == 1 {
        -(mag as i64)
    } else {
        mag as i64
    };
    (sig, e2)
}

/// What the exponential of a bit pattern is: not-a-number propagates, the
/// infinities go to infinity and zero, a magnitude of 1024 or more has
/// already overflowed or underflowed, and a finite argument below that is
/// handed to the outside exponential on its decomposition.
pub open spec fn exp_spec(x: u64) -> u64 {
    if is_nan_bits(x) {
        QNAN_BITS
    } else if x == POS_INF_BITS {
        POS_INF_BITS
    } else if x == NEG_INF_BITS {
        ZERO_BITS
    } else if exp_field(x) >= 1033u64 {
        if sign_bit(x) {
            ZERO_BITS
        } else {
            POS_INF_BITS
        }
    } else {
        exp_parts_bits(signed_sig(x) as i64, pow2_exp(x) as i64)
    }
}

/// The exponential on bit patterns.
pub fn exp_bits(x: u64) -> (r: u64)
    ensures
        r == exp_spec(x),
{
    let ef: u64 = (x & EXP_MASK) >> 52u64;
    let fr: u64 = x & FRAC_MASK;
    if ef == 0x7FF && fr != 0 {
        QNAN_BITS
    } else if x == POS_INF_BITS {
        POS_INF_BITS
    } else if x == NEG_INF_BITS {
        ZERO_BITS
    } else if ef >= 1033 {
        if (x >> 63u64) == 1 {
            ZERO_BITS
        } else {
            POS_INF_BITS
        }
    } else {
        let (sig, e2) = decode_finite(x);
        assert(e2 <= -43i64);
        exp_parts(sig, e2)
    }
}

/// What the natural logarithm of a bit pattern is: not-a-number propagates,
/// both zeroes go to negative infinity, a negative argument (including
/// negative infinity) yields not-a-number, positive infinity stays, and a
/// positive finite argument is handed to the outside logarithm on its
/// decomposition.
pub open spec fn ln_spec(x: u64) -> u64 {
    if is_nan_bits(x) {
        QNAN_BITS
    } else if is_zero_bits(x) {
        NEG_INF_BITS
    } else if sign_bit(x) {
        QNAN_BITS
    } else if x == POS_INF_BITS {
        POS_INF_BITS
    } else {
        ln_parts_bits(signed_sig(x) as i64, pow2_exp(x) as i64)
    }
}

/// The natural logarithm on bit patterns; a non-positive argument produces
/// not-a-number or negative infinity rather than an error.
pub fn ln_bits(x: u64) -> (r: u64)
    ensures
        r == ln_spec(x),
{
    let ef: u64 = (x & EXP_MASK) >> 52u64;
    let fr: u64 = x & FRAC_MASK;
    if ef == 0x7FF && fr != 0 {
        QNAN_BITS
    } else if (x & ABS_MASK) == 0 {
        NEG_INF_BITS
    } else if (x >> 63u64) == 1 {
        QNAN_BITS
    } else if x == POS_INF_BITS {
        POS_INF_BITS
    } else {
        assert((x >> 63u64) == 0u64 || (x >> 63u64) == 1u64) by (bit_vector);
        assert((((x & 0x7FF0_0000_0000_0000u64) >> 52u64) == 0x7FFu64 && (x
            & 0x000F_FFFF_FFFF_FFFFu64) == 0u64 && (x >> 63u64) == 0u64) ==> x
            == 0x7FF0_0000_0000_0000u64) by (bit_vector);
        let (sig, e2) = decode_finite(x);
        ln_parts(sig, e2)
    }
}

/// What the hyperbolic tangent of a bit pattern is, through the identity
/// `tanh x = 1 - 2 / (exp(2x) + 1)`, which is exact at the infinities: the
/// exponential saturates and the quotient goes to 0 or 2.
pub open spec fn tanh_spec(x: u64) -> u64 {
    sub_bits(ONE_BITS, div_bits(TWO_BITS, add_bits(exp_spec(mul_bits(x, TWO_BITS)), ONE_BITS)))
}

/// The hyperbolic tangent on bit patterns.
pub fn tanh_bits(x: u64) -> (r: u64)
    ensures
        r == tanh_spec(x),
{
    let d = fmul(x, TWO_BITS);
    let e = exp_bits(d);
    let s = fadd(e, ONE_BITS);
    let q = fdiv(TWO_BITS, s);
    fsub(ONE_BITS, q)
}

} // verus!

verus! {

/// Whether a bit pattern holds an integer, and its parity when it does.
#[derive(Clone, Copy, Debug, PartialEq, Eq, Structural)]
pub enum IntClass {
    /// Not an integer (or not finite).
    NotInt,
    /// An even integer (zero included).
    Even,
    /// An odd integer.
    Odd,
}

/// Integer classification of a bit pattern: magnitudes of 2^53 and above are
/// even integers, infinities and not-a-number are not integers, and below
/// 2^53 the fraction bits under the binary point decide.
pub open spec fn int_class(k: u64) -> IntClass {
    if is_zero_bits(k) {
        IntClass::Even
    } else if exp_field(k) == 0x7FFu64 {
        IntClass::NotInt
    } else if exp_field(k) >= 1076u64 {
        IntClass::Even
    } else if exp_field(k) == 1075u64 {
        if (frac_field(k) & 1u64) == 1u64 {
            IntClass::Odd
        } else {
            IntClass::Even
        }
    } else if exp_field(k) < 1023u64 {
        IntClass::NotInt
    } else {
        let shift = 1075u64 - exp_field(k);
        if ((frac_field(k) >> shift) << shift) != frac_field(k) {
            IntClass::NotInt
        } else if ((sig_mag(k) >> shift) & 1u64) == 1u64 {
            IntClass::Odd
        } else {
            IntClass::Even
        }
    }
}

/// Integer classification, executable form.
pub fn int_class_of(k: u64) -> (r: IntClass)
    ensures
        r == int_class(k),
{
    let ef: u64 = (k & EXP_MASK) >> 52u64;
    let fr: u64 = k & FRAC_MASK;
    assert(((k & 0x7FF0_0000_0000_0000u64) >> 52u64) <= 0x7FFu64) by (bit_vector);
    if (k & ABS_MASK) == 0 {
        IntClass::Even
    } else if ef == 0x7FF {
        IntClass::NotInt
    } else if ef >= 1076 {
        IntClass::Even
    } else if ef == 1075 {
        if (fr & 1) == 1 {
            IntClass::Odd
        } else {
            IntClass::Even
        }
    } else if ef < 1023 {
        IntClass::NotInt
    } else {
        let shift: u64 = 1075 - ef;
        let mag: u64 = fr | HIDDEN_BIT;
        if ((fr >> shift) << shift) != fr {
            IntClass::NotInt
        } else if ((mag >> shift) & 1) == 1 {
            IntClass::Odd
        } else {
            IntClass::Even
        }
    }
}

/// The power of a positive finite base: the reciprocal exactly for exponent
/// -1 (as division computes it), and `exp(k · ln ax)` otherwise.
pub open spec fn powpos_spec(ax: u64, k: u64) -> u64 {
    if k == NEG_ONE_BITS {
        div_bits(ONE_BITS, ax)
    } else {
        exp_spec(mul_bits(k, ln_spec(ax)))
    }
}

/// What the real power function gives on bit patterns: any base to the
/// exponent zero is one; not-a-number otherwise propagates; an infinite
/// exponent compares the base's magnitude with one; zero and infinite bases
/// follow the real limits with the sign carried by odd integer exponents; a
/// negative finite base demands an integer exponent and otherwise yields
/// not-a-number; and a positive finite base goes through `powpos_spec`.
pub open spec fn pow_spec(x: u64, k: u64) -> u64 {
    if is_zero_bits(k) {
        ONE_BITS
    } else if is_nan_bits(x) || is_nan_bits(k) {
        QNAN_BITS
    } else if k == POS_INF_BITS || k == NEG_INF_BITS {
        if (x & ABS_MASK) == ONE_BITS {
            ONE_BITS
        } else if ((x & ABS_MASK) > ONE_BITS) == (k == POS_INF_BITS) {
            POS_INF_BITS
        } else {
            ZERO_BITS
        }
    } else {
        let ax = x & ABS_MASK;
        if ax == 0u64 {
            if sign_bit(k) {
                if int_class(k) == IntClass::Odd && sign_bit(x) {
                    NEG_INF_BITS
                } else {
                    POS_INF_BITS
                }
            } else {
                if int_class(k) == IntClass::Odd && sign_bit(x) {
                    NEG_ZERO_BITS
                } else {
                    ZERO_BITS
                }
            }
        } else if ax == POS_INF_BITS {
            if sign_bit(x) && int_class(k) == IntClass::Odd {
                if sign_bit(k) {
                    NEG_ZERO_BITS
                } else {
                    NEG_INF_BITS
                }
            } else {
                if sign_bit(k) {
                    ZERO_BITS
                } else {
                    POS_INF_BITS
                }
            }
        } else if sign_bit(x) {
            if int_class(k) == IntClass::NotInt {
                QNAN_BITS
            } else if int_class(k) == IntClass::Odd {
                powpos_spec(ax, k) | SIGN_MASK
            } else {
                powpos_spec(ax, k)
            }
        } else {
            powpos_spec(ax, k)
        }
    }
}

/// The power of a positive finite base, executable form.
fn powpos_bits(ax: u64, k: u64) -> (r: u64)
    ensures
        r == powpos_spec(ax, k),
{
    if k == NEG_ONE_BITS {
        fdiv(ONE_BITS, ax)
    } else {
        let l = ln_bits(ax);
        let m = fmul(k, l);
        exp_bits(m)
    }
}

/// The real power function on bit patterns; a negative base with a
/// non-integer exponent yields not-a-number rather than an error.
pub fn pow_bits(x: u64, k: u64) -> (r: u64)
    ensures
        r == pow_spec(x, k),
{
    let kef: u64 = (k & EXP_MASK) >> 52u64;
    let kfr: u64 = k & FRAC_MASK;
    let xef: u64 = (x & EXP_MASK) >> 52u64;
    let xfr: u64 = x & FRAC_MASK;
    if (k & ABS_MASK) == 0 {
        ONE_BITS
    } else if (xef == 0x7FF && xfr != 0) || (kef == 0x7FF && kfr != 0) {
        QNAN_BITS
    } else if k == POS_INF_BITS || k == NEG_INF_BITS {
        if (x & ABS_MASK) == ONE_BITS {
            ONE_BITS
        } else if ((x & ABS_MASK) > ONE_BITS) == (k == POS_INF_BITS) {
            POS_INF_BITS
        } else {
            ZERO_BITS
        }
    } else {
        let ax: u64 = x & ABS_MASK;
        let xneg: bool = (x >> 63u64) == 1;
        let kneg: bool = (k >> 63u64) == 1;
        let cls = int_class_of(k);
        if ax == 0 {
            if kneg {
                if cls == IntClass::Odd && xneg {
                    NEG_INF_BITS
                } else {
                    POS_INF_BITS
                }
            } else {
                if cls == IntClass::Odd && xneg {
                    NEG_ZERO_BITS
                } else {
                    ZERO_BITS
                }
            }
        } else if ax == POS_INF_BITS {
            if xneg && cls == IntClass::Odd {
                if kneg {
                    NEG_ZERO_BITS
                } else {
                    NEG_INF_BITS
                }
            } else {
                if kneg {
                    ZERO_BITS
                } else {
                    POS_INF_BITS
                }
            }
        } else if xneg {
            if cls == IntClass::NotInt {
                QNAN_BITS
            } else if cls == IntClass::Odd {
                powpos_bits(ax, k) | SIGN_MASK
            } else {
                powpos_bits(ax, k)
            }
        } else {
            powpos_bits(ax, k)
        }
    }
}

} // verus!
