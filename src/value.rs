use vstd::arithmetic::power2::*;
use vstd::prelude::*;

verus! {

/// Bit pattern of the lower bound of the rating range, `0.0` in IEEE-754 binary32.
pub const MOOD_MIN_BITS: u32 = 0x0000_0000;

/// Bit pattern of the upper bound of the rating range, `10.0` in IEEE-754 binary32.
pub const MOOD_MAX_BITS: u32 = 0x4120_0000;

/// Bit pattern of the midpoint `5.0`, against which the commentary is chosen.
pub const MOOD_MID_BITS: u32 = 0x40A0_0000;

/// Bit pattern of negative zero, which compares equal to `0.0`.
pub const NEG_ZERO_BITS: u32 = 0x8000_0000;

/// A mood rating, held as the bit pattern of an IEEE-754 single-precision number.
///
/// Every finite such number is an integer multiple of `2^-149`; `scaled` gives
/// that integer, so the rating's exact value is `scaled(bits) / 2^149`.
#[derive(Clone, Copy, Debug, PartialEq, Eq)]
pub struct MoodValue {
    pub bits: u32,
}

pub open spec fn biased_exponent(bits: u32) -> nat {
    ((bits as nat) / 0x80_0000) % 0x100
}

pub open spec fn fraction(bits: u32) -> nat {
    (bits as nat) % 0x80_0000
}

pub open spec fn is_negative(bits: u32) -> bool {
    bits >= 0x8000_0000
}

/// The number is neither an infinity nor a NaN.
pub open spec fn is_finite(bits: u32) -> bool {
    biased_exponent(bits) != 0xFF
}

/// The absolute value of a finite number, times `2^149`.
pub open spec fn magnitude(bits: u32) -> nat {
    if biased_exponent(bits) == 0 {
        fraction(bits)
    } else {
        ((fraction(bits) + 0x80_0000) * pow2((biased_exponent(bits) - 1) as nat)) as nat
    }
}

/// The value of a finite number, times `2^149`.
pub open spec fn scaled(bits: u32) -> int {
    if is_negative(bits) {
        -magnitude(bits)
    } else {
        magnitude(bits) as int
    }
}

/// `2^149`, the unit of `scaled`.
pub open spec fn one() -> int {
    pow2(149) as int
}

/// The rating is a number in the closed interval `[0, 10]`.
pub open spec fn in_range(bits: u32) -> bool {
    is_finite(bits) && 0 <= scaled(bits) && scaled(bits) <= 10 * one()
}

impl MoodValue {
    pub open spec fn view(&self) -> int {
        scaled(self.bits)
    }

    pub open spec fn valid(&self) -> bool {
        in_range(self.bits)
    }
}

/// Among non-negative finite numbers, a larger bit pattern is a larger number.
proof fn lemma_magnitude_increases(a: u32, b: u32)
    requires
        a < b,
        b < 0x7F80_0000,
    ensures
        magnitude(a) < magnitude(b),
{
    let ea = biased_exponent(a);
    let eb = biased_exponent(b);
    let fa = fraction(a);
    let fb = fraction(b);
    assert(a as nat == ea * 0x80_0000 + fa) by (nonlinear_arith)
        requires
            ea == ((a as nat) / 0x80_0000) % 0x100,
            fa == (a as nat) % 0x80_0000,
            a < 0x7F80_0000,
    ;
    assert(b as nat == eb * 0x80_0000 + fb) by (nonlinear_arith)
        requires
            eb == ((b as nat) / 0x80_0000) % 0x100,
            fb == (b as nat) % 0x80_0000,
            b < 0x7F80_0000,
    ;
    assert(ea <= eb) by (nonlinear_arith)
        requires
            a as nat == ea * 0x80_0000 + fa,
            b as nat == eb * 0x80_0000 + fb,
            fa < 0x80_0000,
            fb < 0x80_0000,
            a < b,
    ;
    if ea == eb {
        assert(fa < fb);
        if ea != 0 {
            let p = pow2((ea - 1) as nat);
            lemma_pow2_pos((ea - 1) as nat);
            assert((fa + 0x80_0000) * p < (fb + 0x80_0000) * p) by (nonlinear_arith)
                requires
                    fa < fb,
                    p > 0,
            ;
        }
    } else {
        lemma_pow2_pos((eb - 1) as nat);
        let pb = pow2((eb - 1) as nat);
        assert(magnitude(b) >= 0x80_0000 * pb) by (nonlinear_arith)
            requires
                magnitude(b) == (fb + 0x80_0000) * pb,
        ;
        if ea == 0 {
            assert(0x80_0000 <= 0x80_0000 * pb) by (nonlinear_arith)
                requires
                    pb > 0,
            ;
        } else {
            let pa = pow2((ea - 1) as nat);
            lemma_pow2_unfold(ea);
            lemma_pow2_increases_ea(ea, eb);
            assert(magnitude(a) < 0x80_0000 * pb) by (nonlinear_arith)
                requires
                    magnitude(a) == (fa + 0x80_0000) * pa,
                    fa < 0x80_0000,
                    2 * pa <= pb,
                    pa > 0,
            ;
        }
    }
}

proof fn lemma_pow2_increases_ea(ea: nat, eb: nat)
    requires
        1 <= ea < eb,
    ensures
        2 * pow2((ea - 1) as nat) <= pow2((eb - 1) as nat),
        pow2((ea - 1) as nat) > 0,
{
    lemma_pow2_pos((ea - 1) as nat);
    lemma_pow2_unfold(ea);
    if ea < eb - 1 {
        lemma_pow2_strictly_increases(ea, (eb - 1) as nat);
    }
}

/// The bounds and the midpoint have the values that their names say.
proof fn lemma_landmarks()
    ensures
        magnitude(MOOD_MAX_BITS) == 10 * one(),
        magnitude(MOOD_MID_BITS) == 5 * one(),
        magnitude(MOOD_MIN_BITS) == 0,
        magnitude(NEG_ZERO_BITS) == 0,
        one() > 0,
{
    lemma_pow2_adds(20, 128);
    lemma_pow2_adds(20, 129);
    lemma_pow2_unfold(129);
    lemma2_to64();
    lemma_pow2_pos(149);
    assert(biased_exponent(MOOD_MAX_BITS) == 130);
    assert(fraction(MOOD_MAX_BITS) == 0x20_0000);
    assert(biased_exponent(MOOD_MID_BITS) == 129);
    assert(fraction(MOOD_MID_BITS) == 0x20_0000);
    assert(biased_exponent(NEG_ZERO_BITS) == 0);
    assert(fraction(NEG_ZERO_BITS) == 0);
    let p128 = pow2(128);
    let p129 = pow2(129);
    assert(pow2(20) == 0x10_0000);
    assert(pow2(149) == 0x10_0000 * p129);
    assert(pow2(148) == 0x10_0000 * p128);
    assert(p129 == 2 * p128);
    assert(magnitude(MOOD_MAX_BITS) == 0xA0_0000 * p129);
    assert(magnitude(MOOD_MID_BITS) == 0xA0_0000 * p128);
    assert(0xA0_0000 * p129 == 10 * (0x10_0000 * p129)) by (nonlinear_arith);
    assert(0xA0_0000 * p128 == 5 * (0x10_0000 * p129)) by (nonlinear_arith)
        requires
            p129 == 2 * p128,
    ;
}

/// A bit pattern at or above that of positive infinity, and below the sign bit,
/// is no finite number.
proof fn lemma_top_not_finite(b: u32)
    requires
        0x7F80_0000 <= b < 0x8000_0000,
    ensures
        !is_finite(b),
{
}

/// Which bit patterns hold a rating in range, and where each lies against the midpoint.
pub proof fn lemma_classify(b: u32)
    ensures
        in_range(b) <==> (b <= MOOD_MAX_BITS || b == NEG_ZERO_BITS),
        in_range(b) ==> (scaled(b) < 5 * one() <==> (b < MOOD_MID_BITS || b == NEG_ZERO_BITS)),
        in_range(b) ==> (scaled(b) == 5 * one() <==> b == MOOD_MID_BITS),
        in_range(b) ==> (scaled(b) > 5 * one() <==> (MOOD_MID_BITS < b <= MOOD_MAX_BITS)),
{
    lemma_landmarks();
    if b < 0x8000_0000 {
        if b < 0x7F80_0000 {
            if b < MOOD_MAX_BITS {
                lemma_magnitude_increases(b, MOOD_MAX_BITS);
            } else if b > MOOD_MAX_BITS {
                lemma_magnitude_increases(MOOD_MAX_BITS, b);
            }
            if b < MOOD_MID_BITS {
                lemma_magnitude_increases(b, MOOD_MID_BITS);
            } else if b > MOOD_MID_BITS {
                lemma_magnitude_increases(MOOD_MID_BITS, b);
            }
            assert(biased_exponent(b) != 0xFF) by (nonlinear_arith)
                requires
                    b < 0x7F80_0000,
            ;
        } else {
            lemma_top_not_finite(b);
        }
    } else if b != NEG_ZERO_BITS {
        if is_finite(b) {
            let e = biased_exponent(b);
            let f = fraction(b);
            assert(b as nat == 0x8000_0000 + e * 0x80_0000 + f) by (nonlinear_arith)
                requires
                    e == ((b as nat) / 0x80_0000) % 0x100,
                    f == (b as nat) % 0x80_0000,
                    b >= 0x8000_0000,
            ;
            if e == 0 {
                assert(f > 0);
            } else {
                lemma_pow2_pos((e - 1) as nat);
                assert(magnitude(b) > 0) by (nonlinear_arith)
                    requires
                        magnitude(b) == (f + 0x80_0000) * pow2((e - 1) as nat),
                        pow2((e - 1) as nat) > 0,
                ;
            }
        }
    }
}

/// Why a text is no rating.
#[derive(Clone, Debug, PartialEq, Eq)]
pub enum ValueError {
    /// The text is not a number; it is kept.
    NonNumeric(String),
    /// The number lies outside `[0, 10]`.
    OutOfRange,
}

/// The text that reports a refused rating.
pub open spec fn value_message(e: ValueError) -> Seq<char> {
    match e {
        ValueError::NonNumeric(t) => "`"@ + t@ + "` is non-numeric"@,
        ValueError::OutOfRange => "invalid value. value not in range 0 -10"@,
    }
}

impl ValueError {
    pub fn message(&self) -> (r: String)
        ensures
            r@ == value_message(*self),
    {
        match self {
            ValueError::NonNumeric(t) => {
                let mut r = "`".to_string();
                r.append(t.as_str());
                r.append("` is non-numeric");
                r
            },
            ValueError::OutOfRange => "invalid value. value not in range 0 -10".to_string(),
        }
    }
}

/// Accepts the rating that `text` was read as, if it lies in `[0, 10]`.
///
/// `parsed` is the number that `text` reads as, or `None` where it is no number.
pub fn value_in_range(text: &str, parsed: Option<MoodValue>) -> (r: Result<MoodValue, ValueError>)
    ensures
        match parsed {
            None => r matches Err(ValueError::NonNumeric(t)) && t@ == text@,
            Some(v) => if in_range(v.bits) {
                r == Ok::<MoodValue, ValueError>(v)
            } else {
                r == Err::<MoodValue, ValueError>(ValueError::OutOfRange)
            },
        },
{
    match parsed {
        None => Err(ValueError::NonNumeric(text.to_string())),
        Some(v) => {
            proof {
                lemma_classify(v.bits);
            }
            if v.bits <= MOOD_MAX_BITS || v.bits == NEG_ZERO_BITS {
                Ok(v)
            } else {
                Err(ValueError::OutOfRange)
            }
        },
    }
}

} // verus!
