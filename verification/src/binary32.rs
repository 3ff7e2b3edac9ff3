//! IEEE 754 single-precision numbers as their bit patterns: order, clamping and truncation.
use vstd::prelude::*;

verus! {

/// A single-precision number, given by its bits.
#[derive(Clone, Copy, Debug, PartialEq, Eq, Structural)]
pub struct Binary32 {
    /// From the highest bit down: the sign, eight bits of exponent, 23 bits of fraction.
    pub bits: u32,
}

/// The magnitude that the bits without the sign stand for, as a multiple of 2 to the -149, the
/// smallest positive single-precision number.
///
/// Infinity counts as the number that would follow the largest finite one.
pub open spec fn magnitude(unsigned: nat) -> nat {
    let exponent = unsigned / 0x80_0000;
    let fraction = unsigned % 0x80_0000;
    if exponent == 0 {
        fraction
    } else {
        (0x80_0000 + fraction) * vstd::arithmetic::power2::pow2((exponent - 1) as nat)
    }
}

impl Binary32 {
    /// The bits without the sign.
    pub open spec fn unsigned(self) -> nat {
        (self.bits % 0x8000_0000) as nat
    }

    /// The sign bit is set.
    pub open spec fn signed(self) -> bool {
        self.bits >= 0x8000_0000
    }

    /// The bits stand for no number.
    pub open spec fn nan(self) -> bool {
        self.unsigned() > 0x7F80_0000
    }

    /// The number that the bits stand for, as a multiple of 2 to the -149.
    pub open spec fn value(self) -> int {
        if self.signed() {
            -(magnitude(self.unsigned()) as int)
        } else {
            magnitude(self.unsigned()) as int
        }
    }

    /// Both stand for numbers and the first is the smaller one.
    pub open spec fn lt(self, other: Binary32) -> bool {
        &&& !self.nan()
        &&& !other.nan()
        &&& self.value() < other.value()
    }

    /// The number held to a range: the bound that it lies beyond, otherwise itself. What is no
    /// number stays as it is.
    pub open spec fn clamped(self, low: Binary32, high: Binary32) -> Binary32 {
        if self.lt(low) {
            low
        } else if high.lt(self) {
            high
        } else {
            self
        }
    }

    /// The number without its fractional part, held to the range of `u32`; zero for what is no
    /// number.
    pub open spec fn truncated(self) -> int {
        let whole = self.value() / (vstd::arithmetic::power2::pow2(149) as int);
        if self.nan() || self.value() < 0 {
            0
        } else if whole > u32::MAX {
            u32::MAX as int
        } else {
            whole
        }
    }

    /// The number without its sign.
    pub fn abs(self) -> (magnitude: Binary32)
        ensures
            magnitude.nan() == self.nan(),
            !magnitude.signed(),
            magnitude.unsigned() == self.unsigned(),
            magnitude.value() == (if self.value() < 0 {
                -self.value()
            } else {
                self.value()
            }),
    {
        Binary32 { bits: self.bits % 0x8000_0000 }
    }

    /// Whether the bits stand for no number.
    pub fn is_nan(self) -> (nan: bool)
        ensures
            nan == self.nan(),
    {
        self.bits % 0x8000_0000 > 0x7F80_0000
    }

    /// Whether the number is smaller than `other`; never so where one of them is no number.
    pub fn less(self, other: Binary32) -> (less: bool)
        ensures
            less == self.lt(other),
    {
        if self.is_nan() || other.is_nan() {
            return false;
        }
        let a: u32 = self.bits % 0x8000_0000;
        let b: u32 = other.bits % 0x8000_0000;
        proof {
            lemma_magnitude_zero(a as nat);
            lemma_magnitude_zero(b as nat);
            if a < b {
                lemma_magnitude_increases(a as nat, b as nat);
            }
            if b < a {
                lemma_magnitude_increases(b as nat, a as nat);
            }
        }
        if self.bits >= 0x8000_0000 {
            if other.bits >= 0x8000_0000 {
                b < a
            } else {
                a != 0 || b != 0
            }
        } else {
            other.bits < 0x8000_0000 && a < b
        }
    }

    /// The number held to a range.
    pub fn clamp(self, low: Binary32, high: Binary32) -> (clamped: Binary32)
        ensures
            clamped == self.clamped(low, high),
    {
        if self.less(low) {
            low
        } else if high.less(self) {
            high
        } else {
            self
        }
    }

    /// The number without its fractional part, held to the range of `u32`.
    pub fn to_u32(self) -> (whole: u32)
        ensures
            whole == self.truncated(),
    {
        let unsigned: u32 = self.bits % 0x8000_0000;
        let exponent: u32 = unsigned / 0x80_0000;
        let significand: u32 = 0x80_0000 + unsigned % 0x80_0000;
        proof {
            lemma_magnitude_zero(unsigned as nat);
        }
        if self.is_nan() || self.bits >= 0x8000_0000 {
            proof {
                lemma_zero_is_whole();
            }
            return 0;
        }
        if exponent < 127 {
            proof {
                lemma_below_one(unsigned as nat);
            }
            0
        } else if exponent < 150 {
            proof {
                lemma_whole_part(unsigned as nat);
                vstd::bits::lemma_u32_shr_is_div(significand, (150 - exponent) as u32);
            }
            significand >> (150 - exponent)
        } else if exponent < 159 {
            proof {
                lemma_whole_grows(unsigned as nat);
                vstd::arithmetic::power2::lemma2_to64();
                vstd::bits::lemma_u32_shl_is_mul(significand, (exponent - 150) as u32);
            }
            significand << (exponent - 150)
        } else {
            proof {
                lemma_beyond_range(unsigned as nat);
            }
            u32::MAX
        }
    }
}

proof fn lemma_zero_is_whole()
    ensures
        0int / (vstd::arithmetic::power2::pow2(149) as int) == 0,
{
    vstd::arithmetic::power2::lemma_pow2_pos(149);
    vstd::arithmetic::div_mod::lemma_basic_div(0, vstd::arithmetic::power2::pow2(149) as int);
}

proof fn lemma_below_one(a: nat)
    requires
        a / 0x80_0000 < 127,
    ensures
        magnitude(a) / vstd::arithmetic::power2::pow2(149) == 0,
{
    let one = 127 * 0x80_0000;
    lemma_magnitude_increases(a, one as nat);
    vstd::arithmetic::power2::lemma2_to64();
    vstd::arithmetic::power2::lemma_pow2_adds(23, 126);
    vstd::arithmetic::div_mod::lemma_basic_div(
        magnitude(a) as int,
        vstd::arithmetic::power2::pow2(149) as int,
    );
}

/// The whole part of a number from 1 to below 2 to the 23.
pub proof fn lemma_whole_part(a: nat)
    requires
        127 <= a / 0x80_0000 < 150,
    ensures
        magnitude(a) / vstd::arithmetic::power2::pow2(149) == (0x80_0000 + a % 0x80_0000)
            / vstd::arithmetic::power2::pow2((150 - a / 0x80_0000) as nat),
{
    let e = a / 0x80_0000;
    let m = (0x80_0000 + a % 0x80_0000) as nat;
    let lower = vstd::arithmetic::power2::pow2((e - 1) as nat);
    let rest = vstd::arithmetic::power2::pow2((150 - e) as nat);
    vstd::arithmetic::power2::lemma_pow2_adds((e - 1) as nat, (150 - e) as nat);
    vstd::arithmetic::power2::lemma_pow2_pos((e - 1) as nat);
    vstd::arithmetic::power2::lemma_pow2_pos((150 - e) as nat);
    vstd::arithmetic::div_mod::lemma_div_denominator(
        (m * lower) as int,
        lower as int,
        rest as int,
    );
    vstd::arithmetic::div_mod::lemma_div_by_multiple(m as int, lower as int);
}

proof fn lemma_whole_grows(a: nat)
    requires
        150 <= a / 0x80_0000 < 159,
    ensures
        magnitude(a) / vstd::arithmetic::power2::pow2(149) == (0x80_0000 + a % 0x80_0000)
            * vstd::arithmetic::power2::pow2((a / 0x80_0000 - 150) as nat),
        (0x80_0000 + a % 0x80_0000) * vstd::arithmetic::power2::pow2(
            (a / 0x80_0000 - 150) as nat,
        ) <= u32::MAX,
{
    let e = a / 0x80_0000;
    let m = (0x80_0000 + a % 0x80_0000) as nat;
    let one = vstd::arithmetic::power2::pow2(149);
    let scale = vstd::arithmetic::power2::pow2((e - 150) as nat);
    vstd::arithmetic::power2::lemma_pow2_adds((e - 150) as nat, 149);
    vstd::arithmetic::power2::lemma_pow2_pos(149);
    assert(m * (scale * one) == (m * scale) * one) by (nonlinear_arith);
    vstd::arithmetic::div_mod::lemma_div_by_multiple((m * scale) as int, one as int);
    vstd::arithmetic::power2::lemma2_to64();
    if e < 158 {
        vstd::arithmetic::power2::lemma_pow2_strictly_increases((e - 150) as nat, 8);
    }
    assert(m * scale <= 0xFF_FFFF * 256) by (nonlinear_arith)
        requires
            m <= 0xFF_FFFF,
            scale <= 256,
    ;
}

proof fn lemma_beyond_range(a: nat)
    requires
        a / 0x80_0000 >= 159,
    ensures
        magnitude(a) / vstd::arithmetic::power2::pow2(149) > u32::MAX,
{
    let bound = (159 * 0x80_0000) as nat;
    if bound < a {
        lemma_magnitude_increases(bound, a);
    }
    let one = vstd::arithmetic::power2::pow2(149);
    vstd::arithmetic::power2::lemma2_to64();
    vstd::arithmetic::power2::lemma_pow2_adds(23, 158);
    vstd::arithmetic::power2::lemma_pow2_adds(32, 149);
    vstd::arithmetic::power2::lemma_pow2_pos(149);
    vstd::arithmetic::div_mod::lemma_div_by_multiple(0x1_0000_0000, one as int);
    vstd::arithmetic::div_mod::lemma_div_is_ordered(
        (0x1_0000_0000 * one) as int,
        magnitude(a) as int,
        one as int,
    );
}

/// Only zero has the magnitude zero.
pub proof fn lemma_magnitude_zero(a: nat)
    ensures
        magnitude(a) == 0 <==> a == 0,
{
    let exponent = a / 0x80_0000;
    let fraction = a % 0x80_0000;
    if exponent != 0 {
        let scale = vstd::arithmetic::power2::pow2((exponent - 1) as nat);
        vstd::arithmetic::power2::lemma_pow2_pos((exponent - 1) as nat);
        assert((0x80_0000 + fraction) * scale > 0) by (nonlinear_arith)
            requires
                scale > 0,
                fraction >= 0,
        ;
    }
}

/// Bits without the sign stand in the order of the magnitudes.
pub proof fn lemma_magnitude_increases(a: nat, b: nat)
    requires
        a < b,
    ensures
        magnitude(a) < magnitude(b),
{
    let ea = a / 0x80_0000;
    let fa = a % 0x80_0000;
    let eb = b / 0x80_0000;
    let fb = b % 0x80_0000;
    if eb == 0 {
        assert(ea == 0);
    } else {
        let scale = vstd::arithmetic::power2::pow2((eb - 1) as nat);
        vstd::arithmetic::power2::lemma_pow2_pos((eb - 1) as nat);
        assert((0x80_0000 + fb) * scale >= 0x80_0000 * scale) by (nonlinear_arith)
            requires
                scale > 0,
                fb >= 0,
        ;
        if ea == 0 {
            assert(0x80_0000 * scale >= 0x80_0000) by (nonlinear_arith)
                requires
                    scale > 0,
            ;
        } else if ea == eb {
            assert((0x80_0000 + fa) * scale < (0x80_0000 + fb) * scale) by (nonlinear_arith)
                requires
                    scale > 0,
                    fa < fb,
            ;
        } else {
            let lower = vstd::arithmetic::power2::pow2((ea - 1) as nat);
            let step = vstd::arithmetic::power2::pow2(ea);
            vstd::arithmetic::power2::lemma_pow2_pos((ea - 1) as nat);
            vstd::arithmetic::power2::lemma_pow2_unfold(ea);
            if ea < eb - 1 {
                vstd::arithmetic::power2::lemma_pow2_strictly_increases(ea, (eb - 1) as nat);
            }
            assert((0x80_0000 + fa) * lower < 0x80_0000 * step) by (nonlinear_arith)
                requires
                    lower > 0,
                    step == 2 * lower,
                    fa < 0x80_0000,
            ;
        }
    }
}

/// What the bits stand for: the patterns below twice the smallest normal number count up one by
/// one, each further step of the exponent doubles the number, and the highest bit turns its sign
/// round. The patterns beyond infinity stand for no number.
pub proof fn law_bits_stand_for_numbers(x: Binary32)
    ensures
        x.bits <= 0x00FF_FFFF ==> x.value() == x.bits,
        0x0080_0000 <= x.bits <= 0x7F00_0000 ==> (Binary32 {
            bits: (x.bits + 0x80_0000) as u32,
        }).value() == 2 * x.value(),
        x.bits <= 0x7FFF_FFFF ==> (Binary32 { bits: (x.bits + 0x8000_0000) as u32 }).value()
            == -x.value(),
        x.nan() <==> 0x7F80_0000 < x.bits <= 0x7FFF_FFFF || 0xFF80_0000 < x.bits,
{
    vstd::arithmetic::power2::lemma2_to64();
    if 0x0080_0000 <= x.bits <= 0x00FF_FFFF {
        assert(x.unsigned() / 0x80_0000 == 1);
        assert(x.unsigned() % 0x80_0000 == x.bits - 0x80_0000);
        assert(vstd::arithmetic::power2::pow2(0) == 1);
        assert(x.bits * vstd::arithmetic::power2::pow2(0) == x.bits) by (nonlinear_arith)
            requires
                vstd::arithmetic::power2::pow2(0) == 1,
        ;
    }
    if 0x0080_0000 <= x.bits <= 0x7F00_0000 {
        let exponent = x.bits as nat / 0x80_0000;
        let fraction = x.bits as nat % 0x80_0000;
        vstd::arithmetic::power2::lemma_pow2_unfold(exponent);
        let lower = vstd::arithmetic::power2::pow2((exponent - 1) as nat);
        assert((0x80_0000 + fraction) * (2 * lower) == 2 * ((0x80_0000 + fraction) * lower))
            by (nonlinear_arith);
        assert((x.bits as nat + 0x80_0000) / 0x80_0000 == exponent + 1);
        assert((x.bits as nat + 0x80_0000) % 0x80_0000 == fraction);
    }
}

/// `less` is the order of the numbers; what is no number stands in no order to anything.
pub proof fn law_less_is_the_order(a: Binary32, b: Binary32, less: bool)
    requires
        call_ensures(Binary32::less, (a, b), less),
    ensures
        less <==> !a.nan() && !b.nan() && a.value() < b.value(),
{
}

/// `is_nan` tells what is no number, and `abs` takes the sign bit away from any bits.
pub proof fn law_abs_takes_the_sign(x: Binary32, absolute: Binary32, nan: bool)
    requires
        call_ensures(Binary32::abs, (x,), absolute),
        call_ensures(Binary32::is_nan, (x,), nan),
    ensures
        x.bits < 0x8000_0000 ==> absolute == x,
        x.bits >= 0x8000_0000 ==> absolute.bits == x.bits - 0x8000_0000,
        absolute.value() >= 0,
        absolute.value() == x.value() || absolute.value() == -x.value(),
        nan <==> x.nan(),
{
    lemma_magnitude_zero(x.unsigned());
}

/// A number held to a range lies in the range, and is the number itself if that lies there; beyond
/// a bound it is that bound. What is no number stays as it is.
pub proof fn law_clamp_holds_to_the_range(
    x: Binary32,
    low: Binary32,
    high: Binary32,
    clamped: Binary32,
)
    requires
        !low.nan(),
        !high.nan(),
        low.value() <= high.value(),
        call_ensures(Binary32::clamp, (x, low, high), clamped),
    ensures
        x.nan() ==> clamped == x,
        !x.nan() ==> low.value() <= clamped.value() <= high.value(),
        low.value() <= x.value() <= high.value() ==> clamped == x,
        !x.nan() && x.value() < low.value() ==> clamped == low,
        !x.nan() && x.value() > high.value() ==> clamped == high,
{
}

/// Truncation leaves the greatest whole number that is not above a number from zero on. Below zero
/// it leaves zero, from 2 to the 32 on the greatest `u32`, and zero of what is no number.
pub proof fn law_to_u32_is_the_whole_part(x: Binary32, whole: u32)
    requires
        call_ensures(Binary32::to_u32, (x,), whole),
    ensures
        x.nan() || x.value() <= 0 ==> whole == 0,
        !x.nan() && 0 <= x.value() < 0x1_0000_0000 * vstd::arithmetic::power2::pow2(149) ==> {
            &&& whole * vstd::arithmetic::power2::pow2(149) <= x.value()
            &&& x.value() < (whole + 1) * vstd::arithmetic::power2::pow2(149)
        },
        !x.nan() && x.value() >= 0x1_0000_0000 * vstd::arithmetic::power2::pow2(149) ==> whole
            == u32::MAX,
{
    let one = vstd::arithmetic::power2::pow2(149) as int;
    vstd::arithmetic::power2::lemma_pow2_pos(149);
    lemma_zero_is_whole();
    lemma_quotient(x.value(), one);
    if x.value() >= 0x1_0000_0000 * one {
        vstd::arithmetic::div_mod::lemma_div_by_multiple(0x1_0000_0000, one);
        vstd::arithmetic::div_mod::lemma_div_is_ordered(0x1_0000_0000 * one, x.value(), one);
    } else if x.value() >= 0 {
        let q = x.value() / one;
        assert(q < 0x1_0000_0000) by (nonlinear_arith)
            requires
                q * one <= x.value(),
                x.value() < 0x1_0000_0000 * one,
                one > 0,
        ;
    }
}

/// A quotient is the whole part of a division.
pub proof fn lemma_quotient(x: int, one: int)
    requires
        one > 0,
    ensures
        (x / one) * one <= x < (x / one + 1) * one,
{
    vstd::arithmetic::div_mod::lemma_fundamental_div_mod(x, one);
    vstd::arithmetic::div_mod::lemma_mod_bound(x, one);
    let q = x / one;
    assert((q + 1) * one == q * one + one) by (nonlinear_arith);
    assert(one * q == q * one) by (nonlinear_arith);
}

}
