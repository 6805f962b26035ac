//! Unsigned integers of 384 bits, wide enough for sums of squares of
//! 128-bit numbers.

use vstd::prelude::*;

verus! {

/// Two to the power 64.
pub open spec fn half_limb() -> nat {
    0x1_0000_0000_0000_0000
}

/// Two to the power 128: the weight of one limb.
pub open spec fn limb() -> nat {
    0x1_0000_0000_0000_0000_0000_0000_0000_0000nat
}

/// The mathematical square.
pub open spec fn square(x: int) -> nat {
    (x * x) as nat
}

/// An unsigned integer held in three limbs of 128 bits.
#[derive(Clone, Copy, Debug, PartialEq, Eq, Structural)]
pub struct Wide {
    pub high: u128,
    pub middle: u128,
    pub low: u128,
}

impl View for Wide {
    type V = nat;

    open spec fn view(&self) -> nat {
        (self.high as nat * limb() + self.middle as nat) * limb() + self.low as nat
    }
}

/// A square is never negative, and it vanishes only at zero.
pub proof fn lemma_square_facts(x: int)
    ensures
        square(x) == x * x,
        square(x) == square(-x),
        square(x) == 0 <==> x == 0,
{
    assert(x * x >= 0) by (nonlinear_arith);
    assert(x * x == (-x) * (-x)) by (nonlinear_arith);
    assert(x * x == 0 <==> x == 0) by (nonlinear_arith);
}

/// The square of a 128-bit number, as an upper and a lower limb.
pub fn square_u128(x: u128) -> (parts: (u128, u128))
    ensures
        parts.0 as nat * limb() + parts.1 as nat == square(x as int),
{
    let upper: u128 = x / 0x1_0000_0000_0000_0000;
    let lower: u128 = x % 0x1_0000_0000_0000_0000;
    proof {
        assert(upper * upper <= 0xffff_ffff_ffff_ffff * 0xffff_ffff_ffff_ffff) by (nonlinear_arith)
            requires
                upper <= 0xffff_ffff_ffff_ffff,
        ;
        assert(upper * lower <= 0xffff_ffff_ffff_ffff * 0xffff_ffff_ffff_ffff) by (nonlinear_arith)
            requires
                upper <= 0xffff_ffff_ffff_ffff,
                lower <= 0xffff_ffff_ffff_ffff,
        ;
        assert(lower * lower <= 0xffff_ffff_ffff_ffff * 0xffff_ffff_ffff_ffff) by (nonlinear_arith)
            requires
                lower <= 0xffff_ffff_ffff_ffff,
        ;
    }
    let upper_squared: u128 = upper * upper;
    let mixed: u128 = upper * lower;
    let lower_squared: u128 = lower * lower;
    // Twice the mixed product, shifted by 64 bits, spans both limbs.
    let mixed_high: u128 = mixed / 0x8000_0000_0000_0000;
    let mixed_rest: u128 = mixed % 0x8000_0000_0000_0000;
    let mixed_low: u128 = mixed_rest * 0x2_0000_0000_0000_0000;
    let room: u128 = u128::MAX - mixed_low;
    let carry: u128 = if lower_squared > room { 1 } else { 0 };
    let low: u128 = if lower_squared > room {
        lower_squared - room - 1
    } else {
        mixed_low + lower_squared
    };
    let high: u128 = upper_squared + mixed_high + carry;
    proof {
        let a = upper as int;
        let b = lower as int;
        let h = half_limb() as int;
        assert(x == a * h + b);
        assert((a * h + b) * (a * h + b) == (a * a) * (h * h) + 2 * (a * b) * h + b * b)
            by (nonlinear_arith);
        assert(h * h == limb());
        assert(2 * (a * b) * h == mixed_high * limb() + mixed_low) by {
            assert(a * b == mixed_high * 0x8000_0000_0000_0000 + mixed_rest);
            assert(2 * (mixed_high * 0x8000_0000_0000_0000 + mixed_rest) * h == mixed_high * (
            2 * 0x8000_0000_0000_0000 * h) + mixed_rest * (2 * h)) by (nonlinear_arith);
        }
        assert(upper_squared * limb() + mixed_high * limb() + carry * limb() == high * limb())
            by (nonlinear_arith)
            requires
                high == upper_squared + mixed_high + carry,
        ;
        assert((a * a) * (h * h) == upper_squared * limb()) by (nonlinear_arith)
            requires
                h * h == limb(),
                upper_squared == a * a,
        ;
    }
    (high, low)
}

impl Wide {
    /// The number zero.
    pub fn zero() -> (wide: Wide)
        ensures
            wide@ == 0,
    {
        Wide { high: 0, middle: 0, low: 0 }
    }

    /// Holds when the number is zero.
    pub fn is_zero(&self) -> (zero: bool)
        ensures
            zero <==> self@ == 0,
    {
        proof {
            assert(self.high as nat * limb() >= 0 && (self.high > 0 ==> self.high as nat * limb()
                >= limb())) by (nonlinear_arith);
            let upper = self.high as nat * limb() + self.middle as nat;
            assert(upper * limb() >= 0 && (upper > 0 ==> upper * limb() >= limb()))
                by (nonlinear_arith);
        }
        self.high == 0 && self.middle == 0 && self.low == 0
    }

    /// Adds the square of `x`.
    pub fn add_square(&mut self, x: u128)
        requires
            old(self).high < u128::MAX,
        ensures
            final(self)@ == old(self)@ + square(x as int),
            final(self).high <= old(self).high + 1,
    {
        let (upper, lower) = square_u128(x);
        let low_room: u128 = u128::MAX - self.low;
        let low_carry: u128 = if lower > low_room { 1 } else { 0 };
        let low: u128 = if lower > low_room {
            lower - low_room - 1
        } else {
            self.low + lower
        };
        let middle_room: u128 = u128::MAX - self.middle;
        let fits: bool = upper <= middle_room && low_carry <= middle_room - upper;
        let middle: u128 = if fits {
            self.middle + upper + low_carry
        } else if upper > middle_room {
            upper - middle_room - 1 + low_carry
        } else {
            0
        };
        let high: u128 = if fits { self.high } else { self.high + 1 };
        proof {
            let m = limb() as int;
            let carry: int = if fits { 0 } else { 1 };
            assert(self.low + lower == low + low_carry * m);
            assert(self.middle + upper + low_carry == middle + carry * m);
            assert(high == self.high + carry);
            assert((high * m + middle) * m + low == (self.high * m + self.middle) * m + self.low
                + (upper * m + lower)) by (nonlinear_arith)
                requires
                    self.low + lower == low + low_carry * m,
                    self.middle + upper + low_carry == middle + carry * m,
                    high == self.high + carry,
            ;
        }
        self.high = high;
        self.middle = middle;
        self.low = low;
    }
}

} // verus!
