//! Exact decimal numbers: a sign, a run of decimal digits and the count of
//! those digits that stand behind the decimal point.

use crate::digits::{
    all_decimal, denotes_zero, difference_of, digits_value, lemma_written, lemma_written_unique,
    longer, pow10, product_of, product_with_digit, run_below, run_of, shifted, sum_of, trimmed,
    widened, written,
};
use vstd::prelude::*;

verus! {

/// Half way between the largest number that a 32-bit float can hold and the
/// next power of two, `2^128 - 2^103`: from here on a number is rounded to
/// infinity.
pub open spec fn float_limit() -> nat {
    340282356779733661637539395458142568448nat
}

/// Two to the power 150: one over half the smallest number above zero that a
/// 32-bit float can hold. Up to that half a number is rounded to zero.
pub open spec fn float_steps() -> nat {
    1427247692705959881058285969449495136382746624nat
}

/// The mathematical content of a [`Decimal`].
pub struct DecimalView {
    /// Whether a minus sign stands in front.
    pub negative: bool,
    /// All digits, those before the decimal point and then those behind it.
    pub digits: Seq<u8>,
    /// How many of the digits stand behind the decimal point.
    pub scale: nat,
}

impl DecimalView {
    /// At least one digit, each of them decimal, and no more fractional digits
    /// than there are digits.
    pub open spec fn wf(self) -> bool {
        &&& self.digits.len() > 0
        &&& self.scale <= self.digits.len()
        &&& all_decimal(self.digits)
    }

    /// The digits read as one natural number, the decimal point ignored.
    pub open spec fn magnitude(self) -> nat {
        digits_value(self.digits)
    }

    /// The number itself, counted in units of `10^-scale`.
    pub open spec fn units(self) -> int {
        if self.negative {
            -(self.magnitude() as int)
        } else {
            self.magnitude() as int
        }
    }

    /// The number counted in units of `10^-scale`, for a `scale` that is at
    /// least the number's own.
    pub open spec fn units_at(self, scale: nat) -> int
        recommends
            self.scale <= scale,
    {
        self.units() * pow10((scale - self.scale) as nat)
    }

    /// The digits before the decimal point.
    pub open spec fn whole(self) -> Seq<u8> {
        self.digits.take(self.digits.len() - self.scale)
    }

    /// The digits behind the decimal point.
    pub open spec fn fraction(self) -> Seq<u8> {
        self.digits.skip(self.digits.len() - self.scale)
    }

    /// Whether the number is zero, whatever its sign.
    pub open spec fn is_zero(self) -> bool {
        self.magnitude() == 0
    }

    /// Whether the number is greater than zero.
    pub open spec fn is_positive(self) -> bool {
        !self.negative && self.magnitude() > 0
    }

    /// Whether the number lies in the range of a 32-bit float: it is zero,
    /// or the nearest such float is neither infinite nor zero. That is,
    /// its magnitude is less than `2^128 - 2^103` and greater than `2^-150`.
    pub open spec fn in_float_range(self) -> bool {
        ||| self.magnitude() == 0
        ||| (self.magnitude() < float_limit() * pow10(self.scale) && self.magnitude()
            * float_steps() > pow10(self.scale))
    }

    /// Whether the decimal is written in the one way in which results are
    /// written: with at least one digit before the point, with no zero in
    /// front where there are more, and with no minus sign before zero.
    pub open spec fn canonical(self) -> bool {
        &&& self.wf()
        &&& self.digits.len() > self.scale
        &&& self.digits.len() > self.scale + 1 ==> self.digits[0] != 0
        &&& self.negative ==> self.magnitude() > 0
    }

    /// The decimal with `scale` digits behind the point that counts `units`
    /// units of `10^-scale`, written in the one way in which results are
    /// written.
    pub open spec fn from_units(units: int, scale: nat) -> DecimalView {
        DecimalView {
            negative: units < 0,
            digits: written(
                (if units < 0 {
                    -units
                } else {
                    units
                }) as nat,
                scale + 1,
            ),
            scale,
        }
    }

    /// The same number with the other sign.
    pub open spec fn negated(self) -> DecimalView {
        DecimalView { negative: !self.negative, digits: self.digits, scale: self.scale }
    }

    /// The difference of two numbers, with as many digits behind the point as
    /// the one of the two that has more.
    pub open spec fn minus(self, other: DecimalView) -> DecimalView {
        let scale = longer(self.scale, other.scale);
        DecimalView::from_units(self.units_at(scale) - other.units_at(scale), scale)
    }

    /// The sum of two numbers, with as many digits behind the point as the
    /// one of the two that has more.
    pub open spec fn plus(self, other: DecimalView) -> DecimalView {
        let scale = longer(self.scale, other.scale);
        DecimalView::from_units(self.units_at(scale) + other.units_at(scale), scale)
    }

    /// The product of two numbers, with as many digits behind the point as
    /// the two have together.
    pub open spec fn times(self, other: DecimalView) -> DecimalView {
        DecimalView::from_units(self.units() * other.units(), self.scale + other.scale)
    }

    /// Half the number, with one digit more behind the point.
    pub open spec fn halved(self) -> DecimalView {
        DecimalView::from_units(5 * self.units(), self.scale + 1)
    }
}

/// A decimal that is written in the one way in which results are written is
/// the decimal that `from_units` gives for its units and its scale.
pub proof fn lemma_canonical(d: DecimalView)
    requires
        d.canonical(),
    ensures
        d == DecimalView::from_units(d.units(), d.scale),
{
    lemma_written_unique(d.digits, d.scale + 1);
}

/// What `from_units` gives is well formed and counts the units that it was
/// given.
pub proof fn law_from_units(units: int, scale: nat)
    ensures
        DecimalView::from_units(units, scale).wf(),
        DecimalView::from_units(units, scale).units() == units,
        DecimalView::from_units(units, scale).scale == scale,
{
    let n = (if units < 0 {
        -units
    } else {
        units
    }) as nat;
    lemma_written(n, scale + 1);
}

/// An exact decimal number.
#[derive(Debug, PartialEq, Eq)]
pub struct Decimal {
    negative: bool,
    digits: Vec<u8>,
    scale: usize,
}

impl View for Decimal {
    type V = DecimalView;

    closed spec fn view(&self) -> DecimalView {
        DecimalView { negative: self.negative, digits: self.digits@, scale: self.scale as nat }
    }
}

impl Clone for Decimal {
    fn clone(&self) -> (r: Self)
        ensures
            r@ == self@,
    {
        proof {
            use_type_invariant(self);
        }
        let mut digits: Vec<u8> = Vec::new();
        let mut i: usize = 0;
        while i < self.digits.len()
            invariant
                i <= self.digits.len(),
                digits@ == self.digits@.take(i as int),
            decreases self.digits.len() - i,
        {
            digits.push(self.digits[i]);
            assert(self.digits@.take(i + 1) =~= self.digits@.take(i as int).push(
                self.digits@[i as int],
            ));
            i += 1;
        }
        assert(self.digits@.take(i as int) =~= self.digits@);
        Decimal { negative: self.negative, digits, scale: self.scale }
    }
}

impl Decimal {
    /// Every decimal is well formed.
    #[verifier::type_invariant]
    pub open spec fn well_formed(&self) -> bool {
        self@.wf()
    }

    /// Puts a decimal together from its parts, if they are well formed.
    pub fn from_parts(negative: bool, digits: Vec<u8>, scale: usize) -> (r: Option<Decimal>)
        ensures
            r is Some <==> (DecimalView { negative, digits: digits@, scale: scale as nat }).wf(),
            r matches Some(d) ==> d@ == (DecimalView {
                negative,
                digits: digits@,
                scale: scale as nat,
            }),
    {
        if digits.len() == 0 || scale > digits.len() {
            return None;
        }
        let mut i: usize = 0;
        while i < digits.len()
            invariant
                i <= digits.len(),
                forall|j: int| 0 <= j < i ==> #[trigger] digits@[j] <= 9,
            decreases digits.len() - i,
        {
            if digits[i] > 9 {
                return None;
            }
            i += 1;
        }
        Some(Decimal { negative, digits, scale })
    }

    /// Puts a decimal together from parts that are known to be well formed.
    pub(crate) fn assemble(negative: bool, digits: Vec<u8>, scale: usize) -> (r: Decimal)
        requires
            (DecimalView { negative, digits: digits@, scale: scale as nat }).wf(),
        ensures
            r@ == (DecimalView { negative, digits: digits@, scale: scale as nat }),
    {
        Decimal { negative, digits, scale }
    }

    /// The number zero, written `0`.
    pub fn zero() -> (r: Decimal)
        ensures
            r@ == (DecimalView { negative: false, digits: seq![0u8], scale: 0 }),
    {
        let mut digits: Vec<u8> = Vec::new();
        digits.push(0);
        assert(digits@ =~= seq![0u8]);
        Decimal { negative: false, digits, scale: 0 }
    }

    /// The number one, written `1`.
    pub fn one() -> (r: Decimal)
        ensures
            r@ == (DecimalView { negative: false, digits: seq![1u8], scale: 0 }),
    {
        let mut digits: Vec<u8> = Vec::new();
        digits.push(1);
        assert(digits@ =~= seq![1u8]);
        Decimal { negative: false, digits, scale: 0 }
    }

    /// Whether a minus sign stands in front.
    pub fn is_negative(&self) -> (r: bool)
        ensures
            r == self@.negative,
    {
        self.negative
    }

    /// All digits, those before the decimal point and then those behind it.
    pub fn digits(&self) -> (r: &Vec<u8>)
        ensures
            r@ == self@.digits,
    {
        &self.digits
    }

    /// How many of the digits stand behind the decimal point.
    pub fn scale(&self) -> (r: usize)
        ensures
            r as nat == self@.scale,
    {
        self.scale
    }

    /// Whether the number is zero, whatever its sign.
    pub fn is_zero(&self) -> (r: bool)
        ensures
            r == self@.is_zero(),
    {
        denotes_zero(&self.digits)
    }

    /// Whether the number lies in the range of a 32-bit float.
    pub fn in_float_range(&self) -> (r: bool)
        ensures
            r == self@.in_float_range(),
    {
        proof {
            use_type_invariant(self);
        }
        if denotes_zero(&self.digits) {
            return true;
        }
        let bound = run_of(340282356779733661637539395458142568448u128);
        let limit = shifted(&bound, self.scale);
        if !run_below(&self.digits, &limit) {
            return false;
        }
        let half = run_of(37778931862957161709568u128);
        let steps = product_of(&half, &half);
        assert(digits_value(steps@) == float_steps()) by {
            assert(37778931862957161709568int * 37778931862957161709568int
                == 1427247692705959881058285969449495136382746624int);
        }
        let unit = run_of(1u128);
        let whole = shifted(&unit, self.scale);
        let reach = product_of(&self.digits, &steps);
        proof {
            assert(1 * pow10(self.scale as nat) == pow10(self.scale as nat)) by (nonlinear_arith);
        }
        run_below(&whole, &reach)
    }

    /// Whether the number is greater than zero.
    pub fn is_positive(&self) -> (r: bool)
        ensures
            r == self@.is_positive(),
    {
        !self.negative && !self.is_zero()
    }
}

/// Sums, differences, products and halves are exact: counted in units of the
/// result's scale, the result is the sum, the difference, the product, the
/// half of what went in.
pub proof fn law_arithmetic_is_exact(a: DecimalView, b: DecimalView)
    ensures
        a.plus(b).units() == a.units_at(a.plus(b).scale) + b.units_at(a.plus(b).scale),
        a.minus(b).units() == a.units_at(a.minus(b).scale) - b.units_at(a.minus(b).scale),
        a.times(b).units() == a.units() * b.units() && a.times(b).scale == a.scale + b.scale,
        2 * a.halved().units() == 10 * a.units() && a.halved().scale == a.scale + 1,
        a.plus(b).wf() && a.minus(b).wf() && a.times(b).wf() && a.halved().wf(),
{
    let scale = longer(a.scale, b.scale);
    law_from_units(a.units_at(scale) + b.units_at(scale), scale);
    law_from_units(a.units_at(scale) - b.units_at(scale), scale);
    law_from_units(a.units() * b.units(), a.scale + b.scale);
    law_from_units(5 * a.units(), a.scale + 1);
}

impl Decimal {
    /// The same number with the other sign.
    pub fn negated(&self) -> (r: Decimal)
        ensures
            r@ == self@.negated(),
    {
        proof {
            use_type_invariant(self);
        }
        let copy = self.clone();
        Decimal { negative: !self.negative, digits: copy.digits, scale: self.scale }
    }

    /// The difference of two numbers.
    pub fn minus(&self, other: &Decimal) -> (r: Decimal)
        ensures
            r@ == self@.minus(other@),
    {
        proof {
            use_type_invariant(self);
            use_type_invariant(other);
        }
        let scale: usize = if self.scale >= other.scale {
            self.scale
        } else {
            other.scale
        };
        let near = shifted(&self.digits, scale - self.scale);
        let far = shifted(&other.digits, scale - other.scale);
        let x = widened(&near, far.len());
        let y = widened(&far, near.len());
        let ghost vx = digits_value(x@) as int;
        let ghost vy = digits_value(y@) as int;
        let ghost a = self@.units_at(scale as nat);
        let ghost b = other@.units_at(scale as nat);
        proof {
            let pa = pow10((scale - self.scale) as nat) as int;
            let pb = pow10((scale - other.scale) as nat) as int;
            let ma = self@.magnitude() as int;
            let mb = other@.magnitude() as int;
            assert(vx == ma * pa);
            assert(vy == mb * pb);
            assert((-ma) * pa == -(ma * pa)) by (nonlinear_arith);
            assert((-mb) * pb == -(mb * pb)) by (nonlinear_arith);
            assert(a == if self.negative {
                -vx
            } else {
                vx
            });
            assert(b == if other.negative {
                -vy
            } else {
                vy
            });
        }
        let mut negative = self.negative;
        let wide: Vec<u8>;
        if self.negative == other.negative {
            let (forward, borrowed) = difference_of(&x, &y);
            if borrowed {
                let (backward, _) = difference_of(&y, &x);
                wide = backward;
                negative = !self.negative;
            } else {
                wide = forward;
            }
        } else {
            wide = sum_of(&x, &y);
        }
        let digits = trimmed(&wide, scale + 1);
        if denotes_zero(&digits) {
            negative = false;
        }
        let r = Decimal { negative, digits, scale };
        proof {
            assert(r@.units() == a - b);
            assert(r@.canonical());
            lemma_canonical(r@);
        }
        r
    }

    /// The sum of two numbers.
    pub fn plus(&self, other: &Decimal) -> (r: Decimal)
        ensures
            r@ == self@.plus(other@),
    {
        let opposite = other.negated();
        proof {
            let scale = longer(self@.scale, other@.scale);
            let p = pow10((scale - other@.scale) as nat) as int;
            let m = other@.magnitude() as int;
            assert((-m) * p == -(m * p)) by (nonlinear_arith);
            assert(opposite@.units_at(scale) == -other@.units_at(scale));
        }
        self.minus(&opposite)
    }

    /// Half the number.
    pub fn halved(&self) -> (r: Decimal)
        ensures
            r@ == self@.halved(),
    {
        proof {
            use_type_invariant(self);
        }
        let x = widened(&self.digits, 0);
        let fives = product_with_digit(&x, 5);
        let wide = widened(&fives, 0);
        assert(self.scale + 2 <= wide.len());
        let scale: usize = self.scale + 1;
        let digits = trimmed(&wide, scale + 1);
        let negative = self.negative && !denotes_zero(&digits);
        let r = Decimal { negative, digits, scale };
        proof {
            let m = self@.magnitude() as int;
            assert(digits_value(digits@) == m * 5);
            assert(r@.units() == 5 * self@.units());
            assert(r@.canonical());
            lemma_canonical(r@);
        }
        r
    }

    /// The product of two numbers.
    pub fn times(&self, other: &Decimal) -> (r: Decimal)
        ensures
            r@ == self@.times(other@),
    {
        proof {
            use_type_invariant(self);
            use_type_invariant(other);
        }
        let product = product_of(&self.digits, &other.digits);
        let room = shifted(&self.digits, other.digits.len());
        assert(self.scale + other.scale <= room.len());
        let scale: usize = self.scale + other.scale;
        let wide = widened(&product, scale);
        let digits = trimmed(&wide, scale + 1);
        let negative = (self.negative != other.negative) && !denotes_zero(&digits);
        let r = Decimal { negative, digits, scale };
        proof {
            let ma = self@.magnitude() as int;
            let mb = other@.magnitude() as int;
            assert(digits_value(digits@) == ma * mb);
            assert((-ma) * mb == -(ma * mb)) by (nonlinear_arith);
            assert(ma * (-mb) == -(ma * mb)) by (nonlinear_arith);
            assert((-ma) * (-mb) == ma * mb) by (nonlinear_arith);
            assert(ma * mb == 0 <==> (ma == 0 || mb == 0)) by (nonlinear_arith);
            assert(r@.units() == self@.units() * other@.units());
            assert(r@.canonical());
            lemma_canonical(r@);
        }
        r
    }
}

} // verus!
