//! Exchange rates as exact fractions, and sums of money in minor units.
//!
//! An amount of money is a whole number of minor units (hundredths of the
//! currency's unit), held in an `i64`. A [`QuotedRate`] is a rate as a source
//! quotes it: a positive fraction of two `u32`. A [`Rate`] is what a lookup
//! gives: a positive fraction of two `u64`, wide enough for a quoted rate, its
//! inverse, and one quoted rate divided by another. Inverting swaps the parts
//! and chaining multiplies them part by part, so both are exact. Only the
//! conversion of an amount rounds, once, to the nearest minor unit.

use vstd::prelude::*;

verus! {

/// The largest numerator or denominator of a quoted rate. The product of two
/// parts that respect it fits a `u64`.
pub const QUOTE_MAX: u64 = 0xFFFF_FFFF;

/// A fraction `num / den` of mathematical integers: what a [`Rate`] stands for.
pub struct Ratio {
    pub num: int,
    pub den: int,
}

impl Ratio {
    /// Both parts are at least 1.
    pub open spec fn is_positive(self) -> bool {
        self.num >= 1 && self.den >= 1
    }

    /// Both parts lie between 1 and [`QUOTE_MAX`].
    pub open spec fn is_quote(self) -> bool {
        1 <= self.num <= QUOTE_MAX && 1 <= self.den <= QUOTE_MAX
    }

    /// Both parts fit a `u64`.
    pub open spec fn fits(self) -> bool {
        self.num <= u64::MAX && self.den <= u64::MAX
    }

    /// The fraction 1/1.
    pub open spec fn one() -> Ratio {
        Ratio { num: 1, den: 1 }
    }

    /// The fraction with the parts swapped.
    pub open spec fn inverse(self) -> Ratio {
        Ratio { num: self.den, den: self.num }
    }

    /// The product, part by part, not reduced.
    pub open spec fn times(self, other: Ratio) -> Ratio {
        Ratio { num: self.num * other.num, den: self.den * other.den }
    }

    /// The two fractions denote the same number.
    pub open spec fn same_value(self, other: Ratio) -> bool {
        self.num * other.den == other.num * self.den
    }

    /// `amount` times this fraction, rounded to the nearest integer, a half
    /// away from zero.
    pub open spec fn applied_to(self, amount: int) -> int {
        let magnitude = if amount < 0 {
            -amount
        } else {
            amount
        };
        let scaled = (magnitude * self.num + self.den / 2) / self.den;
        if amount < 0 {
            -scaled
        } else {
            scaled
        }
    }
}

/// `value` fits an `i64`.
pub open spec fn fits_i64(value: int) -> bool {
    i64::MIN <= value <= i64::MAX
}

/// The sum of a sequence of integers.
pub open spec fn sum_of(values: Seq<int>) -> int
    decreases values.len(),
{
    if values.len() == 0 {
        0
    } else {
        sum_of(values.drop_last()) + values.last()
    }
}

/// The amounts of a vector as mathematical integers.
pub open spec fn as_ints(values: Seq<i64>) -> Seq<int> {
    Seq::new(values.len(), |i: int| values[i] as int)
}

/// The sum of a sequence of at most 2^64 `i64` values fits an `i128`.
pub proof fn lemma_sum_bounded(values: Seq<i64>)
    ensures
        -(values.len() * 0x8000_0000_0000_0000) <= sum_of(as_ints(values)) <= values.len()
            * 0x8000_0000_0000_0000,
    decreases values.len(),
{
    if values.len() > 0 {
        lemma_sum_bounded(values.drop_last());
        assert(as_ints(values).drop_last() =~= as_ints(values.drop_last()));
    }
}

/// Appending one value adds it to the sum.
pub proof fn lemma_sum_push(values: Seq<int>, value: int)
    ensures
        sum_of(values.push(value)) == sum_of(values) + value,
{
    assert(values.push(value).drop_last() =~= values);
}

/// The sum of `values`, or `None` where it does not fit an `i64`. The running
/// total is kept in an `i128`, which no vector can overflow, so the outcome
/// does not depend on the order of the values.
pub fn checked_total(values: &Vec<i64>) -> (r: Option<i64>)
    ensures
        r == if fits_i64(sum_of(as_ints(values@))) {
            Some(sum_of(as_ints(values@)) as i64)
        } else {
            None::<i64>
        },
{
    let mut total: i128 = 0;
    let mut i: usize = 0;
    while i < values.len()
        invariant
            i <= values.len(),
            total == sum_of(as_ints(values@.take(i as int))),
        decreases values.len() - i,
    {
        proof {
            lemma_sum_bounded(values@.take(i as int));
            assert(values@.take(i as int + 1) =~= values@.take(i as int).push(values@[i as int]));
            assert(as_ints(values@.take(i as int + 1)) =~= as_ints(values@.take(i as int)).push(
                values@[i as int] as int,
            ));
            lemma_sum_push(as_ints(values@.take(i as int)), values@[i as int] as int);
        }
        total = total + values[i] as i128;
        i = i + 1;
    }
    proof {
        assert(values@.take(i as int) =~= values@);
    }
    if total >= i64::MIN as i128 && total <= i64::MAX as i128 {
        Some(total as i64)
    } else {
        None
    }
}

/// A rate as a source quotes it: a positive fraction whose parts fit a `u32`.
#[derive(Clone, Copy, Debug, PartialEq, Eq, Structural, Hash)]
pub struct QuotedRate {
    num: u32,
    den: u32,
}

impl View for QuotedRate {
    type V = Ratio;

    closed spec fn view(&self) -> Ratio {
        Ratio { num: self.num as int, den: self.den as int }
    }
}

impl QuotedRate {
    #[verifier::type_invariant]
    spec fn positive(self) -> bool {
        self.num >= 1 && self.den >= 1
    }

    /// The quoted rate `num / den`, or `None` where a part is zero.
    pub fn new(num: u32, den: u32) -> (r: Option<QuotedRate>)
        ensures
            r.is_some() <==> num >= 1 && den >= 1,
            r matches Some(rate) ==> rate@ == (Ratio { num: num as int, den: den as int }),
    {
        if num >= 1 && den >= 1 {
            Some(QuotedRate { num, den })
        } else {
            None
        }
    }

    /// The numerator; a quoted rate is always a quote.
    pub fn num(&self) -> (r: u32)
        ensures
            r == self@.num,
            self@.is_quote(),
    {
        proof {
            use_type_invariant(self);
        }
        self.num
    }

    /// The denominator; a quoted rate is always a quote.
    pub fn den(&self) -> (r: u32)
        ensures
            r == self@.den,
            self@.is_quote(),
    {
        proof {
            use_type_invariant(self);
        }
        self.den
    }

    /// The quoted rate of the opposite direction: the parts swapped.
    pub fn inverse(&self) -> (r: QuotedRate)
        ensures
            r@ == self@.inverse(),
    {
        proof {
            use_type_invariant(self);
        }
        QuotedRate { num: self.den, den: self.num }
    }

    /// This quoted rate as a [`Rate`].
    pub fn to_rate(&self) -> (r: Rate)
        ensures
            r@ == self@,
    {
        proof {
            use_type_invariant(self);
        }
        Rate { num: self.num as u64, den: self.den as u64 }
    }

    /// The rate of going through `self` and then against `other`: `self`
    /// divided by `other`. Two quoted rates always have one.
    pub fn over(&self, other: &QuotedRate) -> (r: Rate)
        ensures
            r@ == self@.times(other@.inverse()),
    {
        proof {
            use_type_invariant(self);
            use_type_invariant(other);
            let a: int = self.num as int;
            let b: int = other.den as int;
            let c: int = self.den as int;
            let d: int = other.num as int;
            assert(1 <= a * b <= 0xFFFF_FFFF * 0xFFFF_FFFF) by (nonlinear_arith)
                requires
                    1 <= a <= 0xFFFF_FFFF,
                    1 <= b <= 0xFFFF_FFFF,
            ;
            assert(1 <= c * d <= 0xFFFF_FFFF * 0xFFFF_FFFF) by (nonlinear_arith)
                requires
                    1 <= c <= 0xFFFF_FFFF,
                    1 <= d <= 0xFFFF_FFFF,
            ;
        }
        Rate {
            num: (self.num as u64) * (other.den as u64),
            den: (self.den as u64) * (other.num as u64),
        }
    }
}

/// A positive exchange rate: one unit of the source currency is worth
/// `num / den` units of the target currency.
#[derive(Clone, Copy, Debug, PartialEq, Eq, Structural, Hash)]
pub struct Rate {
    num: u64,
    den: u64,
}

impl View for Rate {
    type V = Ratio;

    closed spec fn view(&self) -> Ratio {
        Ratio { num: self.num as int, den: self.den as int }
    }
}

impl Rate {
    #[verifier::type_invariant]
    spec fn positive(self) -> bool {
        self.num >= 1 && self.den >= 1
    }

    /// The rate `num / den`, or `None` where a part is zero.
    pub fn new(num: u64, den: u64) -> (r: Option<Rate>)
        ensures
            r.is_some() <==> num >= 1 && den >= 1,
            r matches Some(rate) ==> rate@ == (Ratio { num: num as int, den: den as int }),
    {
        if num >= 1 && den >= 1 {
            Some(Rate { num, den })
        } else {
            None
        }
    }

    /// The rate between a currency and itself.
    pub fn one() -> (r: Rate)
        ensures
            r@ == Ratio::one(),
    {
        Rate { num: 1, den: 1 }
    }

    /// The numerator; it is at least 1.
    pub fn num(&self) -> (r: u64)
        ensures
            r == self@.num,
            self@.is_positive(),
            self@.fits(),
    {
        proof {
            use_type_invariant(self);
        }
        self.num
    }

    /// The denominator; it is at least 1.
    pub fn den(&self) -> (r: u64)
        ensures
            r == self@.den,
            self@.is_positive(),
            self@.fits(),
    {
        proof {
            use_type_invariant(self);
        }
        self.den
    }

    /// The rate of the opposite direction: the parts swapped.
    pub fn inverse(&self) -> (r: Rate)
        ensures
            r@ == self@.inverse(),
    {
        proof {
            use_type_invariant(self);
        }
        Rate { num: self.den, den: self.num }
    }

    /// The rate of going through `self` and then through `other`, or `None`
    /// where a part of the product does not fit a `u64`.
    pub fn times(&self, other: &Rate) -> (r: Option<Rate>)
        ensures
            r.is_some() <==> self@.times(other@).fits(),
            r matches Some(rate) ==> rate@ == self@.times(other@),
            self@.is_quote() && other@.is_quote() ==> r.is_some(),
    {
        proof {
            use_type_invariant(self);
            use_type_invariant(other);
            let a: int = self.num as int;
            let b: int = other.num as int;
            let c: int = self.den as int;
            let d: int = other.den as int;
            assert(a * b >= 1) by (nonlinear_arith)
                requires
                    a >= 1,
                    b >= 1,
            ;
            assert(c * d >= 1) by (nonlinear_arith)
                requires
                    c >= 1,
                    d >= 1,
            ;
            if self@.is_quote() && other@.is_quote() {
                assert(a * b <= 0xFFFF_FFFF * 0xFFFF_FFFF) by (nonlinear_arith)
                    requires
                        1 <= a <= 0xFFFF_FFFF,
                        1 <= b <= 0xFFFF_FFFF,
                ;
                assert(c * d <= 0xFFFF_FFFF * 0xFFFF_FFFF) by (nonlinear_arith)
                    requires
                        1 <= c <= 0xFFFF_FFFF,
                        1 <= d <= 0xFFFF_FFFF,
                ;
            }
        }
        match self.num.checked_mul(other.num) {
            Some(num) => match self.den.checked_mul(other.den) {
                Some(den) => Some(Rate { num, den }),
                None => None,
            },
            None => None,
        }
    }

    /// True where the two rates denote the same number.
    pub fn same_value(&self, other: &Rate) -> (r: bool)
        ensures
            r == self@.same_value(other@),
    {
        proof {
            let a: int = self.num as int;
            let b: int = other.den as int;
            let c: int = other.num as int;
            let d: int = self.den as int;
            assert(0 <= a * b <= 0xFFFF_FFFF_FFFF_FFFF * 0xFFFF_FFFF_FFFF_FFFF) by (nonlinear_arith)
                requires
                    0 <= a <= 0xFFFF_FFFF_FFFF_FFFF,
                    0 <= b <= 0xFFFF_FFFF_FFFF_FFFF,
            ;
            assert(0 <= c * d <= 0xFFFF_FFFF_FFFF_FFFF * 0xFFFF_FFFF_FFFF_FFFF) by (nonlinear_arith)
                requires
                    0 <= c <= 0xFFFF_FFFF_FFFF_FFFF,
                    0 <= d <= 0xFFFF_FFFF_FFFF_FFFF,
            ;
        }
        let left: u128 = (self.num as u128) * (other.den as u128);
        let right: u128 = (other.num as u128) * (self.den as u128);
        left == right
    }

    /// `amount` minor units converted at this rate and rounded to the nearest
    /// minor unit, a half away from zero; `None` where the result does not fit
    /// an `i64`.
    pub fn apply(&self, amount: i64) -> (r: Option<i64>)
        ensures
            r == if fits_i64(self@.applied_to(amount as int)) {
                Some(self@.applied_to(amount as int) as i64)
            } else {
                None::<i64>
            },
    {
        proof {
            use_type_invariant(self);
        }
        let magnitude: u128 = if amount < 0 {
            (-(amount as i128)) as u128
        } else {
            amount as u128
        };
        proof {
            let m: int = magnitude as int;
            let n: int = self.num as int;
            assert(0 <= m * n <= 0x8000_0000_0000_0000 * 0xFFFF_FFFF_FFFF_FFFF) by (nonlinear_arith)
                requires
                    0 <= m <= 0x8000_0000_0000_0000,
                    0 <= n <= 0xFFFF_FFFF_FFFF_FFFF,
            ;
        }
        let product: u128 = magnitude * (self.num as u128);
        let half: u128 = (self.den / 2) as u128;
        let scaled: u128 = (product + half) / (self.den as u128);
        if amount < 0 {
            if scaled <= 0x8000_0000_0000_0000 {
                Some((-(scaled as i128)) as i64)
            } else {
                None
            }
        } else {
            if scaled <= 0x7FFF_FFFF_FFFF_FFFF {
                Some(scaled as i64)
            } else {
                None
            }
        }
    }
}

} // verus!
