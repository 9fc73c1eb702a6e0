//! The currency model: exact nonnegative rational amounts and runtime
//! currency descriptors, each carrying a display symbol and a fixed,
//! strictly positive ratio to the canonical unit ("ITC"). Converting an
//! amount between currencies multiplies by the ratio of the source currency
//! and divides by the ratio of the target currency.

use vstd::prelude::*;

verus! {

/// A nonnegative rational amount `num / den`. Well-formed values have a
/// positive denominator. Monetary amounts and balances are represented
/// exactly, so conversion round trips lose nothing.
#[derive(Clone, Copy, Debug, PartialEq, Eq, Structural)]
pub struct Rat {
    pub num: u64,
    pub den: u64,
}

/// The mathematical value of a rational, as a pair of unbounded integers.
pub ghost struct Frac {
    pub num: int,
    pub den: int,
}

impl View for Rat {
    type V = Frac;

    open spec fn view(&self) -> Frac {
        Frac { num: self.num as int, den: self.den as int }
    }
}

/// A fraction that denotes a nonnegative value: positive denominator,
/// nonnegative numerator.
pub open spec fn frac_wf(f: Frac) -> bool {
    f.den >= 1 && f.num >= 0
}

/// Value equality of two fractions: `a.num / a.den == b.num / b.den`,
/// stated by cross multiplication.
pub open spec fn frac_eq(a: Frac, b: Frac) -> bool {
    a.num * b.den == b.num * a.den
}

/// Value order of two fractions (for positive denominators):
/// `a.num / a.den <= b.num / b.den`, stated by cross multiplication.
pub open spec fn frac_le(a: Frac, b: Frac) -> bool {
    a.num * b.den <= b.num * a.den
}

/// The exact sum of two fractions.
pub open spec fn frac_add(a: Frac, b: Frac) -> Frac {
    Frac { num: a.num * b.den + b.num * a.den, den: a.den * b.den }
}

/// The exact difference of two fractions.
pub open spec fn frac_sub(a: Frac, b: Frac) -> Frac {
    Frac { num: a.num * b.den - b.num * a.den, den: a.den * b.den }
}

/// The exact product of two fractions.
pub open spec fn frac_mul(a: Frac, b: Frac) -> Frac {
    Frac { num: a.num * b.num, den: a.den * b.den }
}

/// The exact quotient of two fractions.
pub open spec fn frac_div(a: Frac, b: Frac) -> Frac {
    Frac { num: a.num * b.den, den: a.den * b.num }
}

/// Whether a fraction's parts both fit the machine representation.
pub open spec fn frac_fits(f: Frac) -> bool {
    f.num <= u64::MAX && f.den <= u64::MAX
}

/// The product of two positive values is positive.
proof fn lemma_mul_pos(x: int, y: int)
    requires
        x >= 1,
        y >= 1,
    ensures
        x * y >= 1,
{
    assert(x * y >= 1) by (nonlinear_arith)
        requires
            x >= 1,
            y >= 1,
    ;
}

/// The product of two values bounded by `u64::MAX` fits a `u128`.
proof fn lemma_mul_fits_u128(x: int, y: int)
    requires
        0 <= x <= u64::MAX,
        0 <= y <= u64::MAX,
    ensures
        0 <= x * y <= u128::MAX,
{
    assert(0 <= x * y <= u128::MAX) by (nonlinear_arith)
        requires
            0 <= x <= u64::MAX,
            0 <= y <= u64::MAX,
    ;
}

impl Rat {
    /// Well-formed rationals have a positive denominator.
    pub open spec fn wf(self) -> bool {
        self.den >= 1
    }

    /// Builds the rational `num / den`.
    pub fn new(num: u64, den: u64) -> (r: Rat)
        requires
            den >= 1,
        ensures
            r.num == num,
            r.den == den,
            r.wf(),
    {
        Rat { num, den }
    }

    /// Builds a whole number of units.
    pub fn from_units(n: u64) -> (r: Rat)
        ensures
            r.num == n,
            r.den == 1,
            r.wf(),
    {
        Rat { num: n, den: 1 }
    }

    /// The exact sum `self + other`.
    pub fn add(&self, other: &Rat) -> (r: Rat)
        requires
            self.wf(),
            other.wf(),
            frac_fits(frac_add(self@, other@)),
        ensures
            r@ == frac_add(self@, other@),
            r.wf(),
    {
        proof {
            lemma_mul_fits_u128(self.num as int, other.den as int);
            lemma_mul_fits_u128(other.num as int, self.den as int);
            lemma_mul_fits_u128(self.den as int, other.den as int);
            lemma_mul_pos(self.den as int, other.den as int);
        }
        let n: u128 = (self.num as u128) * (other.den as u128) + (other.num as u128) * (self.den as u128);
        let d: u128 = (self.den as u128) * (other.den as u128);
        Rat { num: n as u64, den: d as u64 }
    }

    /// The exact difference `self - other`; demands `other <= self`.
    pub fn sub(&self, other: &Rat) -> (r: Rat)
        requires
            self.wf(),
            other.wf(),
            frac_le(other@, self@),
            frac_fits(frac_sub(self@, other@)),
        ensures
            r@ == frac_sub(self@, other@),
            r.wf(),
    {
        proof {
            lemma_mul_fits_u128(self.num as int, other.den as int);
            lemma_mul_fits_u128(other.num as int, self.den as int);
            lemma_mul_fits_u128(self.den as int, other.den as int);
            lemma_mul_pos(self.den as int, other.den as int);
        }
        let n: u128 = (self.num as u128) * (other.den as u128) - (other.num as u128) * (self.den as u128);
        let d: u128 = (self.den as u128) * (other.den as u128);
        Rat { num: n as u64, den: d as u64 }
    }

    /// The exact product `self * other`.
    pub fn mul(&self, other: &Rat) -> (r: Rat)
        requires
            self.wf(),
            other.wf(),
            frac_fits(frac_mul(self@, other@)),
        ensures
            r@ == frac_mul(self@, other@),
            r.wf(),
    {
        proof {
            lemma_mul_fits_u128(self.num as int, other.num as int);
            lemma_mul_fits_u128(self.den as int, other.den as int);
            lemma_mul_pos(self.den as int, other.den as int);
        }
        let n: u128 = (self.num as u128) * (other.num as u128);
        let d: u128 = (self.den as u128) * (other.den as u128);
        Rat { num: n as u64, den: d as u64 }
    }

    /// The exact quotient `self / other`; demands a strictly positive divisor.
    pub fn div(&self, other: &Rat) -> (r: Rat)
        requires
            self.wf(),
            other.wf(),
            other.num >= 1,
            frac_fits(frac_div(self@, other@)),
        ensures
            r@ == frac_div(self@, other@),
            r.wf(),
    {
        proof {
            lemma_mul_fits_u128(self.num as int, other.den as int);
            lemma_mul_fits_u128(self.den as int, other.num as int);
            lemma_mul_pos(self.den as int, other.num as int);
        }
        let n: u128 = (self.num as u128) * (other.den as u128);
        let d: u128 = (self.den as u128) * (other.num as u128);
        Rat { num: n as u64, den: d as u64 }
    }

    /// Decides value order: whether `self <= other`.
    pub fn le(&self, other: &Rat) -> (r: bool)
        requires
            self.wf(),
            other.wf(),
        ensures
            r == frac_le(self@, other@),
    {
        proof {
            lemma_mul_fits_u128(self.num as int, other.den as int);
            lemma_mul_fits_u128(other.num as int, self.den as int);
        }
        (self.num as u128) * (other.den as u128) <= (other.num as u128) * (self.den as u128)
    }

    /// Decides value equality: whether `self` and `other` denote the same
    /// amount, even when their representations differ.
    pub fn same_value(&self, other: &Rat) -> (r: bool)
        requires
            self.wf(),
            other.wf(),
        ensures
            r == frac_eq(self@, other@),
    {
        proof {
            lemma_mul_fits_u128(self.num as int, other.den as int);
            lemma_mul_fits_u128(other.num as int, self.den as int);
        }
        (self.num as u128) * (other.den as u128) == (other.num as u128) * (self.den as u128)
    }
}

/// Converting `x` from a currency whose ratio is `from` into one whose
/// ratio is `to`: `x * (from / to)`.
pub open spec fn frac_convert(x: Frac, from: Frac, to: Frac) -> Frac {
    Frac { num: x.num * from.num * to.den, den: x.den * from.den * to.num }
}

/// A currency: a display symbol and the fixed, strictly positive value of
/// one unit of this currency in canonical units.
#[derive(Debug)]
pub struct Currency {
    pub symbol: String,
    pub ratio: Rat,
}

impl Currency {
    /// Well-formed currencies have a strictly positive ratio.
    pub open spec fn wf(self) -> bool {
        self.ratio.wf() && self.ratio.num >= 1
    }

    /// Defines a currency from its display symbol and its ratio to the
    /// canonical unit. A non-positive ratio is a programmer error and is
    /// ruled out here rather than reported at use sites.
    pub fn new(symbol: String, ratio: Rat) -> (c: Currency)
        requires
            ratio.wf(),
            ratio.num >= 1,
        ensures
            c.symbol@ == symbol@,
            c.ratio == ratio,
            c.wf(),
    {
        Currency { symbol, ratio }
    }

    /// The canonical unit itself: ratio one.
    pub fn itc() -> (c: Currency)
        ensures
            c.symbol@ == "ITC::"@,
            c.ratio.num == 1,
            c.ratio.den == 1,
            c.wf(),
    {
        Currency { symbol: String::from_str("ITC::"), ratio: Rat { num: 1, den: 1 } }
    }

    /// The display symbol.
    pub fn symbol(&self) -> (r: &String)
        ensures
            r@ == self.symbol@,
    {
        &self.symbol
    }

    /// The value of one unit of this currency, in canonical units.
    pub fn ratio(&self) -> (r: Rat)
        ensures
            r == self.ratio,
    {
        self.ratio
    }

    /// Normalizes an amount of this currency to canonical units:
    /// `amount * ratio`.
    pub fn to_itc(&self, amount: &Rat) -> (r: Rat)
        requires
            self.wf(),
            amount.wf(),
            frac_fits(frac_mul(amount@, self.ratio@)),
        ensures
            r@ == frac_mul(amount@, self.ratio@),
            r.wf(),
    {
        amount.mul(&self.ratio)
    }

    /// Denominates a canonical amount in this currency: `amount / ratio`.
    pub fn from_itc(&self, amount: &Rat) -> (r: Rat)
        requires
            self.wf(),
            amount.wf(),
            frac_fits(frac_div(amount@, self.ratio@)),
        ensures
            r@ == frac_div(amount@, self.ratio@),
            r.wf(),
    {
        amount.div(&self.ratio)
    }

    /// Converts an amount of this currency into the target currency, going
    /// through the canonical unit: `amount * (self.ratio / target.ratio)`.
    pub fn to_currency(&self, amount: &Rat, target: &Currency) -> (r: Rat)
        requires
            self.wf(),
            target.wf(),
            amount.wf(),
            frac_fits(frac_convert(amount@, self.ratio@, target.ratio@)),
        ensures
            r@ == frac_convert(amount@, self.ratio@, target.ratio@),
            r.wf(),
    {
        proof {
            lemma_intermediate_product_fits(
                amount.num as int,
                self.ratio.num as int,
                target.ratio.den as int,
            );
            lemma_intermediate_product_fits(
                amount.den as int,
                self.ratio.den as int,
                target.ratio.num as int,
            );
        }
        let canonical = amount.mul(&self.ratio);
        canonical.div(&target.ratio)
    }

    /// Converts an amount of the source currency into this currency:
    /// `amount * (source.ratio / self.ratio)`.
    pub fn from_currency(&self, amount: &Rat, source: &Currency) -> (r: Rat)
        requires
            self.wf(),
            source.wf(),
            amount.wf(),
            frac_fits(frac_convert(amount@, source.ratio@, self.ratio@)),
        ensures
            r@ == frac_convert(amount@, source.ratio@, self.ratio@),
            r.wf(),
    {
        source.to_currency(amount, self)
    }
}

/// When a product of three nonnegative factors is bounded, so is the
/// product of the first two, as long as the third is positive.
proof fn lemma_intermediate_product_fits(x: int, y: int, z: int)
    requires
        0 <= x,
        0 <= y,
        1 <= z,
        x * y * z <= u64::MAX,
    ensures
        x * y <= u64::MAX,
{
    assert(x * y <= x * y * z) by (nonlinear_arith)
        requires
            0 <= x,
            0 <= y,
            1 <= z,
    ;
}

/// Round trip: converting an amount to canonical units and denominating
/// the result back in the same currency reproduces the value exactly.
pub proof fn lemma_conversion_round_trip(x: Frac, ratio: Frac)
    requires
        frac_wf(x),
        ratio.den >= 1,
        ratio.num >= 1,
    ensures
        frac_eq(frac_div(frac_mul(x, ratio), ratio), x),
{
    let y = frac_div(frac_mul(x, ratio), ratio);
    assert(x.num * ratio.num * ratio.den * x.den == x.num * (x.den * ratio.den * ratio.num))
        by (nonlinear_arith);
    assert(y.num * x.den == x.num * y.den);
}

/// Transitivity: converting directly from currency `a` to currency `b`
/// equals converting `a` to canonical units and then canonical units to
/// `b` — the two routes yield the very same value.
pub proof fn lemma_conversion_transitivity(x: Frac, a: Frac, b: Frac)
    requires
        frac_wf(x),
        a.den >= 1,
        a.num >= 1,
        b.den >= 1,
        b.num >= 1,
    ensures
        frac_eq(frac_convert(x, a, b), frac_div(frac_mul(x, a), b)),
{
    assert(frac_convert(x, a, b) == frac_div(frac_mul(x, a), b));
}

} // verus!
