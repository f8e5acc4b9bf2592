//! Exact decimal amounts of money.
//!
//! An amount is a signed 96-bit coefficient and a power of ten by which it is
//! divided. The arithmetic is that of the `rust_decimal` crate.

use vstd::prelude::*;

use crate::text;

verus! {

/// Largest coefficient of an amount, in absolute value.
pub const MAX_MANTISSA: i128 = 79_228_162_514_264_337_593_543_950_335;

/// Largest number of decimal places of an amount.
pub const MAX_SCALE: u32 = 28;

/// Largest number of decimal places that a number can be formatted with.
pub const MAX_SHOWN_PLACES: usize = 65_535;

/// The number `mantissa / 10^scale`.
pub struct DecimalView {
    pub mantissa: int,
    pub scale: nat,
}

/// An exact decimal number with at most 28 decimal places.
#[derive(Clone, Copy, Debug)]
pub struct Decimal {
    mantissa: i128,
    scale: u32,
}

impl View for Decimal {
    type V = DecimalView;

    closed spec fn view(&self) -> DecimalView {
        DecimalView { mantissa: self.mantissa as int, scale: self.scale as nat }
    }
}

/// Ten to the power `n`.
pub open spec fn pow10(n: nat) -> nat
    decreases n,
{
    if n == 0 {
        1
    } else {
        10 * pow10((n - 1) as nat)
    }
}

/// A power of ten is positive.
pub proof fn lemma_pow10_positive(n: nat)
    ensures
        pow10(n) > 0,
    decreases n,
{
    if n > 0 {
        lemma_pow10_positive((n - 1) as nat);
    }
}

/// A power of ten is the product of those that its exponent is the sum of.
pub proof fn lemma_pow10_sum(a: nat, b: nat)
    ensures
        pow10(a + b) == pow10(a) * pow10(b),
    decreases a,
{
    if a > 0 {
        lemma_pow10_sum((a - 1) as nat, b);
        let (x, y) = (pow10((a - 1) as nat) as int, pow10(b) as int);
        assert(10 * (x * y) == (10 * x) * y) by (nonlinear_arith);
    } else {
        assert(1 * pow10(b) == pow10(b)) by (nonlinear_arith);
    }
}

/// Whether a coefficient and a scale describe an amount that can be held.
pub open spec fn representable(mantissa: int, scale: nat) -> bool {
    -MAX_MANTISSA <= mantissa <= MAX_MANTISSA && scale <= MAX_SCALE
}

/// The amount with a given view.
pub closed spec fn of_view(v: DecimalView) -> Decimal {
    Decimal { mantissa: v.mantissa as i128, scale: v.scale as u32 }
}

/// The amount `mantissa / 10^scale`.
pub open spec fn dec(mantissa: int, scale: nat) -> Decimal {
    of_view(DecimalView { mantissa, scale })
}

/// `of_view` under an `Option`.
pub open spec fn of_opt(v: Option<DecimalView>) -> Option<Decimal> {
    match v {
        Some(v) => Some(of_view(v)),
        None => None,
    }
}

/// Whether `a` is at most `b`, as numbers.
pub open spec fn at_most(a: Decimal, b: Decimal) -> bool {
    a@.mantissa * pow10(b@.scale) <= b@.mantissa * pow10(a@.scale)
}

/// Whether `a` is less than `b`, as numbers.
pub open spec fn below(a: Decimal, b: Decimal) -> bool {
    !at_most(b, a)
}

/// Whether `a` and `b` are the same number, whatever their scales.
pub open spec fn same_amount(a: Decimal, b: Decimal) -> bool {
    at_most(a, b) && at_most(b, a)
}

/// The larger of two amounts, the second where they are equal.
pub open spec fn larger(a: Decimal, b: Decimal) -> Decimal {
    if below(b, a) {
        a
    } else {
        b
    }
}

/// An amount in units of the last decimal place that it could have.
pub open spec fn units(d: Decimal) -> int {
    d@.mantissa * pow10((MAX_SCALE - d@.scale) as nat)
}

/// Whether an amount can be held.
pub open spec fn fits(d: Decimal) -> bool {
    representable(d@.mantissa, d@.scale)
}

/// A number without its sign.
pub open spec fn size(n: int) -> int {
    if n < 0 {
        -n
    } else {
        n
    }
}

/// Whether an amount is `n / d` units, but for one unit and one in its twenty-seventh
/// digit.
pub open spec fn near(q: Decimal, n: int, d: int) -> bool {
    size(units(q) * d - n) * 1_000_000_000_000_000_000_000_000_000int <= d
        * 1_000_000_000_000_000_000_000_000_000int + size(n)
}

/// Whether a result is what becomes of `n / d` units: there is one where they are no more
/// than can be held, it is near them, and it is just them where an amount is.
#[verifier::opaque]
pub open spec fn rounded(r: Option<Decimal>, n: int, d: int) -> bool {
    &&& size(n) <= MAX_MANTISSA * pow10(MAX_SCALE as nat) * d ==> r is Some
    &&& r is Some ==> near(r->0, n, d)
    &&& forall|q: Decimal| #[trigger]
        fits(q) && units(q) * d == n ==> r is Some && same_amount(r->0, q)
}

/// Whether two results are the same number, the second one held, or neither is one.
pub open spec fn alike(a: Option<Decimal>, b: Option<Decimal>) -> bool {
    match (a, b) {
        (Some(a), Some(b)) => same_amount(a, b) && fits(b),
        (None, None) => true,
        _ => false,
    }
}

/// The sum of two amounts, or `None` where it is too large to be held.
pub uninterp spec fn decimal_sum(a: DecimalView, b: DecimalView) -> Option<DecimalView>;

/// The difference of two amounts, or `None` where it is too large to be held.
pub uninterp spec fn decimal_difference(a: DecimalView, b: DecimalView) -> Option<DecimalView>;

/// The product of two amounts, or `None` where it is too large to be held.
pub uninterp spec fn decimal_product(a: DecimalView, b: DecimalView) -> Option<DecimalView>;

/// The quotient of two amounts, or `None` where the divisor is zero or the
/// quotient is too large to be held.
pub uninterp spec fn decimal_quotient(a: DecimalView, b: DecimalView) -> Option<DecimalView>;

/// The coefficient of `v` when it is written with `scale` decimal places.
pub open spec fn rescaled(v: DecimalView, scale: nat) -> int {
    v.mantissa * pow10((scale - v.scale) as nat)
}

/// The larger of two scales.
pub open spec fn common_scale(a: DecimalView, b: DecimalView) -> nat {
    if a.scale >= b.scale {
        a.scale
    } else {
        b.scale
    }
}

/// Whether both amounts can be written with the larger of their scales.
pub open spec fn aligned(a: DecimalView, b: DecimalView) -> bool {
    &&& a.mantissa != 0
    &&& b.mantissa != 0
    &&& representable(rescaled(a, common_scale(a, b)), common_scale(a, b))
    &&& representable(rescaled(b, common_scale(a, b)), common_scale(a, b))
}

pub open spec fn sum(a: Decimal, b: Decimal) -> Option<Decimal> {
    of_opt(decimal_sum(a@, b@))
}

pub open spec fn difference(a: Decimal, b: Decimal) -> Option<Decimal> {
    of_opt(decimal_difference(a@, b@))
}

pub open spec fn product(a: Decimal, b: Decimal) -> Option<Decimal> {
    of_opt(decimal_product(a@, b@))
}

pub open spec fn quotient(a: Decimal, b: Decimal) -> Option<Decimal> {
    of_opt(decimal_quotient(a@, b@))
}

/// Whether a result is the sum of any two amounts that are the same numbers as `a` and
/// `b`.
#[verifier::opaque]
pub open spec fn steady_sum(r: Option<Decimal>, a: Decimal, b: Decimal) -> bool {
    forall|c: Decimal, d: Decimal|
        fits(c) && fits(d) && same_amount(a, c) && same_amount(b, d) ==> alike(
            r,
            #[trigger] sum(c, d),
        )
}

/// Whether a result is the difference of any two amounts that are the same numbers as `a`
/// and `b`.
#[verifier::opaque]
pub open spec fn steady_difference(r: Option<Decimal>, a: Decimal, b: Decimal) -> bool {
    forall|c: Decimal, d: Decimal|
        fits(c) && fits(d) && same_amount(a, c) && same_amount(b, d) ==> alike(
            r,
            #[trigger] difference(c, d),
        )
}

/// Whether a result is the product of any two amounts that are the same numbers as `a` and
/// `b`.
#[verifier::opaque]
pub open spec fn steady_product(r: Option<Decimal>, a: Decimal, b: Decimal) -> bool {
    forall|c: Decimal, d: Decimal|
        fits(c) && fits(d) && same_amount(a, c) && same_amount(b, d) ==> alike(
            r,
            #[trigger] product(c, d),
        )
}

/// Whether a result is the quotient of any two amounts that are the same numbers as `a`
/// and `b`.
#[verifier::opaque]
pub open spec fn steady_quotient(r: Option<Decimal>, a: Decimal, b: Decimal) -> bool {
    forall|c: Decimal, d: Decimal|
        fits(c) && fits(d) && same_amount(a, c) && same_amount(b, d) ==> alike(
            r,
            #[trigger] quotient(c, d),
        )
}

impl Decimal {
    #[verifier::type_invariant]
    spec fn held(self) -> bool {
        representable(self.mantissa as int, self.scale as nat)
    }

    /// The amount `num / 10^scale`.
    pub fn new(num: i64, scale: u32) -> (r: Decimal)
        requires
            scale <= MAX_SCALE,
        ensures
            r == dec(num as int, scale as nat),
            r@ == (DecimalView { mantissa: num as int, scale: scale as nat }),
    {
        Decimal { mantissa: num as i128, scale }
    }

    /// The amount `num / 10^scale`, where it can be held.
    pub fn from_parts(num: i128, scale: u32) -> (r: Option<Decimal>)
        ensures
            r is Some <==> representable(num as int, scale as nat),
            r is Some ==> r == Some(dec(num as int, scale as nat)) && r->0@ == (DecimalView {
                mantissa: num as int,
                scale: scale as nat,
            }),
    {
        if -MAX_MANTISSA <= num && num <= MAX_MANTISSA && scale <= MAX_SCALE {
            Some(Decimal { mantissa: num, scale })
        } else {
            None
        }
    }

    /// The coefficient.
    pub fn mantissa(&self) -> (r: i128)
        ensures
            r == self@.mantissa,
            -MAX_MANTISSA <= r <= MAX_MANTISSA,
    {
        proof {
            use_type_invariant(self);
        }
        self.mantissa
    }

    /// The number of decimal places.
    pub fn scale(&self) -> (r: u32)
        ensures
            r == self@.scale,
            r <= MAX_SCALE,
    {
        proof {
            use_type_invariant(self);
        }
        self.scale
    }

    /// Calls `rust_decimal::Decimal::checked_add`. Where both amounts can be
    /// written with the larger of the two scales, and so can their sum, the
    /// result is that sum at that scale. Adding zero changes nothing. Amounts
    /// that are not negative have a sum that is not. There is a sum wherever it is
    /// not too large; it is exact where an amount is, and off by no more than one in
    /// the last possible place and one in its twenty-seventh digit otherwise; and it
    /// is the same number for the same numbers, whatever their scales. Left unsaid is
    /// which digits a sum is rounded to.
    #[verifier::external_body]
    pub(crate) fn checked_add(&self, other: &Decimal) -> (r: Option<Decimal>)
        ensures
            r == of_opt(decimal_sum(self@, other@)),
            self@.mantissa == 0 ==> r == Some(*other),
            self@.mantissa != 0 && other@.mantissa == 0 ==> r == Some(*self),
            aligned(self@, other@) && representable(
                rescaled(self@, common_scale(self@, other@)) + rescaled(
                    other@,
                    common_scale(self@, other@),
                ),
                common_scale(self@, other@),
            ) ==> r == Some(
                dec(
                    rescaled(self@, common_scale(self@, other@)) + rescaled(
                        other@,
                        common_scale(self@, other@),
                    ),
                    common_scale(self@, other@),
                ),
            ),
            self@.mantissa >= 0 && other@.mantissa >= 0 && r is Some ==> r->0@.mantissa >= 0,
            rounded(r, units(*self) + units(*other), 1),
            steady_sum(r, *self, *other),
    {
        rust_decimal::Decimal::from_i128_with_scale(self.mantissa, self.scale)
            .checked_add(rust_decimal::Decimal::from_i128_with_scale(other.mantissa, other.scale))
            .map(|d| Decimal { mantissa: d.mantissa(), scale: d.scale() })
    }

    /// Calls `rust_decimal::Decimal::checked_sub`. Where both amounts can be
    /// written with the larger of the two scales, and so can their difference,
    /// the result is that difference at that scale. Taking zero away changes
    /// nothing. There is a difference wherever it is not too large; it is exact where
    /// an amount is, and off by no more than one in the last possible place and one
    /// in its twenty-seventh digit otherwise; and it is the same number for the same
    /// numbers, whatever their scales. Left unsaid is which digits a difference is
    /// rounded to.
    #[verifier::external_body]
    pub(crate) fn checked_sub(&self, other: &Decimal) -> (r: Option<Decimal>)
        ensures
            r == of_opt(decimal_difference(self@, other@)),
            self@.mantissa == 0 ==> r == Some(dec(-other@.mantissa, other@.scale)),
            self@.mantissa != 0 && other@.mantissa == 0 ==> r == Some(*self),
            aligned(self@, other@) && representable(
                rescaled(self@, common_scale(self@, other@)) - rescaled(
                    other@,
                    common_scale(self@, other@),
                ),
                common_scale(self@, other@),
            ) ==> r == Some(
                dec(
                    rescaled(self@, common_scale(self@, other@)) - rescaled(
                        other@,
                        common_scale(self@, other@),
                    ),
                    common_scale(self@, other@),
                ),
            ),
            rounded(r, units(*self) - units(*other), 1),
            steady_difference(r, *self, *other),
    {
        rust_decimal::Decimal::from_i128_with_scale(self.mantissa, self.scale)
            .checked_sub(rust_decimal::Decimal::from_i128_with_scale(other.mantissa, other.scale))
            .map(|d| Decimal { mantissa: d.mantissa(), scale: d.scale() })
    }

    /// Calls `rust_decimal::Decimal::checked_mul`. Zero times anything is zero
    /// without decimal places. Where the product of the coefficients can be
    /// held at the sum of the scales, the result is that product at that scale.
    /// Amounts that are not negative have a product that is not. There is a product
    /// wherever it is not too large; it is exact where an amount is, and off by no
    /// more than one in the last possible place and one in its twenty-seventh digit
    /// otherwise; and it is the same number for the same numbers, whatever their
    /// scales. Left unsaid is which digits a product is rounded to.
    #[verifier::external_body]
    pub(crate) fn checked_mul(&self, other: &Decimal) -> (r: Option<Decimal>)
        ensures
            r == of_opt(decimal_product(self@, other@)),
            self@.mantissa == 0 || other@.mantissa == 0 ==> r == Some(dec(0, 0)),
            self@.mantissa != 0 && other@.mantissa != 0 && representable(
                self@.mantissa * other@.mantissa,
                self@.scale + other@.scale,
            ) ==> r == Some(dec(self@.mantissa * other@.mantissa, self@.scale + other@.scale)),
            self@.mantissa >= 0 && other@.mantissa >= 0 && r is Some ==> r->0@.mantissa >= 0,
            rounded(r, units(*self) * units(*other), pow10(MAX_SCALE as nat) as int),
            steady_product(r, *self, *other),
    {
        rust_decimal::Decimal::from_i128_with_scale(self.mantissa, self.scale)
            .checked_mul(rust_decimal::Decimal::from_i128_with_scale(other.mantissa, other.scale))
            .map(|d| Decimal { mantissa: d.mantissa(), scale: d.scale() })
    }

    /// Calls `rust_decimal::Decimal::checked_div`. There is no quotient by zero,
    /// and zero divided by anything else is zero without decimal places. Amounts
    /// that are not negative have a quotient that is not. There is a quotient by an
    /// amount that is more than nothing wherever it is not too large; it is exact
    /// where an amount is, and off by no more than one in the last possible place and
    /// one in its twenty-seventh digit otherwise. A quotient is the same number for
    /// the same numbers, whatever their scales. Left unsaid is which digits it is
    /// rounded to.
    #[verifier::external_body]
    pub(crate) fn checked_div(&self, other: &Decimal) -> (r: Option<Decimal>)
        ensures
            r == of_opt(decimal_quotient(self@, other@)),
            other@.mantissa == 0 ==> r is None,
            self@.mantissa == 0 && other@.mantissa != 0 ==> r == Some(dec(0, 0)),
            self@.mantissa >= 0 && other@.mantissa >= 0 && r is Some ==> r->0@.mantissa >= 0,
            other@.mantissa > 0 ==> rounded(
                r,
                units(*self) * pow10(MAX_SCALE as nat),
                units(*other),
            ),
            steady_quotient(r, *self, *other),
    {
        rust_decimal::Decimal::from_i128_with_scale(self.mantissa, self.scale)
            .checked_div(rust_decimal::Decimal::from_i128_with_scale(other.mantissa, other.scale))
            .map(|d| Decimal { mantissa: d.mantissa(), scale: d.scale() })
    }

    /// Calls `<=` of `rust_decimal::Decimal`, which compares the two numbers
    /// exactly, whatever their scales.
    #[verifier::external_body]
    pub(crate) fn le(&self, other: &Decimal) -> (r: bool)
        ensures
            r == at_most(*self, *other),
    {
        rust_decimal::Decimal::from_i128_with_scale(self.mantissa, self.scale)
            <= rust_decimal::Decimal::from_i128_with_scale(other.mantissa, other.scale)
    }

    /// Whether this amount is less than `other`.
    pub fn lt(&self, other: &Decimal) -> (r: bool)
        ensures
            r == below(*self, *other),
    {
        !other.le(self)
    }

    /// Whether this amount is more than nothing.
    pub fn is_positive(&self) -> (r: bool)
        ensures
            r == (self@.mantissa > 0),
    {
        self.mantissa > 0
    }

    /// Whether this amount is nothing.
    pub fn is_zero(&self) -> (r: bool)
        ensures
            r == (self@.mantissa == 0),
    {
        self.mantissa == 0
    }

    /// The larger of two amounts, the other one where they are equal.
    pub fn max(self, other: Decimal) -> (r: Decimal)
        ensures
            r == larger(self, other),
            other@.mantissa == 0 ==> r@.mantissa >= 0,
    {
        proof {
            lemma_pow10_positive(other@.scale);
            lemma_pow10_positive(self@.scale);
            let (m, p, q) = (self@.mantissa, pow10(other@.scale) as int, pow10(self@.scale) as int);
            assert(m * p > 0 * q ==> m > 0) by (nonlinear_arith)
                requires
                    p > 0,
            ;
        }
        if other.lt(&self) {
            self
        } else {
            other
        }
    }

    /// Nothing.
    pub fn zero() -> (r: Decimal)
        ensures
            r == dec(0, 0),
            r@ == (DecimalView { mantissa: 0, scale: 0 }),
    {
        Decimal { mantissa: 0, scale: 0 }
    }
}

// ---- Amounts that may be missing ----

/// The sum of two amounts, where there are both and it can be held.
pub open spec fn sums(a: Option<Decimal>, b: Option<Decimal>) -> Option<Decimal> {
    match (a, b) {
        (Some(a), Some(b)) => sum(a, b),
        _ => None,
    }
}

/// The difference of two amounts, where there are both and it can be held.
pub open spec fn differences(a: Option<Decimal>, b: Option<Decimal>) -> Option<Decimal> {
    match (a, b) {
        (Some(a), Some(b)) => difference(a, b),
        _ => None,
    }
}

/// The product of two amounts, where there are both and it can be held.
pub open spec fn products(a: Option<Decimal>, b: Option<Decimal>) -> Option<Decimal> {
    match (a, b) {
        (Some(a), Some(b)) => product(a, b),
        _ => None,
    }
}

/// The quotient of two amounts, where there are both and it can be held.
pub open spec fn quotients(a: Option<Decimal>, b: Option<Decimal>) -> Option<Decimal> {
    match (a, b) {
        (Some(a), Some(b)) => quotient(a, b),
        _ => None,
    }
}

/// An amount is what it was made of.
pub proof fn lemma_dec(mantissa: int, scale: nat)
    requires
        representable(mantissa, scale),
    ensures
        dec(mantissa, scale)@ == (DecimalView { mantissa, scale }),
{
}

/// Amounts are ordered as their units are.
pub proof fn lemma_units_ordered(a: Decimal, b: Decimal)
    requires
        a@.scale <= MAX_SCALE,
        b@.scale <= MAX_SCALE,
    ensures
        at_most(a, b) <==> units(a) <= units(b),
{
    let (p, q) = ((MAX_SCALE - a@.scale) as nat, (MAX_SCALE - b@.scale) as nat);
    lemma_pow10_sum(a@.scale, p);
    lemma_pow10_sum(b@.scale, q);
    lemma_pow10_positive(a@.scale);
    lemma_pow10_positive(b@.scale);
    lemma_pow10_positive(p);
    lemma_pow10_positive(q);
    let (x, y) = (pow10(a@.scale) as int, pow10(b@.scale) as int);
    let (u, v) = (pow10(p) as int, pow10(q) as int);
    let (m, n) = (a@.mantissa, b@.mantissa);
    let all = pow10(MAX_SCALE as nat) as int;
    assert(x * u == all && y * v == all);
    let w = u * v;
    assert(w > 0) by (nonlinear_arith)
        requires
            u > 0,
            v > 0,
            w == u * v,
    ;
    assert(all > 0) by (nonlinear_arith)
        requires
            x > 0,
            u > 0,
            x * u == all,
    ;
    assert((m * y) * (u * v) == (m * u) * (y * v)) by (nonlinear_arith);
    assert((n * x) * (u * v) == (n * v) * (x * u)) by (nonlinear_arith);
    if m * y <= n * x {
        assert((m * y) * w <= (n * x) * w) by (nonlinear_arith)
            requires
                m * y <= n * x,
                w > 0,
        ;
        assert(m * u <= n * v) by (nonlinear_arith)
            requires
                (m * u) * all <= (n * v) * all,
                all > 0,
        ;
    }
    if m * u <= n * v {
        assert((m * u) * all <= (n * v) * all) by (nonlinear_arith)
            requires
                m * u <= n * v,
                all > 0,
        ;
        assert(m * y <= n * x) by (nonlinear_arith)
            requires
                (m * y) * w <= (n * x) * w,
                w > 0,
        ;
    }
}

/// The sum of two amounts, where there are both and it can be held.
pub fn plus(a: Option<Decimal>, b: Option<Decimal>) -> (r: Option<Decimal>)
    ensures
        r == sums(a, b),
        r is Some ==> fits(r->0),
        a is Some && b is Some && a->0@.mantissa >= 0 && b->0@.mantissa >= 0 && r is Some
            ==> r->0@.mantissa >= 0,
        a is Some && b is Some ==> rounded(r, units(a->0) + units(b->0), 1) && steady_sum(
            r,
            a->0,
            b->0,
        ),
{
    match (a, b) {
        (Some(a), Some(b)) => settle(a.checked_add(&b)),
        _ => None,
    }
}

/// The difference of two amounts, where there are both and it can be held.
pub fn minus(a: Option<Decimal>, b: Option<Decimal>) -> (r: Option<Decimal>)
    ensures
        r == differences(a, b),
        r is Some ==> fits(r->0),
        a is Some && b is Some ==> rounded(r, units(a->0) - units(b->0), 1) && steady_difference(
            r,
            a->0,
            b->0,
        ),
{
    match (a, b) {
        (Some(a), Some(b)) => settle(a.checked_sub(&b)),
        _ => None,
    }
}

/// The product of two amounts, where there are both and it can be held.
pub fn times(a: Option<Decimal>, b: Option<Decimal>) -> (r: Option<Decimal>)
    ensures
        r == products(a, b),
        r is Some ==> fits(r->0),
        a is Some && b is Some && a->0@.mantissa >= 0 && b->0@.mantissa >= 0 && r is Some
            ==> r->0@.mantissa >= 0,
        a is Some && b is Some ==> rounded(
            r,
            units(a->0) * units(b->0),
            pow10(MAX_SCALE as nat) as int,
        ) && steady_product(r, a->0, b->0),
{
    match (a, b) {
        (Some(a), Some(b)) => settle(a.checked_mul(&b)),
        _ => None,
    }
}

/// The quotient of two amounts, where there are both and it can be held.
pub fn over(a: Option<Decimal>, b: Option<Decimal>) -> (r: Option<Decimal>)
    ensures
        r == quotients(a, b),
        r is Some ==> fits(r->0),
        a is Some && b is Some && b->0@.mantissa > 0 ==> rounded(
            r,
            units(a->0) * pow10(MAX_SCALE as nat),
            units(b->0),
        ),
        a is Some && b is Some ==> steady_quotient(r, a->0, b->0),
{
    match (a, b) {
        (Some(a), Some(b)) => settle(a.checked_div(&b)),
        _ => None,
    }
}

fn settle(a: Option<Decimal>) -> (r: Option<Decimal>)
    ensures
        r == a,
        r is Some ==> fits(r->0),
{
    match a {
        Some(d) => {
            proof {
                use_type_invariant(&d);
            }
            Some(d)
        },
        None => None,
    }
}

// ---- Notation ----

/// The amount that a text stands for, or `None` where it stands for none.
pub uninterp spec fn decimal_from_text(s: Seq<char>) -> Option<DecimalView>;

/// An amount rounded to a binary fraction and written with some decimal places.
pub uninterp spec fn binary_text(v: DecimalView, places: nat) -> Seq<char>;

/// An amount rounded to a binary fraction of twice that length and written with some
/// decimal places.
pub uninterp spec fn double_text(v: DecimalView, places: nat) -> Seq<char>;

/// The double that is nearest to an amount, as an amount.
pub uninterp spec fn double_value(v: DecimalView) -> Option<DecimalView>;

/// The largest number up to which doubles hold every whole number.
pub const DOUBLE_WHOLE: i64 = 9_007_199_254_740_992;

/// Whether an amount lies where another one does among the whole numbers that doubles
/// hold.
pub open spec fn among_wholes(a: Decimal, b: Decimal) -> bool {
    forall|k: int|
        #![trigger dec(k, 0)]
        -DOUBLE_WHOLE <= k <= DOUBLE_WHOLE ==> (at_most(a, dec(k, 0)) ==> at_most(b, dec(k, 0)))
            && (at_most(dec(k, 0), a) ==> at_most(dec(k, 0), b))
}

/// An amount as the double that is nearest to it, or itself where that is too large to be
/// held.
pub open spec fn in_double(d: Decimal) -> Decimal {
    match of_opt(double_value(d@)) {
        Some(x) => x,
        None => d,
    }
}

/// The amount that a text of at most 28 digits stands for, with a point between
/// two of them or without one.
pub open spec fn plain_amount(s: Seq<char>) -> Option<DecimalView> {
    let whole = text::up_to(s, '.');
    let fraction = s.skip(whole.len() as int + 1);
    if whole.len() == s.len() && 0 < s.len() <= 28 && text::all_digits(s) {
        Some(DecimalView { mantissa: text::number_value(s) as int, scale: 0 })
    } else if whole.len() < s.len() && 0 < whole.len() && 0 < fraction.len() && s.len() <= 29
        && text::all_digits(whole) && text::all_digits(fraction) {
        Some(
            DecimalView { mantissa: text::number_value(whole + fraction) as int, scale: fraction.len() },
        )
    } else {
        None
    }
}

/// The absolute value of an integer.
pub open spec fn magnitude(n: int) -> nat {
    if n < 0 {
        (-n) as nat
    } else {
        n as nat
    }
}

/// `s` with as many zeros before it as it takes to reach a length.
pub open spec fn padded(s: Seq<char>, len: nat) -> Seq<char>
    decreases len - s.len(),
{
    if s.len() >= len {
        s
    } else {
        padded(seq!['0'] + s, len)
    }
}

/// The digits of an amount, at least one of them before the decimal places.
pub open spec fn amount_digits(v: DecimalView) -> Seq<char> {
    padded(text::number_text(magnitude(v.mantissa)), v.scale + 1)
}

/// The sign of an amount, where it is negative.
pub open spec fn amount_sign(v: DecimalView) -> Seq<char> {
    if v.mantissa < 0 {
        seq!['-']
    } else {
        Seq::empty()
    }
}

/// The digits of an amount that stand before its decimal places.
pub open spec fn whole_digits(v: DecimalView) -> Seq<char> {
    amount_digits(v).take(amount_digits(v).len() - v.scale)
}

/// The decimal places of an amount.
pub open spec fn fraction_digits(v: DecimalView) -> Seq<char> {
    amount_digits(v).skip(amount_digits(v).len() - v.scale)
}

/// An amount in decimal notation, with all of its decimal places.
pub open spec fn amount_text(v: DecimalView) -> Seq<char> {
    fixed_text(v, v.scale)
}

/// An amount in decimal notation with a number of decimal places, cut off where
/// it has more and filled with zeros where it has fewer.
pub open spec fn fixed_text(v: DecimalView, places: nat) -> Seq<char> {
    if places == 0 {
        amount_sign(v) + whole_digits(v)
    } else {
        amount_sign(v) + whole_digits(v) + seq!['.'] + Seq::new(
            places,
            |i: int|
                if i < v.scale {
                    fraction_digits(v)[i]
                } else {
                    '0'
                },
        )
    }
}

impl Decimal {
    /// Calls `str::parse` for `rust_decimal::Decimal`. A text of at most 28
    /// digits, with a point between two of them or without one, stands for the
    /// number that it spells, with as many decimal places as it has digits after
    /// the point. Left unsaid is which other texts stand for a number.
    #[verifier::external_body]
    fn from_text(s: &str) -> (r: Option<Decimal>)
        ensures
            r == of_opt(decimal_from_text(s@)),
            plain_amount(s@) is Some ==> r == of_opt(plain_amount(s@)),
    {
        s.parse::<rust_decimal::Decimal>().ok().map(
            |d| Decimal { mantissa: d.mantissa(), scale: d.scale() },
        )
    }

    /// The amount that a text stands for, if it stands for one.
    pub fn parse(s: &str) -> (r: Option<Decimal>)
        ensures
            r == of_opt(decimal_from_text(s@)),
            plain_amount(s@) is Some ==> r == of_opt(plain_amount(s@)),
    {
        Self::from_text(s)
    }

    /// Reads the notation of an amount as a double with `str::parse`, and makes that an
    /// amount with `rust_decimal::Decimal::from_f64_retain`. A double does not leave
    /// the place of the amount among the whole numbers that doubles hold, and there is
    /// one between the outermost of them. Left unsaid is how an amount is rounded
    /// between two whole numbers.
    #[verifier::external_body]
    fn to_double(&self) -> (r: Option<Decimal>)
        ensures
            r == of_opt(double_value(self@)),
            r is Some ==> among_wholes(*self, r->0),
            at_most(dec(-DOUBLE_WHOLE as int, 0), *self) && at_most(
                *self,
                dec(DOUBLE_WHOLE as int, 0),
            ) ==> r is Some,
    {
        rust_decimal::Decimal::from_i128_with_scale(self.mantissa, self.scale)
            .to_string()
            .parse()
            .ok()
            .and_then(rust_decimal::Decimal::from_f64_retain)
            .map(|d| Decimal { mantissa: d.mantissa(), scale: d.scale() })
    }

    /// An amount as the double that is nearest to it.
    pub fn nearest_double(&self) -> (r: Decimal)
        ensures
            r == in_double(*self),
            among_wholes(*self, r),
    {
        match self.to_double() {
            Some(d) => d,
            None => *self,
        }
    }

    /// Calls `to_f32` of `rust_decimal`'s `ToPrimitive` and formats the result
    /// with a number of decimal places that formatting takes. Left unsaid is how a
    /// binary fraction is rounded.
    #[verifier::external_body]
    pub(crate) fn show_binary(&self, places: usize) -> (r: String)
        requires
            places <= MAX_SHOWN_PLACES,
        ensures
            r@ == binary_text(self@, places as nat),
    {
        let d = rust_decimal::Decimal::from_i128_with_scale(self.mantissa, self.scale);
        rust_decimal::prelude::ToPrimitive::to_f32(&d).map_or(
            String::new(),
            |x| format!("{:.1$}", x, places),
        )
    }

    /// Calls `to_f64` of `rust_decimal`'s `ToPrimitive` and formats the result
    /// with a number of decimal places that formatting takes. Left unsaid is how a
    /// binary fraction is rounded.
    #[verifier::external_body]
    pub(crate) fn show_double(&self, places: usize) -> (r: String)
        requires
            places <= MAX_SHOWN_PLACES,
        ensures
            r@ == double_text(self@, places as nat),
    {
        let d = rust_decimal::Decimal::from_i128_with_scale(self.mantissa, self.scale);
        rust_decimal::prelude::ToPrimitive::to_f64(&d).map_or(
            String::new(),
            |x| format!("{:.1$}", x, places),
        )
    }

    /// An amount in decimal notation with a number of decimal places, cut off
    /// where it has more and filled with zeros where it has fewer.
    pub fn show_fixed(&self, places: usize) -> (r: String)
        ensures
            r@ == fixed_text(self@, places as nat),
    {
        proof {
            use_type_invariant(self);
        }
        let negative = self.mantissa < 0;
        let size: u128 = if negative {
            (-self.mantissa) as u128
        } else {
            self.mantissa as u128
        };
        let scale: usize = self.scale as usize;
        let shown = text::show_large(size);
        let mut digits: Vec<char> = text::chars_of(shown.as_str());
        while digits.len() < scale + 1
            invariant
                scale <= MAX_SCALE,
                padded(digits@, (scale + 1) as nat) == padded(
                    text::number_text(size as nat),
                    (scale + 1) as nat,
                ),
            decreases scale + 1 - digits@.len(),
        {
            assert(digits@.insert(0, '0') =~= seq!['0'] + digits@);
            digits.insert(0, '0');
        }
        let ghost v = self@;
        assert(digits@ == amount_digits(v));
        let count: usize = digits.len();
        let point: usize = count - scale;
        let mut out = String::new();
        if negative {
            out.push('-');
        }
        assert(out@ =~= amount_sign(v));
        let mut i: usize = 0;
        while i < point
            invariant
                i <= point <= digits@.len(),
                out@ == amount_sign(v) + digits@.take(i as int),
            decreases point - i,
        {
            out.push(digits[i]);
            assert(out@ =~= amount_sign(v) + digits@.take(i + 1));
            i = i + 1;
        }
        if places == 0 {
            return out;
        }
        out.push('.');
        let ghost fraction = Seq::new(
            places as nat,
            |i: int|
                if i < v.scale {
                    fraction_digits(v)[i]
                } else {
                    '0'
                },
        );
        let ghost head = out@;
        let mut k: usize = 0;
        assert(out@ =~= head + fraction.take(0));
        while k < places
            invariant
                k <= places,
                scale == v.scale,
                scale <= digits@.len(),
                count == digits@.len(),
                point == count - scale,
                digits@ == amount_digits(v),
                fraction.len() == places,
                forall|j: int|
                    0 <= j < places ==> #[trigger] fraction[j] == (if j < v.scale {
                        fraction_digits(v)[j]
                    } else {
                        '0'
                    }),
                out@ == head + fraction.take(k as int),
            decreases places - k,
        {
            let c: char = if k < scale {
                digits[point + k]
            } else {
                '0'
            };
            assert(fraction[k as int] == c);
            out.push(c);
            assert(out@ =~= head + fraction.take(k + 1));
            k = k + 1;
        }
        assert(fraction.take(k as int) =~= fraction);
        out
    }

    /// An amount in decimal notation, with all of its decimal places.
    pub fn show(&self) -> (r: String)
        ensures
            r@ == amount_text(self@),
    {
        self.show_fixed(self.scale as usize)
    }
}

impl PartialEq for Decimal {
    fn eq(&self, other: &Decimal) -> (r: bool) {
        self.le(other) && other.le(self)
    }
}

impl vstd::std_specs::cmp::PartialEqSpecImpl for Decimal {
    open spec fn obeys_eq_spec() -> bool {
        true
    }

    open spec fn eq_spec(&self, other: &Decimal) -> bool {
        same_amount(*self, *other)
    }
}

impl PartialOrd for Decimal {
    fn partial_cmp(&self, other: &Decimal) -> (r: Option<core::cmp::Ordering>) {
        if !other.le(self) {
            Some(core::cmp::Ordering::Less)
        } else if self.le(other) {
            Some(core::cmp::Ordering::Equal)
        } else {
            Some(core::cmp::Ordering::Greater)
        }
    }
}

impl vstd::std_specs::cmp::PartialOrdSpecImpl for Decimal {
    open spec fn obeys_partial_cmp_spec() -> bool {
        true
    }

    open spec fn partial_cmp_spec(&self, other: &Decimal) -> Option<core::cmp::Ordering> {
        if below(*self, *other) {
            Some(core::cmp::Ordering::Less)
        } else if at_most(*self, *other) {
            Some(core::cmp::Ordering::Equal)
        } else {
            Some(core::cmp::Ordering::Greater)
        }
    }
}

/// Amounts are in a total order, in which equal amounts may differ in scale.
pub proof fn amounts_are_ordered(a: Decimal, b: Decimal, c: Decimal)
    ensures
        at_most(a, b) || at_most(b, a),
        at_most(a, b) && at_most(b, c) ==> at_most(a, c),
{
    let (x, y, z) = (a@.mantissa, b@.mantissa, c@.mantissa);
    let (p, q, r) = (pow10(a@.scale) as int, pow10(b@.scale) as int, pow10(c@.scale) as int);
    lemma_pow10_positive(a@.scale);
    lemma_pow10_positive(b@.scale);
    lemma_pow10_positive(c@.scale);
    if at_most(a, b) && at_most(b, c) {
        assert(x * r <= z * p) by (nonlinear_arith)
            requires
                x * q <= y * p,
                y * r <= z * q,
                p > 0,
                q > 0,
                r > 0,
        {
            assert((x * q) * r <= (y * p) * r);
            assert((y * r) * p <= (z * q) * p);
            assert((x * r) * q <= (z * p) * q);
        }
    }
}

/// An amount is written with its sign, its whole part and as many decimal places as asked
/// for: those that it has, and zeros behind them.
pub proof fn amounts_are_written_to_their_places(v: DecimalView, places: nat)
    ensures
        ({
            let t = fixed_text(v, places);
            let n = amount_digits(v).len() - v.scale;
            let sign = if v.mantissa < 0 {
                1int
            } else {
                0
            };
            &&& n >= 1
            &&& v.mantissa < 0 ==> t[0] == '-'
            &&& t.len() == sign + n + (if places == 0 {
                0int
            } else {
                places as int + 1
            })
            &&& forall|i: int| 0 <= i < n ==> t[sign + i] == #[trigger] amount_digits(v)[i]
            &&& places > 0 ==> t[sign + n] == '.'
            &&& forall|i: int|
                0 <= i < places && i < v.scale ==> t[sign + n + 1 + i] == #[trigger] amount_digits(
                    v,
                )[n + i]
            &&& forall|i: int|
                #![trigger t[sign + n + 1 + i]]
                v.scale <= i < places ==> t[sign + n + 1 + i] == '0'
        }),
{
    let d = amount_digits(v);
    padding_fills_with_zeros(text::number_text(magnitude(v.mantissa)), v.scale + 1);
    let n = d.len() - v.scale;
    assert forall|i: int| 0 <= i < v.scale implies fraction_digits(v)[i] == #[trigger] d[n + i] by {}
}

/// A text is filled with zeros before it up to a length, and with none where it is as long.
pub proof fn padding_fills_with_zeros(s: Seq<char>, len: nat)
    ensures
        ({
            let p = padded(s, len);
            let n = p.len() - s.len();
            &&& s.len() >= len ==> p == s
            &&& s.len() < len ==> p.len() == len
            &&& n >= 0
            &&& forall|i: int| 0 <= i < n ==> #[trigger] p[i] == '0'
            &&& p.skip(n) == s
        }),
    decreases len - s.len(),
{
    let p = padded(s, len);
    let n = p.len() - s.len();
    if s.len() < len {
        let t = seq!['0'] + s;
        padding_fills_with_zeros(t, len);
        let m = p.len() - t.len();
        assert(p.skip(m) == t);
        assert(p[m] == p.skip(m)[0]);
        assert(p.skip(n) =~= s) by {
            assert forall|i: int| 0 <= i < s.len() implies p.skip(n)[i] == s[i] by {
                assert(p.skip(m)[i + 1] == t[i + 1]);
            }
        }
        assert forall|i: int| 0 <= i < n implies #[trigger] p[i] == '0' by {
            if i == m {
                assert(p[i] == t[0]);
            }
        }
    } else {
        assert(p.skip(0) =~= s);
    }
}

/// The larger of two amounts is one of them and no less than either.
pub proof fn larger_is_no_less(a: Decimal, b: Decimal)
    ensures
        larger(a, b) == a || larger(a, b) == b,
        at_most(a, larger(a, b)),
        at_most(b, larger(a, b)),
{
}

/// Amounts are compared as numbers: each times what the other is parted into.
pub proof fn amounts_are_compared_as_numbers(a: Decimal, b: Decimal)
    ensures
        at_most(a, b) <==> a@.mantissa * pow10(b@.scale) <= b@.mantissa * pow10(a@.scale),
        below(a, b) <==> a@.mantissa * pow10(b@.scale) < b@.mantissa * pow10(a@.scale),
        same_amount(a, b) <==> a@.mantissa * pow10(b@.scale) == b@.mantissa * pow10(a@.scale),
{
}

} // verus!
