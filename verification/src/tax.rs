//! Brazilian taxes on purchases from abroad.

use vstd::prelude::*;

use crate::decimal;
use crate::decimal::Decimal;
use crate::models;
use crate::models::{TaxInfo, TaxRegime};

verus! {

/// Works out the taxes on a purchase.
pub struct TaxCalculator;

/// The amount in dollars, worked out from the amount in reais where it is missing.
pub open spec fn in_dollars(
    price_usd: Option<Decimal>,
    price_brl: Decimal,
    exchange_rate: Decimal,
) -> Option<Decimal> {
    match price_usd {
        Some(p) => Some(p),
        None => decimal::quotient(price_brl, exchange_rate),
    }
}

/// The regime of a store in the programme: the lower rate holds below 50 dollars.
pub open spec fn programme_regime(dollars: Decimal) -> TaxRegime {
    if decimal::below(dollars, decimal::dec(500, 1)) {
        TaxRegime::RemessaConformeUnder50
    } else {
        TaxRegime::RemessaConformeOver50
    }
}

/// The import tax: a fifth of the price under the lower rate; three fifths of it,
/// less 20 dollars and never less than nothing, under the higher one; three fifths
/// of it outside the programme.
pub open spec fn import_tax(
    regime: TaxRegime,
    price_brl: Decimal,
    exchange_rate: Decimal,
) -> Option<Decimal> {
    match regime {
        TaxRegime::RemessaConformeUnder50 => decimal::product(price_brl, decimal::dec(20, 2)),
        TaxRegime::RemessaConformeOver50 => match decimal::differences(
            decimal::product(price_brl, decimal::dec(60, 2)),
            decimal::product(decimal::dec(200, 1), exchange_rate),
        ) {
            Some(d) => Some(decimal::larger(d, decimal::dec(0, 0))),
            None => None,
        },
        _ => decimal::product(price_brl, decimal::dec(60, 2)),
    }
}

/// The state tax of 17 per cent, which is charged on a base that holds the tax
/// itself: what the base lacks to be 83 per cent of the whole.
pub open spec fn state_tax(base: Option<Decimal>) -> Option<Decimal> {
    decimal::differences(decimal::quotients(base, Some(decimal::dec(83, 2))), base)
}

/// The taxes on a purchase whose price holds none, under a regime.
pub open spec fn levied(
    regime: TaxRegime,
    remessa_conforme: bool,
    price_brl: Decimal,
    exchange_rate: Decimal,
) -> Option<TaxInfo> {
    let import = import_tax(regime, price_brl, exchange_rate);
    let icms = state_tax(decimal::sums(Some(price_brl), import));
    match (import, icms, decimal::sums(import, icms)) {
        (Some(i), Some(s), Some(t)) => Some(
            TaxInfo {
                remessa_conforme,
                taxes_included: false,
                import_tax: Some(i),
                icms: Some(s),
                total_tax: t,
                tax_regime: regime,
            },
        ),
        _ => None,
    }
}

/// The taxes on a purchase, or `None` where an amount on the way is too large to
/// be held or is divided by an exchange rate of nothing.
pub open spec fn assessed(
    price_usd: Option<Decimal>,
    price_brl: Decimal,
    is_domestic: bool,
    remessa_conforme: bool,
    taxes_already_included: bool,
    exchange_rate: Decimal,
) -> Option<TaxInfo> {
    let dollars = in_dollars(price_usd, price_brl, exchange_rate);
    if is_domestic {
        Some(models::untaxed(false, true, TaxRegime::Domestic))
    } else if taxes_already_included && !remessa_conforme {
        Some(models::untaxed(false, true, TaxRegime::InternationalStandard))
    } else if dollars is None {
        None
    } else if taxes_already_included {
        Some(models::untaxed(true, true, programme_regime(dollars->0)))
    } else if remessa_conforme {
        levied(programme_regime(dollars->0), true, price_brl, exchange_rate)
    } else {
        levied(TaxRegime::InternationalStandard, false, price_brl, exchange_rate)
    }
}

/// The largest price that taxes are reckoned for to the cent, in units of the last decimal
/// place that an amount could have: a hundred sextillion. Amounts have no place for a
/// hundredth of a cent far beyond it.
pub open spec fn price_limit() -> int {
    1_000_000_000_000_000_000_000_000_000_000_000_000_000_000_000_000_000int
}

/// Whether a price is none that is negative or above the limit.
pub open spec fn plain_price(d: Decimal) -> bool {
    &&& decimal::fits(d)
    &&& d@.mantissa >= 0
    &&& decimal::units(d) <= price_limit()
}

/// Whether a price is a whole number of cents.
pub open spec fn whole_cents(d: Decimal) -> bool {
    exists|cents: int|
        decimal::units(d) == #[trigger] (cents * 100_000_000_000_000_000_000_000_000int)
}

/// Whether a rate is more than nothing.
pub open spec fn plain_rate(d: Decimal) -> bool {
    decimal::fits(d) && d@.mantissa > 0
}

/// Ten times the price with its import tax, in units.
pub open spec fn tenfold_base(regime: TaxRegime, price: int, rate: int) -> int {
    match regime {
        TaxRegime::RemessaConformeUnder50 => 12 * price,
        TaxRegime::RemessaConformeOver50 => 16 * price - 200 * rate,
        _ => 16 * price,
    }
}

/// Whether the price with all taxes is the price with the import tax divided by 83 per
/// cent, but for less than a fiftieth of a cent. All are in units.
pub open spec fn near_total(regime: TaxRegime, price: int, rate: int, total_tax: int) -> bool {
    decimal::size(830 * (total_tax + price) - 100 * tenfold_base(regime, price, rate))
        <= 15_000_000_000_000_000_000_000_000_000int
}

/// Whether a price lies on the side of 50 dollars that a regime is for, but for the last
/// digits. Both are in units.
pub open spec fn near_bracket(regime: TaxRegime, price: int, rate: int) -> bool {
    let whole = 10_000_000_000_000_000_000_000_000_000int;
    &&& regime == TaxRegime::RemessaConformeUnder50 ==> whole * price <= 50 * whole * rate + rate
        + 10 * price
    &&& regime == TaxRegime::RemessaConformeOver50 ==> 50 * whole * rate <= whole * price + rate
        + 10 * price
}

/// Whether taxes come to what the price and the rate make of them, but for less than a
/// fiftieth of a cent.
pub open spec fn reckoned(price_brl: Decimal, exchange_rate: Decimal, t: TaxInfo) -> bool {
    let (u, v) = (decimal::units(price_brl), decimal::units(exchange_rate));
    &&& decimal::fits(t.total_tax)
    &&& near_bracket(t.tax_regime, u, v)
    &&& near_total(t.tax_regime, u, v, decimal::units(t.total_tax))
}

/// Whether taxes under one regime come to the same number, or there are none.
pub open spec fn same_taxes(a: Option<TaxInfo>, b: Option<TaxInfo>) -> bool {
    match (a, b) {
        (Some(a), Some(b)) => a.tax_regime == b.tax_regime && decimal::same_amount(
            a.total_tax,
            b.total_tax,
        ),
        (None, None) => true,
        _ => false,
    }
}

proof fn lemma_powers()
    ensures
        decimal::pow10(0) == 1,
        decimal::pow10(1) == 10,
        decimal::pow10(2) == 100,
        decimal::pow10(26) == 100_000_000_000_000_000_000_000_000int,
        decimal::pow10(27) == 1_000_000_000_000_000_000_000_000_000int,
        decimal::pow10(28) == 10_000_000_000_000_000_000_000_000_000int,
{
    assert(decimal::pow10(13) == 10_000_000_000_000 && decimal::pow10(2) == 100) by {
        reveal_with_fuel(decimal::pow10, 14);
    }
    decimal::lemma_pow10_sum(13, 13);
    assert(decimal::pow10(26) == 100_000_000_000_000_000_000_000_000int);
}

proof fn lemma_sign(d: Decimal)
    ensures
        d@.mantissa >= 0 <==> decimal::units(d) >= 0,
        d@.mantissa > 0 <==> decimal::units(d) > 0,
{
    let x = decimal::pow10((decimal::MAX_SCALE - d@.scale) as nat) as int;
    decimal::lemma_pow10_positive((decimal::MAX_SCALE - d@.scale) as nat);
    let m = d@.mantissa;
    assert((m >= 0 <==> m * x >= 0) && (m > 0 <==> m * x > 0)) by (nonlinear_arith)
        requires
            x > 0,
    ;
}

proof fn lemma_same(d: Decimal)
    ensures
        decimal::same_amount(d, d),
{
    decimal::amounts_are_ordered(d, d, d);
}

/// What becomes of an amount that is multiplied by some hundredths.
proof fn lemma_share(price: Decimal, part: Decimal, k: int, r: Option<Decimal>)
    requires
        plain_price(price),
        part@ == (decimal::DecimalView { mantissa: k, scale: 2 }),
        k == 20 || k == 60,
        decimal::rounded(
            r,
            decimal::units(price) * decimal::units(part),
            decimal::pow10(28) as int,
        ),
    ensures
        r is Some,
        decimal::size(100 * decimal::units(r->0) - k * decimal::units(price)) <= 100
            + 60_000_000_000_000_000_000_000_000int,
{
    reveal(decimal::rounded);
    lemma_powers();
    lemma_sign(price);
    let (u, c) = (decimal::units(price), decimal::units(part));
    assert(c == k * 100_000_000_000_000_000_000_000_000int);
    assert(u * c == (u * k) * 100_000_000_000_000_000_000_000_000int) by (nonlinear_arith)
        requires
            c == k * 100_000_000_000_000_000_000_000_000int,
    ;
    assert(u * k == k * u) by (nonlinear_arith);
    let w = k * u;
    if k == 20 {
        assert(w == 20 * u);
    } else {
        assert(w == 60 * u);
    }
    assert(0 <= w <= 60 * price_limit());
    assert(decimal::size(u * c) <= decimal::MAX_MANTISSA * decimal::pow10(28) * decimal::pow10(28));
    let (q, d) = (decimal::units(r->0), decimal::pow10(28) as int);
    assert(q * d == q * 10_000_000_000_000_000_000_000_000_000int);
}

/// What becomes of 20 dollars in reais.
proof fn lemma_deduction(rate: Decimal, part: Decimal, r: Option<Decimal>)
    requires
        plain_rate(rate),
        decimal::units(rate) <= price_limit(),
        part@ == (decimal::DecimalView { mantissa: 200, scale: 1 }),
        decimal::rounded(
            r,
            decimal::units(part) * decimal::units(rate),
            decimal::pow10(28) as int,
        ),
    ensures
        r is Some,
        decimal::size(decimal::units(r->0) - 20 * decimal::units(rate)) * 1_000_000_000_000_000_000_000_000_000int
            <= 1_000_000_000_000_000_000_000_000_000int + 20 * decimal::units(rate),
{
    reveal(decimal::rounded);
    lemma_powers();
    lemma_sign(rate);
    let (v, c) = (decimal::units(rate), decimal::units(part));
    assert(c == 200_000_000_000_000_000_000_000_000_000int);
    assert(c * v == 200_000_000_000_000_000_000_000_000_000int * v);
    assert(decimal::size(c * v) <= decimal::MAX_MANTISSA * decimal::pow10(28) * decimal::pow10(28));
    let (q, d) = (decimal::units(r->0), decimal::pow10(28) as int);
    assert(q * d == q * 10_000_000_000_000_000_000_000_000_000int);
}

/// What becomes of a sum or a difference.
proof fn lemma_exact_enough(r: Option<Decimal>, n: int)
    requires
        decimal::rounded(r, n, 1),
        decimal::size(n) <= 100 * price_limit(),
    ensures
        r is Some,
        decimal::size(decimal::units(r->0) - n) * 1_000_000_000_000_000_000_000_000_000int
            <= 1_000_000_000_000_000_000_000_000_000int + decimal::size(n),
{
    reveal(decimal::rounded);
    lemma_powers();
    assert(decimal::MAX_MANTISSA * decimal::pow10(28) * 1 >= 100 * price_limit());
    assert(decimal::units(r->0) * 1 == decimal::units(r->0));
}

/// What becomes of a base that is 83 per cent of the whole.
proof fn lemma_gross(base: Decimal, part: Decimal, r: Option<Decimal>)
    requires
        part@ == (decimal::DecimalView { mantissa: 83, scale: 2 }),
        0 <= decimal::units(base) <= 3 * price_limit(),
        decimal::rounded(
            r,
            decimal::units(base) * decimal::pow10(28),
            decimal::units(part),
        ),
    ensures
        r is Some,
        decimal::size(83 * decimal::units(r->0) - 100 * decimal::units(base))
            * 1_000_000_000_000_000_000_000_000_000int <= 83_000_000_000_000_000_000_000_000_000int
            + 100 * decimal::units(base),
{
    reveal(decimal::rounded);
    lemma_powers();
    let (a, b) = (decimal::units(base), decimal::units(part));
    assert(b == 83 * 100_000_000_000_000_000_000_000_000int);
    assert(a * decimal::pow10(28) == a * 10_000_000_000_000_000_000_000_000_000int);
    let room = decimal::MAX_MANTISSA * decimal::pow10(28);
    assert(room * b == room * (83 * 100_000_000_000_000_000_000_000_000int));
    let q = decimal::units(r->0);
    assert(q * b == q * (83 * 100_000_000_000_000_000_000_000_000int)) by (nonlinear_arith)
        requires
            b == 83 * 100_000_000_000_000_000_000_000_000int,
    ;
}

/// How far the import tax can be off.
spec fn import_near(regime: TaxRegime, price: int, rate: int, import: int) -> bool {
    &&& 0 <= import <= price_limit()
    &&& decimal::size(10 * (import + price) - tenfold_base(regime, price, rate))
        <= 30_000_000_000_000_000_000_000_000int
}

proof fn lemma_left(price: int, rate: int, full: int, deduction: int, left: int)
    requires
        0 <= price <= price_limit(),
        0 < rate,
        near_bracket(TaxRegime::RemessaConformeOver50, price, rate),
        decimal::size(100 * full - 60 * price) <= 100 + 60_000_000_000_000_000_000_000_000int,
        decimal::size(deduction - 20 * rate) * 1_000_000_000_000_000_000_000_000_000int
            <= 1_000_000_000_000_000_000_000_000_000int + 20 * rate,
        decimal::size(left - (full - deduction)) * 1_000_000_000_000_000_000_000_000_000int
            <= 1_000_000_000_000_000_000_000_000_000int + decimal::size(full - deduction),
    ensures
        left >= 0 ==> import_near(TaxRegime::RemessaConformeOver50, price, rate, left),
        left <= 0 ==> import_near(TaxRegime::RemessaConformeOver50, price, rate, 0),
{
    assert(50 * rate <= price + 2_000_000_000_000_000_000_000_000int);
    assert(decimal::size(deduction - 20 * rate) <= 1_000_000_000_000_000_000_000_000int);
    assert(decimal::size(full - deduction) <= price_limit());
    assert(decimal::size(left - (full - deduction)) <= 1_100_000_000_000_000_000_000_000int);
}

proof fn lemma_owed(
    regime: TaxRegime,
    price: int,
    rate: int,
    import: int,
    base: int,
    gross: int,
    icms: int,
    total: int,
)
    requires
        0 <= price <= price_limit(),
        import_near(regime, price, rate, import),
        tenfold_base(regime, price, rate) <= 16 * price_limit(),
        decimal::size(base - (price + import)) * 1_000_000_000_000_000_000_000_000_000int
            <= 1_000_000_000_000_000_000_000_000_000int + decimal::size(price + import),
        decimal::size(83 * gross - 100 * base) * 1_000_000_000_000_000_000_000_000_000int
            <= 83_000_000_000_000_000_000_000_000_000int + 100 * base,
        decimal::size(icms - (gross - base)) * 1_000_000_000_000_000_000_000_000_000int
            <= 1_000_000_000_000_000_000_000_000_000int + decimal::size(gross - base),
        decimal::size(total - (import + icms)) * 1_000_000_000_000_000_000_000_000_000int
            <= 1_000_000_000_000_000_000_000_000_000int + decimal::size(import + icms),
    ensures
        near_total(regime, price, rate, total),
{
    let e = 1_000_000_000_000_000_000_000_000int;
    assert(price + import <= 1_700_000_000_000_000_000_000_000_000_000_000_000_000_000_000_000_000int);
    assert(decimal::size(base - (price + import)) <= 2 * e);
    assert(decimal::size(83 * gross - 100 * base) <= 180 * e);
    assert(decimal::size(icms - (gross - base)) <= e);
    assert(decimal::size(total - (import + icms)) <= 2 * e);
}

fn regime_for(dollars: Decimal) -> (r: TaxRegime)
    ensures
        r == programme_regime(dollars),
{
    if dollars.lt(&Decimal::new(500, 1)) {
        TaxRegime::RemessaConformeUnder50
    } else {
        TaxRegime::RemessaConformeOver50
    }
}

fn import_due(regime: TaxRegime, price_brl: Decimal, exchange_rate: Decimal) -> (r: Option<
    Decimal,
>)
    ensures
        r == import_tax(regime, price_brl, exchange_rate),
        r is Some ==> decimal::fits(r->0),
        price_brl@.mantissa >= 0 && r is Some ==> r->0@.mantissa >= 0,
        plain_price(price_brl) && (regime == TaxRegime::RemessaConformeOver50 ==> plain_rate(
            exchange_rate,
        ) && decimal::units(exchange_rate) <= price_limit()) ==> r is Some && 0 <= decimal::units(
            r->0,
        ) <= price_limit(),
        plain_price(price_brl) && plain_rate(exchange_rate) && near_bracket(
            regime,
            decimal::units(price_brl),
            decimal::units(exchange_rate),
        ) ==> r is Some && import_near(
            regime,
            decimal::units(price_brl),
            decimal::units(exchange_rate),
            decimal::units(r->0),
        ),
        decimal::fits(exchange_rate) ==> forall|p: Decimal|
            decimal::fits(p) && decimal::same_amount(price_brl, p) ==> decimal::alike(
                r,
                #[trigger] import_tax(regime, p, exchange_rate),
            ),
{
    let ghost (u, v) = (decimal::units(price_brl), decimal::units(exchange_rate));
    let part = match regime {
        TaxRegime::RemessaConformeUnder50 => Decimal::new(20, 2),
        _ => Decimal::new(60, 2),
    };
    let full = decimal::times(Some(price_brl), Some(part));
    proof {
        lemma_sign(price_brl);
        lemma_sign(exchange_rate);
        lemma_same(part);
        if plain_price(price_brl) {
            lemma_share(price_brl, part, part@.mantissa, full);
            lemma_sign(full->0);
        }
        assert forall|p: Decimal|
            decimal::fits(p) && decimal::same_amount(price_brl, p) implies decimal::alike(
            full,
            #[trigger] decimal::product(p, part),
        ) by {
            reveal(decimal::steady_product);
        }
    }
    if regime != TaxRegime::RemessaConformeOver50 {
        return full;
    }
    let twenty = Decimal::new(200, 1);
    let deduction = decimal::times(Some(twenty), Some(exchange_rate));
    let left = decimal::minus(full, deduction);
    let due = match left {
        Some(d) => Some(d.max(Decimal::zero())),
        None => None,
    };
    proof {
        let zero = decimal::dec(0, 0);
        decimal::lemma_dec(0, 0);
        lemma_same(exchange_rate);
        lemma_same(twenty);
        if plain_price(price_brl) && plain_rate(exchange_rate) && (v <= price_limit()
            || near_bracket(regime, u, v)) {
            assert(v <= price_limit());
            lemma_deduction(exchange_rate, twenty, deduction);
            let (f, d) = (decimal::units(full->0), decimal::units(deduction->0));
            lemma_exact_enough(left, f - d);
            decimal::lemma_units_ordered(left->0, zero);
            lemma_sign(due->0);
            assert(decimal::units(zero) == 0) by (nonlinear_arith)
                requires
                    zero@.mantissa == 0,
            ;
            if near_bracket(regime, u, v) {
                lemma_left(u, v, f, d, decimal::units(left->0));
            }
        }
        if decimal::fits(exchange_rate) {
            reveal(decimal::steady_difference);
            reveal(decimal::steady_product);
            assert(decimal::alike(deduction, decimal::product(twenty, exchange_rate)));
            assert forall|p: Decimal|
                decimal::fits(p) && decimal::same_amount(price_brl, p) implies decimal::alike(
                due,
                #[trigger] import_tax(regime, p, exchange_rate),
            ) by {
                let whole = decimal::product(p, part);
                assert(decimal::alike(full, whole));
                if full is Some && deduction is Some {
                    lemma_same(deduction->0);
                    let other = decimal::difference(whole->0, deduction->0);
                    assert(decimal::alike(left, other));
                    if left is Some {
                        lemma_larger(left->0, other->0, zero);
                    }
                }
            }
        }
    }
    due
}

proof fn lemma_larger(a: Decimal, b: Decimal, zero: Decimal)
    requires
        decimal::same_amount(a, b),
        decimal::fits(b),
        decimal::fits(zero),
    ensures
        decimal::same_amount(decimal::larger(a, zero), decimal::larger(b, zero)),
        decimal::fits(decimal::larger(b, zero)),
{
    decimal::amounts_are_ordered(a, b, zero);
    decimal::amounts_are_ordered(b, a, zero);
    lemma_same(zero);
}

/// Whether taxes are the same for the same price, however it is written.
spec fn levied_alike(
    r: Option<TaxInfo>,
    regime: TaxRegime,
    remessa_conforme: bool,
    price_brl: Decimal,
    exchange_rate: Decimal,
) -> bool {
    forall|p: Decimal|
        decimal::fits(p) && decimal::same_amount(price_brl, p) ==> same_taxes(
            r,
            #[trigger] levied(regime, remessa_conforme, p, exchange_rate),
        )
}

proof fn lemma_levied_alike(
    regime: TaxRegime,
    price_brl: Decimal,
    exchange_rate: Decimal,
    p: Decimal,
    base: Option<Decimal>,
    gross: Option<Decimal>,
    icms: Option<Decimal>,
    total: Option<Decimal>,
)
    requires
        decimal::fits(p),
        decimal::same_amount(price_brl, p),
        decimal::alike(
            import_tax(regime, price_brl, exchange_rate),
            import_tax(regime, p, exchange_rate),
        ),
        ({
            let import = import_tax(regime, price_brl, exchange_rate);
            &&& base == decimal::sums(Some(price_brl), import)
            &&& gross == decimal::quotients(base, Some(decimal::dec(83, 2)))
            &&& icms == decimal::differences(gross, base)
            &&& total == decimal::sums(import, icms)
            &&& import is Some ==> decimal::steady_sum(base, price_brl, import->0)
            &&& base is Some ==> decimal::steady_quotient(gross, base->0, decimal::dec(83, 2))
            &&& base is Some && gross is Some ==> decimal::steady_difference(
                icms,
                gross->0,
                base->0,
            )
            &&& import is Some && icms is Some ==> decimal::steady_sum(total, import->0, icms->0)
        }),
    ensures
        same_taxes(
            levied(regime, true, price_brl, exchange_rate),
            levied(regime, true, p, exchange_rate),
        ),
        same_taxes(
            levied(regime, false, price_brl, exchange_rate),
            levied(regime, false, p, exchange_rate),
        ),
{
    reveal(decimal::steady_sum);
    reveal(decimal::steady_difference);
    reveal(decimal::steady_quotient);
    let part = decimal::dec(83, 2);
    decimal::lemma_dec(83, 2);
    lemma_same(part);
    let (i, j) = (
        import_tax(regime, price_brl, exchange_rate),
        import_tax(regime, p, exchange_rate),
    );
    if i is Some {
        let b = decimal::sum(p, j->0);
        assert(decimal::alike(base, b));
        if base is Some {
            let g = decimal::quotient(b->0, part);
            assert(decimal::alike(gross, g));
            if gross is Some {
                let s = decimal::difference(g->0, b->0);
                assert(decimal::alike(icms, s));
                if icms is Some {
                    let t = decimal::sum(j->0, s->0);
                    assert(decimal::alike(total, t));
                }
            }
        }
    }
}

fn levy(
    regime: TaxRegime,
    remessa_conforme: bool,
    price_brl: Decimal,
    exchange_rate: Decimal,
) -> (r: Option<TaxInfo>)
    ensures
        r == levied(regime, remessa_conforme, price_brl, exchange_rate),
        price_brl@.mantissa >= 0 && r is Some ==> r->0.import_tax->0@.mantissa >= 0,
        plain_price(price_brl) && (regime == TaxRegime::RemessaConformeOver50 ==> plain_rate(
            exchange_rate,
        ) && decimal::units(exchange_rate) <= price_limit()) ==> r is Some,
        plain_price(price_brl) && plain_rate(exchange_rate) && near_bracket(
            regime,
            decimal::units(price_brl),
            decimal::units(exchange_rate),
        ) ==> r is Some && decimal::fits(r->0.total_tax) && near_total(
            regime,
            decimal::units(price_brl),
            decimal::units(exchange_rate),
            decimal::units(r->0.total_tax),
        ),
        decimal::fits(exchange_rate) ==> levied_alike(
            r,
            regime,
            remessa_conforme,
            price_brl,
            exchange_rate,
        ),
{
    let ghost (u, v) = (decimal::units(price_brl), decimal::units(exchange_rate));
    let import = import_due(regime, price_brl, exchange_rate);
    let base = decimal::plus(Some(price_brl), import);
    let part = Decimal::new(83, 2);
    let gross = decimal::over(base, Some(part));
    let icms = decimal::minus(gross, base);
    let total = decimal::plus(import, icms);
    proof {
        if plain_price(price_brl) && import is Some && 0 <= decimal::units(import->0)
            <= price_limit() {
            lemma_sign(price_brl);
            let i = decimal::units(import->0);
            lemma_exact_enough(base, u + i);
            let b = decimal::units(base->0);
            lemma_sign(import->0);
            lemma_sign(base->0);
            lemma_gross(base->0, part, gross);
            let g = decimal::units(gross->0);
            lemma_exact_enough(icms, g - b);
            let s = decimal::units(icms->0);
            lemma_exact_enough(total, i + s);
            if plain_rate(exchange_rate) && near_bracket(regime, u, v) {
                lemma_sign(exchange_rate);
                lemma_owed(regime, u, v, i, b, g, s, decimal::units(total->0));
            }
        }
        if decimal::fits(exchange_rate) {
            assert forall|p: Decimal|
                decimal::fits(p) && decimal::same_amount(price_brl, p) implies same_taxes(
                levied(regime, remessa_conforme, price_brl, exchange_rate),
                #[trigger] levied(regime, remessa_conforme, p, exchange_rate),
            ) by {
                assert(decimal::alike(import, import_tax(regime, p, exchange_rate)));
                lemma_levied_alike(
                    regime,
                    price_brl,
                    exchange_rate,
                    p,
                    base,
                    gross,
                    icms,
                    total,
                );
            }
        }
    }
    match (import, icms, total) {
        (Some(i), Some(s), Some(t)) => Some(
            TaxInfo {
                remessa_conforme,
                taxes_included: false,
                import_tax: Some(i),
                icms: Some(s),
                total_tax: t,
                tax_regime: regime,
            },
        ),
        _ => None,
    }
}

proof fn lemma_bracket(price_brl: Decimal, exchange_rate: Decimal, dollars: Option<Decimal>)
    requires
        plain_price(price_brl),
        plain_rate(exchange_rate),
        dollars is Some ==> decimal::fits(dollars->0),
        decimal::rounded(
            dollars,
            decimal::units(price_brl) * decimal::pow10(28),
            decimal::units(exchange_rate),
        ),
    ensures
        dollars is Some ==> near_bracket(
            programme_regime(dollars->0),
            decimal::units(price_brl),
            decimal::units(exchange_rate),
        ),
        decimal::units(price_brl) <= decimal::MAX_MANTISSA * decimal::units(exchange_rate)
            ==> dollars is Some,
{
    reveal(decimal::rounded);
    lemma_powers();
    lemma_sign(price_brl);
    lemma_sign(exchange_rate);
    let (u, v) = (decimal::units(price_brl), decimal::units(exchange_rate));
    let whole = 10_000_000_000_000_000_000_000_000_000int;
    assert(u * decimal::pow10(28) == u * whole);
    let m = decimal::MAX_MANTISSA as int;
    assert(u <= m * v ==> u * whole <= m * whole * v) by (nonlinear_arith)
        requires
            whole > 0,
    ;
    if dollars is Some {
        let fifty = decimal::dec(500, 1);
        decimal::lemma_dec(500, 1);
        decimal::lemma_units_ordered(fifty, dollars->0);
        let (q, k) = (decimal::units(dollars->0), decimal::units(fifty));
        assert(k == 50 * whole);
        assert(q <= k ==> q * v <= k * v) by (nonlinear_arith)
            requires
                v > 0,
        ;
        assert(k <= q ==> k * v <= q * v) by (nonlinear_arith)
            requires
                v > 0,
        ;
        assert(k * v == (50 * whole) * v) by (nonlinear_arith)
            requires
                k == 50 * whole,
        ;
    }
}

proof fn lemma_regime_alike(a: Decimal, b: Decimal)
    requires
        decimal::same_amount(a, b),
    ensures
        programme_regime(a) == programme_regime(b),
{
    let fifty = decimal::dec(500, 1);
    decimal::amounts_are_ordered(fifty, a, b);
    decimal::amounts_are_ordered(fifty, b, a);
}

/// Whether taxes are the same for the same price in reais, however it is written, where
/// the price in dollars is not given.
pub open spec fn assessed_alike(
    r: Option<TaxInfo>,
    price_brl: Decimal,
    is_domestic: bool,
    remessa_conforme: bool,
    taxes_already_included: bool,
    exchange_rate: Decimal,
) -> bool {
    forall|p: Decimal|
        decimal::fits(p) && decimal::same_amount(price_brl, p) ==> same_taxes(
            r,
            #[trigger] assessed(
                None,
                p,
                is_domestic,
                remessa_conforme,
                taxes_already_included,
                exchange_rate,
            ),
        )
}

/// Whether there are taxes: the price is not negative and not above the limit, and the
/// rate is more than nothing and such that the price can be held in dollars.
pub open spec fn assessable(price_usd: Option<Decimal>, price_brl: Decimal, exchange_rate: Decimal) -> bool {
    &&& plain_price(price_brl)
    &&& plain_rate(exchange_rate)
    &&& match price_usd {
        Some(_) => decimal::units(exchange_rate) <= price_limit(),
        None => decimal::units(price_brl) <= decimal::MAX_MANTISSA * decimal::units(exchange_rate),
    }
}

fn assess(
    price_usd: Option<Decimal>,
    price_brl: Decimal,
    is_domestic: bool,
    remessa_conforme: bool,
    taxes_already_included: bool,
    exchange_rate: Decimal,
) -> (r: Option<TaxInfo>)
    ensures
        r == assessed(
            price_usd,
            price_brl,
            is_domestic,
            remessa_conforme,
            taxes_already_included,
            exchange_rate,
        ),
        price_brl@.mantissa >= 0 && r is Some && r->0.import_tax is Some
            ==> r->0.import_tax->0@.mantissa >= 0,
        assessable(price_usd, price_brl, exchange_rate) ==> r is Some,
        price_usd is None && !is_domestic && !taxes_already_included && plain_price(price_brl)
            && plain_rate(exchange_rate) && r is Some ==> reckoned(
            price_brl,
            exchange_rate,
            r->0,
        ),
        price_usd is None && decimal::fits(exchange_rate) ==> assessed_alike(
            r,
            price_brl,
            is_domestic,
            remessa_conforme,
            taxes_already_included,
            exchange_rate,
        ),
{
    proof {
        lemma_same(decimal::dec(0, 0));
    }
    if is_domestic {
        return Some(TaxInfo::untaxed(false, true, TaxRegime::Domestic));
    }
    if taxes_already_included && !remessa_conforme {
        return Some(TaxInfo::untaxed(false, true, TaxRegime::InternationalStandard));
    }
    let asked = match price_usd {
        Some(p) => Some(p),
        None => decimal::over(Some(price_brl), Some(exchange_rate)),
    };
    proof {
        if price_usd is None {
            if plain_price(price_brl) && plain_rate(exchange_rate) {
                lemma_bracket(price_brl, exchange_rate, asked);
            }
            if decimal::fits(exchange_rate) {
                lemma_same(exchange_rate);
                reveal(decimal::steady_quotient);
                assert forall|p: Decimal|
                    decimal::fits(p) && decimal::same_amount(price_brl, p) implies decimal::alike(
                    asked,
                    #[trigger] decimal::quotient(p, exchange_rate),
                ) && (asked is Some ==> programme_regime(asked->0) == programme_regime(
                    decimal::quotient(p, exchange_rate)->0,
                )) by {
                    if asked is Some {
                        lemma_regime_alike(
                            asked->0,
                            decimal::quotient(p, exchange_rate)->0,
                        );
                    }
                }
            }
        }
    }
    let dollars = match asked {
        Some(p) => p,
        None => {
            return None;
        },
    };
    if taxes_already_included {
        Some(TaxInfo::untaxed(true, true, regime_for(dollars)))
    } else if remessa_conforme {
        levy(regime_for(dollars), true, price_brl, exchange_rate)
    } else {
        levy(TaxRegime::InternationalStandard, false, price_brl, exchange_rate)
    }
}

impl TaxCalculator {
    /// The taxes on a purchase: the price in dollars where the offer gives one,
    /// the price in reais, whether the product ships from within Brazil, whether
    /// the store takes part in the Remessa Conforme programme, whether the price
    /// holds the taxes already, and the reais that a dollar costs.
    pub fn calculate(
        price_usd: Option<Decimal>,
        price_brl: Decimal,
        is_domestic: bool,
        remessa_conforme: bool,
        taxes_already_included: bool,
        exchange_rate: Decimal,
    ) -> (r: TaxInfo)
        requires
            assessed(
                price_usd,
                price_brl,
                is_domestic,
                remessa_conforme,
                taxes_already_included,
                exchange_rate,
            ) is Some,
        ensures
            Some(r) == assessed(
                price_usd,
                price_brl,
                is_domestic,
                remessa_conforme,
                taxes_already_included,
                exchange_rate,
            ),
            price_brl@.mantissa >= 0 && r.import_tax is Some ==> r.import_tax->0@.mantissa >= 0,
            price_usd is None && !is_domestic && !taxes_already_included && plain_price(price_brl)
                && plain_rate(exchange_rate) ==> reckoned(price_brl, exchange_rate, r),
            price_usd is None && decimal::fits(exchange_rate) ==> assessed_alike(
                Some(r),
                price_brl,
                is_domestic,
                remessa_conforme,
                taxes_already_included,
                exchange_rate,
            ),
    {
        match assess(
            price_usd,
            price_brl,
            is_domestic,
            remessa_conforme,
            taxes_already_included,
            exchange_rate,
        ) {
            Some(t) => t,
            None => TaxInfo::default(),
        }
    }

    /// The taxes on a purchase, as `calculate` gives them, or `None` where an
    /// amount on the way is too large to be held or is divided by an exchange rate
    /// of nothing.
    pub fn try_calculate(
        price_usd: Option<Decimal>,
        price_brl: Decimal,
        is_domestic: bool,
        remessa_conforme: bool,
        taxes_already_included: bool,
        exchange_rate: Decimal,
    ) -> (r: Option<TaxInfo>)
        ensures
            r == assessed(
                price_usd,
                price_brl,
                is_domestic,
                remessa_conforme,
                taxes_already_included,
                exchange_rate,
            ),
            price_brl@.mantissa >= 0 && r is Some && r->0.import_tax is Some
                ==> r->0.import_tax->0@.mantissa >= 0,
            price_usd is None && !is_domestic && !taxes_already_included && plain_price(price_brl)
                && plain_rate(exchange_rate) && r is Some ==> reckoned(
                price_brl,
                exchange_rate,
                r->0,
            ),
            assessable(price_usd, price_brl, exchange_rate) ==> r is Some,
            price_usd is None && decimal::fits(exchange_rate) ==> assessed_alike(
                r,
                price_brl,
                is_domestic,
                remessa_conforme,
                taxes_already_included,
                exchange_rate,
            ),
    {
        if assess(
            price_usd,
            price_brl,
            is_domestic,
            remessa_conforme,
            taxes_already_included,
            exchange_rate,
        ).is_none() {
            return None;
        }
        Some(
            TaxCalculator::calculate(
                price_usd,
                price_brl,
                is_domestic,
                remessa_conforme,
                taxes_already_included,
                exchange_rate,
            ),
        )
    }
}

// ---- Laws ----

/// A product that ships from within Brazil has no taxes to add, whatever it costs.
pub proof fn domestic_adds_no_tax(
    price_usd: Option<Decimal>,
    price_brl: Decimal,
    remessa_conforme: bool,
    taxes_already_included: bool,
    exchange_rate: Decimal,
)
    ensures
        assessed(
            price_usd,
            price_brl,
            true,
            remessa_conforme,
            taxes_already_included,
            exchange_rate,
        ) == Some(models::untaxed(false, true, TaxRegime::Domestic)),
{
}

/// A price that holds the taxes already has none to add.
pub proof fn included_adds_no_tax(
    price_usd: Option<Decimal>,
    price_brl: Decimal,
    is_domestic: bool,
    remessa_conforme: bool,
    exchange_rate: Decimal,
)
    ensures
        match assessed(
            price_usd,
            price_brl,
            is_domestic,
            remessa_conforme,
            true,
            exchange_rate,
        ) {
            Some(t) => t.taxes_included && t.total_tax == decimal::dec(0, 0) && t.import_tax is None
                && t.icms is None,
            None => true,
        },
{
}

/// Taxes that are added are the import tax and the state tax together.
pub proof fn total_is_import_and_state_tax(
    price_usd: Option<Decimal>,
    price_brl: Decimal,
    remessa_conforme: bool,
    exchange_rate: Decimal,
)
    ensures
        match assessed(price_usd, price_brl, false, remessa_conforme, false, exchange_rate) {
            Some(t) => !t.taxes_included && t.remessa_conforme == remessa_conforme && Some(
                t.total_tax,
            ) == decimal::sums(t.import_tax, t.icms),
            None => true,
        },
{
}

/// In the programme the lower rate holds for exactly the purchases below 50
/// dollars, whether or not the price holds the taxes already.
pub proof fn programme_threshold(
    price_usd: Decimal,
    price_brl: Decimal,
    taxes_already_included: bool,
    exchange_rate: Decimal,
)
    ensures
        match assessed(
            Some(price_usd),
            price_brl,
            false,
            true,
            taxes_already_included,
            exchange_rate,
        ) {
            Some(t) => (t.tax_regime == TaxRegime::RemessaConformeUnder50 <==> decimal::below(
                price_usd,
                decimal::dec(500, 1),
            )) && (t.tax_regime == TaxRegime::RemessaConformeOver50 <==> decimal::at_most(
                decimal::dec(500, 1),
                price_usd,
            )),
            None => true,
        },
{
}

/// Whether taxes are those on a price that is only known in reais, as `calculate` gives
/// them.
pub open spec fn taxes_on(
    price_brl: Decimal,
    is_domestic: bool,
    remessa_conforme: bool,
    taxes_already_included: bool,
    exchange_rate: Decimal,
    t: TaxInfo,
) -> bool {
    &&& Some(t) == assessed(
        None,
        price_brl,
        is_domestic,
        remessa_conforme,
        taxes_already_included,
        exchange_rate,
    )
    &&& !is_domestic && !taxes_already_included ==> reckoned(price_brl, exchange_rate, t)
    &&& assessed_alike(
        Some(t),
        price_brl,
        is_domestic,
        remessa_conforme,
        taxes_already_included,
        exchange_rate,
    )
}

/// A dearer product owes no less tax, on either side of 50 dollars and across: of two
/// prices in whole cents the smaller one has taxes, as `calculate` gives them, that are no
/// larger, at any rate. The prices are none that amounts have too few digits for.
pub proof fn dearer_owes_no_less(
    cheap: Decimal,
    dear: Decimal,
    is_domestic: bool,
    remessa_conforme: bool,
    taxes_already_included: bool,
    exchange_rate: Decimal,
    less: TaxInfo,
    more: TaxInfo,
)
    requires
        plain_price(cheap),
        plain_price(dear),
        whole_cents(cheap),
        whole_cents(dear),
        plain_rate(exchange_rate),
        decimal::at_most(cheap, dear),
        taxes_on(
            cheap,
            is_domestic,
            remessa_conforme,
            taxes_already_included,
            exchange_rate,
            less,
        ),
        taxes_on(dear, is_domestic, remessa_conforme, taxes_already_included, exchange_rate, more),
    ensures
        decimal::at_most(less.total_tax, more.total_tax),
{
    lemma_same(decimal::dec(0, 0));
    if decimal::at_most(dear, cheap) {
        assert(decimal::same_amount(cheap, dear));
    } else if !is_domestic && !taxes_already_included {
        decimal::lemma_units_ordered(dear, cheap);
        decimal::lemma_units_ordered(less.total_tax, more.total_tax);
        lemma_sign(cheap);
        lemma_sign(exchange_rate);
        let (u, w, v) = (
            decimal::units(cheap),
            decimal::units(dear),
            decimal::units(exchange_rate),
        );
        let a = choose|cents: int|
            u == #[trigger] (cents * 100_000_000_000_000_000_000_000_000int);
        let b = choose|cents: int|
            w == #[trigger] (cents * 100_000_000_000_000_000_000_000_000int);
        lemma_cents_apart(a, b, u, w);
        if remessa_conforme {
            lemma_more(
                less.tax_regime,
                more.tax_regime,
                u,
                w,
                v,
                decimal::units(less.total_tax),
                decimal::units(more.total_tax),
            );
        }
    }
}

proof fn lemma_cents_apart(a: int, b: int, u: int, w: int)
    requires
        u == a * 100_000_000_000_000_000_000_000_000int,
        w == b * 100_000_000_000_000_000_000_000_000int,
        u < w,
    ensures
        w - u >= 100_000_000_000_000_000_000_000_000int,
{
}

proof fn lemma_more(
    low: TaxRegime,
    high: TaxRegime,
    u: int,
    w: int,
    v: int,
    less: int,
    more: int,
)
    requires
        low == TaxRegime::RemessaConformeUnder50 || low == TaxRegime::RemessaConformeOver50,
        high == TaxRegime::RemessaConformeUnder50 || high == TaxRegime::RemessaConformeOver50,
        0 <= u <= w <= price_limit(),
        w - u >= 100_000_000_000_000_000_000_000_000int,
        v > 0,
        near_bracket(low, u, v),
        near_bracket(high, w, v),
        near_total(low, u, v, less),
        near_total(high, w, v, more),
    ensures
        less <= more,
{
    let e = 1_000_000_000_000_000_000_000_000int;
    if low == TaxRegime::RemessaConformeOver50 {
        assert(50 * v <= u + 2 * e);
    }
    if high == TaxRegime::RemessaConformeOver50 {
        assert(50 * v <= w + 2 * e);
    }
    if high == TaxRegime::RemessaConformeUnder50 && 50 * v <= u + 2 * e {
        assert(w <= 50 * v + 2 * e);
    }
}

/// What is owed on a purchase from abroad whose price holds no taxes: under the programme a
/// fifth of the price below 50 dollars, and three fifths less 20 dollars, but not less than
/// nothing, from 50 dollars on; and three fifths outside the programme. On the price with
/// that tax comes what it lacks to be 83 per cent of the whole; and both together are the
/// total.
pub proof fn imports_are_taxed_by_their_programme(
    price_usd: Option<Decimal>,
    price_brl: Decimal,
    remessa_conforme: bool,
    exchange_rate: Decimal,
    dollars: Decimal,
)
    requires
        price_usd == Some(dollars) || (price_usd is None && decimal::quotient(
            price_brl,
            exchange_rate,
        ) == Some(dollars)),
    ensures
        match assessed(price_usd, price_brl, false, remessa_conforme, false, exchange_rate) {
            Some(t) => {
                &&& t.remessa_conforme == remessa_conforme
                &&& !t.taxes_included
                &&& t.import_tax is Some
                &&& t.icms is Some
                &&& remessa_conforme && !decimal::at_most(decimal::dec(500, 1), dollars)
                    ==> t.tax_regime == TaxRegime::RemessaConformeUnder50 && t.import_tax
                    == decimal::product(price_brl, decimal::dec(20, 2))
                &&& remessa_conforme && decimal::at_most(decimal::dec(500, 1), dollars)
                    ==> t.tax_regime == TaxRegime::RemessaConformeOver50 && ({
                    let full = decimal::product(price_brl, decimal::dec(60, 2));
                    let off = decimal::product(decimal::dec(200, 1), exchange_rate);
                    let left = decimal::difference(full->0, off->0);
                    &&& full is Some
                    &&& off is Some
                    &&& left is Some
                    &&& !decimal::at_most(left->0, decimal::dec(0, 0)) ==> t.import_tax == left
                    &&& decimal::at_most(left->0, decimal::dec(0, 0)) ==> t.import_tax == Some(
                        decimal::dec(0, 0),
                    )
                })
                &&& !remessa_conforme ==> t.tax_regime == TaxRegime::InternationalStandard
                    && t.import_tax == decimal::product(price_brl, decimal::dec(60, 2))
                &&& ({
                    let base = decimal::sum(price_brl, t.import_tax->0);
                    let whole = decimal::quotient(base->0, decimal::dec(83, 2));
                    &&& base is Some
                    &&& whole is Some
                    &&& t.icms == decimal::difference(whole->0, base->0)
                })
                &&& decimal::sum(t.import_tax->0, t.icms->0) == Some(t.total_tax)
            },
            None => true,
        },
{
}

/// A price that holds its taxes owes none, in or outside the programme; and a product from
/// within Brazil owes none, whatever is said of its taxes.
pub proof fn nothing_is_owed_twice(
    price_usd: Option<Decimal>,
    price_brl: Decimal,
    is_domestic: bool,
    remessa_conforme: bool,
    taxes_already_included: bool,
    exchange_rate: Decimal,
)
    requires
        is_domestic || taxes_already_included,
    ensures
        match assessed(
            price_usd,
            price_brl,
            is_domestic,
            remessa_conforme,
            taxes_already_included,
            exchange_rate,
        ) {
            Some(t) => {
                &&& t.total_tax == decimal::dec(0, 0)
                &&& t.import_tax is None
                &&& t.icms is None
                &&& t.taxes_included
                &&& is_domestic ==> t.tax_regime == TaxRegime::Domestic && !t.remessa_conforme
                &&& !is_domestic ==> t.remessa_conforme == remessa_conforme
                &&& !is_domestic && !remessa_conforme ==> t.tax_regime
                    == TaxRegime::InternationalStandard
                &&& !is_domestic && remessa_conforme ==> (t.tax_regime
                    == TaxRegime::RemessaConformeUnder50 || t.tax_regime
                    == TaxRegime::RemessaConformeOver50)
            },
            None => !is_domestic && remessa_conforme && price_usd is None && decimal::quotient(
                price_brl,
                exchange_rate,
            ) is None,
        },
{
}

/// Taxes are found wherever the amounts on the way can be held: always within Brazil, and on
/// an import outside the programme whose price holds them.
pub proof fn taxes_are_found(
    price_usd: Option<Decimal>,
    price_brl: Decimal,
    is_domestic: bool,
    remessa_conforme: bool,
    taxes_already_included: bool,
    exchange_rate: Decimal,
)
    ensures
        ({
            let t = assessed(
                price_usd,
                price_brl,
                is_domestic,
                remessa_conforme,
                taxes_already_included,
                exchange_rate,
            );
            &&& is_domestic ==> t is Some
            &&& taxes_already_included && !remessa_conforme ==> t is Some
            &&& taxes_already_included && price_usd is Some ==> t is Some
            &&& !is_domestic && !remessa_conforme && !taxes_already_included && price_usd is Some
                && t is None ==> ({
                let import = decimal::product(price_brl, decimal::dec(60, 2));
                let base = decimal::sum(price_brl, import->0);
                let whole = decimal::quotient(base->0, decimal::dec(83, 2));
                let icms = decimal::difference(whole->0, base->0);
                import is None || base is None || whole is None || icms is None || decimal::sum(
                    import->0,
                    icms->0,
                ) is None
            })
        }),
{
}

} // verus!
