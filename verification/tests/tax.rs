use pechincha::decimal::Decimal;
use pechincha::models::TaxRegime;
use pechincha::tax::TaxCalculator;

fn exchange_rate() -> Decimal {
    Decimal::new(550, 2) // approximate USD/BRL
}

#[test]
fn domestic_product_has_no_additional_tax() {
    let info = TaxCalculator::calculate(
        None,
        Decimal::new(10000, 2),
        true,
        false,
        false,
        exchange_rate(),
    );
    assert_eq!(info.tax_regime, TaxRegime::Domestic);
    assert_eq!(info.total_tax, Decimal::zero());
}

#[test]
fn remessa_conforme_under_50_usd() {
    // Product at USD 30 = BRL 165
    let price_brl = Decimal::new(16500, 2);
    let info = TaxCalculator::calculate(
        Some(Decimal::new(3000, 2)),
        price_brl,
        false,
        true,
        false,
        exchange_rate(),
    );
    assert_eq!(info.tax_regime, TaxRegime::RemessaConformeUnder50);
    assert!(info.import_tax.unwrap() > Decimal::zero());
    assert!(info.icms.unwrap() > Decimal::zero());
    // 20% import = 33.00, ICMS base = 198.00, ICMS "por dentro" = 40.55
    // Total = 73.55
    assert!(info.total_tax > Decimal::new(700, 1));
    assert!(info.total_tax < Decimal::new(800, 1));
}

#[test]
fn remessa_conforme_over_50_usd() {
    // Product at USD 100 = BRL 550
    let price_brl = Decimal::new(55000, 2);
    let info = TaxCalculator::calculate(
        Some(Decimal::new(10000, 2)),
        price_brl,
        false,
        true,
        false,
        exchange_rate(),
    );
    assert_eq!(info.tax_regime, TaxRegime::RemessaConformeOver50);
    assert!(info.import_tax.unwrap() > Decimal::zero());
    // 60% of 550 = 330 - 110 (20 USD * 5.5) = 220
    let expected_import = Decimal::new(22000, 2);
    assert_eq!(info.import_tax.unwrap(), expected_import);
}

#[test]
fn taxes_already_included_returns_zero() {
    let info = TaxCalculator::calculate(
        Some(Decimal::new(3000, 2)),
        Decimal::new(16500, 2),
        false,
        true,
        true,
        exchange_rate(),
    );
    assert_eq!(info.total_tax, Decimal::zero());
    assert!(info.taxes_included);
}

#[test]
fn lower_rate_ends_at_50_dollars() {
    let tax = |usd: i64| {
        TaxCalculator::calculate(
            Some(Decimal::new(usd, 2)),
            Decimal::new(usd * 55, 3),
            false,
            true,
            false,
            exchange_rate(),
        )
    };
    assert_eq!(tax(4999).tax_regime, TaxRegime::RemessaConformeUnder50);
    assert_eq!(tax(5000).tax_regime, TaxRegime::RemessaConformeOver50);
    // 60% of 275 = 165 - 110 = 55
    assert_eq!(tax(5000).import_tax.unwrap(), Decimal::new(55, 0));
}

#[test]
fn dollars_are_worked_out_from_reais() {
    let info = TaxCalculator::calculate(
        None,
        Decimal::new(16500, 2),
        false,
        true,
        false,
        exchange_rate(),
    );
    assert_eq!(info.tax_regime, TaxRegime::RemessaConformeUnder50);
    assert_eq!(info.import_tax.unwrap(), Decimal::new(33, 0));
    assert!(TaxCalculator::try_calculate(
        None,
        Decimal::new(16500, 2),
        false,
        true,
        false,
        Decimal::zero(),
    )
    .is_none());
}

#[test]
fn import_outside_the_programme_pays_the_full_rate() {
    let info = TaxCalculator::calculate(
        Some(Decimal::new(100, 0)),
        Decimal::new(550, 0),
        false,
        false,
        false,
        exchange_rate(),
    );
    assert_eq!(info.tax_regime, TaxRegime::InternationalStandard);
    assert_eq!(info.import_tax.unwrap(), Decimal::new(330, 0));
    // 880 / 0.83 - 880
    assert_eq!(info.icms.unwrap().show_fixed(4), "180.2409");
    assert_eq!(info.total_tax.show_fixed(4), "510.2409");
}

#[test]
fn a_dearer_product_owes_no_less() {
    let tax = |cents: i64, programme: bool| {
        TaxCalculator::calculate(
            None,
            Decimal::new(cents, 2),
            false,
            programme,
            false,
            exchange_rate(),
        )
        .total_tax
    };
    // US$50 are R$275
    for cents in [0, 1, 2, 27498, 27499, 27500, 27501, 55000] {
        assert!(tax(cents, true) <= tax(cents + 1, true));
        assert!(tax(cents, false) <= tax(cents + 1, false));
    }
    // 275 * 1.2 / 0.83 - 275
    assert_eq!(tax(27500, true).show_fixed(4), "122.5903");
    // 274.99 * 1.2 / 0.83 - 274.99
    assert_eq!(tax(27499, true).show_fixed(4), "122.5859");
}

#[test]
fn taxes_depend_on_what_a_price_is_not_on_how_it_is_written() {
    let rate = Decimal::parse("5.4321987654321987654321987654").unwrap();
    let tax = |price: Decimal| {
        TaxCalculator::try_calculate(None, price, false, true, false, rate).unwrap().total_tax
    };
    for whole in [1, 7, 271, 272, 100_000] {
        assert_eq!(tax(Decimal::new(whole, 0)), tax(Decimal::new(whole * 100, 2)));
        assert_eq!(tax(Decimal::new(whole, 0)), tax(Decimal::new(whole * 1_000_000, 6)));
        assert!(tax(Decimal::new(whole * 100, 2)) <= tax(Decimal::new(whole * 100 + 1, 2)));
    }
}

#[test]
fn digits_run_out_for_prices_beyond_reckoning() {
    let tax = |cents: i128| {
        let price = Decimal::from_parts(cents, 2).unwrap();
        TaxCalculator::try_calculate(None, price, false, false, false, Decimal::new(5, 0))
            .unwrap()
            .total_tax
    };
    let cents = 45_000_000_000_000_000_000_000_000_000;
    assert!(tax(cents) > tax(cents + 1));
    let cents = 10_000_000_000_000_000_000_000_000;
    assert!(tax(cents - 1) <= tax(cents));
}
