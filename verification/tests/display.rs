use pechincha::decimal::Decimal;
use pechincha::display::{
    csv_lines, find_median, format_brl, format_count, import_cost, product_row, report, truncate,
    MsrpNote, Reference, Tone,
};
use pechincha::history::PriceChange;
use pechincha::keepa::{KeepaInsight, PriceTrend, DOMAIN_BR, DOMAIN_JP, DOMAIN_US};
use pechincha::models::{
    Currency, PriceInfo, Product, ProductCondition, TaxInfo, TaxRegime,
};
use pechincha::providers::ProviderId;

fn product(provider: ProviderId, title: &str, price: i64) -> Product {
    let tax = TaxInfo::untaxed(false, true, TaxRegime::Domestic);
    Product {
        provider,
        platform_id: "B000000001".to_string(),
        title: title.to_string(),
        normalized_title: None,
        url: "https://store/1".to_string(),
        image_url: None,
        price: PriceInfo::listed(Decimal::new(price, 0), Currency::BRL, tax),
        seller: None,
        condition: ProductCondition::New,
        rating: None,
        review_count: None,
        sold_count: None,
        domestic: true,
        fetched_at: 0,
        keepa: Vec::new(),
    }
}

fn insight(domain: u8, list_price: Option<i64>, buy_box: Option<i64>) -> KeepaInsight {
    KeepaInsight {
        asin: "B000000001".to_string(),
        title: String::new(),
        manufacturer: String::new(),
        domain,
        parent_asin: None,
        ean_list: Vec::new(),
        rating: None,
        review_count: None,
        list_price,
        amazon_price: None,
        buy_box_price: buy_box,
        buy_box_shipping: None,
        new_3p_price: None,
        fba_price: None,
        fbm_price: None,
        fbm_shipping: None,
        used_price: None,
        warehouse_price: None,
        refurbished_price: None,
        lightning_deal: None,
        new_offer_count: None,
        used_offer_count: None,
        amazon_low: None,
        new_low: None,
        used_low: None,
        warehouse_low: None,
        sales_rank: None,
        trend: None,
    }
}

#[test]
fn reais_are_grouped() {
    assert_eq!(format_brl(&Decimal::new(123456789, 2)), "R$ 1.234.567,89");
    assert_eq!(format_brl(&Decimal::new(5, 0)), "R$ 5,00");
    assert_eq!(format_brl(&Decimal::new(1059, 3)), "R$ 1,05");
    assert_eq!(format_brl(&Decimal::new(-100050, 2)), "R$ 1.000,50");
    assert_eq!(format_brl(&Decimal::zero()), "R$ 0,00");
}

#[test]
fn counts_are_shortened() {
    assert_eq!(format_count(999), "999");
    assert_eq!(format_count(1_000), "1.0k");
    assert_eq!(format_count(1_250), "1.2k");
    assert_eq!(format_count(2_350_000), "2.4M");
}

#[test]
fn titles_are_cut() {
    assert_eq!(truncate("abc", 3), "abc");
    assert_eq!(truncate("abcd", 3), "ab…");
    assert_eq!(truncate("ação!", 4), "açã…");
    assert_eq!(truncate("abc", 0), "…");
}

#[test]
fn medians_are_found() {
    let d = |n: i64| Decimal::new(n, 0);
    assert!(find_median(&vec![]).unwrap().is_none());
    assert_eq!(find_median(&vec![d(3), d(1), d(2)]).unwrap().unwrap(), d(2));
    assert_eq!(find_median(&vec![d(4), d(1)]).unwrap().unwrap(), Decimal::new(25, 1));
}

#[test]
fn rows_tell_what_is_known() {
    let mut p = product(ProviderId::AmazonUS, "Sennheiser HD 600", 1650);
    p.domestic = false;
    p.price.currency = Currency::USD;
    p.price.listed_price = Decimal::new(300, 0);
    p.price.shipping_cost = Some(Decimal::new(220, 0));
    p.rating = Some(Decimal::new(465, 2));
    p.review_count = Some(1500);
    let reference = Reference {
        msrp_usd: Some(Decimal::new(400, 0)),
        msrp_brl: None,
        domestic: false,
        rate: Decimal::new(55, 1),
        median: Some(Decimal::new(1500, 0)),
    };
    let change = PriceChange {
        previous: Decimal::new(2000, 0),
        current: Decimal::new(1650, 0),
        pct_change: Decimal::new(-175, 1),
        days_ago: 4,
    };
    let row = product_row(3, &p, false, &reference, &Some(change)).unwrap();
    assert_eq!(row.rank, " 3");
    assert_eq!(row.price, "R$ 1.650,00  ");
    assert_eq!(row.breakdown, "US$300 + US$40 ship+tax");
    let notes: Vec<&str> = row.notes.iter().map(|n| n.text.as_str()).collect();
    assert_eq!(
        notes,
        vec![
            "Amazon US",
            "import",
            "4.7 (1.5k)★",
            "-25% vs MSRP",
            "↓18% 4d ago",
            "+10% vs median",
        ]
    );
    assert_eq!(row.notes[3].tone, Tone::Good);
    assert_eq!(row.notes[5].tone, Tone::Bad);
}

#[test]
fn reports_hold_everything() {
    let mut v = vec![
        product(ProviderId::Amazon, "Sennheiser HD 600", 2000),
        product(ProviderId::Kabum, "Fone HD 600", 2100),
    ];
    v[1].url = String::new();
    let mut us = insight(DOMAIN_US, Some(39900), Some(29900));
    us.trend = Some(PriceTrend::Falling);
    us.warehouse_price = Some(25000);
    v[0].keepa = vec![insight(DOMAIN_BR, None, None), insight(DOMAIN_JP, None, Some(30000)), us];
    let r = report(&v, &vec![None, None], "1.2").unwrap();
    assert_eq!(r.summary, "2 results · 2 providers · 1.2s");
    assert!(r.rows[0].best);
    assert!(!r.rows[1].best);
    let sites = r.sites.unwrap();
    assert_eq!(sites.caption, "ASIN B000000001 via Keepa");
    assert_eq!(sites.rows.len(), 2);
    assert_eq!(sites.rows[0].label, "Amazon.co.jp        ");
    assert_eq!(sites.rows[0].price, "¥30000 (~US$201)");
    assert!(sites.rows[0].cheapest);
    assert_eq!(sites.rows[1].price, "US$299.00");
    assert_eq!(sites.rows[1].extras, "Warehouse US$250");
    assert!(!sites.rows[1].cheapest);
    assert!(matches!(r.msrp, Some(MsrpNote::Import(_))));
    assert_eq!(r.links.len(), 1);
    assert_eq!(r.links[0].0, " 1");
}

#[test]
fn brazilian_prices_are_shown_in_reais() {
    let mut v = vec![product(ProviderId::Amazon, "Sennheiser HD 600", 2000)];
    v[0].keepa = vec![insight(DOMAIN_BR, Some(250000), None)];
    let r = report(&v, &vec![], "0.0").unwrap();
    match r.msrp {
        Some(MsrpNote::Domestic(s)) => assert_eq!(s, "R$ 2.500,00"),
        _ => panic!("no price"),
    }
    let notes: Vec<&str> = r.rows[0].notes.iter().map(|n| n.text.as_str()).collect();
    assert_eq!(notes, vec!["Amazon BR", "domestic", "-20% vs MSRP"]);
}

#[test]
fn import_costs_are_broken_down() {
    let c = import_cost(Decimal::new(100, 0), Decimal::new(55, 1)).unwrap();
    assert_eq!(c.msrp, "US$100.00");
    assert_eq!(c.converted, "R$ 550,00 (USD/BRL 5.50)");
    let (tax, part) = c.import_tax.unwrap();
    assert_eq!((tax.as_str(), part.as_str()), ("R$ 330,00", " (60%)"));
    assert_eq!(c.icms.unwrap(), "R$ 180,24");
    assert_eq!(c.total, "R$ 1.060,24");
}

#[test]
fn values_are_separated_by_commas() {
    let mut p = product(ProviderId::Kabum, "Fone 3.5\" HD, preto", 2000);
    p.rating = Some(Decimal::new(45, 1));
    p.review_count = Some(7);
    p.price.shipping_cost = Some(Decimal::new(155, 1));
    let lines = csv_lines(&vec![p]);
    assert_eq!(
        lines[0],
        "rank,platform,title,price_brl,shipping_brl,tax_brl,total_brl,rating,reviews,domestic,url"
    );
    assert_eq!(
        lines[1],
        "1,Kabum,\"Fone 3.5\"\" HD, preto\",2000.00,15.50,0.00,2000.00,4.5,7,true,https://store/1"
    );
}
