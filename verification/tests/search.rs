use pechincha::config::PechinchaConfig;
use pechincha::decimal::Decimal;
use pechincha::keepa::{KeepaInsight, DOMAIN_BR, DOMAIN_US};
use pechincha::models::{
    Currency, PriceInfo, Product, ProductCondition, SearchQuery, SortOrder, TaxInfo, TaxRegime,
};
use pechincha::providers::kabum::Kabum;
use pechincha::providers::{Provider, ProviderId};
use pechincha::search::{
    apply_costs, deduplicate_products, fill_prices, finish_search, limit_stores,
    normalize_for_dedup, sort_products, SearchOrchestrator,
};

fn product(provider: ProviderId, id: &str, title: &str, price: i64) -> Product {
    let tax = TaxInfo::untaxed(false, true, TaxRegime::Domestic);
    Product {
        provider,
        platform_id: id.to_string(),
        title: title.to_string(),
        normalized_title: None,
        url: format!("https://store/{id}"),
        image_url: None,
        price: PriceInfo::listed(Decimal::new(price, 0), Currency::BRL, tax),
        seller: None,
        condition: ProductCondition::New,
        rating: None,
        review_count: None,
        sold_count: None,
        domestic: true,
        fetched_at: 0,
        keepa: Vec::new(),
    }
}

fn insight(domain: u8, buy_box: Option<i64>) -> KeepaInsight {
    KeepaInsight {
        asin: "B000000001".to_string(),
        title: String::new(),
        manufacturer: String::new(),
        domain,
        parent_asin: None,
        ean_list: Vec::new(),
        rating: None,
        review_count: None,
        list_price: None,
        amazon_price: None,
        buy_box_price: buy_box,
        buy_box_shipping: None,
        new_3p_price: None,
        fba_price: None,
        fbm_price: None,
        fbm_shipping: None,
        used_price: None,
        warehouse_price: None,
        refurbished_price: None,
        lightning_deal: None,
        new_offer_count: None,
        used_offer_count: None,
        amazon_low: None,
        new_low: None,
        used_low: None,
        warehouse_low: None,
        sales_rank: None,
        trend: None,
    }
}

fn rate() -> Decimal {
    Decimal::new(550, 2)
}

fn titles(v: &[Product]) -> Vec<&str> {
    v.iter().map(|p| p.title.as_str()).collect()
}

fn costs(v: &[Product]) -> Vec<String> {
    v.iter().map(|p| p.price.total_cost.show()).collect()
}

#[test]
fn browser_searches_all_but_google() {
    let mut config = PechinchaConfig::default();
    assert!(!SearchOrchestrator::from_config(&config).providers.contains(&ProviderId::Shopee));
    config.general.cdp_port = Some(9222);
    let all = SearchOrchestrator::from_config(&config);
    assert_eq!(all.providers.len(), 9);
    assert!(!all.providers.contains(&ProviderId::GoogleShopping));
    config.providers.google_shopping.enabled = true;
    let all = SearchOrchestrator::from_config(&config);
    assert_eq!(all.providers.len(), 10);
    let mut query = SearchQuery::simple("fone");
    query.platforms = vec![ProviderId::Ebay, ProviderId::Kabum];
    assert_eq!(all.active(&query), vec![ProviderId::Kabum, ProviderId::Ebay]);
}

#[test]
fn dollars_become_reais_with_taxes() {
    let mut p = product(ProviderId::AmazonUS, "B000000001", "Sennheiser HD 600", 100);
    p.price.currency = Currency::USD;
    p.price.tax = TaxInfo::untaxed(false, false, TaxRegime::Unknown);
    p.price.shipping_cost = Some(Decimal::new(20, 0));
    p.domestic = false;
    let v = apply_costs(&vec![p], rate()).unwrap();
    assert_eq!(v[0].price.price_brl, Decimal::new(550, 0));
    assert_eq!(v[0].price.tax.tax_regime, TaxRegime::InternationalStandard);
    // 550 + 20 + 330 + (880 / 0.83 - 880)
    assert_eq!(v[0].price.total_cost.show_fixed(4), "1080.2409");
}

#[test]
fn missing_prices_come_from_the_own_site() {
    let mut p = product(ProviderId::Amazon, "B000000001", "Sennheiser HD 600", 0);
    p.keepa = vec![insight(DOMAIN_US, Some(29900)), insight(DOMAIN_BR, Some(189990))];
    let v = fill_prices(&vec![p]);
    assert_eq!(v[0].price.listed_price, Decimal::new(189990, 2));
    let mut q = product(ProviderId::Kabum, "1", "Sennheiser HD 600", 0);
    q.keepa = vec![insight(DOMAIN_BR, Some(189990))];
    assert!(fill_prices(&vec![q])[0].price.listed_price.is_zero());
}

#[test]
fn titles_come_down_to_the_same() {
    assert_eq!(
        normalize_for_dedup("Fone HD-600 (Preto) Bivolt, 110v/220v!"),
        "fone hd 600"
    );
    assert_eq!(normalize_for_dedup("Black | White: Branco"), "");
}

#[test]
fn duplicates_are_dropped() {
    let v = vec![
        product(ProviderId::Amazon, "A", "Sennheiser HD 600", 10),
        product(ProviderId::Amazon, "A", "Something else", 11),
        product(ProviderId::Amazon, "B", "Sennheiser HD-600 Preto", 12),
        product(ProviderId::Kabum, "A", "Sennheiser HD 600", 13),
        product(ProviderId::Amazon, "", "Something else", 14),
        product(ProviderId::Olx, "fone", "Fone", 15),
    ];
    let kept = deduplicate_products(v);
    assert_eq!(costs(&kept), vec!["10", "13", "14", "15"]);
}

#[test]
fn each_store_is_limited() {
    let v: Vec<Product> = (0..6)
        .map(|i| {
            let store = if i % 2 == 0 { ProviderId::Olx } else { ProviderId::Kabum };
            product(store, &i.to_string(), "Sennheiser HD 600", i)
        })
        .collect();
    assert_eq!(costs(&limit_stores(v.clone(), 2)), vec!["0", "1", "2", "3"]);
    assert_eq!(limit_stores(v.clone(), 0).len(), 0);
    assert_eq!(limit_stores(v, 50).len(), 6);
}

#[test]
fn products_are_sorted() {
    let mut v = vec![
        product(ProviderId::Olx, "1", "a", 30),
        product(ProviderId::Olx, "2", "b", 10),
        product(ProviderId::Olx, "3", "c", 10),
    ];
    v[1].rating = Some(Decimal::new(45, 1));
    v[2].rating = Some(Decimal::new(48, 1));
    assert_eq!(titles(&sort_products(&v, SortOrder::TotalCost)), vec!["b", "c", "a"]);
    assert_eq!(titles(&sort_products(&v, SortOrder::PriceDesc)), vec!["a", "b", "c"]);
    assert_eq!(titles(&sort_products(&v, SortOrder::Rating)), vec!["c", "b", "a"]);
    assert_eq!(titles(&sort_products(&v, SortOrder::Relevance)), vec!["a", "b", "c"]);
}

fn offers() -> Vec<Product> {
    vec![
        product(ProviderId::Amazon, "B000000001", "Sennheiser HD 600 Open Back", 2400),
        product(ProviderId::Kabum, "5", "Fone Sennheiser HD 600", 2200),
        product(ProviderId::Olx, "6", "Sennheiser HD 600", 2100),
        product(ProviderId::Olx, "7", "Sennheiser HD 650", 1900),
        product(ProviderId::Shopee, "8", "Cabo balanceado para Sennheiser HD 600", 60),
        product(ProviderId::Olx, "9", "Sennheiser HD 600 sem valor", 0),
    ]
}

#[test]
fn lists_are_relevant_ordered_and_complete() {
    let query = SearchQuery::simple("Sennheiser HD 600");
    let v = finish_search(&offers(), &query, rate()).unwrap();
    assert_eq!(costs(&v), vec!["2100", "2200", "2400"]);
}

#[test]
fn lists_fit_prices_and_conditions() {
    let mut query = SearchQuery::simple("Sennheiser HD 600");
    query.min_price = Some(Decimal::new(2150, 0));
    query.max_price = Some(Decimal::new(2200, 0));
    let v = finish_search(&offers(), &query, rate()).unwrap();
    assert_eq!(costs(&v), vec!["2200"]);
    let mut some = offers();
    some[1].condition = ProductCondition::Unknown;
    some[2].condition = ProductCondition::Used;
    let mut query = SearchQuery::simple("Sennheiser HD 600");
    query.condition = Some(ProductCondition::New);
    let v = finish_search(&some, &query, rate()).unwrap();
    assert_eq!(costs(&v), vec!["2200", "2400"]);
}

#[test]
fn amounts_that_cannot_be_held_end_a_list() {
    let mut p = product(ProviderId::AmazonUS, "B000000001", "Sennheiser HD 600", 1);
    p.price.currency = Currency::USD;
    p.price.listed_price = Decimal::parse("79228162514264337593543950335").unwrap();
    let query = SearchQuery::simple("Sennheiser HD 600");
    assert!(finish_search(&vec![p], &query, rate()).is_none());
}

#[test]
fn the_cheapest_listing_of_a_number_is_kept() {
    let v = vec![
        product(ProviderId::Amazon, "B000000001", "Sennheiser HD 600 novo", 2500),
        product(ProviderId::Amazon, "B000000001", "Sennheiser HD 600", 2100),
        product(ProviderId::Kabum, "B000000001", "Sennheiser HD 600", 2300),
    ];
    let r = finish_search(&v, &SearchQuery::simple("sennheiser hd 600"), rate()).unwrap();
    assert_eq!(costs(&r), vec!["2100", "2300"]);
}

#[test]
fn the_cheapest_listing_is_kept_in_any_order() {
    let page = "<script id=\"__NEXT_DATA__\" type=\"application/json\">{\"props\":{\"pageProps\":{\"data\":{\"catalogServer\":{\"data\":[
{\"name\":\"Dyson V15\",\"price\":100,\"code\":1},{\"name\":\"Dyson V15\",\"price\":200,\"code\":2}]}}}}}</script>";
    let v = match Kabum::new().parse_html(page, 10, 0) {
        Ok(v) => v,
        Err(_) => panic!("no offers"),
    };
    assert_eq!(v.len(), 2);
    for sort in [
        SortOrder::TotalCost,
        SortOrder::PriceAsc,
        SortOrder::PriceDesc,
        SortOrder::Rating,
        SortOrder::Relevance,
    ] {
        let mut query = SearchQuery::simple("Dyson V15");
        query.sort = sort;
        query.platforms = vec![ProviderId::Kabum];
        let r = finish_search(&v, &query, rate()).unwrap();
        assert_eq!(costs(&r), vec!["100"]);
    }
    let mut dearest_first = v.clone();
    dearest_first.reverse();
    let kept = deduplicate_products(dearest_first);
    assert_eq!(kept.len(), 1);
    assert_eq!(kept[0].platform_id, "1");
}

#[test]
fn a_title_stays_where_its_cheaper_listing_has_another_one() {
    let v = vec![
        product(ProviderId::Amazon, "B", "Dyson V15 Detect", 3),
        product(ProviderId::Amazon, "A", "Dyson V15 Detect", 2),
        product(ProviderId::Amazon, "A", "Dyson V15", 1),
    ];
    assert_eq!(costs(&deduplicate_products(v)), vec!["3", "1"]);
}
