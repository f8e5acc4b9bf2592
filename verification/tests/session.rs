use pechincha::cdp::{parse_us_details, search_url, us_product_url, AmazonUsDetails};
use pechincha::config::PechinchaConfig;
use pechincha::decimal::Decimal;
use pechincha::enrich::{
    apply_ali_taxes, apply_br_prices, detail_targets, find_msrp, rank_candidates,
};
use pechincha::error::{PechinchaError, ProviderError};
use pechincha::keepa::{KeepaInsight, DOMAIN_BR, DOMAIN_UK, DOMAIN_US};
use pechincha::models::{
    Currency, PriceInfo, Product, ProductCondition, SearchQuery, SearchResults, TaxInfo, TaxRegime,
};
use pechincha::providers::ProviderId;
use pechincha::search::SearchOrchestrator;
use pechincha::session::{
    gather_answers, gather_pages, search_outcome, Event, Gathered, Opening, Request, SearchSession,
};

const QUERY: &str = "Sennheiser HD 600";

fn product(provider: ProviderId, id: &str, title: &str, price: i64) -> Product {
    let tax = TaxInfo::untaxed(false, true, TaxRegime::Domestic);
    Product {
        provider,
        platform_id: id.to_string(),
        title: title.to_string(),
        normalized_title: None,
        url: format!("https://store/{id}"),
        image_url: None,
        price: PriceInfo::listed(Decimal::new(price, 0), Currency::BRL, tax),
        seller: None,
        condition: ProductCondition::New,
        rating: None,
        review_count: None,
        sold_count: None,
        domestic: true,
        fetched_at: 0,
        keepa: Vec::new(),
    }
}

fn insight(domain: u8, list_price: Option<i64>, buy_box: Option<i64>) -> KeepaInsight {
    KeepaInsight {
        asin: "B000000001".to_string(),
        title: String::new(),
        manufacturer: String::new(),
        domain,
        parent_asin: None,
        ean_list: Vec::new(),
        rating: Some(Decimal::new(46, 1)),
        review_count: Some(99),
        list_price,
        amazon_price: None,
        buy_box_price: buy_box,
        buy_box_shipping: None,
        new_3p_price: None,
        fba_price: None,
        fbm_price: None,
        fbm_shipping: None,
        used_price: None,
        warehouse_price: None,
        refurbished_price: None,
        lightning_deal: None,
        new_offer_count: None,
        used_offer_count: None,
        amazon_low: None,
        new_low: None,
        used_low: None,
        warehouse_low: None,
        sales_rank: None,
        trend: None,
    }
}

fn rate() -> Decimal {
    Decimal::new(550, 2)
}

fn begin(products: Vec<Product>, browser: bool) -> SearchSession {
    let gathered = Gathered { products, errors: Vec::new() };
    SearchSession::begin(gathered, SearchQuery::simple(QUERY), rate(), browser)
}

fn details(price: Option<i64>, msrp: Option<i64>, shipping: Option<i64>) -> AmazonUsDetails {
    AmazonUsDetails {
        product_price: price.map(|p| Decimal::new(p, 0)),
        shipping_import: shipping.map(|p| Decimal::new(p, 0)),
        msrp: msrp.map(|p| Decimal::new(p, 0)),
        sold_by: Some("Amazon.com".to_string()),
        ships_from: None,
    }
}

#[test]
fn searches_open_with_pages_or_requests() {
    let mut config = PechinchaConfig::default();
    let mut query = SearchQuery::simple("hd 600");
    query.platforms = vec![ProviderId::Kabum];
    match SearchOrchestrator::from_config(&config).open(&query) {
        Opening::Stores(v) => assert_eq!(v, vec![ProviderId::Kabum]),
        _ => panic!("no stores"),
    }
    config.general.cdp_port = Some(9333);
    match SearchOrchestrator::from_config(&config).open(&query) {
        Opening::Browser { port, pages } => {
            assert_eq!(port, 9333);
            assert_eq!(pages.len(), 1);
            assert_eq!(pages[0].1, "https://www.kabum.com.br/busca/hd-600");
        }
        _ => panic!("no pages"),
    }
    query.platforms = vec![ProviderId::GoogleShopping];
    assert!(matches!(
        SearchOrchestrator::from_config(&config).open(&query),
        Opening::Nothing
    ));
}

#[test]
fn addresses_of_results_are_known() {
    assert_eq!(
        search_url(ProviderId::AliExpress, "hd 600"),
        "https://pt.aliexpress.com/w/wholesale-hd+600.html"
    );
    assert_eq!(
        search_url(ProviderId::MagazineLuiza, "hd 600"),
        "https://www.magazineluiza.com.br/busca/hd%20600/"
    );
    assert_eq!(
        search_url(ProviderId::Ebay, "a&b"),
        "https://www.ebay.com/sch/i.html?_nkw=a%26b&_sacat=0&LH_PrefLoc=3&_sop=15"
    );
    assert_eq!(us_product_url("B0"), "https://www.amazon.com/dp/B0");
}

#[test]
fn pages_are_gathered() {
    let card = "<ul><li class='ui-search-layout__item'><a class='poly-component__title' href='u'>Fone</a>\
<div class='poly-price__current'><span class='andes-money-amount__fraction'>10</span></div></li></ul>";
    let stores = vec![ProviderId::MercadoLivre, ProviderId::Kabum];
    let pages = vec![
        (ProviderId::MercadoLivre, Ok(card.to_string())),
        (ProviderId::Kabum, Ok("<html></html>".to_string())),
        (ProviderId::Olx, Ok(card.to_string())),
        (ProviderId::Ebay, Err(ProviderError::NoResults)),
    ];
    let g = gather_pages(&stores, pages, 5, 3);
    assert_eq!(g.products.len(), 1);
    assert_eq!(g.products[0].fetched_at, 3);
    let failed: Vec<ProviderId> = g.errors.iter().map(|e| e.0).collect();
    assert_eq!(failed, vec![ProviderId::Kabum, ProviderId::Ebay]);
}

#[test]
fn answers_are_gathered() {
    let g = gather_answers(vec![
        (ProviderId::Olx, Ok(vec![product(ProviderId::Olx, "1", QUERY, 5)])),
        (ProviderId::Kabum, Err(ProviderError::Timeout(30))),
        (ProviderId::Kabum, Ok(vec![product(ProviderId::Kabum, "2", QUERY, 6)])),
    ]);
    assert_eq!(g.products.len(), 2);
    assert_eq!(g.errors.len(), 1);
}

#[test]
fn searches_without_a_browser_end_at_once() {
    let s = begin(vec![product(ProviderId::AmazonUS, "B000000001", QUERY, 0)], false);
    assert!(matches!(s.next_request(), Request::Nothing));
    assert_eq!(s.into_results(5).unwrap().products.len(), 0);
}

#[test]
fn searches_go_through_every_stage() {
    let mut us = product(ProviderId::AmazonUS, "B000000001", QUERY, 0);
    us.price.currency = Currency::USD;
    us.domestic = false;
    us.price.tax = TaxInfo::untaxed(false, false, TaxRegime::Unknown);
    let br = product(ProviderId::Amazon, "B000000002", QUERY, 0);
    let mut s = begin(vec![us, br], true);
    match s.next_request() {
        Request::UsPages(v) => assert_eq!(v, vec!["https://store/B000000001"]),
        _ => panic!("no American pages"),
    }
    // What is not waited for changes nothing.
    s = s.receive(Event::Insight(None));
    assert!(matches!(s.next_request(), Request::UsPages(_)));
    s = s.receive(Event::UsDetails(vec![Some(details(Some(300), None, Some(40)))]));
    match s.next_request() {
        Request::Pages { br, ali } => {
            assert_eq!(br, vec!["https://store/B000000002"]);
            assert!(ali.is_empty());
        }
        _ => panic!("no pages"),
    }
    s = s.receive(Event::Details { prices: vec![Some(Decimal::new(2000, 0))], taxes: vec![] });
    match s.next_request() {
        Request::Comparison { asin, domain } => {
            assert_eq!(asin, "B000000002");
            assert_eq!(domain, DOMAIN_BR);
        }
        _ => panic!("no comparison"),
    }
    // One site is not enough, so the American number is tried.
    s = s.receive(Event::Insights(vec![insight(DOMAIN_BR, None, None)]));
    match s.next_request() {
        Request::Comparison { asin, domain } => {
            assert_eq!(asin, "B000000001");
            assert_eq!(domain, DOMAIN_US);
        }
        _ => panic!("no second comparison"),
    }
    s = s.receive(Event::Insights(vec![
        insight(DOMAIN_US, None, None),
        insight(DOMAIN_UK, None, None),
    ]));
    match s.next_request() {
        Request::Page(url) => assert_eq!(url, "https://www.amazon.com/dp/B000000001"),
        _ => panic!("no page for the price asked"),
    }
    s = s.receive(Event::Page(Some(details(None, Some(400), None))));
    assert!(matches!(s.next_request(), Request::Nothing));
    let r = s.into_results(1).unwrap();
    assert_eq!(r.products.len(), 2);
    for p in &r.products {
        assert_eq!(p.price.original_price.unwrap(), Decimal::new(400, 0));
        assert_eq!(p.keepa.len(), 2);
    }
    let us = r.products.iter().find(|p| p.provider == ProviderId::AmazonUS).unwrap();
    assert_eq!(us.price.shipping_cost.unwrap(), Decimal::new(220, 0));
    assert_eq!(us.seller.as_ref().unwrap().name, "Amazon.com");
    assert_eq!(us.rating.unwrap(), Decimal::new(46, 1));
    // 300 * 5.5 + 40 * 5.5
    assert_eq!(us.price.total_cost, Decimal::new(1870, 0));
}

#[test]
fn a_single_site_is_asked_without_another_candidate() {
    let s = begin(vec![product(ProviderId::Amazon, "B000000002", QUERY, 2000)], true);
    let s = s.receive(Event::Insights(vec![]));
    match s.next_request() {
        Request::Single { asin, domain } => {
            assert_eq!(asin, "B000000002");
            assert_eq!(domain, DOMAIN_US);
        }
        _ => panic!("no single site"),
    }
    let s = s.receive(Event::Insight(Some(insight(DOMAIN_US, Some(45000), None))));
    let r = s.into_results(0).unwrap();
    assert_eq!(r.products[0].price.original_price.unwrap(), Decimal::new(450, 0));
}

#[test]
fn three_pages_of_a_store_are_opened() {
    let mut v: Vec<Product> = (0..5)
        .map(|i| product(ProviderId::AliExpress, &i.to_string(), QUERY, 100))
        .collect();
    v[1].url = String::new();
    v[2].title = "Cabo".to_string();
    assert_eq!(detail_targets(&v, QUERY, ProviderId::AliExpress), vec![0, 3, 4]);
    assert!(detail_targets(&v, QUERY, ProviderId::Amazon).is_empty());
}

#[test]
fn taxes_are_carried_over_to_other_products() {
    let v: Vec<Product> = (0..3)
        .map(|i| product(ProviderId::AliExpress, &i.to_string(), QUERY, 100 * (i + 1)))
        .collect();
    let taxed = apply_ali_taxes(v, &vec![(0, Decimal::new(20, 0)), (1, Decimal::new(80, 0))]).unwrap();
    assert_eq!(taxed[0].price.tax.total_tax, Decimal::new(20, 0));
    assert_eq!(taxed[1].price.tax.total_tax, Decimal::new(80, 0));
    // A fifth and two fifths, so three tenths.
    assert_eq!(taxed[2].price.tax.total_tax, Decimal::new(90, 0));
    assert_eq!(taxed[2].price.tax.tax_regime, TaxRegime::RemessaConformeOver50);
}

#[test]
fn low_prices_are_not_believed() {
    let v = vec![product(ProviderId::Amazon, "B000000001", QUERY, 0)];
    let r = apply_br_prices(v.clone(), &vec![(0, Decimal::new(50, 0))]);
    assert!(r[0].price.listed_price.is_zero());
    let r = apply_br_prices(v, &vec![(0, Decimal::new(51, 0))]);
    assert_eq!(r[0].price.total_cost, Decimal::new(51, 0));
}

#[test]
fn candidates_are_ranked() {
    let mut v = vec![
        product(ProviderId::Amazon, "B000000001", "Sennheiser HD 600", 10),
        product(ProviderId::AmazonUS, "B000000001", "Sennheiser HD 600", 10),
        product(ProviderId::AmazonUS, "B000000003", "Sennheiser HD 600", 10),
        product(ProviderId::AmazonUS, "B3", "Sennheiser HD 600", 10),
        product(ProviderId::Kabum, "B000000004", "Sennheiser HD 600", 10),
    ];
    v[2].review_count = Some(5);
    let c = rank_candidates(&v, QUERY);
    let asins: Vec<&str> = c.iter().map(|c| c.asin.as_str()).collect();
    assert_eq!(asins, vec!["B000000003", "B000000001"]);
    assert_eq!(c[1].domain, DOMAIN_BR);
}

#[test]
fn implausible_prices_are_dropped() {
    let v = vec![product(ProviderId::Amazon, "B000000001", QUERY, 2000)];
    // 30 dollars are 165 reais, less than a tenth of 2000.
    let low = vec![insight(DOMAIN_US, Some(3000), None)];
    assert!(find_msrp(&low, &v, QUERY, rate()).unwrap().is_none());
    let fair = vec![
        insight(DOMAIN_US, Some(39900), None),
        insight(DOMAIN_UK, Some(30000), None),
        insight(DOMAIN_BR, Some(100), None),
    ];
    assert_eq!(
        find_msrp(&fair, &v, QUERY, rate()).unwrap().unwrap(),
        Decimal::new(381, 0)
    );
}

#[test]
fn details_are_read() {
    let d = parse_us_details(
        "{\"productPrice\":\"1,299.00\",\"msrp\":null,\"shipping\":\"20.50\",\"importFee\":\"30.25\",\"soldBy\":\"X\"}",
    )
    .unwrap();
    assert_eq!(d.product_price.unwrap(), Decimal::new(1299, 0));
    assert!(d.msrp.is_none());
    assert_eq!(d.shipping_import.unwrap(), Decimal::new(5075, 2));
    assert_eq!(d.sold_by.as_deref(), Some("X"));
    let d = parse_us_details("{\"combined\":\"85.10\",\"shipping\":\"1.00\"}").unwrap();
    assert_eq!(d.shipping_import.unwrap(), Decimal::new(8510, 2));
    assert!(parse_us_details("{}").unwrap().shipping_import.is_none());
    assert!(parse_us_details("no json").is_none());
}

#[test]
fn searches_fail_where_every_store_does() {
    let results = |products: Vec<Product>, errors: usize| SearchResults {
        products,
        errors: (0..errors).map(|_| (ProviderId::Olx, ProviderError::NoResults)).collect(),
        query_time: 0,
    };
    match search_outcome(results(vec![], 2), 2) {
        Err(PechinchaError::AllProvidersFailed(v)) => assert_eq!(v.len(), 2),
        _ => panic!("no failure"),
    }
    assert!(search_outcome(results(vec![], 1), 2).is_ok());
    assert!(search_outcome(results(vec![], 0), 0).is_ok());
    let found = vec![product(ProviderId::Olx, "1", QUERY, 5)];
    assert!(search_outcome(results(found, 2), 2).is_ok());
}

#[test]
fn only_chosen_stores_are_searched() {
    let mut config = PechinchaConfig::default();
    config.general.cdp_port = Some(9222);
    let mut query = SearchQuery::simple("hd 600");
    query.platforms = vec![ProviderId::Olx, ProviderId::GoogleShopping];
    match SearchOrchestrator::from_config(&config).open(&query) {
        Opening::Browser { pages, .. } => {
            let stores: Vec<ProviderId> = pages.iter().map(|(id, _)| *id).collect();
            assert_eq!(stores, vec![ProviderId::Olx]);
        }
        _ => panic!("no pages"),
    }
}

#[test]
fn insights_are_not_awaited_for_ever() {
    let asin = "B000000001".to_string();
    let all = Request::Comparison { asin: asin.clone(), domain: DOMAIN_BR };
    assert_eq!(all.limit_seconds(), Some(35));
    assert_eq!(Request::Single { asin, domain: DOMAIN_BR }.limit_seconds(), Some(20));
    assert_eq!(Request::Nothing.limit_seconds(), None);
}
