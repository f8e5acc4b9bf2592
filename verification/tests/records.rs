use pechincha::browser::{login_reply, login_url, LoginReply};
use pechincha::cache::{key_parts, CacheEntry, SearchCache};
use pechincha::cli::{browser_port, chosen_order, chosen_stores, log_filter, provider_lines};
use pechincha::clock::{show_date, show_minute};
use pechincha::config::{default_config_path, PechinchaConfig};
use pechincha::cookies::{
    captured_cookies, cookie_path, cookie_statement, find_browser, has_cookies, parse_curl_cookies,
    CookieBrowser, SavedCookie,
};
use pechincha::currency::{
    fallback_rate, ptax_url, read_reply, ExchangeRateService, RateStep, Reply,
};
use pechincha::daemon::{
    parse_pid, start_failure, start_step, start_wait, started_lines, status, stop_step, StartStep,
    StartWait, StopStep,
};
use pechincha::decimal::Decimal;
use pechincha::history::{digest_parts, PriceEntry, PriceTracker};
use pechincha::json::{Field, Json, Number};
use pechincha::models::{
    Currency, PriceInfo, Product, ProductCondition, SearchQuery, SortOrder, TaxInfo, TaxRegime,
};
use pechincha::notify::{notification_line, notification_script};
use pechincha::providers::ProviderId;
use pechincha::scraping::{provider_domain, random_user_agent};
use pechincha::watch::{watch_query, CheckOutcome, WatchStore};

const DAY: i128 = 86_400_000_000_000;

fn product(id: &str, price: i64) -> Product {
    let tax = TaxInfo::untaxed(false, true, TaxRegime::Domestic);
    Product {
        provider: ProviderId::Kabum,
        platform_id: id.to_string(),
        title: "Fone HD 600".to_string(),
        normalized_title: None,
        url: String::new(),
        image_url: None,
        price: PriceInfo::listed(Decimal::new(price, 0), Currency::BRL, tax),
        seller: None,
        condition: ProductCondition::New,
        rating: None,
        review_count: None,
        sold_count: None,
        domestic: true,
        fetched_at: 0,
        keepa: Vec::new(),
    }
}

fn entry(at: i128, cost: i64) -> PriceEntry {
    PriceEntry {
        timestamp: at,
        total_cost: Decimal::new(cost, 0),
        listed_price: Decimal::new(cost, 0),
        provider: ProviderId::Kabum,
    }
}

#[test]
fn prices_of_earlier_days_count() {
    let t = PriceTracker::new("/data");
    let now = 20_000 * DAY + 5;
    let entries = vec![
        entry(19_990 * DAY, 100),
        entry(19_998 * DAY + 7, 80),
        entry(19_995 * DAY, 90),
        entry(20_000 * DAY, 70),
    ];
    assert_eq!(t.get_previous(&entries, now).unwrap().total_cost, Decimal::new(80, 0));
    let c = t.price_change(&entries, &product("1", 60), now).unwrap();
    assert_eq!(c.pct_change, Decimal::new(-25, 0));
    assert_eq!(c.days_ago, 1);
    assert!(t.get_previous(&vec![entry(20_000 * DAY, 70)], now).is_none());
    assert!(t.price_change(&vec![entry(19_000 * DAY, 0)], &product("1", 60), now).is_none());
    // A moment before midnight is of another day, and told as a day ago.
    let late = vec![entry(20_000 * DAY - 1, 50)];
    assert_eq!(t.price_change(&late, &product("1", 100), now).unwrap().days_ago, 1);
}

#[test]
fn prices_are_recorded() {
    let t = PriceTracker::new("/data");
    let (path, e) = t.record(&product("42", 100), "digest", 9).unwrap();
    assert_eq!(path, "/data/pechincha/history/Kabum_42.jsonl");
    assert_eq!(e.timestamp, 9);
    let (path, _) = t.record(&product("", 100), "digest", 9).unwrap();
    assert_eq!(path, "/data/pechincha/history/digest.jsonl");
    assert!(t.record(&product("42", 0), "digest", 9).is_none());
    let all = vec![product("1", 5), product("2", 0), product("3", 6)];
    let digests = vec!["a".to_string(), "b".to_string(), "c".to_string()];
    assert_eq!(t.record_all(&all, &digests, 9).len(), 2);
}

#[test]
fn kept_results_expire() {
    let cache = SearchCache::new(30, "/cache");
    assert_eq!(cache.cache_path("00ff"), "/cache/pechincha/00ff.json");
    let entry = |at: u64| CacheEntry { created_at: at, products: vec![product("1", 5)] };
    assert_eq!(cache.get(entry(1000), 2800).unwrap().len(), 1);
    assert!(cache.get(entry(1000), 2801).is_none());
    assert!(cache.get(entry(1000), 999).is_none());
    assert!(cache.put(vec![], 7).is_none());
    assert_eq!(cache.put(vec![product("1", 5)], 7).unwrap().created_at, 7);
    let none = SearchCache::new(0, "/cache");
    assert!(none.get(entry(1000), 1000).is_none());
    assert!(none.put(vec![product("1", 5)], 7).is_none());
}

#[test]
fn keys_ignore_case_and_order_of_stores() {
    let mut a = SearchQuery::simple("  Fone HD ");
    a.platforms = vec![ProviderId::Shopee, ProviderId::Amazon];
    let mut b = SearchQuery::simple("fone hd");
    b.platforms = vec![ProviderId::Amazon, ProviderId::Shopee];
    assert_eq!(key_parts(&a), key_parts(&b));
    assert_eq!(key_parts(&a)[..2], ["fone hd".to_string(), "TotalCost".to_string()]);
    b.sort = SortOrder::Rating;
    assert!(key_parts(&a) != key_parts(&b));
}

fn ptax(n: Json) -> Reply {
    let entry = Json::Object(vec![Field { key: "cotacaoVenda".to_string(), value: n }]);
    let value = Json::List(vec![entry]);
    Reply::Data(Json::Object(vec![Field { key: "value".to_string(), value }]))
}

#[test]
fn rates_are_found_and_kept() {
    let mut s = ExchangeRateService::new();
    assert!(matches!(s.get_usd_brl(0), RateStep::Ask(0)));
    assert!(matches!(s.receive(0, &Reply::Refused, 0), RateStep::Ask(1)));
    let empty = Reply::Data(Json::Object(vec![]));
    assert!(matches!(s.receive(3, &empty, 0), RateStep::Ask(4)));
    match s.receive(4, &empty, 0) {
        RateStep::Use(r) => assert_eq!(r, fallback_rate()),
        _ => panic!("no fallback"),
    }
    match s.receive(0, &Reply::Broken, 0) {
        RateStep::Use(r) => assert_eq!(r, Decimal::new(55, 1)),
        _ => panic!("no fallback"),
    }
    assert!(s.cache.is_none());
    let rate = Json::Number(Number {
        signed: None,
        unsigned: None,
        decimal: Some(Decimal::new(51234, 4)),
    });
    match s.receive(1, &ptax(rate), 1_000) {
        RateStep::Use(r) => assert_eq!(r, Decimal::new(51234, 4)),
        _ => panic!("no rate"),
    }
    assert!(matches!(s.get_usd_brl(1_000 + 3_599_999_999_999), RateStep::Use(_)));
    assert!(matches!(s.get_usd_brl(1_000 + 3_600_000_000_000), RateStep::Ask(0)));
}

#[test]
fn dates_are_written() {
    // 2024-03-01 12:34:56 UTC
    let at = 1_709_296_496 * 1_000_000_000;
    assert_eq!(show_minute(at).unwrap(), "2024-03-01 12:34");
    assert_eq!(show_date(at, 1).unwrap(), "02-29-2024");
    assert!(ptax_url(at, 0).unwrap().contains("@dataCotacao='03-01-2024'&$format=json"));
    assert!(show_minute(i128::MAX).is_none());
}

#[test]
fn watches_are_kept() {
    let mut s = WatchStore::default();
    assert_eq!(s.list(), vec!["  No active watches."]);
    assert_eq!(s.add("hd 600".to_string(), Decimal::new(2000, 0), vec![], 1), 1);
    assert_eq!(s.add("v15".to_string(), Decimal::new(30, 1), vec![ProviderId::Olx], 2), 2);
    assert!(s.remove(1));
    assert!(!s.remove(1));
    assert_eq!(s.add("l50".to_string(), Decimal::new(1, 0), vec![], 3), 3);
    let ids: Vec<u32> = s.watches.iter().map(|w| w.id).collect();
    assert_eq!(ids, vec![2, 3]);
    assert_eq!(
        s.list()[0],
        "  #2   v15                            below R$ 3.0        last: never best: -"
    );
}

#[test]
fn watches_alert_on_low_prices() {
    let mut s = WatchStore::default();
    s.add("hd 600".to_string(), Decimal::new(2000, 0), vec![ProviderId::Kabum], 1);
    let w = &mut s.watches[0];
    assert_eq!(w.checking_line(), "  Checking: hd 600 (below R$ 2000)");
    let q = watch_query(w);
    assert_eq!((q.max_results, q.platforms.len()), (5, 1));
    match w.check(&vec![product("1", 2000)], 60_000_000_000) {
        CheckOutcome::Alert { title, body } => {
            assert_eq!(title, "Pechincha: hd 600");
            assert_eq!(body, "R$ 2000 at Kabum (target: R$ 2000)");
        }
        _ => panic!("no alert"),
    }
    match w.check(&vec![product("1", 2001)], 120_000_000_000) {
        CheckOutcome::Line(s) => assert_eq!(s, "  Best: R$ 2001 at Kabum (target: R$ 2000)"),
        _ => panic!("an alert"),
    }
    match w.check(&vec![], 180_000_000_000) {
        CheckOutcome::Line(s) => assert_eq!(s, "  No results found."),
        _ => panic!("an alert"),
    }
    assert_eq!(w.last_best_price.unwrap(), Decimal::new(2001, 0));
    assert!(s.list()[0].ends_with("last: 1970-01-01 00:03 best: R$ 2001"));
}

#[test]
fn notifications_are_escaped() {
    assert_eq!(
        notification_script("A \"b\"", "c"),
        "display notification \"c\" with title \"A \\\"b\\\"\""
    );
    assert_eq!(notification_line("T", "B"), "  🔔 T — B");
}

#[test]
fn cookies_are_read_from_a_command() {
    let v = parse_curl_cookies("curl 'https://x' -H 'cookie: a=1; b = \"2\" ;c;=d' -H 'x: y'");
    assert_eq!(v.len(), 2);
    assert_eq!((v[0].name.as_str(), v[0].value.as_str()), ("a", "1"));
    assert_eq!((v[1].name.as_str(), v[1].value.as_str()), ("b", "\"2\""));
    assert!(v[0].secure && !v[0].http_only && v[0].expires.is_none());
    assert_eq!(v[0].path, "/");
    let v = parse_curl_cookies("curl --cookie \"k=v=w\" -H 'cookie: z=1'");
    assert_eq!(v.len(), 1);
    assert_eq!(v[0].value, "v=w");
    assert!(parse_curl_cookies("curl -b 'open").is_empty());
    assert!(parse_curl_cookies("curl https://x").is_empty());
}

#[test]
fn cookies_have_files() {
    assert_eq!(
        cookie_path(ProviderId::Amazon, "/home/u/.config"),
        "/home/u/.config/pechincha/cookies/amazon_br.json"
    );
    let files = vec!["/c/pechincha/cookies/shopee.json".to_string()];
    assert!(has_cookies(ProviderId::Shopee, "/c", &files));
    assert!(!has_cookies(ProviderId::Olx, "/c", &files));
}

#[test]
fn cookies_of_other_hosts_are_left_out() {
    let cookie = |domain: &str| SavedCookie {
        name: "n".to_string(),
        value: "v".to_string(),
        domain: domain.to_string(),
        path: "/".to_string(),
        secure: true,
        http_only: false,
        expires: None,
    };
    let all = vec![cookie(".amazon.com.br"), cookie(".google.com"), cookie("")];
    let own = captured_cookies(ProviderId::Amazon, &all);
    assert_eq!(own.len(), 1);
    assert_eq!(
        cookie_statement(&all[2], ProviderId::Shopee),
        "document.cookie = 'n=v; domain=shopee.com.br; path=/; secure'"
    );
    assert_eq!(find_browser("Brave").ok(), Some(CookieBrowser::Brave));
    assert!(find_browser("lynx").err().unwrap().starts_with("Unsupported browser: lynx. Use:"));
}

#[test]
fn hosts_and_logins_are_known() {
    assert_eq!(provider_domain(ProviderId::Ebay), "www.ebay.com");
    assert!(random_user_agent().starts_with("Mozilla/5.0"));
    assert_eq!(login_url(ProviderId::Kabum), "https://www.kabum.com.br/login");
    assert_eq!(login_reply(" DONE \n"), LoginReply::Done);
    assert_eq!(login_reply("\n"), LoginReply::Remind);
    assert_eq!(login_reply("x"), LoginReply::Wait);
}

#[test]
fn browsers_are_started_and_stopped() {
    assert_eq!(parse_pid(" 123\n"), Some(123));
    assert_eq!(parse_pid("-2147483648"), Some(i32::MIN));
    assert_eq!(parse_pid("2147483648"), None);
    assert_eq!(parse_pid("-+5"), None);
    match start_step(false, false, "/p", true) {
        StartStep::Launch(v) => {
            assert_eq!(v[1], "--user-data-dir=/p");
            assert_eq!(v[8], "--headless=new");
        }
        _ => panic!("no launch"),
    }
    assert!(matches!(start_step(true, true, "/p", true), StartStep::Running));
    assert!(matches!(start_step(false, true, "/p", true), StartStep::Taken(_)));
    assert_eq!(started_lines(false, "/p", 7).len(), 7);
    assert_eq!(stop_step(true, false, 0), StopStep::Ask);
    assert_eq!(stop_step(true, true, 5), StopStep::Wait);
    assert_eq!(stop_step(true, true, 6), StopStep::Force);
    assert_eq!(stop_step(false, true, 2), StopStep::CleanUp);
    assert_eq!(
        status(true, Some("12\n".to_string()), true),
        "Pechincha daemon running on port 9222 (PID: 12)"
    );
    assert_eq!(status(false, None, false), "Not running");
    assert_eq!(start_wait(false, 0), StartWait::Wait);
    assert_eq!(start_wait(false, 29), StartWait::Wait);
    assert_eq!(start_wait(false, 30), StartWait::GiveUp);
    assert_eq!(start_wait(true, 30), StartWait::Ready);
    assert!(start_failure().contains("15s"));
}

#[test]
fn command_lines_are_understood() {
    assert_eq!(log_filter(0), "pechincha=warn");
    assert_eq!(log_filter(9), "pechincha=trace");
    assert_eq!(browser_port(Some(1), Some(2), true), Some(1));
    assert_eq!(browser_port(None, Some(2), true), Some(2));
    assert_eq!(browser_port(None, None, true), Some(9222));
    assert_eq!(browser_port(None, None, false), None);
    let names = vec!["ml".to_string(), "nowhere".to_string(), "EBAY".to_string()];
    assert_eq!(chosen_stores(&names), vec![ProviderId::MercadoLivre, ProviderId::Ebay]);
    assert_eq!(chosen_order("rating"), SortOrder::Rating);
    assert_eq!(chosen_order("nonsense"), SortOrder::TotalCost);
    let lines = provider_lines(&PechinchaConfig::default());
    assert_eq!(lines.len(), 10);
    assert!(lines.contains(&"  Kabum            enabled".to_string()));
    assert!(lines.contains(&"  Google Shopping  disabled".to_string()));
    assert_eq!(default_config_path("/c"), "/c/pechincha/config.toml");
}

#[test]
fn bodies_of_replies_are_read() {
    let mut service = ExchangeRateService::new();
    let told = read_reply(b"{\"value\": [{\"cotacaoVenda\": 5.25}]}");
    match service.receive(0, &told, 7) {
        RateStep::Use(rate) => assert_eq!(rate, Decimal::new(525, 2)),
        RateStep::Ask(_) => panic!("no rate"),
    }
    assert!(matches!(read_reply(b"{\"value\": ["), Reply::Broken));
}

#[test]
fn products_without_a_number_go_by_store_and_title() {
    assert_eq!(digest_parts(&product("", 1)), vec!["Kabum".to_string(), "fone hd 600".to_string()]);
}

#[test]
fn recorded_prices_come_back_the_next_day() {
    let t = PriceTracker::new("/data");
    let p = product("42", 100);
    let (path, e) = t.record(&p, "digest", 20_000 * DAY).unwrap();
    assert_eq!(path, t.history_path(&p, "digest"));
    let entries = vec![entry(19_000 * DAY, 30), e];
    assert!(t.get_previous(&entries, 20_000 * DAY).unwrap().total_cost == Decimal::new(30, 0));
    let found = t.get_previous(&entries, 20_001 * DAY).unwrap();
    assert_eq!(found.total_cost, Decimal::new(100, 0));
}

#[test]
fn removing_a_new_watch_restores_the_list() {
    let mut s = WatchStore::default();
    s.add("hd 600".to_string(), Decimal::new(2000, 0), vec![], 1);
    let before = s.list();
    let id = s.add("v15".to_string(), Decimal::new(3000, 0), vec![], 2);
    assert!(s.list() != before);
    assert!(s.remove(id));
    assert_eq!(s.list(), before);
}

#[test]
fn changes_are_told_to_the_precision_of_a_double() {
    let t = PriceTracker::new("/data");
    let now = 20_000 * DAY;
    let mut p = product("1", 1);
    p.price.total_cost = Decimal::parse("1.03000000000000000000001").unwrap();
    let c = t.price_change(&vec![entry(19_999 * DAY, 1)], &p, now).unwrap();
    assert_eq!(c.pct_change, Decimal::new(3, 0));
    p.price.total_cost = Decimal::parse("1.031").unwrap();
    let c = t.price_change(&vec![entry(19_999 * DAY, 1)], &p, now).unwrap();
    assert_eq!(c.pct_change.show_fixed(20), "3.10000000000000008881");
}
