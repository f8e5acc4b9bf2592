use base64::Engine;
use pechincha::decimal::Decimal;
use pechincha::json::{as_signed, get, Field, Json, Number};
use pechincha::keepa::{
    csv_last, csv_last_price_shipping, csv_min_price, csv_trend, decode_keepa_payload,
    find_keepa_socket, find_stale_tabs, is_last_attempt, parse_keepa_product, read_message,
    read_tabs, socket_wait, Collector, PriceTrend, Step, DOMAIN_JP, DOMAIN_US,
};

fn number(n: i64) -> Json {
    Json::Number(Number {
        signed: Some(n),
        unsigned: if n >= 0 { Some(n as u64) } else { None },
        decimal: Some(Decimal::new(n, 0)),
    })
}

fn numbers(v: &[i64]) -> Vec<Json> {
    v.iter().map(|&n| number(n)).collect()
}

fn object(fields: Vec<(&str, Json)>) -> Json {
    Json::Object(
        fields
            .into_iter()
            .map(|(k, value)| Field { key: k.to_string(), value })
            .collect(),
    )
}

fn text(s: &str) -> Json {
    Json::Text(s.to_string())
}

fn keepa_product(domain: i64, price: i64) -> Json {
    let mut csv: Vec<Json> = (0..19).map(|_| Json::Null).collect();
    csv[0] = Json::List(numbers(&[1, price + 500, 2, price]));
    csv[4] = Json::List(numbers(&[1, 39990]));
    csv[16] = Json::List(numbers(&[1, 46]));
    csv[17] = Json::List(numbers(&[1, 321]));
    csv[18] = Json::List(numbers(&[1, price, 250, 2, -1, -1]));
    object(vec![
        ("asin", text("B000000001")),
        ("title", text("Sennheiser HD 600")),
        ("domainId", number(domain)),
        ("csv", Json::List(csv)),
    ])
}

#[test]
fn arrows_tell_trends() {
    assert_eq!(PriceTrend::Rising.arrow(), "↑");
    assert_eq!(PriceTrend::Falling.arrow(), "↓");
    assert_eq!(PriceTrend::Stable.arrow(), "→");
}

#[test]
fn series_are_read() {
    let v = numbers(&[1, 500, 2, 300, 3, -1]);
    assert_eq!(csv_last(Some(&v), 0), Some(300));
    assert_eq!(csv_min_price(Some(&v)), Some(300));
    assert_eq!(csv_min_price(None), None);
    assert_eq!(csv_last(Some(&numbers(&[1, -1])), 0), None);
    let t = numbers(&[1, 900, 100, 2, -1, -1]);
    let p = csv_last_price_shipping(Some(&t));
    assert_eq!((p.price, p.shipping), (Some(900), Some(100)));
}

#[test]
fn trends_are_seen() {
    let now = 1_700_000_000;
    let minutes = now / 60 - 21_564_000;
    let mut v: Vec<i64> = Vec::new();
    for day in (0..90).rev() {
        v.push(minutes - day * 1440);
        v.push(if day > 20 { 1000 } else { 500 });
    }
    let falling = csv_trend(Some(&numbers(&v)), false, now);
    assert!(matches!(falling, Some(PriceTrend::Falling)));
    assert!(csv_trend(None, false, now).is_none());
}

#[test]
fn products_are_read() {
    let k = parse_keepa_product(&keepa_product(1, 29900), 1_700_000_000);
    assert_eq!(k.asin, "B000000001");
    assert_eq!(k.domain, DOMAIN_US);
    assert_eq!(k.amazon_price, Some(29900));
    assert_eq!(k.msrp().unwrap(), Decimal::new(39990, 2));
    assert_eq!(k.buy_box_price, Some(29900));
    assert_eq!(k.buy_box_total().unwrap(), Decimal::new(30150, 2));
    assert_eq!(k.rating.unwrap(), Decimal::new(46, 1));
    assert_eq!(k.review_count, Some(321));
    assert_eq!(k.domain_tld(), ".com");
    assert_eq!(k.currency_symbol(), "US$");
}

#[test]
fn yen_have_no_cents() {
    let k = parse_keepa_product(&keepa_product(5, 39600), 1_700_000_000);
    assert_eq!(k.domain, DOMAIN_JP);
    assert_eq!(k.best_new_price().unwrap(), Decimal::new(39600, 0));
    assert_eq!(k.best_new_price_usd().unwrap(), Decimal::new(26532, 2));
    assert_eq!(k.domain_tld(), ".co.jp");
}

fn noise(n: usize) -> String {
    let mut x: u64 = 88172645463325252;
    (0..n)
        .map(|_| {
            x ^= x << 13;
            x ^= x >> 7;
            x ^= x << 17;
            (b'a' + (x % 26) as u8) as char
        })
        .collect()
}

fn payload(json: &str) -> String {
    let bytes = zstd::encode_all(json.as_bytes(), 0).unwrap();
    base64::engine::general_purpose::STANDARD.encode(bytes)
}

#[test]
fn packed_messages_are_read() {
    let json = format!("{{\"a\":7,\"noise\":\"{}\"}}", noise(3000));
    let packed = payload(&json);
    let j = decode_keepa_payload(&packed).unwrap();
    assert_eq!(as_signed(get(Some(&j), "a")), Some(7));
    let message = format!(
        "{{\"method\":\"Network.webSocketFrameReceived\",\"params\":{{\"response\":{{\"payloadData\":\"{packed}\"}}}}}}"
    );
    let m = read_message(&message).unwrap();
    assert_eq!(as_signed(get(Some(&m), "a")), Some(7));
    assert!(read_message("{\"method\":\"Page.loadEventFired\"}").is_none());
    assert!(read_message("nonsense").is_none());
}

#[test]
fn short_and_unpacked_payloads_are_skipped() {
    assert!(decode_keepa_payload(&payload("{}")).is_none());
    let plain = base64::engine::general_purpose::STANDARD.encode(noise(3000));
    assert!(decode_keepa_payload(&plain).is_none());
    assert!(decode_keepa_payload(&"%".repeat(2000)).is_none());
}

#[test]
fn insights_are_collected_once_per_site() {
    let message = |domain: i64| {
        object(vec![(
            "basicProducts",
            Json::List(vec![keepa_product(domain, 29900)]),
        )])
    };
    let mut c = Collector::new(true);
    c.receive(&message(1), 0);
    c.receive(&message(1), 0);
    c.receive(&message(3), 0);
    assert_eq!(c.results.len(), 2);
    assert!(matches!(c.on_silence(), Step::Stop));
    let fresh = Collector::new(true);
    assert!(matches!(fresh.on_silence(), Step::Listen));
    assert!(fresh.deadline_seconds() > Collector::new(false).patience_seconds());
}

#[test]
fn tabs_are_told_apart() {
    let tab = |id: &str, url: &str| {
        object(vec![
            ("id", text(id)),
            ("url", text(url)),
            ("type", text("page")),
            ("webSocketDebuggerUrl", text(&format!("ws://{id}"))),
        ])
    };
    let tabs = vec![
        tab("1", "https://example.com"),
        tab("2", "https://keepa.com/#!product/1-B000000001"),
    ];
    assert_eq!(find_stale_tabs(&tabs), vec!["2"]);
    assert_eq!(
        find_keepa_socket(&tabs, "B000000001", false).as_deref(),
        Some("ws://2")
    );
}

#[test]
fn tabs_are_read_from_an_answer() {
    let answer = b"[{\"id\": \"7\", \"type\": \"page\", \"url\": \"https://keepa.com/\"}]";
    let tabs = read_tabs(answer).unwrap();
    assert_eq!(find_stale_tabs(&tabs), vec!["7"]);
    assert!(read_tabs(b"{}").is_none());
    assert!(read_tabs(b"[").is_none());
}

#[test]
fn unknown_shipping_is_told_from_free_shipping() {
    let p = csv_last_price_shipping(Some(&numbers(&[100, 5000, -1])));
    assert_eq!((p.price, p.shipping), (Some(5000), Some(-1)));
    let p = csv_last_price_shipping(Some(&numbers(&[100, 5000, 0])));
    assert_eq!((p.price, p.shipping), (Some(5000), Some(0)));
}

#[test]
fn tabs_are_looked_for_five_times() {
    let waits: Vec<Option<u64>> = (0..6).map(socket_wait).collect();
    assert_eq!(waits, vec![Some(500), Some(1000), Some(1000), Some(1000), Some(1000), None]);
    assert!(!is_last_attempt(3));
    assert!(is_last_attempt(4));
}
