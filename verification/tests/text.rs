use pechincha::decimal::Decimal;
use pechincha::json::{as_decimal, as_text, as_unsigned, get, Json};
use pechincha::models::{Currency, SortOrder, TaxRegime};
use pechincha::order::sort_amounts;
use pechincha::text::{
    after_text, before_text, parse_number, replace, show_integer, slice_bytes, split_char,
    split_words, trim,
};

#[test]
fn amounts_are_added_exactly() {
    let a = Decimal::new(10, 2);
    let b = Decimal::new(20, 1);
    assert_eq!(pechincha::decimal::plus(Some(a), Some(b)).unwrap().show(), "2.10");
    assert_eq!(pechincha::decimal::minus(Some(a), Some(b)).unwrap().show(), "-1.90");
    assert_eq!(pechincha::decimal::times(Some(a), Some(b)).unwrap().show(), "0.200");
    assert_eq!(
        pechincha::decimal::over(Some(Decimal::new(1, 0)), Some(Decimal::new(8, 0))).unwrap().show(),
        "0.125"
    );
    assert!(pechincha::decimal::over(Some(a), Some(Decimal::zero())).is_none());
    assert!(pechincha::decimal::plus(Some(a), None).is_none());
}

#[test]
fn amounts_are_compared_by_value() {
    assert_eq!(Decimal::new(10, 1), Decimal::new(1, 0));
    assert!(Decimal::new(-5, 0) < Decimal::new(1, 3));
    let v = sort_amounts(&vec![Decimal::new(3, 0), Decimal::new(-1, 0), Decimal::new(25, 1)]);
    let shown: Vec<String> = v.iter().map(|d| d.show()).collect();
    assert_eq!(shown, vec!["-1", "2.5", "3"]);
}

#[test]
fn amounts_are_parsed_and_shown() {
    assert_eq!(Decimal::parse("1234.50").unwrap().show(), "1234.50");
    assert_eq!(Decimal::parse("-0.5").unwrap(), Decimal::new(-5, 1));
    assert!(Decimal::parse("abc").is_none());
    assert!(Decimal::parse("").is_none());
    assert_eq!(Decimal::new(12999, 3).show_fixed(2), "12.99");
    assert_eq!(Decimal::new(7, 0).show_fixed(2), "7.00");
    assert_eq!(Decimal::new(-999, 3).show_fixed(0), "-0");
}

#[test]
fn texts_are_taken_apart() {
    assert_eq!(split_words("  um\tdois \u{a0}tr\u{ea}s\n"), vec!["um", "dois", "tr\u{ea}s"]);
    assert_eq!(split_char("a;;b", ';'), vec!["a", "", "b"]);
    assert_eq!(trim("\u{3000} x \n"), "x");
    assert_eq!(replace("aaa", "aa", "b"), "ba");
    assert_eq!(after_text("k=v=w", "=").unwrap(), "v=w");
    assert_eq!(before_text("k=v", "=").unwrap(), "k");
    assert!(before_text("k", "=").is_none());
    assert_eq!(slice_bytes("\u{e9}x", 2, 3), Some("x"));
    assert_eq!(slice_bytes("\u{e9}x", 1, 3), None);
}

#[test]
fn numbers_are_read_and_shown() {
    assert_eq!(parse_number("+42", 100), Some(42));
    assert_eq!(parse_number("101", 100), None);
    assert_eq!(parse_number("", 100), None);
    assert_eq!(parse_number("4x", 100), None);
    assert_eq!(show_integer(i64::MIN), "-9223372036854775808");
    assert_eq!(show_integer(0), "0");
}

#[test]
fn labels_are_told() {
    assert_eq!(TaxRegime::RemessaConformeUnder50.label(), "RC <$50");
    assert_eq!(Currency::USD.label(), "US$");
    assert_eq!(SortOrder::parse("price").ok(), Some(SortOrder::PriceAsc));
    assert_eq!(SortOrder::parse("total_cost").ok(), Some(SortOrder::TotalCost));
    assert_eq!(SortOrder::parse("best").err().unwrap(), "unknown sort order: best");
}

#[test]
fn members_of_objects_are_found() {
    let j = Json::Object(vec![pechincha::json::Field {
        key: "a".to_string(),
        value: Json::Text("x".to_string()),
    }]);
    assert_eq!(as_text(get(Some(&j), "a")).as_deref(), Some("x"));
    assert!(get(Some(&j), "b").is_none() || as_text(get(Some(&j), "b")).is_none());
    assert!(as_unsigned(Some(&j)).is_none());
    assert!(as_decimal(None).is_none());
}
