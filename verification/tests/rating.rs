use pechincha::decimal::Decimal;
use pechincha::rating::read_rating;

fn tenths(n: i64) -> Option<Decimal> {
    Some(Decimal::new(n, 1))
}

#[test]
fn ratings_are_numbers_with_or_without_a_point() {
    assert_eq!(read_rating("4.5"), tenths(45));
    assert_eq!(read_rating("4"), tenths(40));
    assert_eq!(read_rating("4."), tenths(40));
    assert_eq!(read_rating(".5"), tenths(5));
    assert_eq!(read_rating("+4.5"), tenths(45));
    assert_eq!(read_rating("-4.5"), tenths(-45));
}

#[test]
fn ratings_may_have_an_exponent() {
    assert_eq!(read_rating("4e0"), tenths(40));
    assert_eq!(read_rating("45E-1"), tenths(45));
    assert_eq!(read_rating("0.45e+1"), tenths(45));
    assert_eq!(read_rating("4e-9999999999999999999999"), tenths(0));
    assert_eq!(read_rating("4e99"), None);
    assert_eq!(read_rating("5e28").unwrap().show(), "50000000000000000000000000000");
}

#[test]
fn other_texts_are_no_ratings() {
    for s in ["", ".", "+", "4_5", "4,5", " 4", "4 ", "e5", "4e", "4e+", "4.5.6", "--4", "quatro"] {
        assert_eq!(read_rating(s), None);
    }
}

#[test]
fn digits_that_cannot_be_held_are_cut_off() {
    let long = format!("4.{}", "5".repeat(60));
    assert_eq!(read_rating(&long).unwrap().show_fixed(27), format!("4.{}", "5".repeat(27)));
    assert_eq!(read_rating(&"9".repeat(29)), None);
    assert_eq!(read_rating(&format!("{}4.5", "0".repeat(40))), tenths(45));
}
