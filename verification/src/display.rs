//! How results are shown.

use vstd::prelude::*;

use crate::decimal;
use crate::decimal::Decimal;
use crate::history;
use crate::history::PriceChange;
use crate::keepa;
use crate::keepa::{KeepaInsight, PriceTrend};
use crate::models;
use crate::models::{Currency, Product};
use crate::order;
use crate::providers;
use crate::providers::ProviderId;
use crate::tax;
use crate::tax::TaxCalculator;
use crate::text;

verus! {

// ---- Texts ----

/// A text with as many spaces behind it as it takes to reach a length.
pub open spec fn left_aligned(s: Seq<char>, width: nat) -> Seq<char>
    decreases width - s.len(),
{
    if s.len() >= width {
        s
    } else {
        left_aligned(s.push(' '), width)
    }
}

/// A text with as many spaces behind it as it takes to reach a length.
pub fn pad_right(s: String, width: usize) -> (r: String)
    ensures
        r@ == left_aligned(s@, width as nat),
{
    let chars = text::chars_of(s.as_str());
    let mut out = s;
    let mut n: usize = chars.len();
    while n < width
        invariant
            n == out@.len(),
            left_aligned(out@, width as nat) == left_aligned(s@, width as nat),
        decreases width - n,
    {
        out.push(' ');
        n = n + 1;
    }
    out
}

/// A number with a space before it where it has one digit.
pub open spec fn rank_text(n: nat) -> Seq<char> {
    if text::number_text(n).len() < 2 {
        seq![' '] + text::number_text(n)
    } else {
        text::number_text(n)
    }
}

/// A number with a space before it where it has one digit.
pub fn show_rank(n: usize) -> (r: String)
    ensures
        r@ == rank_text(n as nat),
{
    let digits = text::show_number(n as u64);
    let chars = text::chars_of(digits.as_str());
    if chars.len() < 2 {
        let mut out = String::new();
        out.push(' ');
        out.append(digits.as_str());
        assert(out@ =~= seq![' '] + digits@);
        out
    } else {
        digits
    }
}

/// A text of at most so many characters: as it is, or cut off with a mark in its last
/// place.
pub open spec fn shortened(s: Seq<char>, max: nat) -> Seq<char> {
    if s.len() <= max {
        s
    } else {
        s.take(
            if max == 0 {
                0
            } else {
                max - 1
            },
        ) + "…"@
    }
}

/// A text of at most so many characters: as it is, or cut off with a mark in its last
/// place.
pub fn truncate(s: &str, max: usize) -> (r: String)
    ensures
        r@ == shortened(s@, max as nat),
{
    let chars = text::chars_of(s);
    if chars.len() <= max {
        return s.to_string();
    }
    let end: usize = if max == 0 {
        0
    } else {
        max - 1
    };
    let start = text::part(&chars, 0, end);
    assert(s@.subrange(0, end as int) =~= s@.take(end as int));
    text::join2(start.as_str(), "…")
}

/// Digits with a point between each three of them, from the end.
pub open spec fn grouped(s: Seq<char>) -> Seq<char>
    decreases s.len(),
{
    if s.len() <= 3 {
        s
    } else {
        grouped(s.take(s.len() - 3)) + seq!['.'] + s.skip(s.len() - 3)
    }
}

fn group(chars: &[char]) -> (r: String)
    ensures
        r@ == grouped(chars@),
    decreases chars@.len(),
{
    let size: usize = chars.len();
    if size <= 3 {
        return text::string_of(chars);
    }
    let front = text::chars_of(text::part(chars, 0, size - 3).as_str());
    let back = text::part(chars, size - 3, size);
    assert(chars@.subrange(0, size - 3) =~= chars@.take(size - 3));
    assert(chars@.subrange(size - 3, size as int) =~= chars@.skip(size - 3));
    let mut out = group(&front);
    out.push('.');
    let ghost so_far = out@;
    out.append(back.as_str());
    assert(so_far =~= grouped(chars@.take(size - 3)) + seq!['.']);
    out
}

/// The hundredths of an amount without its sign, cut off after two decimal places.
pub open spec fn hundredths(v: decimal::DecimalView) -> nat {
    (decimal::magnitude(v.mantissa) * 100) / decimal::pow10(v.scale)
}

/// An amount of reais without its sign: the whole ones in groups of three digits, then
/// two decimal places, cut off.
pub open spec fn brl_text(v: decimal::DecimalView) -> Seq<char> {
    "R$ "@ + grouped(text::number_text(hundredths(v) / 100)) + ","@ + decimal::padded(
        text::number_text(hundredths(v) % 100),
        2,
    )
}

fn power(n: u32) -> (r: u128)
    requires
        n <= 28,
    ensures
        r == decimal::pow10(n as nat),
        r > 0,
{
    let mut p: u128 = 1;
    let mut i: u32 = 0;
    proof {
        assert(decimal::pow10(28) == 10_000_000_000_000_000_000_000_000_000) by {
            reveal_with_fuel(decimal::pow10, 30);
        }
    }
    while i < n
        invariant
            i <= n <= 28,
            p == decimal::pow10(i as nat),
            p > 0,
            decimal::pow10(28) == 10_000_000_000_000_000_000_000_000_000,
        decreases n - i,
    {
        proof {
            lemma_pow10_grows((i + 1) as nat, 28);
        }
        p = p * 10;
        i = i + 1;
    }
    p
}

proof fn lemma_pow10_grows(a: nat, b: nat)
    requires
        a <= b,
    ensures
        decimal::pow10(a) <= decimal::pow10(b),
    decreases b - a,
{
    if a < b {
        lemma_pow10_grows(a, (b - 1) as nat);
    }
}

/// An amount of reais without its sign: the whole ones in groups of three digits, then
/// two decimal places, cut off.
pub fn format_brl(value: &Decimal) -> (r: String)
    ensures
        r@ == brl_text(value@),
{
    let m: i128 = value.mantissa();
    let size: u128 = if m < 0 {
        (-m) as u128
    } else {
        m as u128
    };
    let whole: u128 = size * 100 / power(value.scale());
    let digits = text::show_large(whole / 100);
    let chars = text::chars_of(digits.as_str());
    let groups = group(&chars);
    let cents: u128 = whole % 100;
    let mut tail = text::show_large(cents);
    if cents < 10 {
        proof {
            reveal_with_fuel(text::number_text, 2);
            reveal_with_fuel(decimal::padded, 3);
        }
        let mut filled = String::new();
        filled.push('0');
        filled.append(tail.as_str());
        assert(filled@ =~= seq!['0'] + tail@);
        tail = filled;
    } else {
        proof {
            reveal_with_fuel(text::number_text, 3);
            reveal_with_fuel(decimal::padded, 1);
        }
    }
    let mut out = text::join3("R$ ", groups.as_str(), ",");
    out.append(tail.as_str());
    out
}

/// A number, in thousands or millions with one decimal place where it is that large.
pub open spec fn count_text(n: u32) -> Seq<char> {
    if n >= 1_000_000 {
        decimal::double_text((decimal::DecimalView { mantissa: n as int, scale: 6 }), 1) + "M"@
    } else if n >= 1_000 {
        decimal::double_text((decimal::DecimalView { mantissa: n as int, scale: 3 }), 1) + "k"@
    } else {
        text::number_text(n as nat)
    }
}

/// A number, in thousands or millions with one decimal place where it is that large.
pub fn format_count(n: u32) -> (r: String)
    ensures
        r@ == count_text(n),
{
    if n >= 1_000_000 {
        let d = Decimal::new(n as i64, 6).show_double(1);
        text::join2(d.as_str(), "M")
    } else if n >= 1_000 {
        let d = Decimal::new(n as i64, 3).show_double(1);
        text::join2(d.as_str(), "k")
    } else {
        text::show_number(n as u64)
    }
}

/// The short name of a store.
pub open spec fn short_name(id: ProviderId) -> Seq<char> {
    match id {
        ProviderId::MercadoLivre => "ML"@,
        ProviderId::AliExpress => "AliExpress"@,
        ProviderId::Shopee => "Shopee"@,
        ProviderId::Amazon => "Amazon BR"@,
        ProviderId::AmazonUS => "Amazon US"@,
        ProviderId::Kabum => "Kabum"@,
        ProviderId::MagazineLuiza => "Magalu"@,
        ProviderId::Olx => "OLX"@,
        ProviderId::GoogleShopping => "Google"@,
        ProviderId::Ebay => "eBay"@,
    }
}

/// The short name of a store.
pub fn format_provider(id: ProviderId) -> (r: &'static str)
    ensures
        r@ == short_name(id),
{
    match id {
        ProviderId::MercadoLivre => "ML",
        ProviderId::AliExpress => "AliExpress",
        ProviderId::Shopee => "Shopee",
        ProviderId::Amazon => "Amazon BR",
        ProviderId::AmazonUS => "Amazon US",
        ProviderId::Kabum => "Kabum",
        ProviderId::MagazineLuiza => "Magalu",
        ProviderId::Olx => "OLX",
        ProviderId::GoogleShopping => "Google",
        ProviderId::Ebay => "eBay",
    }
}

/// Whether a store has one of the first `k` products.
pub open spec fn has_store(v: Seq<models::ProductView>, p: ProviderId, k: int) -> bool {
    exists|i: int| 0 <= i < k && (#[trigger] v[i]).provider == p
}

/// How many stores the first `k` products are of.
pub open spec fn store_count(v: Seq<models::ProductView>, k: int) -> nat
    decreases k,
{
    if k <= 0 {
        0
    } else if has_store(v, v[k - 1].provider, k - 1) {
        store_count(v, k - 1)
    } else {
        store_count(v, k - 1) + 1
    }
}

/// How many stores some products are of.
pub fn count_unique_providers(v: &Vec<Product>) -> (r: usize)
    ensures
        r == store_count(models::product_views(v@), v@.len() as int),
{
    let ghost all = models::product_views(v@);
    let mut n: usize = 0;
    let mut i: usize = 0;
    while i < v.len()
        invariant
            i <= v@.len(),
            all == models::product_views(v@),
            n == store_count(all, i as int),
            n <= i,
        decreases v@.len() - i,
    {
        assert(all[i as int] == v@[i as int]@);
        let mut known = false;
        let mut j: usize = 0;
        while j < i
            invariant
                j <= i < v@.len(),
                all == models::product_views(v@),
                known == has_store(all, all[i as int].provider, j as int),
            decreases i - j,
        {
            assert(all[j as int] == v@[j as int]@);
            assert(all[i as int] == v@[i as int]@);
            if v[j].provider == v[i].provider {
                known = true;
                assert(all[j as int].provider == all[i as int].provider);
            }
            j = j + 1;
        }
        if !known {
            n = n + 1;
        }
        i = i + 1;
    }
    n
}

// ---- What prices are held against ----

/// The price that the manufacturer asks on a site, as the first of some products, from
/// the `i`-th on, tells it.
pub open spec fn msrp_on(v: Seq<models::ProductView>, domain: u8, i: int) -> Option<Decimal>
    decreases v.len() - i,
{
    if i < 0 || i >= v.len() {
        None
    } else {
        match keepa::insight_into(v[i].keepa, domain, 0) {
            Some(k) => if k.list_price is Some {
                keepa::priced(k.list_price, k.domain)
            } else {
                msrp_on(v, domain, i + 1)
            },
            None => msrp_on(v, domain, i + 1),
        }
    }
}

/// The price before a discount of the first of some products, from the `i`-th on, that is
/// priced in dollars and has one.
pub open spec fn dollar_msrp(v: Seq<models::ProductView>, i: int) -> Option<Decimal>
    decreases v.len() - i,
{
    if i < 0 || i >= v.len() {
        None
    } else if v[i].price.original_price is Some && v[i].price.currency == Currency::USD {
        v[i].price.original_price
    } else {
        dollar_msrp(v, i + 1)
    }
}

/// The reais that a dollar costs, as the first of some products, from the `i`-th on, that
/// is priced in dollars tells it; five where none is. It is `None` where it cannot be
/// held.
pub open spec fn shown_rate(v: Seq<models::ProductView>, i: int) -> Option<Decimal>
    decreases v.len() - i,
{
    if i < 0 || i >= v.len() {
        Some(decimal::dec(5, 0))
    } else if v[i].price.currency == Currency::USD && v[i].price.listed_price@.mantissa > 0 {
        decimal::quotient(v[i].price.price_brl, v[i].price.listed_price)
    } else {
        shown_rate(v, i + 1)
    }
}

/// The amount in the middle of some, or the mean of the two in the middle. It is `None`
/// where that cannot be held.
pub open spec fn median(v: Seq<Decimal>) -> Option<Option<Decimal>> {
    let s = order::sorted(v, order::amount_order());
    let mid = v.len() as int / 2;
    if v.len() == 0 {
        Some(None)
    } else if v.len() % 2 == 1 {
        Some(Some(s[mid]))
    } else {
        match decimal::quotients(decimal::sum(s[mid - 1], s[mid]), Some(decimal::dec(2, 0))) {
            Some(m) => Some(Some(m)),
            None => None,
        }
    }
}

/// What some products cost in all.
pub open spec fn totals(v: Seq<models::ProductView>) -> Seq<Decimal> {
    Seq::new(v.len(), |i: int| v[i].price.total_cost)
}

/// What the prices of results are held against: the price that the manufacturer asks, in
/// dollars; the same in reais where it is one for Brazil; the reais that a dollar costs;
/// and the median of what the results cost.
#[derive(Clone, Copy, Debug)]
pub struct Reference {
    pub msrp_usd: Option<Decimal>,
    pub msrp_brl: Option<Decimal>,
    pub domestic: bool,
    pub rate: Decimal,
    pub median: Option<Decimal>,
}

/// The price that the manufacturer asks, in dollars, and the same in reais where it is
/// one for Brazil: that on the American Amazon, else that on the Brazilian one, else
/// the price before a discount of a product that is priced in dollars.
pub open spec fn asked(v: Seq<models::ProductView>) -> Option<(Option<Decimal>, Option<Decimal>)> {
    match msrp_on(v, keepa::DOMAIN_US, 0) {
        Some(m) => Some((Some(m), None)),
        None => match msrp_on(v, keepa::DOMAIN_BR, 0) {
            Some(brl) => match decimal::product(brl, decimal::dec(19, 2)) {
                Some(m) => Some((Some(m), Some(brl))),
                None => None,
            },
            None => Some((dollar_msrp(v, 0), None)),
        },
    }
}

/// What the prices of some results are held against, or `None` where an amount on the way
/// cannot be held.
pub open spec fn reference_of(v: Seq<models::ProductView>) -> Option<Reference> {
    match (asked(v), shown_rate(v, 0), median(totals(v))) {
        (Some(m), Some(rate), Some(median)) => Some(
            Reference { msrp_usd: m.0, msrp_brl: m.1, domestic: m.1 is Some, rate, median },
        ),
        _ => None,
    }
}

fn find_msrp_on(v: &Vec<Product>, domain: u8) -> (r: Option<Decimal>)
    ensures
        r == msrp_on(models::product_views(v@), domain, 0),
{
    let ghost all = models::product_views(v@);
    let mut i: usize = 0;
    while i < v.len()
        invariant
            i <= v@.len(),
            all == models::product_views(v@),
            msrp_on(all, domain, 0) == msrp_on(all, domain, i as int),
        decreases v@.len() - i,
    {
        assert(all[i as int] == v@[i as int]@);
        match keepa::find_insight(&v[i].keepa, domain) {
            Some(k) => {
                let m = v[i].keepa[k].msrp();
                if m.is_some() {
                    return m;
                }
            },
            None => {},
        }
        i = i + 1;
    }
    None
}

fn find_dollar_msrp(v: &Vec<Product>) -> (r: Option<Decimal>)
    ensures
        r == dollar_msrp(models::product_views(v@), 0),
{
    let ghost all = models::product_views(v@);
    let mut i: usize = 0;
    while i < v.len()
        invariant
            i <= v@.len(),
            all == models::product_views(v@),
            dollar_msrp(all, 0) == dollar_msrp(all, i as int),
        decreases v@.len() - i,
    {
        assert(all[i as int] == v@[i as int]@);
        if v[i].price.original_price.is_some() && v[i].price.currency == Currency::USD {
            return v[i].price.original_price;
        }
        i = i + 1;
    }
    None
}

fn find_shown_rate(v: &Vec<Product>) -> (r: Option<Decimal>)
    ensures
        r == shown_rate(models::product_views(v@), 0),
{
    let ghost all = models::product_views(v@);
    let mut i: usize = 0;
    while i < v.len()
        invariant
            i <= v@.len(),
            all == models::product_views(v@),
            shown_rate(all, 0) == shown_rate(all, i as int),
        decreases v@.len() - i,
    {
        assert(all[i as int] == v@[i as int]@);
        if v[i].price.currency == Currency::USD && v[i].price.listed_price.is_positive() {
            return v[i].price.price_brl.checked_div(&v[i].price.listed_price);
        }
        i = i + 1;
    }
    Some(Decimal::new(5, 0))
}

fn find_totals(v: &Vec<Product>) -> (r: Vec<Decimal>)
    ensures
        r@ == totals(models::product_views(v@)),
{
    let ghost all = models::product_views(v@);
    let mut out: Vec<Decimal> = Vec::new();
    let mut i: usize = 0;
    while i < v.len()
        invariant
            i <= v@.len(),
            all == models::product_views(v@),
            out@ == totals(all).take(i as int),
        decreases v@.len() - i,
    {
        assert(all[i as int] == v@[i as int]@);
        assert(totals(all).take(i + 1) =~= totals(all).take(i as int).push(
            totals(all)[i as int],
        ));
        out.push(v[i].price.total_cost);
        i = i + 1;
    }
    assert(totals(all).take(i as int) =~= totals(all));
    out
}

/// The amount in the middle of some, or the mean of the two in the middle. The outer
/// `None` is for a mean that cannot be held.
pub fn find_median(v: &Vec<Decimal>) -> (r: Option<Option<Decimal>>)
    ensures
        r == median(v@),
{
    if v.len() == 0 {
        return Some(None);
    }
    let s = order::sort_amounts(v);
    proof {
        order::amount_order_is_total();
        order::sorting_orders(v@, order::amount_order());
    }
    let mid: usize = v.len() / 2;
    if v.len() % 2 == 1 {
        Some(Some(s[mid]))
    } else {
        let both = s[mid - 1].checked_add(&s[mid]);
        match decimal::over(both, Some(Decimal::new(2, 0))) {
            Some(m) => Some(Some(m)),
            None => None,
        }
    }
}

/// What the prices of some results are held against, or `None` where an amount on the way
/// cannot be held.
pub fn find_reference(v: &Vec<Product>) -> (r: Option<Reference>)
    ensures
        r == reference_of(models::product_views(v@)),
{
    let mut msrp_brl: Option<Decimal> = None;
    let msrp_usd = match find_msrp_on(v, keepa::DOMAIN_US) {
        Some(m) => Some(m),
        None => match find_msrp_on(v, keepa::DOMAIN_BR) {
            Some(brl) => {
                msrp_brl = Some(brl);
                match brl.checked_mul(&Decimal::new(19, 2)) {
                    Some(m) => Some(m),
                    None => {
                        return None;
                    },
                }
            },
            None => find_dollar_msrp(v),
        },
    };
    let rate = match find_shown_rate(v) {
        Some(rate) => rate,
        None => {
            return None;
        },
    };
    let all = find_totals(v);
    match find_median(&all) {
        Some(median) => Some(
            Reference { msrp_usd, msrp_brl, domestic: msrp_brl.is_some(), rate, median },
        ),
        None => None,
    }
}

// ---- Rows ----

/// Whether something said of a product is good, bad or neither.
#[derive(Clone, Copy, Debug, PartialEq, Eq, Structural)]
pub enum Tone {
    Plain,
    Good,
    Bad,
}

/// Something said of a product.
pub struct Note {
    pub text: String,
    pub tone: Tone,
}

/// Something said of a product.
pub struct NoteView {
    pub text: Seq<char>,
    pub tone: Tone,
}

impl View for Note {
    type V = NoteView;

    open spec fn view(&self) -> NoteView {
        NoteView { text: self.text@, tone: self.tone }
    }
}

/// Some things said of a product.
pub open spec fn note_views(v: Seq<Note>) -> Seq<NoteView> {
    Seq::new(v.len(), |i: int| v[i]@)
}

/// Something that may be said of a product.
pub open spec fn note_view(n: Option<Note>) -> Option<NoteView> {
    match n {
        Some(n) => Some(n@),
        None => None,
    }
}

/// How many stars a product has and, where it is known, of how many reviews.
pub open spec fn rating_text(p: models::ProductView) -> Seq<char> {
    match p.rating {
        Some(r) => match p.review_count {
            Some(n) => decimal::binary_text(r@, 1) + " ("@ + count_text(n) + ")"@,
            None => decimal::binary_text(r@, 1),
        },
        None => Seq::empty(),
    }
}

/// What is said of a difference of so many per cent that is more than some: that of a
/// lower price is good.
pub open spec fn difference_note(pct: Decimal, least: int, what: Seq<char>) -> Option<NoteView> {
    if decimal::below(pct, decimal::dec(-least, 0)) {
        Some(NoteView { text: decimal::fixed_text(pct@, 0) + what, tone: Tone::Good })
    } else if decimal::below(decimal::dec(least, 0), pct) {
        Some(NoteView { text: "+"@ + decimal::fixed_text(pct@, 0) + what, tone: Tone::Bad })
    } else {
        None
    }
}

/// The price in reais that the manufacturer asks, if it is known.
pub open spec fn msrp_in_reais(r: Reference) -> Option<Option<Decimal>> {
    if r.domestic {
        Some(r.msrp_brl)
    } else {
        match r.msrp_usd {
            Some(m) => match decimal::product(m, r.rate) {
                Some(brl) => Some(Some(brl)),
                None => None,
            },
            None => Some(None),
        }
    }
}

/// What is said of an amount that is held against another, where that is known and not
/// nothing. The outer `None` is for a difference that cannot be held.
pub open spec fn held_against(
    value: Decimal,
    base: Option<Decimal>,
    least: int,
    what: Seq<char>,
) -> Option<Option<NoteView>> {
    match base {
        Some(b) => if b@.mantissa > 0 {
            match history::percent_over(value, b) {
                Some(pct) => Some(difference_note(pct, least, what)),
                None => None,
            }
        } else {
            Some(None)
        },
        None => Some(None),
    }
}

/// What is said of the price of a product against that which the manufacturer asks.
pub open spec fn savings_note(p: models::ProductView, r: Reference) -> Option<Option<NoteView>> {
    match msrp_in_reais(r) {
        Some(base) => held_against(p.price.price_brl, base, 0, "% vs MSRP"@),
        None => None,
    }
}

/// An amount without its sign.
pub open spec fn unsigned(v: decimal::DecimalView) -> decimal::DecimalView {
    decimal::DecimalView { mantissa: decimal::magnitude(v.mantissa) as int, scale: v.scale }
}

/// What is said of a change of more than three per cent.
pub open spec fn change_note(c: Option<PriceChange>) -> Option<NoteView> {
    match c {
        Some(c) => {
            let tail = decimal::double_text(unsigned(c.pct_change@), 0) + "% "@
                + text::number_text(c.days_ago as nat) + "d ago"@;
            if decimal::below(c.pct_change, decimal::dec(-3, 0)) {
                Some(NoteView { text: "↓"@ + tail, tone: Tone::Good })
            } else if decimal::below(decimal::dec(3, 0), c.pct_change) {
                Some(NoteView { text: "↑"@ + tail, tone: Tone::Bad })
            } else {
                None
            }
        },
        None => None,
    }
}

/// Some things said, with one more where there is one.
pub open spec fn with_note(v: Seq<NoteView>, n: Option<NoteView>) -> Seq<NoteView> {
    match n {
        Some(n) => v.push(n),
        None => v,
    }
}

/// What is said of a product: its store, where it comes from, its stars, and its price
/// against that which the manufacturer asks, that of an earlier day, and the median.
pub open spec fn notes_of(p: models::ProductView, r: Reference, c: Option<PriceChange>) -> Option<
    Seq<NoteView>,
> {
    let start = seq![
        NoteView { text: short_name(p.provider), tone: Tone::Plain },
        NoteView {
            text: if p.domestic {
                "domestic"@
            } else {
                "import"@
            },
            tone: Tone::Plain,
        },
    ];
    let stars = with_note(
        start,
        if rating_text(p).len() > 0 {
            Some(NoteView { text: rating_text(p) + "★"@, tone: Tone::Plain })
        } else {
            None
        },
    );
    match (
        savings_note(p, r),
        held_against(p.price.total_cost, r.median, 3, "% vs median"@),
    ) {
        (Some(savings), Some(median)) => Some(
            with_note(with_note(with_note(stars, savings), change_note(c)), median),
        ),
        _ => None,
    }
}

/// What the price of a product from abroad is made up of, in dollars; nothing for others.
/// It is `None` where an amount on the way cannot be held.
pub open spec fn breakdown_of(p: models::ProductView, rate: Decimal) -> Option<Seq<char>> {
    if !p.domestic && p.price.currency == Currency::USD {
        let listed = "US$"@ + decimal::fixed_text(p.price.listed_price@, 0);
        match decimal::sum(
            providers::or_nothing(p.price.shipping_cost),
            p.price.tax.total_tax,
        ) {
            Some(extra) => if extra@.mantissa > 0 {
                match decimal::quotient(extra, rate) {
                    Some(usd) => Some(
                        listed + " + US$"@ + decimal::fixed_text(usd@, 0) + " ship+tax"@,
                    ),
                    None => None,
                }
            } else {
                Some(listed)
            },
            None => None,
        }
    } else {
        Some(Seq::empty())
    }
}

/// How a product is shown: its rank, what it costs in all, its title, whether it is the
/// best, what its price is made up of, and what is said of it.
pub struct Row {
    pub rank: String,
    pub price: String,
    pub title: String,
    pub best: bool,
    pub breakdown: String,
    pub notes: Vec<Note>,
}

/// How a product is shown.
pub struct RowView {
    pub rank: Seq<char>,
    pub price: Seq<char>,
    pub title: Seq<char>,
    pub best: bool,
    pub breakdown: Seq<char>,
    pub notes: Seq<NoteView>,
}

impl View for Row {
    type V = RowView;

    open spec fn view(&self) -> RowView {
        RowView {
            rank: self.rank@,
            price: self.price@,
            title: self.title@,
            best: self.best,
            breakdown: self.breakdown@,
            notes: note_views(self.notes@),
        }
    }
}

/// How a product is shown at a rank, or `None` where an amount on the way cannot be
/// held.
pub open spec fn row_of(
    p: models::ProductView,
    rank: nat,
    best: bool,
    r: Reference,
    c: Option<PriceChange>,
) -> Option<RowView> {
    match (notes_of(p, r, c), breakdown_of(p, r.rate)) {
        (Some(notes), Some(breakdown)) => Some(
            RowView {
                rank: rank_text(rank),
                price: left_aligned(brl_text(p.price.total_cost@), 13),
                title: shortened(p.title, 55),
                best,
                breakdown: left_aligned(breakdown, 13),
                notes,
            },
        ),
        _ => None,
    }
}

/// A row that may be missing.
pub open spec fn row_view(r: Option<Row>) -> Option<RowView> {
    match r {
        Some(r) => Some(r@),
        None => None,
    }
}

fn show_rating(p: &Product) -> (r: String)
    ensures
        r@ == rating_text(p@),
{
    match &p.rating {
        Some(r) => {
            let stars = r.show_binary(1);
            match p.review_count {
                Some(n) => {
                    let count = format_count(n);
                    let mut out = text::join3(stars.as_str(), " (", count.as_str());
                    out.append(")");
                    out
                },
                None => stars,
            }
        },
        None => {
            let out = String::new();
            assert(out@ =~= Seq::empty());
            out
        },
    }
}

fn show_difference(pct: &Decimal, least: i64, what: &str) -> (r: Option<Note>)
    requires
        0 <= least <= 100,
    ensures
        note_view(r) == difference_note(*pct, least as int, what@),
{
    if pct.lt(&Decimal::new(-least, 0)) {
        let n = pct.show_fixed(0);
        Some(Note { text: text::join2(n.as_str(), what), tone: Tone::Good })
    } else if Decimal::new(least, 0).lt(pct) {
        let n = pct.show_fixed(0);
        Some(Note { text: text::join3("+", n.as_str(), what), tone: Tone::Bad })
    } else {
        None
    }
}

fn hold_against(value: Decimal, base: Option<Decimal>, least: i64, what: &str) -> (r: Option<
    Option<Note>,
>)
    requires
        0 <= least <= 100,
    ensures
        match r {
            Some(n) => held_against(value, base, least as int, what@) == Some(note_view(n)),
            None => held_against(value, base, least as int, what@) is None,
        },
{
    match base {
        Some(b) => {
            if b.is_positive() {
                match history::find_percent_over(value, b) {
                    Some(pct) => Some(show_difference(&pct, least, what)),
                    None => None,
                }
            } else {
                Some(None)
            }
        },
        None => Some(None),
    }
}

fn show_savings(p: &Product, r: &Reference) -> (n: Option<Option<Note>>)
    ensures
        match n {
            Some(n) => savings_note(p@, *r) == Some(note_view(n)),
            None => savings_note(p@, *r) is None,
        },
{
    let base = if r.domestic {
        r.msrp_brl
    } else {
        match r.msrp_usd {
            Some(m) => match m.checked_mul(&r.rate) {
                Some(brl) => Some(brl),
                None => {
                    return None;
                },
            },
            None => None,
        }
    };
    hold_against(p.price.price_brl, base, 0, "% vs MSRP")
}

fn drop_sign(d: &Decimal) -> (r: Decimal)
    ensures
        r@ == unsigned(d@),
{
    let m: i128 = d.mantissa();
    let size: i128 = if m < 0 {
        -m
    } else {
        m
    };
    match Decimal::from_parts(size, d.scale()) {
        Some(r) => r,
        None => Decimal::zero(),
    }
}

fn show_change(c: &Option<PriceChange>) -> (r: Option<Note>)
    ensures
        note_view(r) == change_note(*c),
{
    match c {
        Some(c) => {
            let falls = c.pct_change.lt(&Decimal::new(-3, 0));
            if !falls && !Decimal::new(3, 0).lt(&c.pct_change) {
                return None;
            }
            let size = drop_sign(&c.pct_change).show_double(0);
            let days = text::show_number(c.days_ago as u64);
            let mut tail = text::join3(size.as_str(), "% ", days.as_str());
            tail.append("d ago");
            if falls {
                Some(Note { text: text::join2("↓", tail.as_str()), tone: Tone::Good })
            } else {
                Some(Note { text: text::join2("↑", tail.as_str()), tone: Tone::Bad })
            }
        },
        None => None,
    }
}

fn push_note(v: &mut Vec<Note>, n: Option<Note>)
    ensures
        note_views(final(v)@) == with_note(note_views(old(v)@), note_view(n)),
{
    match n {
        Some(n) => {
            let ghost so_far = v@;
            v.push(n);
            assert(note_views(v@) =~= note_views(so_far).push(n@));
        },
        None => {},
    }
}

fn list_notes(p: &Product, r: &Reference, c: &Option<PriceChange>) -> (n: Option<Vec<Note>>)
    ensures
        match n {
            Some(n) => notes_of(p@, *r, *c) == Some(note_views(n@)),
            None => notes_of(p@, *r, *c) is None,
        },
{
    let savings = match show_savings(p, r) {
        Some(n) => n,
        None => {
            return None;
        },
    };
    let median = match hold_against(p.price.total_cost, r.median, 3, "% vs median") {
        Some(n) => n,
        None => {
            return None;
        },
    };
    let mut out: Vec<Note> = Vec::new();
    let origin = if p.domestic {
        "domestic"
    } else {
        "import"
    };
    let store = Note { text: format_provider(p.provider).to_string(), tone: Tone::Plain };
    let place = Note { text: origin.to_string(), tone: Tone::Plain };
    let ghost start = seq![store@, place@];
    out.push(store);
    out.push(place);
    assert(note_views(out@) =~= start);
    let rating = show_rating(p);
    if text::text_bytes(rating.as_str()) > 0 {
        push_note(
            &mut out,
            Some(Note { text: text::join2(rating.as_str(), "★"), tone: Tone::Plain }),
        );
    }
    push_note(&mut out, savings);
    push_note(&mut out, show_change(c));
    push_note(&mut out, median);
    Some(out)
}

fn show_breakdown(p: &Product, rate: &Decimal) -> (r: Option<String>)
    ensures
        match r {
            Some(s) => breakdown_of(p@, *rate) == Some(s@),
            None => breakdown_of(p@, *rate) is None,
        },
{
    if p.domestic || p.price.currency != Currency::USD {
        let out = String::new();
        assert(out@ =~= Seq::empty());
        return Some(out);
    }
    let amount = p.price.listed_price.show_fixed(0);
    let listed = text::join2("US$", amount.as_str());
    match providers::else_nothing(p.price.shipping_cost).checked_add(&p.price.tax.total_tax) {
        Some(extra) => {
            if extra.is_positive() {
                match extra.checked_div(rate) {
                    Some(usd) => {
                        let more = usd.show_fixed(0);
                        let mut out = text::join3(listed.as_str(), " + US$", more.as_str());
                        out.append(" ship+tax");
                        Some(out)
                    },
                    None => None,
                }
            } else {
                Some(listed)
            }
        },
        None => None,
    }
}

/// How a product is shown at a rank, or `None` where an amount on the way cannot be
/// held.
pub fn product_row(
    rank: usize,
    product: &Product,
    best: bool,
    reference: &Reference,
    change: &Option<PriceChange>,
) -> (r: Option<Row>)
    ensures
        row_view(r) == row_of(product@, rank as nat, best, *reference, *change),
{
    let notes = match list_notes(product, reference, change) {
        Some(n) => n,
        None => {
            return None;
        },
    };
    let breakdown = match show_breakdown(product, &reference.rate) {
        Some(s) => s,
        None => {
            return None;
        },
    };
    Some(
        Row {
            rank: show_rank(rank),
            price: pad_right(format_brl(&product.price.total_cost), 13),
            title: truncate(product.title.as_str(), 55),
            best,
            breakdown: pad_right(breakdown, 13),
            notes,
        },
    )
}

// ---- Prices abroad ----

/// The price of a new product on a site: in dollars with two decimal places on the
/// American one, else in the site's currency and in dollars.
pub open spec fn site_price_text(k: keepa::KeepaView, local: Decimal, usd: Decimal) -> Seq<char> {
    if k.domain == keepa::DOMAIN_US {
        "US$"@ + decimal::fixed_text(local@, 2)
    } else {
        keepa::site_symbol(k.domain) + decimal::fixed_text(local@, 0) + " (~US$"@
            + decimal::fixed_text(usd@, 0) + ")"@
    }
}

/// What a site asks for returned and for refurbished goods, as far as it does.
pub open spec fn extras_text(k: keepa::KeepaView) -> Seq<char> {
    let warehouse = match keepa::in_dollars(
        keepa::priced(k.warehouse_price, k.domain),
        k.domain,
    ) {
        Some(w) => seq!["Warehouse US$"@ + decimal::fixed_text(w@, 0)],
        None => Seq::empty(),
    };
    let all = match keepa::in_dollars(keepa::priced(k.refurbished_price, k.domain), k.domain) {
        Some(r) => warehouse.push("Refurb US$"@ + decimal::fixed_text(r@, 0)),
        None => warehouse,
    };
    text::joined(all, " · "@)
}

/// How the price on a site is shown: the site, the price, how it moves, what else is
/// asked there, and whether it is the cheapest site.
pub struct SiteRow {
    pub label: String,
    pub price: String,
    pub trend: Option<PriceTrend>,
    pub extras: String,
    pub cheapest: bool,
}

/// How the price on a site is shown.
pub struct SiteRowView {
    pub label: Seq<char>,
    pub price: Seq<char>,
    pub trend: Option<PriceTrend>,
    pub extras: Seq<char>,
    pub cheapest: bool,
}

impl View for SiteRow {
    type V = SiteRowView;

    open spec fn view(&self) -> SiteRowView {
        SiteRowView {
            label: self.label@,
            price: self.price@,
            trend: self.trend,
            extras: self.extras@,
            cheapest: self.cheapest,
        }
    }
}

/// Some rows of sites.
pub open spec fn site_row_views(v: Seq<SiteRow>) -> Seq<SiteRowView> {
    Seq::new(v.len(), |i: int| v[i]@)
}

/// The price of a new product on a site, in dollars.
pub open spec fn new_price_usd(k: keepa::KeepaView) -> Option<Decimal> {
    keepa::in_dollars(keepa::priced(keepa::best_new_cents(k), k.domain), k.domain)
}

/// The first `k` insights, those that tell the price of a new product.
pub open spec fn with_price(v: Seq<keepa::KeepaView>, k: int) -> Seq<keepa::KeepaView>
    decreases k,
{
    if k <= 0 {
        Seq::empty()
    } else if new_price_usd(v[k - 1]) is Some {
        with_price(v, k - 1).push(v[k - 1])
    } else {
        with_price(v, k - 1)
    }
}

/// Whether a site may be shown before another: it is no dearer.
pub open spec fn no_dearer(a: keepa::KeepaView, b: keepa::KeepaView) -> bool {
    decimal::at_most(
        providers::or_nothing(new_price_usd(a)),
        providers::or_nothing(new_price_usd(b)),
    )
}

/// The order in which sites are shown.
pub open spec fn site_order() -> spec_fn(keepa::KeepaView, keepa::KeepaView) -> bool {
    |a: keepa::KeepaView, b: keepa::KeepaView| no_dearer(a, b)
}

/// How the price on a site is shown, given the cheapest site.
pub open spec fn site_row_of(k: keepa::KeepaView, cheapest: u8) -> SiteRowView {
    SiteRowView {
        label: left_aligned("Amazon"@ + keepa::site_tld(k.domain), 20),
        price: site_price_text(
            k,
            providers::or_nothing(keepa::priced(keepa::best_new_cents(k), k.domain)),
            providers::or_nothing(new_price_usd(k)),
        ),
        trend: k.trend,
        extras: extras_text(k),
        cheapest: k.domain == cheapest,
    }
}

/// How the prices of a product on the sites are shown, the cheapest first.
pub open spec fn site_rows_of(insights: Seq<keepa::KeepaView>) -> Seq<SiteRowView> {
    let s = order::sorted(with_price(insights, insights.len() as int), site_order());
    Seq::new(s.len(), |i: int| site_row_of(s[i], s[0].domain))
}

fn price_in_dollars(k: &KeepaInsight) -> (r: Decimal)
    ensures
        r == providers::or_nothing(new_price_usd(k@)),
{
    providers::else_nothing(k.best_new_price_usd())
}

fn insert_site(v: &mut Vec<KeepaInsight>, x: KeepaInsight)
    ensures
        keepa::insight_views(final(v)@) == order::inserted(
            keepa::insight_views(old(v)@),
            x@,
            site_order(),
        ),
{
    let ghost placed = keepa::insight_views(v@);
    let ghost le = site_order();
    let price = price_in_dollars(&x);
    let mut k: usize = v.len();
    while k > 0 && !price_in_dollars(&v[k - 1]).le(&price)
        invariant
            k <= v@.len(),
            placed == keepa::insight_views(v@),
            le == site_order(),
            price == providers::or_nothing(new_price_usd(x@)),
            forall|j: int| k <= j < v@.len() ==> !#[trigger] le(placed[j], x@),
        decreases k,
    {
        assert(placed[k - 1] == v@[k - 1]@);
        k = k - 1;
    }
    proof {
        if k > 0 {
            assert(placed[k - 1] == v@[k - 1]@);
            assert(le(placed[k - 1], x@));
        }
        order::lemma_inserted(placed, x@, le, k as int);
        assert(keepa::insight_views(v@.insert(k as int, x)) =~= placed.insert(k as int, x@));
    }
    v.insert(k, x);
}

fn sort_sites(v: &Vec<KeepaInsight>) -> (r: Vec<KeepaInsight>)
    ensures
        keepa::insight_views(r@) == order::sorted(
            with_price(keepa::insight_views(v@), v@.len() as int),
            site_order(),
        ),
{
    let ghost all = keepa::insight_views(v@);
    let mut out: Vec<KeepaInsight> = Vec::new();
    let mut i: usize = 0;
    assert(keepa::insight_views(out@) =~= Seq::empty());
    while i < v.len()
        invariant
            i <= v@.len(),
            all == keepa::insight_views(v@),
            keepa::insight_views(out@) == order::sorted(with_price(all, i as int), site_order()),
        decreases v@.len() - i,
    {
        assert(all[i as int] == v@[i as int]@);
        if v[i].best_new_price_usd().is_some() {
            let x = v[i].clone();
            proof {
                let before = with_price(all, i as int);
                assert(before.push(x@).drop_last() =~= before);
            }
            insert_site(&mut out, x);
        }
        i = i + 1;
    }
    out
}

fn show_extras(k: &KeepaInsight) -> (r: String)
    ensures
        r@ == extras_text(k@),
{
    let mut all: Vec<String> = Vec::new();
    assert(text::texts(all@) =~= Seq::empty());
    match k.warehouse_usd() {
        Some(w) => {
            let amount = w.show_fixed(0);
            let s = text::join2("Warehouse US$", amount.as_str());
            all.push(s);
            assert(text::texts(all@) =~= seq![s@]);
        },
        None => {},
    }
    match k.refurbished_usd() {
        Some(w) => {
            let ghost so_far = all@;
            let amount = w.show_fixed(0);
            let s = text::join2("Refurb US$", amount.as_str());
            all.push(s);
            assert(text::texts(all@) =~= text::texts(so_far).push(s@));
        },
        None => {},
    }
    text::join(&all, " · ")
}

fn show_site(k: &KeepaInsight, cheapest: u8) -> (r: SiteRow)
    ensures
        r@ == site_row_of(k@, cheapest),
{
    let local = providers::else_nothing(k.best_new_price());
    let usd = price_in_dollars(k);
    let price = if k.domain == keepa::DOMAIN_US {
        let amount = local.show_fixed(2);
        text::join2("US$", amount.as_str())
    } else {
        let amount = local.show_fixed(0);
        let dollars = usd.show_fixed(0);
        let mut out = text::join3(k.currency_symbol(), amount.as_str(), " (~US$");
        out.append(dollars.as_str());
        out.append(")");
        out
    };
    SiteRow {
        label: pad_right(text::join2("Amazon", k.domain_tld()), 20),
        price,
        trend: k.trend,
        extras: show_extras(k),
        cheapest: k.domain == cheapest,
    }
}

/// How the prices of a product on the Amazon sites are shown, the cheapest first.
pub fn site_rows(insights: &Vec<KeepaInsight>) -> (r: Vec<SiteRow>)
    ensures
        site_row_views(r@) == site_rows_of(keepa::insight_views(insights@)),
{
    let sorted = sort_sites(insights);
    let ghost s = keepa::insight_views(sorted@);
    let ghost goal = site_rows_of(keepa::insight_views(insights@));
    assert(keepa::insight_views(insights@).len() == insights@.len());
    assert(s.len() == sorted@.len());
    let mut out: Vec<SiteRow> = Vec::new();
    let mut i: usize = 0;
    while i < sorted.len()
        invariant
            i <= sorted@.len(),
            s == keepa::insight_views(sorted@),
            goal == Seq::new(s.len(), |i: int| site_row_of(s[i], s[0].domain)),
            site_row_views(out@) == goal.take(i as int),
        decreases sorted@.len() - i,
    {
        let ghost so_far = out@;
        assert(s[0] == sorted@[0]@);
        assert(s[i as int] == sorted@[i as int]@);
        let row = show_site(&sorted[i], sorted[0].domain);
        out.push(row);
        proof {
            assert(site_row_views(out@) =~= site_row_views(so_far).push(row@));
            assert(goal.take(i + 1) =~= goal.take(i as int).push(goal[i as int]));
        }
        i = i + 1;
    }
    assert(goal.take(i as int) =~= goal);
    out
}

/// The index of the first of some products, from the `i`-th on, that there are insights
/// into.
pub open spec fn first_known(v: Seq<models::ProductView>, i: int) -> Option<int>
    decreases v.len() - i,
{
    if i < 0 || i >= v.len() {
        None
    } else if v[i].keepa.len() > 0 {
        Some(i)
    } else {
        first_known(v, i + 1)
    }
}

/// How the prices of a product abroad are shown: what it is, and the sites.
pub struct SiteTable {
    pub caption: String,
    pub rows: Vec<SiteRow>,
}

/// How the prices of a product abroad are shown.
pub struct SiteTableView {
    pub caption: Seq<char>,
    pub rows: Seq<SiteRowView>,
}

impl View for SiteTable {
    type V = SiteTableView;

    open spec fn view(&self) -> SiteTableView {
        SiteTableView { caption: self.caption@, rows: site_row_views(self.rows@) }
    }
}

/// A table that may be missing.
pub open spec fn table_view(t: Option<SiteTable>) -> Option<SiteTableView> {
    match t {
        Some(t) => Some(t@),
        None => None,
    }
}

/// How the prices abroad are shown, of the first of some products that there are insights
/// into.
pub open spec fn site_table_of(v: Seq<models::ProductView>) -> Option<SiteTableView> {
    match first_known(v, 0) {
        Some(i) => Some(
            SiteTableView {
                caption: "ASIN "@ + v[i].platform_id + " via Keepa"@,
                rows: site_rows_of(v[i].keepa),
            },
        ),
        None => None,
    }
}

/// How the prices abroad are shown, of the first of some products that there are insights
/// into.
pub fn site_table(v: &Vec<Product>) -> (r: Option<SiteTable>)
    ensures
        table_view(r) == site_table_of(models::product_views(v@)),
{
    let ghost all = models::product_views(v@);
    let mut i: usize = 0;
    while i < v.len()
        invariant
            i <= v@.len(),
            all == models::product_views(v@),
            first_known(all, 0) == first_known(all, i as int),
        decreases v@.len() - i,
    {
        assert(all[i as int] == v@[i as int]@);
        assert(all[i as int].keepa.len() == v@[i as int].keepa@.len());
        if v[i].keepa.len() > 0 {
            return Some(
                SiteTable {
                    caption: text::join3("ASIN ", v[i].platform_id.as_str(), " via Keepa"),
                    rows: site_rows(&v[i].keepa),
                },
            );
        }
        i = i + 1;
    }
    None
}

// ---- The cost of an import ----

/// How the cost of an import at the price that the manufacturer asks is shown: that price
/// in dollars and in reais, the import tax and its part of the price, the state tax, and
/// the total.
pub struct ImportCost {
    pub msrp: String,
    pub converted: String,
    pub import_tax: Option<(String, String)>,
    pub icms: Option<String>,
    pub total: String,
}

/// How the cost of an import is shown.
pub struct ImportCostView {
    pub msrp: Seq<char>,
    pub converted: Seq<char>,
    pub import_tax: Option<(Seq<char>, Seq<char>)>,
    pub icms: Option<Seq<char>>,
    pub total: Seq<char>,
}

impl View for ImportCost {
    type V = ImportCostView;

    open spec fn view(&self) -> ImportCostView {
        ImportCostView {
            msrp: self.msrp@,
            converted: self.converted@,
            import_tax: match self.import_tax {
                Some(t) => Some((t.0@, t.1@)),
                None => None,
            },
            icms: text::text_view(self.icms),
            total: self.total@,
        }
    }
}

/// What part of a price a tax is, in per cent; nothing where the price is nothing. It is
/// `None` where that cannot be held.
pub open spec fn part_text(tax: Decimal, price: Decimal) -> Option<Seq<char>> {
    if price@.mantissa > 0 {
        match decimal::quotients(
            decimal::product(tax, decimal::dec(100, 0)),
            Some(price),
        ) {
            Some(pct) => Some(" ("@ + decimal::fixed_text(pct@, 0) + "%)"@),
            None => None,
        }
    } else {
        Some(Seq::empty())
    }
}

/// How the import tax is shown, if there is any.
pub open spec fn import_tax_text(tax: Option<Decimal>, price: Decimal) -> Option<
    Option<(Seq<char>, Seq<char>)>,
> {
    match tax {
        Some(t) => match part_text(t, price) {
            Some(pct) => Some(Some((brl_text(t@), pct))),
            None => None,
        },
        None => Some(None),
    }
}

/// How the cost of an import at a price in dollars is shown, or `None` where an amount on
/// the way cannot be held.
pub open spec fn import_cost_of(msrp: Decimal, rate: Decimal) -> Option<ImportCostView> {
    match decimal::product(msrp, rate) {
        Some(brl) => match tax::assessed(Some(msrp), brl, false, false, false, rate) {
            Some(t) => match (
                decimal::sum(brl, t.total_tax),
                import_tax_text(t.import_tax, brl),
            ) {
                (Some(total), Some(import_tax)) => Some(
                    ImportCostView {
                        msrp: "US$"@ + decimal::fixed_text(msrp@, 2),
                        converted: brl_text(brl@) + " (USD/BRL "@ + decimal::fixed_text(
                            rate@,
                            2,
                        ) + ")"@,
                        import_tax,
                        icms: match t.icms {
                            Some(i) => Some(brl_text(i@)),
                            None => None,
                        },
                        total: brl_text(total@),
                    },
                ),
                _ => None,
            },
            None => None,
        },
        None => None,
    }
}

fn show_part(tax: &Decimal, price: &Decimal) -> (r: Option<String>)
    ensures
        match r {
            Some(s) => part_text(*tax, *price) == Some(s@),
            None => part_text(*tax, *price) is None,
        },
{
    if !price.is_positive() {
        let out = String::new();
        assert(out@ =~= Seq::empty());
        return Some(out);
    }
    let hundredfold = tax.checked_mul(&Decimal::new(100, 0));
    match decimal::over(hundredfold, Some(*price)) {
        Some(pct) => {
            let n = pct.show_fixed(0);
            Some(text::join3(" (", n.as_str(), "%)"))
        },
        None => None,
    }
}

/// How the cost of an import at a price in dollars is shown, or `None` where an amount on
/// the way cannot be held.
pub fn import_cost(msrp: Decimal, rate: Decimal) -> (r: Option<ImportCost>)
    ensures
        match r {
            Some(c) => import_cost_of(msrp, rate) == Some(c@),
            None => import_cost_of(msrp, rate) is None,
        },
{
    let brl = match msrp.checked_mul(&rate) {
        Some(b) => b,
        None => {
            return None;
        },
    };
    let t = match TaxCalculator::try_calculate(Some(msrp), brl, false, false, false, rate) {
        Some(t) => t,
        None => {
            return None;
        },
    };
    let total = match brl.checked_add(&t.total_tax) {
        Some(t) => t,
        None => {
            return None;
        },
    };
    let import_tax = match t.import_tax {
        Some(i) => match show_part(&i, &brl) {
            Some(pct) => Some((format_brl(&i), pct)),
            None => {
                return None;
            },
        },
        None => None,
    };
    let dollars = msrp.show_fixed(2);
    let reais = format_brl(&brl);
    let price = rate.show_fixed(2);
    let mut converted = text::join3(reais.as_str(), " (USD/BRL ", price.as_str());
    converted.append(")");
    let icms = match t.icms {
        Some(i) => Some(format_brl(&i)),
        None => None,
    };
    Some(
        ImportCost {
            msrp: text::join2("US$", dollars.as_str()),
            converted,
            import_tax,
            icms,
            total: format_brl(&total),
        },
    )
}

// ---- The report ----

/// Whether the first of some products costs no more than any other.
pub open spec fn first_is_cheapest(v: Seq<models::ProductView>) -> bool {
    forall|j: int|
        0 <= j < v.len() ==> decimal::at_most(
            v[0].price.total_cost,
            (#[trigger] v[j]).price.total_cost,
        )
}

/// The change of the price of the `i`-th product, if it is known.
pub open spec fn change_at(changes: Seq<Option<PriceChange>>, i: int) -> Option<PriceChange> {
    if 0 <= i < changes.len() {
        changes[i]
    } else {
        None
    }
}

/// How the first `k` products are shown. The first is marked as the best where none is
/// cheaper. It is `None` where an amount on the way cannot be held.
pub open spec fn rows_of(
    v: Seq<models::ProductView>,
    changes: Seq<Option<PriceChange>>,
    r: Reference,
    k: int,
) -> Option<Seq<RowView>>
    decreases k,
{
    if k <= 0 {
        Some(Seq::empty())
    } else {
        match (
            rows_of(v, changes, r, k - 1),
            row_of(
                v[k - 1],
                k as nat,
                k == 1 && first_is_cheapest(v),
                r,
                change_at(changes, k - 1),
            ),
        ) {
            (Some(before), Some(row)) => Some(before.push(row)),
            _ => None,
        }
    }
}

/// The ranks and addresses of those of the first `k` products that have one.
pub open spec fn links_of(v: Seq<models::ProductView>, k: int) -> Seq<(Seq<char>, Seq<char>)>
    decreases k,
{
    if k <= 0 {
        Seq::empty()
    } else if v[k - 1].url.len() > 0 {
        links_of(v, k - 1).push((rank_text(k as nat), v[k - 1].url))
    } else {
        links_of(v, k - 1)
    }
}

/// Some ranks and addresses.
pub open spec fn link_views(v: Seq<(String, String)>) -> Seq<(Seq<char>, Seq<char>)> {
    Seq::new(v.len(), |i: int| (v[i].0@, v[i].1@))
}

/// How many results there are of how many stores, and how many seconds they took.
pub open spec fn summary_of(v: Seq<models::ProductView>, seconds: Seq<char>) -> Seq<char> {
    text::number_text(v.len()) + " results · "@ + text::number_text(
        store_count(v, v.len() as int),
    ) + " providers · "@ + seconds + "s"@
}

/// How the price that the manufacturer asks is shown: in reais where it is one for
/// Brazil, else with the cost of an import at it.
pub enum MsrpNote {
    Domestic(String),
    Import(ImportCost),
}

/// How the price that the manufacturer asks is shown.
pub enum MsrpNoteView {
    Domestic(Seq<char>),
    Import(ImportCostView),
}

impl View for MsrpNote {
    type V = MsrpNoteView;

    open spec fn view(&self) -> MsrpNoteView {
        match *self {
            MsrpNote::Domestic(s) => MsrpNoteView::Domestic(s@),
            MsrpNote::Import(c) => MsrpNoteView::Import(c@),
        }
    }
}

/// How the price that the manufacturer asks is shown, if it is known. The outer `None` is
/// for an amount on the way that cannot be held.
pub open spec fn msrp_note_of(r: Reference) -> Option<Option<MsrpNoteView>> {
    match r.msrp_usd {
        Some(msrp) => if r.domestic {
            Some(
                match r.msrp_brl {
                    Some(brl) => Some(MsrpNoteView::Domestic(brl_text(brl@))),
                    None => None,
                },
            )
        } else {
            match import_cost_of(msrp, r.rate) {
                Some(c) => Some(Some(MsrpNoteView::Import(c))),
                None => None,
            }
        },
        None => Some(None),
    }
}

/// How results are shown: a summary, the products, the prices abroad, the price that the
/// manufacturer asks, and the addresses.
pub struct Report {
    pub summary: String,
    pub rows: Vec<Row>,
    pub sites: Option<SiteTable>,
    pub msrp: Option<MsrpNote>,
    pub links: Vec<(String, String)>,
}

/// How results are shown.
pub struct ReportView {
    pub summary: Seq<char>,
    pub rows: Seq<RowView>,
    pub sites: Option<SiteTableView>,
    pub msrp: Option<MsrpNoteView>,
    pub links: Seq<(Seq<char>, Seq<char>)>,
}

/// Some rows.
pub open spec fn row_views(v: Seq<Row>) -> Seq<RowView> {
    Seq::new(v.len(), |i: int| v[i]@)
}

impl View for Report {
    type V = ReportView;

    open spec fn view(&self) -> ReportView {
        ReportView {
            summary: self.summary@,
            rows: row_views(self.rows@),
            sites: table_view(self.sites),
            msrp: match self.msrp {
                Some(m) => Some(m@),
                None => None,
            },
            links: link_views(self.links@),
        }
    }
}

/// How some products are shown, with how their prices have changed, after so many
/// seconds. It is `None` where an amount on the way cannot be held.
pub open spec fn report_of(
    v: Seq<models::ProductView>,
    changes: Seq<Option<PriceChange>>,
    seconds: Seq<char>,
) -> Option<ReportView> {
    match reference_of(v) {
        Some(r) => match (rows_of(v, changes, r, v.len() as int), msrp_note_of(r)) {
            (Some(rows), Some(msrp)) => Some(
                ReportView {
                    summary: summary_of(v, seconds),
                    rows,
                    sites: site_table_of(v),
                    msrp,
                    links: links_of(v, v.len() as int),
                },
            ),
            _ => None,
        },
        None => None,
    }
}

fn is_first_cheapest(v: &Vec<Product>) -> (r: bool)
    requires
        v@.len() > 0,
    ensures
        r == first_is_cheapest(models::product_views(v@)),
{
    let ghost all = models::product_views(v@);
    let mut i: usize = 0;
    while i < v.len()
        invariant
            i <= v@.len(),
            v@.len() > 0,
            all == models::product_views(v@),
            forall|j: int|
                0 <= j < i ==> decimal::at_most(
                    all[0].price.total_cost,
                    (#[trigger] all[j]).price.total_cost,
                ),
        decreases v@.len() - i,
    {
        assert(all[i as int] == v@[i as int]@);
        assert(all[0] == v@[0]@);
        if !v[0].price.total_cost.le(&v[i].price.total_cost) {
            assert(!decimal::at_most(all[0].price.total_cost, all[i as int].price.total_cost));
            return false;
        }
        i = i + 1;
    }
    true
}

proof fn lemma_no_rows(
    v: Seq<models::ProductView>,
    changes: Seq<Option<PriceChange>>,
    r: Reference,
    i: int,
    k: int,
)
    requires
        0 <= i <= k,
        rows_of(v, changes, r, i) is None,
    ensures
        rows_of(v, changes, r, k) is None,
    decreases k - i,
{
    if i < k {
        lemma_no_rows(v, changes, r, i, k - 1);
    }
}

fn list_rows(v: &Vec<Product>, changes: &Vec<Option<PriceChange>>, r: &Reference) -> (rows: Option<
    Vec<Row>,
>)
    ensures
        match rows {
            Some(rows) => rows_of(
                models::product_views(v@),
                changes@,
                *r,
                v@.len() as int,
            ) == Some(row_views(rows@)),
            None => rows_of(models::product_views(v@), changes@, *r, v@.len() as int) is None,
        },
{
    let ghost all = models::product_views(v@);
    let size: usize = v.len();
    let best = size > 0 && is_first_cheapest(v);
    let mut out: Vec<Row> = Vec::new();
    let mut i: usize = 0;
    assert(row_views(out@) =~= Seq::empty());
    while i < size
        invariant
            i <= size == v@.len(),
            all == models::product_views(v@),
            best == (size > 0 && first_is_cheapest(all)),
            rows_of(all, changes@, *r, i as int) == Some(row_views(out@)),
        decreases size - i,
    {
        assert(all[i as int] == v@[i as int]@);
        let change = if i < changes.len() {
            changes[i]
        } else {
            None
        };
        let ghost so_far = out@;
        match product_row(i + 1, &v[i], i == 0 && best, r, &change) {
            Some(row) => {
                out.push(row);
                assert(row_views(out@) =~= row_views(so_far).push(row@));
            },
            None => {
                proof {
                    lemma_no_rows(all, changes@, *r, i + 1, size as int);
                }
                return None;
            },
        }
        i = i + 1;
    }
    Some(out)
}

fn list_links(v: &Vec<Product>) -> (r: Vec<(String, String)>)
    ensures
        link_views(r@) == links_of(models::product_views(v@), v@.len() as int),
{
    let ghost all = models::product_views(v@);
    let size: usize = v.len();
    let mut out: Vec<(String, String)> = Vec::new();
    let mut i: usize = 0;
    assert(link_views(out@) =~= Seq::empty());
    while i < size
        invariant
            i <= size == v@.len(),
            all == models::product_views(v@),
            link_views(out@) == links_of(all, i as int),
        decreases size - i,
    {
        assert(all[i as int] == v@[i as int]@);
        let ghost so_far = out@;
        if text::text_bytes(v[i].url.as_str()) > 0 {
            let rank = show_rank(i + 1);
            let url = v[i].url.clone();
            out.push((rank, url));
            assert(link_views(out@) =~= link_views(so_far).push((rank@, url@)));
        }
        i = i + 1;
    }
    out
}

fn show_msrp(r: &Reference) -> (n: Option<Option<MsrpNote>>)
    ensures
        match n {
            Some(n) => msrp_note_of(*r) == Some(
                match n {
                    Some(m) => Some(m@),
                    None => None,
                },
            ),
            None => msrp_note_of(*r) is None,
        },
{
    match r.msrp_usd {
        Some(msrp) => {
            if r.domestic {
                match r.msrp_brl {
                    Some(brl) => Some(Some(MsrpNote::Domestic(format_brl(&brl)))),
                    None => Some(None),
                }
            } else {
                match import_cost(msrp, r.rate) {
                    Some(c) => Some(Some(MsrpNote::Import(c))),
                    None => None,
                }
            }
        },
        None => Some(None),
    }
}

/// How some products are shown, with how their prices have changed, after so many
/// seconds, or `None` where an amount on the way cannot be held.
pub fn report(products: &Vec<Product>, changes: &Vec<Option<PriceChange>>, seconds: &str) -> (r:
    Option<Report>)
    ensures
        match r {
            Some(x) => report_of(models::product_views(products@), changes@, seconds@) == Some(
                x@,
            ),
            None => report_of(models::product_views(products@), changes@, seconds@) is None,
        },
{
    assert(models::product_views(products@).len() == products@.len());
    let reference = match find_reference(products) {
        Some(r) => r,
        None => {
            return None;
        },
    };
    let rows = match list_rows(products, changes, &reference) {
        Some(rows) => rows,
        None => {
            return None;
        },
    };
    let msrp = match show_msrp(&reference) {
        Some(m) => m,
        None => {
            return None;
        },
    };
    let count = text::show_number(products.len() as u64);
    let stores = text::show_number(count_unique_providers(products) as u64);
    let mut summary = text::join3(count.as_str(), " results · ", stores.as_str());
    summary.append(" providers · ");
    summary.append(seconds);
    summary.append("s");
    Some(
        Report {
            summary,
            rows,
            sites: site_table(products),
            msrp,
            links: list_links(products),
        },
    )
}

// ---- Comma-separated values ----

/// The names of the columns.
pub open spec fn csv_names() -> Seq<Seq<char>> {
    seq![
        "rank"@,
        "platform"@,
        "title"@,
        "price_brl"@,
        "shipping_brl"@,
        "tax_brl"@,
        "total_brl"@,
        "rating"@,
        "reviews"@,
        "domestic"@,
        "url"@,
    ]
}

/// The stars of a product, if it has any.
pub open spec fn csv_rating(p: models::ProductView) -> Seq<char> {
    match p.rating {
        Some(r) => decimal::binary_text(r@, 1),
        None => ""@,
    }
}

/// The reviews of a product, if they were counted.
pub open spec fn csv_reviews(p: models::ProductView) -> Seq<char> {
    match p.review_count {
        Some(n) => text::number_text(n as nat),
        None => ""@,
    }
}

/// The columns of a product at a rank. The title is in quotes, with those in it doubled.
pub open spec fn csv_columns(p: models::ProductView, rank: nat) -> Seq<Seq<char>> {
    seq![
        text::number_text(rank),
        providers::provider_label(p.provider),
        "\""@ + text::replaced(p.title, "\""@, "\"\""@) + "\""@,
        decimal::fixed_text(p.price.price_brl@, 2),
        decimal::fixed_text(providers::or_nothing(p.price.shipping_cost)@, 2),
        decimal::fixed_text(p.price.tax.total_tax@, 2),
        decimal::fixed_text(p.price.total_cost@, 2),
        csv_rating(p),
        csv_reviews(p),
        if p.domestic {
            "true"@
        } else {
            "false"@
        },
        p.url,
    ]
}

/// The lines that tell of some products: the names of the columns, then each product.
pub open spec fn csv_of(v: Seq<models::ProductView>) -> Seq<Seq<char>> {
    Seq::new(
        v.len() + 1,
        |i: int|
            if i == 0 {
                text::joined(csv_names(), ","@)
            } else {
                text::joined(csv_columns(v[i - 1], i as nat), ","@)
            },
    )
}

fn csv_head() -> (r: String)
    ensures
        r@ == text::joined(csv_names(), ","@),
{
    let mut names: Vec<String> = Vec::new();
    names.push("rank".to_string());
    names.push("platform".to_string());
    names.push("title".to_string());
    names.push("price_brl".to_string());
    names.push("shipping_brl".to_string());
    names.push("tax_brl".to_string());
    names.push("total_brl".to_string());
    names.push("rating".to_string());
    names.push("reviews".to_string());
    names.push("domestic".to_string());
    names.push("url".to_string());
    assert(text::texts(names@) =~= csv_names());
    text::join(&names, ",")
}

fn csv_line(p: &Product, rank: usize) -> (r: String)
    ensures
        r@ == text::joined(csv_columns(p@, rank as nat), ","@),
{
    let doubled = text::replace(p.title.as_str(), "\"", "\"\"");
    let mut columns: Vec<String> = Vec::new();
    columns.push(text::show_number(rank as u64));
    columns.push(p.provider.label().to_string());
    columns.push(text::join3("\"", doubled.as_str(), "\""));
    columns.push(p.price.price_brl.show_fixed(2));
    columns.push(providers::else_nothing(p.price.shipping_cost).show_fixed(2));
    columns.push(p.price.tax.total_tax.show_fixed(2));
    columns.push(p.price.total_cost.show_fixed(2));
    columns.push(
        match &p.rating {
            Some(r) => r.show_binary(1),
            None => "".to_string(),
        },
    );
    columns.push(
        match p.review_count {
            Some(n) => text::show_number(n as u64),
            None => "".to_string(),
        },
    );
    columns.push((if p.domestic { "true" } else { "false" }).to_string());
    columns.push(p.url.clone());
    assert(text::texts(columns@) =~= csv_columns(p@, rank as nat));
    text::join(&columns, ",")
}

/// The lines that tell of some products: the names of the columns, then each product.
pub fn csv_lines(products: &Vec<Product>) -> (r: Vec<String>)
    ensures
        text::texts(r@) == csv_of(models::product_views(products@)),
{
    let ghost all = models::product_views(products@);
    let ghost goal = csv_of(all);
    let size: usize = products.len();
    let mut out: Vec<String> = Vec::new();
    out.push(csv_head());
    assert(text::texts(out@) =~= goal.take(1));
    let mut i: usize = 0;
    while i < size
        invariant
            i <= size == products@.len(),
            all == models::product_views(products@),
            goal == csv_of(all),
            text::texts(out@) == goal.take(i + 1),
        decreases size - i,
    {
        assert(all[i as int] == products@[i as int]@);
        let ghost so_far = out@;
        let line = csv_line(&products[i], i + 1);
        out.push(line);
        proof {
            assert(text::texts(out@) =~= text::texts(so_far).push(line@));
            assert(goal.take(i + 2) =~= goal.take(i + 1).push(goal[i + 1]));
        }
        i = i + 1;
    }
    assert(goal.take(i + 1) =~= goal);
    out
}

// ---- What holds of what is shown ----

/// Shown titles are never longer than asked for, unless nothing is.
pub proof fn shown_titles_fit(s: Seq<char>, max: nat)
    requires
        max > 0,
    ensures
        shortened(s, max).len() <= max,
{
    reveal_strlit("…");
}

proof fn lemma_rows(
    v: Seq<models::ProductView>,
    changes: Seq<Option<PriceChange>>,
    r: Reference,
    k: int,
)
    requires
        0 <= k <= v.len(),
        rows_of(v, changes, r, k) is Some,
    ensures
        rows_of(v, changes, r, k)->0.len() == k,
        forall|i: int|
            0 <= i < k ==> (#[trigger] rows_of(v, changes, r, k)->0[i]).rank == rank_text(
                (i + 1) as nat,
            ) && rows_of(v, changes, r, k)->0[i].title == shortened(v[i].title, 55)
                && rows_of(v, changes, r, k)->0[i].best == (i == 0 && first_is_cheapest(v)),
    decreases k,
{
    if k > 0 {
        lemma_rows(v, changes, r, k - 1);
    }
}

/// A report has a row for each product, in their order, and marks one as the best only
/// where it is the first and none is cheaper.
pub proof fn every_product_is_shown(
    v: Seq<models::ProductView>,
    changes: Seq<Option<PriceChange>>,
    seconds: Seq<char>,
)
    ensures
        match report_of(v, changes, seconds) {
            Some(report) => report.rows.len() == v.len() && forall|i: int|
                0 <= i < v.len() ==> (#[trigger] report.rows[i]).rank == rank_text((i + 1) as nat)
                    && report.rows[i].title == shortened(v[i].title, 55) && report.rows[i].best
                    == (i == 0 && first_is_cheapest(v)),
            None => true,
        },
{
    if report_of(v, changes, seconds) is Some {
        lemma_rows(v, changes, reference_of(v)->0, v.len() as int);
    }
}

/// A table of sites starts with one that no other undercuts.
pub proof fn cheapest_site_is_first(insights: Seq<keepa::KeepaView>)
    ensures
        ({
            let s = order::sorted(with_price(insights, insights.len() as int), site_order());
            forall|i: int| 0 <= i < s.len() ==> no_dearer(s[0], #[trigger] s[i])
        }),
{
    let le = site_order();
    assert forall|a: keepa::KeepaView, b: keepa::KeepaView| #[trigger] le(a, b) || le(b, a) by {
        decimal::amounts_are_ordered(
            providers::or_nothing(new_price_usd(a)),
            providers::or_nothing(new_price_usd(b)),
            providers::or_nothing(new_price_usd(a)),
        );
    }
    assert forall|a: keepa::KeepaView, b: keepa::KeepaView, c: keepa::KeepaView| #[trigger]
        le(a, b) && #[trigger] le(b, c) implies le(a, c) by {
        decimal::amounts_are_ordered(
            providers::or_nothing(new_price_usd(a)),
            providers::or_nothing(new_price_usd(b)),
            providers::or_nothing(new_price_usd(c)),
        );
    }
    let v = with_price(insights, insights.len() as int);
    order::sorting_orders(v, le);
    let s = order::sorted(v, le);
    assert forall|i: int| 0 <= i < s.len() implies no_dearer(s[0], #[trigger] s[i]) by {
        assert(le(s[0], s[i]));
    }
}

/// Every line of comma-separated values has as many columns as there are names.
pub proof fn csv_rows_are_complete(p: models::ProductView, rank: nat)
    ensures
        csv_columns(p, rank).len() == csv_names().len(),
{
}

/// A text that is aligned is followed by spaces up to the width, and by none where it is as
/// long.
pub proof fn texts_are_filled_with_spaces(s: Seq<char>, width: nat)
    ensures
        ({
            let r = left_aligned(s, width);
            &&& s.is_prefix_of(r)
            &&& s.len() >= width ==> r == s
            &&& s.len() < width ==> r.len() == width
            &&& forall|i: int| s.len() <= i < r.len() ==> #[trigger] r[i] == ' '
        }),
    decreases width - s.len(),
{
    if s.len() < width {
        texts_are_filled_with_spaces(s.push(' '), width);
        let r = left_aligned(s, width);
        let t = s.push(' ');
        assert(r.take(t.len() as int) =~= t);
        assert(r.take(s.len() as int) =~= s) by {
            assert forall|i: int| 0 <= i < s.len() implies r[i] == s[i] by {
                assert(r.take(t.len() as int)[i] == t[i]);
            }
        }
        assert(r[s.len() as int] == ' ') by {
            assert(r.take(t.len() as int)[s.len() as int] == t[s.len() as int]);
        }
    }
}

/// A title is shown as it is where it is short enough, and else its start and a mark.
pub proof fn titles_are_cut_at_the_end(s: Seq<char>, max: nat)
    requires
        max > 0,
    ensures
        s.len() <= max ==> shortened(s, max) == s,
        s.len() > max ==> shortened(s, max) == s.take(max - 1) + seq!['…'],
{
    reveal_strlit("…");
    assert("…"@ =~= seq!['…']);
}

/// Points stand between digits in threes from the end, and the digits stay.
pub proof fn digits_are_grouped_by_three(s: Seq<char>)
    requires
        forall|i: int| 0 <= i < s.len() ==> #[trigger] s[i] != '.',
    ensures
        ({
            let g = grouped(s);
            &&& g.len() == s.len() + (if s.len() == 0 {
                0int
            } else {
                (s.len() - 1) / 3
            })
            &&& forall|i: int|
                0 <= i < g.len() ==> (#[trigger] g[g.len() - 1 - i] == '.' <==> i % 4 == 3)
            &&& forall|i: int| #![trigger s[s.len() - 1 - i]]
                0 <= i < s.len() ==> g[g.len() - 1 - (i + i / 3)] == s[s.len() - 1 - i]
        }),
    decreases s.len(),
{
    let g = grouped(s);
    if s.len() > 3 {
        let t = s.take(s.len() - 3);
        let h = grouped(t);
        digits_are_grouped_by_three(t);
        assert(g.len() == h.len() + 4);
        assert forall|i: int| 0 <= i < g.len() implies (#[trigger] g[g.len() - 1 - i] == '.' <==> i
            % 4 == 3) by {
            if i >= 4 {
                assert(g[g.len() - 1 - i] == h[h.len() - 1 - (i - 4)]);
                assert((i - 4) % 4 == i % 4);
            } else if i < 3 {
                assert(g[g.len() - 1 - i] == s[s.len() - 1 - i]);
            }
        }
        assert forall|i: int| #![trigger s[s.len() - 1 - i]] 0 <= i < s.len() implies g[g.len() - 1 - (i + i / 3)]
            == s[s.len() - 1 - i] by {
            if i >= 3 {
                let j = i - 3;
                assert(t[t.len() - 1 - j] == s[s.len() - 1 - i]);
                assert(i / 3 == j / 3 + 1);
                assert(g[g.len() - 1 - (i + i / 3)] == h[h.len() - 1 - (j + j / 3)]);
            }
        }
    } else {
        assert forall|i: int| 0 <= i < g.len() implies (#[trigger] g[g.len() - 1 - i] == '.' <==> i
            % 4 == 3) by {
            assert(g[g.len() - 1 - i] == s[s.len() - 1 - i]);
        }
    }
}

/// Amounts in reais are shown in whole hundredths, what is less than one cut off: reais
/// before the comma and two digits behind it.
pub proof fn reais_are_shown_to_the_hundredth(v: decimal::DecimalView, h: nat)
    requires
        h * decimal::pow10(v.scale) <= 100 * decimal::magnitude(v.mantissa),
        100 * decimal::magnitude(v.mantissa) < (h + 1) * decimal::pow10(v.scale),
    ensures
        brl_text(v) == "R$ "@ + grouped(text::number_text(h / 100)) + ","@ + decimal::padded(
            text::number_text(h % 100),
            2,
        ),
{
    decimal::lemma_pow10_positive(v.scale);
    let (n, d) = ((decimal::magnitude(v.mantissa) * 100) as int, decimal::pow10(v.scale) as int);
    let q = n / d;
    vstd::arithmetic::div_mod::lemma_fundamental_div_mod(n, d);
    vstd::arithmetic::div_mod::lemma_mod_bound(n, d);
    assert(q == h) by (nonlinear_arith)
        requires
            n == d * q + n % d,
            0 <= n % d < d,
            h * d <= n < (h + 1) * d,
            d > 0,
    ;
}

/// Counts are shown in full below a thousand, then in thousands and from a million on in
/// millions.
pub proof fn counts_are_shown_in_thousands(n: u32)
    ensures
        n < 1000 ==> count_text(n) == text::number_text(n as nat),
        1000 <= n < 1_000_000 ==> count_text(n) == decimal::double_text(
            (decimal::DecimalView { mantissa: n as int, scale: 3 }),
            1,
        ) + "k"@,
        n >= 1_000_000 ==> count_text(n) == decimal::double_text(
            (decimal::DecimalView { mantissa: n as int, scale: 6 }),
            1,
        ) + "M"@,
{
}

/// Ranks are as wide as two digits.
pub proof fn ranks_are_two_digits_wide(n: nat)
    ensures
        text::number_text(n).len() >= 2 ==> rank_text(n) == text::number_text(n),
        text::number_text(n).len() < 2 ==> rank_text(n) == seq![' '] + text::number_text(n),
{
}

/// As many stores are counted as there are among the products.
pub proof fn stores_are_counted_once(v: Seq<models::ProductView>, k: int)
    requires
        0 <= k <= v.len(),
    ensures
        store_count(v, k) == Set::new(
            |p: ProviderId| exists|i: int| 0 <= i < k && (#[trigger] v[i]).provider == p,
        ).len(),
        Set::new(
            |p: ProviderId| exists|i: int| 0 <= i < k && (#[trigger] v[i]).provider == p,
        ).finite(),
    decreases k,
{
    let s = Set::new(|p: ProviderId| exists|i: int| 0 <= i < k && (#[trigger] v[i]).provider == p);
    if k > 0 {
        stores_are_counted_once(v, k - 1);
        let t = Set::new(
            |p: ProviderId| exists|i: int| 0 <= i < k - 1 && (#[trigger] v[i]).provider == p,
        );
        let last = v[k - 1].provider;
        assert(s =~= t.insert(last)) by {
            assert forall|p: ProviderId| s.contains(p) <==> t.insert(last).contains(p) by {
                if t.contains(p) {
                    let i = choose|i: int| 0 <= i < k - 1 && (#[trigger] v[i]).provider == p;
                    assert(v[i].provider == p);
                }
                assert(v[k - 1].provider == last);
            }
        }
        assert(t.contains(last) <==> has_store(v, last, k - 1));
    } else {
        assert(s =~= Set::empty());
    }
}

/// The rate that a report goes by is that of the first product priced in dollars, in reais by
/// dollars, and five where there is none.
pub proof fn rates_are_those_of_products(v: Seq<models::ProductView>)
    ensures
        (forall|i: int|
            0 <= i < v.len() ==> (#[trigger] v[i]).price.currency != Currency::USD
                || v[i].price.listed_price@.mantissa <= 0) ==> shown_rate(v, 0) == Some(
            decimal::dec(5, 0),
        ),
        forall|i: int|
            0 <= i < v.len() && (#[trigger] v[i]).price.currency == Currency::USD
                && v[i].price.listed_price@.mantissa > 0 && (forall|j: int|
                0 <= j < i ==> (#[trigger] v[j]).price.currency != Currency::USD
                    || v[j].price.listed_price@.mantissa <= 0) ==> shown_rate(v, 0)
                == decimal::quotient(v[i].price.price_brl, v[i].price.listed_price),
{
    lemma_shown_rate(v, 0);
}

proof fn lemma_shown_rate(v: Seq<models::ProductView>, k: int)
    requires
        0 <= k,
    ensures
        (forall|i: int|
            k <= i < v.len() ==> (#[trigger] v[i]).price.currency != Currency::USD
                || v[i].price.listed_price@.mantissa <= 0) ==> shown_rate(v, k) == Some(
            decimal::dec(5, 0),
        ),
        forall|i: int|
            k <= i < v.len() && (#[trigger] v[i]).price.currency == Currency::USD
                && v[i].price.listed_price@.mantissa > 0 && (forall|j: int|
                k <= j < i ==> (#[trigger] v[j]).price.currency != Currency::USD
                    || v[j].price.listed_price@.mantissa <= 0) ==> shown_rate(v, k)
                == decimal::quotient(v[i].price.price_brl, v[i].price.listed_price),
    decreases v.len() - k,
{
    if k < v.len() {
        lemma_shown_rate(v, k + 1);
    }
}

/// The price that the manufacturer asks in dollars is, without insights, the original price
/// of the first product that is priced in dollars and has one.
pub proof fn dollar_prices_come_from_the_first(v: Seq<models::ProductView>)
    ensures
        match dollar_msrp(v, 0) {
            Some(m) => exists|i: int|
                0 <= i < v.len() && (#[trigger] v[i]).price.original_price == Some(m)
                    && v[i].price.currency == Currency::USD && forall|j: int|
                    0 <= j < i ==> (#[trigger] v[j]).price.original_price is None
                        || v[j].price.currency != Currency::USD,
            None => forall|i: int|
                0 <= i < v.len() ==> (#[trigger] v[i]).price.original_price is None
                    || v[i].price.currency != Currency::USD,
        },
{
    lemma_dollar_msrp(v, 0);
}

proof fn lemma_dollar_msrp(v: Seq<models::ProductView>, k: int)
    requires
        0 <= k,
    ensures
        match dollar_msrp(v, k) {
            Some(m) => exists|i: int|
                k <= i < v.len() && (#[trigger] v[i]).price.original_price == Some(m)
                    && v[i].price.currency == Currency::USD && forall|j: int|
                    k <= j < i ==> (#[trigger] v[j]).price.original_price is None
                        || v[j].price.currency != Currency::USD,
            None => forall|i: int|
                k <= i < v.len() ==> (#[trigger] v[i]).price.original_price is None
                    || v[i].price.currency != Currency::USD,
        },
    decreases v.len() - k,
{
    if k < v.len() && !(v[k].price.original_price is Some && v[k].price.currency == Currency::USD) {
        lemma_dollar_msrp(v, k + 1);
    }
}

/// What the manufacturer asks on the American site goes first; what it asks on the Brazilian
/// one is taken at 19 hundredths of a dollar for a real; and only without either is an
/// original price taken.
pub proof fn american_prices_go_first(v: Seq<models::ProductView>)
    ensures
        ({
            let us = msrp_on(v, 1, 0);
            let br = msrp_on(v, 12, 0);
            match asked(v) {
                Some(m) => {
                    &&& us is Some ==> m.0 == us && m.1 is None
                    &&& us is None && br is Some ==> m.0 == decimal::product(
                        br->0,
                        decimal::dec(19, 2),
                    ) && m.1 == br
                    &&& us is None && br is None ==> m.0 == dollar_msrp(v, 0) && m.1 is None
                },
                None => us is None && br is Some && decimal::product(
                    br->0,
                    decimal::dec(19, 2),
                ) is None,
            }
        }),
{
}

/// The median is the middle one of an odd number of amounts in order, and half the sum of the
/// two in the middle of an even one.
pub proof fn medians_halve(v: Seq<Decimal>)
    requires
        v.len() > 0,
    ensures
        exists|s: Seq<Decimal>|
            #[trigger] s.to_multiset() == v.to_multiset() && s.len() == v.len() && (forall|
                a: int,
                b: int,
            |
                0 <= a <= b < s.len() ==> decimal::at_most(#[trigger] s[a], #[trigger] s[b])) && ({
                let n = s.len() as int;
                let half = decimal::quotients(
                    decimal::sum(s[n / 2 - 1], s[n / 2]),
                    Some(decimal::dec(2, 0)),
                );
                &&& n % 2 == 1 ==> median(v) == Some(Some(s[n / 2]))
                &&& n % 2 == 0 && half is Some ==> median(v) == Some(half)
                &&& n % 2 == 0 && half is None ==> median(v) is None
            }),
{
    let le = order::amount_order();
    let s = order::sorted(v, le);
    order::amount_order_is_total();
    order::sorting_orders(v, le);
    assert forall|a: int, b: int| 0 <= a <= b < s.len() implies decimal::at_most(
        #[trigger] s[a],
        #[trigger] s[b],
    ) by {
        assert(le(s[a], s[b]));
    }
    assert(s.to_multiset() == v.to_multiset());
}

/// The price of a product in reais is held against what the manufacturer asks, whatever the
/// difference, and what it costs in all against the median, from more than three per cent on;
/// a lower price is good and shown with its sign.
pub proof fn lower_prices_are_good(value: Decimal, base: Decimal, least: int, what: Seq<char>)
    requires
        base@.mantissa > 0,
        0 <= least <= 100,
    ensures
        match (held_against(value, Some(base), least, what), history::percent_over(value, base)) {
            (Some(note), Some(pct)) => {
                let one = decimal::pow10(pct@.scale);
                &&& pct@.mantissa < -(least * one) ==> note == Some(
                    NoteView { text: decimal::fixed_text(pct@, 0) + what, tone: Tone::Good },
                )
                &&& pct@.mantissa > least * one ==> note == Some(
                    NoteView { text: "+"@ + decimal::fixed_text(pct@, 0) + what, tone: Tone::Bad },
                )
                &&& -(least * one) <= pct@.mantissa <= least * one ==> note is None
            },
            (None, None) => true,
            _ => false,
        },
        held_against(value, None, least, what) == Some(None::<NoteView>),
{
    decimal::lemma_dec(least, 0);
    decimal::lemma_dec(-least, 0);
    assert(decimal::pow10(0) == 1);
    if history::percent_over(value, base) is Some {
        let pct = history::percent_over(value, base)->0;
        let one = decimal::pow10(pct@.scale) as int;
        let (low, high) = (decimal::dec(-least, 0), decimal::dec(least, 0));
        assert(decimal::at_most(low, pct) <==> (-least) * one <= pct@.mantissa * 1);
        assert(decimal::at_most(pct, high) <==> pct@.mantissa * 1 <= least * one);
        assert((-least) * one == -(least * one)) by (nonlinear_arith);
    }
}

/// The notes of a product name its store and where it comes from, then its stars where it has
/// any, how its price in reais compares with what the manufacturer asks, how it changed, and
/// how what it costs in all compares with the median.
pub proof fn notes_are_in_order(p: models::ProductView, r: Reference, c: Option<PriceChange>)
    ensures
        match notes_of(p, r, c) {
            Some(n) => {
                let msrp = if r.domestic {
                    Some(r.msrp_brl)
                } else if r.msrp_usd is Some {
                    match decimal::product(r.msrp_usd->0, r.rate) {
                        Some(brl) => Some(Some(brl)),
                        None => None,
                    }
                } else {
                    Some(None)
                };
                let savings = held_against(p.price.price_brl, msrp->0, 0, "% vs MSRP"@);
                let median = held_against(p.price.total_cost, r.median, 3, "% vs median"@);
                let second = if rating_text(p).len() > 0 {
                    3int
                } else {
                    2
                };
                let third = second + (if savings->0 is Some {
                    1int
                } else {
                    0
                });
                let fourth = third + (if change_note(c) is Some {
                    1int
                } else {
                    0
                });
                &&& n.len() >= 2
                &&& n[0].text == short_name(p.provider)
                &&& n[1].text == (if p.domestic {
                    "domestic"@
                } else {
                    "import"@
                })
                &&& rating_text(p).len() > 0 ==> n[2].text == rating_text(p) + "★"@
                &&& msrp is Some && savings is Some && median is Some
                &&& savings->0 is Some ==> n[second] == savings->0->0
                &&& change_note(c) is Some ==> n[third] == change_note(c)->0
                &&& median->0 is Some ==> n[fourth] == median->0->0
                &&& n.len() == fourth + (if median->0 is Some {
                    1int
                } else {
                    0
                })
            },
            None => true,
        },
{
}

/// A change is told of where it is of more than three per cent, with an arrow down for a fall
/// and up for a rise, and how many days ago the price was another.
pub proof fn changes_are_told_above_three_per_cent(c: PriceChange)
    ensures
        ({
            let one = decimal::pow10(c.pct_change@.scale);
            let size = decimal::DecimalView {
                mantissa: if c.pct_change@.mantissa < 0 {
                    -c.pct_change@.mantissa
                } else {
                    c.pct_change@.mantissa
                },
                scale: c.pct_change@.scale,
            };
            let tail = decimal::double_text(size, 0) + "% "@ + text::number_text(c.days_ago as nat)
                + "d ago"@;
            &&& c.pct_change@.mantissa < -(3 * one) ==> change_note(Some(c)) == Some(
                NoteView { text: "↓"@ + tail, tone: Tone::Good },
            )
            &&& c.pct_change@.mantissa > 3 * one ==> change_note(Some(c)) == Some(
                NoteView { text: "↑"@ + tail, tone: Tone::Bad },
            )
            &&& -(3 * one) <= c.pct_change@.mantissa <= 3 * one ==> change_note(Some(c)) is None
        }),
{
    let pct = c.pct_change;
    decimal::lemma_dec(3, 0);
    decimal::lemma_dec(-3, 0);
    assert(decimal::pow10(0) == 1);
    let one = decimal::pow10(pct@.scale) as int;
    let (low, high) = (decimal::dec(-3, 0), decimal::dec(3, 0));
    assert(decimal::at_most(low, pct) <==> (-3) * one <= pct@.mantissa * 1);
    assert(decimal::at_most(pct, high) <==> pct@.mantissa * 1 <= 3 * one);
}

/// What an import in dollars is made up of is its listed price, and what shipping and taxes
/// add in dollars where they add anything; of any other product nothing is shown.
pub proof fn imports_are_broken_down(p: models::ProductView, rate: Decimal)
    ensures
        p.domestic || p.price.currency != Currency::USD ==> breakdown_of(p, rate) == Some(
            Seq::<char>::empty(),
        ),
        !p.domestic && p.price.currency == Currency::USD ==> ({
            let shipping = if p.price.shipping_cost is Some {
                p.price.shipping_cost->0
            } else {
                decimal::dec(0, 0)
            };
            let extra = decimal::sum(shipping, p.price.tax.total_tax);
            let listed = "US$"@ + decimal::fixed_text(p.price.listed_price@, 0);
            match breakdown_of(p, rate) {
                Some(s) => extra is Some && (if extra->0@.mantissa > 0 {
                    decimal::quotient(extra->0, rate) is Some && s == listed + " + US$"@
                        + decimal::fixed_text(decimal::quotient(extra->0, rate)->0@, 0)
                        + " ship+tax"@
                } else {
                    s == listed
                }),
                None => extra is None || extra->0@.mantissa > 0 && decimal::quotient(
                    extra->0,
                    rate,
                ) is None,
            }
        }),
{
}

/// A row shows what a product costs in all, its title of at most 55 characters, and its own
/// notes, and marks the first one where no other costs less.
pub proof fn rows_show_what_products_cost(
    v: Seq<models::ProductView>,
    changes: Seq<Option<PriceChange>>,
    seconds: Seq<char>,
    i: int,
)
    requires
        report_of(v, changes, seconds) is Some,
        0 <= i < v.len(),
    ensures
        ({
            let row = report_of(v, changes, seconds)->0.rows[i];
            let r = reference_of(v)->0;
            let change = if i < changes.len() {
                changes[i]
            } else {
                None
            };
            &&& row.price == left_aligned(brl_text(v[i].price.total_cost@), 13)
            &&& row.title == shortened(v[i].title, 55)
            &&& notes_of(v[i], r, change) == Some(row.notes)
            &&& breakdown_of(v[i], r.rate) is Some
            &&& row.breakdown == left_aligned(breakdown_of(v[i], r.rate)->0, 13)
            &&& row.best <==> i == 0 && forall|j: int|
                0 <= j < v.len() ==> decimal::at_most(
                    v[0].price.total_cost,
                    (#[trigger] v[j]).price.total_cost,
                )
        }),
{
    let r = reference_of(v)->0;
    lemma_row_at(v, changes, r, v.len() as int, i);
}

proof fn lemma_row_at(
    v: Seq<models::ProductView>,
    changes: Seq<Option<PriceChange>>,
    r: Reference,
    k: int,
    i: int,
)
    requires
        0 <= i < k <= v.len(),
        rows_of(v, changes, r, k) is Some,
    ensures
        rows_of(v, changes, r, k)->0.len() == k,
        row_of(
            v[i],
            (i + 1) as nat,
            i == 0 && first_is_cheapest(v),
            r,
            change_at(changes, i),
        ) == Some(rows_of(v, changes, r, k)->0[i]),
    decreases k,
{
    if i < k - 1 {
        lemma_row_at(v, changes, r, k - 1, i);
    } else if k > 1 {
        lemma_row_at(v, changes, r, k - 1, 0);
    } else {
        assert(rows_of(v, changes, r, 0) == Some(Seq::<RowView>::empty()));
    }
}

/// Every product with an address is linked to under its rank.
pub proof fn products_are_linked_under_their_rank(v: Seq<models::ProductView>, k: int, i: int)
    requires
        0 <= i < k <= v.len(),
    ensures
        v[i].url.len() > 0 ==> links_of(v, k).contains((rank_text((i + 1) as nat), v[i].url)),
        forall|j: int|
            0 <= j < links_of(v, k).len() ==> (#[trigger] links_of(v, k)[j]).1.len() > 0,
        links_of(v, k).len() <= k,
    decreases k,
{
    let before = links_of(v, k - 1);
    let after = links_of(v, k);
    let link = (rank_text((i + 1) as nat), v[i].url);
    if k > 1 {
        products_are_linked_under_their_rank(
            v,
            k - 1,
            if i < k - 1 {
                i
            } else {
                0
            },
        );
    } else {
        assert(before =~= Seq::empty());
    }
    if i == k - 1 && v[i].url.len() > 0 {
        assert(after[before.len() as int] == link);
    } else if i < k - 1 && v[i].url.len() > 0 {
        let j = choose|j: int| 0 <= j < before.len() && before[j] == link;
        assert(after[j] == link);
    }
}

/// The price on a site is the first one for a new product there; the cheapest site of all in
/// dollars is marked, and it is the first.
pub proof fn sites_are_shown_from_the_cheapest(insights: Seq<keepa::KeepaView>, i: int)
    requires
        0 <= i < site_rows_of(insights).len(),
    ensures
        ({
            let s = order::sorted(with_price(insights, insights.len() as int), site_order());
            let k = s[i];
            let row = site_rows_of(insights)[i];
            let local = keepa::priced(keepa::best_new_cents(k), k.domain);
            let usd = keepa::in_dollars(local, k.domain);
            &&& row.cheapest <==> k.domain == s[0].domain
            &&& row.trend == k.trend
            &&& row.label == left_aligned("Amazon"@ + keepa::site_tld(k.domain), 20)
            &&& k.domain == 1 && local is Some ==> row.price == "US$"@ + decimal::fixed_text(
                local->0@,
                2,
            )
            &&& k.domain != 1 && local is Some && usd is Some ==> row.price == keepa::site_symbol(
                k.domain,
            ) + decimal::fixed_text(local->0@, 0) + " (~US$"@ + decimal::fixed_text(usd->0@, 0)
                + ")"@
        }),
{
}

/// Returned and refurbished goods are shown each at its own price in dollars.
pub proof fn extras_are_shown_at_their_own_price(k: keepa::KeepaView)
    ensures
        ({
            let w = keepa::in_dollars(keepa::priced(k.warehouse_price, k.domain), k.domain);
            let r = keepa::in_dollars(keepa::priced(k.refurbished_price, k.domain), k.domain);
            let a = "Warehouse US$"@ + decimal::fixed_text(w->0@, 0);
            let b = "Refurb US$"@ + decimal::fixed_text(r->0@, 0);
            &&& w is Some && r is Some ==> extras_text(k) == text::joined(seq![a, b], " · "@)
            &&& w is Some && r is None ==> extras_text(k) == text::joined(seq![a], " · "@)
            &&& w is None && r is Some ==> extras_text(k) == text::joined(seq![b], " · "@)
            &&& w is None && r is None ==> extras_text(k) == text::joined(
                Seq::<Seq<char>>::empty(),
                " · "@,
            )
        }),
{
    let w = keepa::in_dollars(keepa::priced(k.warehouse_price, k.domain), k.domain);
    let r = keepa::in_dollars(keepa::priced(k.refurbished_price, k.domain), k.domain);
    let a = "Warehouse US$"@ + decimal::fixed_text(w->0@, 0);
    let b = "Refurb US$"@ + decimal::fixed_text(r->0@, 0);
    assert(seq![a].push(b) =~= seq![a, b]);
    assert(Seq::<Seq<char>>::empty().push(b) =~= seq![b]);
}

/// What an import at the price that the manufacturer asks costs is that price in reais with
/// the taxes on an import outside the Remessa Conforme programme.
pub proof fn import_costs_hold_the_standard_taxes(msrp: Decimal, rate: Decimal)
    requires
        import_cost_of(msrp, rate) is Some,
    ensures
        ({
            let brl = decimal::product(msrp, rate)->0;
            let t = tax::assessed(Some(msrp), brl, false, false, false, rate);
            let c = import_cost_of(msrp, rate)->0;
            let shown = c.import_tax->0;
            &&& decimal::product(msrp, rate) is Some
            &&& t is Some
            &&& c.msrp == "US$"@ + decimal::fixed_text(msrp@, 2)
            &&& c.converted == brl_text(brl@) + " (USD/BRL "@ + decimal::fixed_text(rate@, 2)
                + ")"@
            &&& decimal::sum(brl, t->0.total_tax) is Some
            &&& c.total == brl_text(decimal::sum(brl, t->0.total_tax)->0@)
            &&& t->0.icms is Some ==> c.icms == Some(brl_text(t->0.icms->0@))
            &&& t->0.icms is None ==> c.icms is None
            &&& t->0.import_tax is Some ==> c.import_tax is Some && shown.0 == brl_text(
                t->0.import_tax->0@,
            )
            &&& t->0.import_tax is None ==> c.import_tax is None
            &&& t->0.import_tax is Some && brl@.mantissa > 0 ==> ({
                let hundred = decimal::product(t->0.import_tax->0, decimal::dec(100, 0));
                let pct = decimal::quotient(hundred->0, brl);
                hundred is Some && pct is Some && shown.1 == " ("@ + decimal::fixed_text(
                    pct->0@,
                    0,
                ) + "%)"@
            })
        }),
{
}

/// A line of comma-separated values tells of its product: the rank, the store, the title in
/// quotes, what it costs in reais, in shipping, in taxes and in all, its stars and reviews,
/// whether it is domestic, and its address.
pub proof fn csv_lines_tell_of_their_product(v: Seq<models::ProductView>, i: int)
    requires
        0 <= i < v.len(),
    ensures
        csv_of(v).len() == v.len() + 1,
        csv_of(v)[0] == text::joined(
            seq![
                "rank"@,
                "platform"@,
                "title"@,
                "price_brl"@,
                "shipping_brl"@,
                "tax_brl"@,
                "total_brl"@,
                "rating"@,
                "reviews"@,
                "domestic"@,
                "url"@,
            ],
            ","@,
        ),
        ({
            let p = v[i];
            let shipping = if p.price.shipping_cost is Some {
                p.price.shipping_cost->0
            } else {
                decimal::dec(0, 0)
            };
            csv_of(v)[i + 1] == text::joined(
                seq![
                    text::number_text((i + 1) as nat),
                    providers::provider_label(p.provider),
                    "\""@ + text::replaced(p.title, "\""@, "\"\""@) + "\""@,
                    decimal::fixed_text(p.price.price_brl@, 2),
                    decimal::fixed_text(shipping@, 2),
                    decimal::fixed_text(p.price.tax.total_tax@, 2),
                    decimal::fixed_text(p.price.total_cost@, 2),
                    if p.rating is Some {
                        decimal::binary_text(p.rating->0@, 1)
                    } else {
                        ""@
                    },
                    if p.review_count is Some {
                        text::number_text(p.review_count->0 as nat)
                    } else {
                        ""@
                    },
                    if p.domestic {
                        "true"@
                    } else {
                        "false"@
                    },
                    p.url,
                ],
                ","@,
            )
        }),
{
}

} // verus!
