//! What is known of a product's price on the Amazon sites.

use vstd::prelude::*;

use crate::codec;
use crate::decimal;
use crate::decimal::Decimal;
use crate::json;
use crate::json::Json;
use crate::providers;
use crate::text;

verus! {

/// Where a price is going.
#[derive(Clone, Copy, Debug, PartialEq, Eq, Structural)]
pub enum PriceTrend {
    Rising,
    Falling,
    Stable,
}

/// The sign of a trend.
pub open spec fn trend_arrow(t: PriceTrend) -> Seq<char> {
    match t {
        PriceTrend::Rising => "↑"@,
        PriceTrend::Falling => "↓"@,
        PriceTrend::Stable => "→"@,
    }
}

impl PriceTrend {
    /// The sign of a trend.
    pub fn arrow(&self) -> (r: &'static str)
        ensures
            r@ == trend_arrow(*self),
    {
        match self {
            PriceTrend::Rising => "↑",
            PriceTrend::Falling => "↓",
            PriceTrend::Stable => "→",
        }
    }
}

pub const DOMAIN_US: u8 = 1;

pub const DOMAIN_UK: u8 = 2;

pub const DOMAIN_DE: u8 = 3;

pub const DOMAIN_FR: u8 = 4;

pub const DOMAIN_JP: u8 = 5;

pub const DOMAIN_CA: u8 = 6;

pub const DOMAIN_CN: u8 = 7;

pub const DOMAIN_IT: u8 = 8;

pub const DOMAIN_ES: u8 = 9;

pub const DOMAIN_IN: u8 = 10;

pub const DOMAIN_MX: u8 = 11;

pub const DOMAIN_BR: u8 = 12;

/// What is known of a product's price on one Amazon site. Prices are in the
/// smallest unit of the site's currency.
pub struct KeepaInsight {
    pub asin: String,
    pub title: String,
    pub manufacturer: String,
    pub domain: u8,
    pub parent_asin: Option<String>,
    pub ean_list: Vec<String>,
    pub rating: Option<Decimal>,
    pub review_count: Option<u32>,
    pub list_price: Option<i64>,
    pub amazon_price: Option<i64>,
    pub buy_box_price: Option<i64>,
    pub buy_box_shipping: Option<i64>,
    pub new_3p_price: Option<i64>,
    pub fba_price: Option<i64>,
    pub fbm_price: Option<i64>,
    pub fbm_shipping: Option<i64>,
    pub used_price: Option<i64>,
    pub warehouse_price: Option<i64>,
    pub refurbished_price: Option<i64>,
    pub lightning_deal: Option<i64>,
    pub new_offer_count: Option<u32>,
    pub used_offer_count: Option<u32>,
    pub amazon_low: Option<i64>,
    pub new_low: Option<i64>,
    pub used_low: Option<i64>,
    pub warehouse_low: Option<i64>,
    pub sales_rank: Option<i64>,
    pub trend: Option<PriceTrend>,
}

/// What is known of a product's price on one Amazon site.
pub struct KeepaView {
    pub asin: Seq<char>,
    pub title: Seq<char>,
    pub manufacturer: Seq<char>,
    pub domain: u8,
    pub parent_asin: Option<Seq<char>>,
    pub ean_list: Seq<Seq<char>>,
    pub rating: Option<Decimal>,
    pub review_count: Option<u32>,
    pub list_price: Option<i64>,
    pub amazon_price: Option<i64>,
    pub buy_box_price: Option<i64>,
    pub buy_box_shipping: Option<i64>,
    pub new_3p_price: Option<i64>,
    pub fba_price: Option<i64>,
    pub fbm_price: Option<i64>,
    pub fbm_shipping: Option<i64>,
    pub used_price: Option<i64>,
    pub warehouse_price: Option<i64>,
    pub refurbished_price: Option<i64>,
    pub lightning_deal: Option<i64>,
    pub new_offer_count: Option<u32>,
    pub used_offer_count: Option<u32>,
    pub amazon_low: Option<i64>,
    pub new_low: Option<i64>,
    pub used_low: Option<i64>,
    pub warehouse_low: Option<i64>,
    pub sales_rank: Option<i64>,
    pub trend: Option<PriceTrend>,
}

impl View for KeepaInsight {
    type V = KeepaView;

    open spec fn view(&self) -> KeepaView {
        KeepaView {
            asin: self.asin@,
            title: self.title@,
            manufacturer: self.manufacturer@,
            domain: self.domain,
            parent_asin: text::text_view(self.parent_asin),
            ean_list: text::texts(self.ean_list@),
            rating: self.rating,
            review_count: self.review_count,
            list_price: self.list_price,
            amazon_price: self.amazon_price,
            buy_box_price: self.buy_box_price,
            buy_box_shipping: self.buy_box_shipping,
            new_3p_price: self.new_3p_price,
            fba_price: self.fba_price,
            fbm_price: self.fbm_price,
            fbm_shipping: self.fbm_shipping,
            used_price: self.used_price,
            warehouse_price: self.warehouse_price,
            refurbished_price: self.refurbished_price,
            lightning_deal: self.lightning_deal,
            new_offer_count: self.new_offer_count,
            used_offer_count: self.used_offer_count,
            amazon_low: self.amazon_low,
            new_low: self.new_low,
            used_low: self.used_low,
            warehouse_low: self.warehouse_low,
            sales_rank: self.sales_rank,
            trend: self.trend,
        }
    }
}

/// Some insights.
pub open spec fn insight_views(v: Seq<KeepaInsight>) -> Seq<KeepaView> {
    Seq::new(v.len(), |i: int| v[i]@)
}

/// A copy of some texts.
pub fn copy_texts(v: &Vec<String>) -> (r: Vec<String>)
    ensures
        text::texts(r@) == text::texts(v@),
{
    let mut out: Vec<String> = Vec::new();
    let mut i: usize = 0;
    while i < v.len()
        invariant
            i <= v@.len(),
            text::texts(out@) == text::texts(v@).take(i as int),
        decreases v@.len() - i,
    {
        let ghost so_far = out@;
        out.push(v[i].clone());
        assert(text::texts(out@) =~= text::texts(so_far).push(v@[i as int]@));
        assert(text::texts(v@).take(i + 1) =~= text::texts(v@).take(i as int).push(v@[i as int]@));
        i = i + 1;
    }
    assert(text::texts(v@).take(i as int) =~= text::texts(v@));
    out
}

impl Clone for KeepaInsight {
    fn clone(&self) -> (r: KeepaInsight)
        ensures
            r@ == self@,
    {
        KeepaInsight {
            asin: self.asin.clone(),
            title: self.title.clone(),
            manufacturer: self.manufacturer.clone(),
            domain: self.domain,
            parent_asin: match &self.parent_asin {
                Some(s) => Some(s.clone()),
                None => None,
            },
            ean_list: copy_texts(&self.ean_list),
            rating: self.rating,
            review_count: self.review_count,
            list_price: self.list_price,
            amazon_price: self.amazon_price,
            buy_box_price: self.buy_box_price,
            buy_box_shipping: self.buy_box_shipping,
            new_3p_price: self.new_3p_price,
            fba_price: self.fba_price,
            fbm_price: self.fbm_price,
            fbm_shipping: self.fbm_shipping,
            used_price: self.used_price,
            warehouse_price: self.warehouse_price,
            refurbished_price: self.refurbished_price,
            lightning_deal: self.lightning_deal,
            new_offer_count: self.new_offer_count,
            used_offer_count: self.used_offer_count,
            amazon_low: self.amazon_low,
            new_low: self.new_low,
            used_low: self.used_low,
            warehouse_low: self.warehouse_low,
            sales_rank: self.sales_rank,
            trend: self.trend,
        }
    }
}

/// A copy of some insights.
pub fn copy_insights(v: &Vec<KeepaInsight>) -> (r: Vec<KeepaInsight>)
    ensures
        insight_views(r@) == insight_views(v@),
{
    let mut out: Vec<KeepaInsight> = Vec::new();
    let mut i: usize = 0;
    while i < v.len()
        invariant
            i <= v@.len(),
            insight_views(out@) == insight_views(v@).take(i as int),
        decreases v@.len() - i,
    {
        let ghost so_far = out@;
        out.push(v[i].clone());
        assert(insight_views(out@) =~= insight_views(so_far).push(v@[i as int]@));
        assert(insight_views(v@).take(i + 1) =~= insight_views(v@).take(i as int).push(
            v@[i as int]@,
        ));
        i = i + 1;
    }
    assert(insight_views(v@).take(i as int) =~= insight_views(v@));
    out
}

// ---- Prices ----

/// An amount in the smallest unit of a site's currency, in the currency itself: a
/// hundredth of it, but for the yen.
pub open spec fn in_currency(cents: int, domain: u8) -> Decimal {
    if domain == DOMAIN_JP {
        decimal::dec(cents, 0)
    } else {
        providers::or_nothing(decimal::quotient(decimal::dec(cents, 0), decimal::dec(100, 0)))
    }
}

/// A price that may be missing, in a site's currency.
pub open spec fn priced(cents: Option<i64>, domain: u8) -> Option<Decimal> {
    match cents {
        Some(c) => Some(in_currency(c as int, domain)),
        None => None,
    }
}

/// The dollars that one unit of a site's currency is worth, roughly.
pub open spec fn dollar_rate(domain: u8) -> Decimal {
    if domain == DOMAIN_UK {
        decimal::dec(127, 2)
    } else if domain == DOMAIN_DE || domain == DOMAIN_FR || domain == DOMAIN_IT || domain
        == DOMAIN_ES {
        decimal::dec(108, 2)
    } else if domain == DOMAIN_JP {
        decimal::dec(67, 4)
    } else if domain == DOMAIN_CA {
        decimal::dec(72, 2)
    } else if domain == DOMAIN_IN {
        decimal::dec(12, 3)
    } else if domain == DOMAIN_MX {
        decimal::dec(49, 3)
    } else if domain == DOMAIN_BR {
        decimal::dec(19, 2)
    } else {
        decimal::dec(1, 0)
    }
}

/// A price that may be missing, in dollars.
pub open spec fn in_dollars(price: Option<Decimal>, domain: u8) -> Option<Decimal> {
    decimal::products(price, Some(dollar_rate(domain)))
}

/// The first price for a new product that there is: that of the buy box, of Amazon,
/// of a seller whom Amazon ships for, or of another seller.
pub open spec fn best_new_cents(k: KeepaView) -> Option<i64> {
    if k.buy_box_price is Some {
        k.buy_box_price
    } else if k.amazon_price is Some {
        k.amazon_price
    } else if k.fba_price is Some {
        k.fba_price
    } else {
        k.new_3p_price
    }
}

/// The ending of a site's address.
pub open spec fn site_tld(domain: u8) -> Seq<char> {
    if domain == DOMAIN_UK {
        ".co.uk"@
    } else if domain == DOMAIN_DE {
        ".de"@
    } else if domain == DOMAIN_FR {
        ".fr"@
    } else if domain == DOMAIN_JP {
        ".co.jp"@
    } else if domain == DOMAIN_CA {
        ".ca"@
    } else if domain == DOMAIN_CN {
        ".cn"@
    } else if domain == DOMAIN_IT {
        ".it"@
    } else if domain == DOMAIN_ES {
        ".es"@
    } else if domain == DOMAIN_IN {
        ".in"@
    } else if domain == DOMAIN_MX {
        ".com.mx"@
    } else if domain == DOMAIN_BR {
        ".com.br"@
    } else {
        ".com"@
    }
}

/// The sign of a site's currency.
pub open spec fn site_symbol(domain: u8) -> Seq<char> {
    if domain == DOMAIN_US {
        "US$"@
    } else if domain == DOMAIN_UK {
        "£"@
    } else if domain == DOMAIN_DE || domain == DOMAIN_FR || domain == DOMAIN_IT || domain
        == DOMAIN_ES {
        "€"@
    } else if domain == DOMAIN_JP {
        "¥"@
    } else if domain == DOMAIN_CA {
        "CA$"@
    } else if domain == DOMAIN_IN {
        "₹"@
    } else if domain == DOMAIN_MX {
        "MX$"@
    } else if domain == DOMAIN_BR {
        "R$"@
    } else {
        "$"@
    }
}

fn cents_to_decimal_for_domain(cents: i64, domain: u8) -> (r: Decimal)
    ensures
        r == in_currency(cents as int, domain),
{
    if domain == DOMAIN_JP {
        Decimal::new(cents, 0)
    } else {
        providers::else_nothing(Decimal::new(cents, 0).checked_div(&Decimal::new(100, 0)))
    }
}

fn price_of(cents: Option<i64>, domain: u8) -> (r: Option<Decimal>)
    ensures
        r == priced(cents, domain),
{
    match cents {
        Some(c) => Some(cents_to_decimal_for_domain(c, domain)),
        None => None,
    }
}

impl KeepaInsight {
    /// The price that the manufacturer asks.
    pub fn msrp(&self) -> (r: Option<Decimal>)
        ensures
            r == priced(self@.list_price, self@.domain),
    {
        price_of(self.list_price, self.domain)
    }

    /// The price that the manufacturer asks, in dollars.
    pub fn msrp_usd(&self) -> (r: Option<Decimal>)
        ensures
            r == in_dollars(priced(self@.list_price, self@.domain), self@.domain),
    {
        decimal::times(self.msrp(), Some(self.currency_to_usd()))
    }

    /// The price of Amazon itself.
    pub fn amazon(&self) -> (r: Option<Decimal>)
        ensures
            r == priced(self@.amazon_price, self@.domain),
    {
        price_of(self.amazon_price, self.domain)
    }

    /// The lowest price of Amazon itself so far.
    pub fn amazon_low_price(&self) -> (r: Option<Decimal>)
        ensures
            r == priced(self@.amazon_low, self@.domain),
    {
        price_of(self.amazon_low, self.domain)
    }

    /// The price of the buy box.
    pub fn buy_box(&self) -> (r: Option<Decimal>)
        ensures
            r == priced(self@.buy_box_price, self@.domain),
    {
        price_of(self.buy_box_price, self.domain)
    }

    /// The price of the buy box with its shipping, where it can be held.
    pub fn buy_box_total(&self) -> (r: Option<Decimal>)
        ensures
            r == buy_box_with_shipping(self@),
    {
        let price: i64 = match self.buy_box_price {
            Some(p) => p,
            None => {
                return None;
            },
        };
        let shipping: i64 = match self.buy_box_shipping {
            Some(s) => if s > 0 {
                s
            } else {
                0
            },
            None => 0,
        };
        if price > i64::MAX - shipping {
            return None;
        }
        Some(cents_to_decimal_for_domain(price + shipping, self.domain))
    }

    /// The price of a returned product.
    pub fn warehouse(&self) -> (r: Option<Decimal>)
        ensures
            r == priced(self@.warehouse_price, self@.domain),
    {
        price_of(self.warehouse_price, self.domain)
    }

    /// The price of a refurbished product.
    pub fn refurbished(&self) -> (r: Option<Decimal>)
        ensures
            r == priced(self@.refurbished_price, self@.domain),
    {
        price_of(self.refurbished_price, self.domain)
    }

    /// The lowest price of a seller whom Amazon ships for.
    pub fn fba(&self) -> (r: Option<Decimal>)
        ensures
            r == priced(self@.fba_price, self@.domain),
    {
        price_of(self.fba_price, self.domain)
    }

    /// The first price for a new product that there is.
    pub fn best_new_price(&self) -> (r: Option<Decimal>)
        ensures
            r == priced(best_new_cents(self@), self@.domain),
    {
        let cents = if self.buy_box_price.is_some() {
            self.buy_box_price
        } else if self.amazon_price.is_some() {
            self.amazon_price
        } else if self.fba_price.is_some() {
            self.fba_price
        } else {
            self.new_3p_price
        };
        price_of(cents, self.domain)
    }

    /// The first price for a new product that there is, in dollars.
    pub fn best_new_price_usd(&self) -> (r: Option<Decimal>)
        ensures
            r == in_dollars(priced(best_new_cents(self@), self@.domain), self@.domain),
    {
        decimal::times(self.best_new_price(), Some(self.currency_to_usd()))
    }

    /// The price of a returned product, in dollars.
    pub fn warehouse_usd(&self) -> (r: Option<Decimal>)
        ensures
            r == in_dollars(priced(self@.warehouse_price, self@.domain), self@.domain),
    {
        decimal::times(self.warehouse(), Some(self.currency_to_usd()))
    }

    /// The price of a refurbished product, in dollars.
    pub fn refurbished_usd(&self) -> (r: Option<Decimal>)
        ensures
            r == in_dollars(priced(self@.refurbished_price, self@.domain), self@.domain),
    {
        decimal::times(self.refurbished(), Some(self.currency_to_usd()))
    }

    fn currency_to_usd(&self) -> (r: Decimal)
        ensures
            r == dollar_rate(self@.domain),
    {
        let d: u8 = self.domain;
        if d == DOMAIN_UK {
            Decimal::new(127, 2)
        } else if d == DOMAIN_DE || d == DOMAIN_FR || d == DOMAIN_IT || d == DOMAIN_ES {
            Decimal::new(108, 2)
        } else if d == DOMAIN_JP {
            Decimal::new(67, 4)
        } else if d == DOMAIN_CA {
            Decimal::new(72, 2)
        } else if d == DOMAIN_IN {
            Decimal::new(12, 3)
        } else if d == DOMAIN_MX {
            Decimal::new(49, 3)
        } else if d == DOMAIN_BR {
            Decimal::new(19, 2)
        } else {
            Decimal::new(1, 0)
        }
    }

    /// The ending of the site's address.
    pub fn domain_tld(&self) -> (r: &'static str)
        ensures
            r@ == site_tld(self@.domain),
    {
        let d: u8 = self.domain;
        if d == DOMAIN_UK {
            ".co.uk"
        } else if d == DOMAIN_DE {
            ".de"
        } else if d == DOMAIN_FR {
            ".fr"
        } else if d == DOMAIN_JP {
            ".co.jp"
        } else if d == DOMAIN_CA {
            ".ca"
        } else if d == DOMAIN_CN {
            ".cn"
        } else if d == DOMAIN_IT {
            ".it"
        } else if d == DOMAIN_ES {
            ".es"
        } else if d == DOMAIN_IN {
            ".in"
        } else if d == DOMAIN_MX {
            ".com.mx"
        } else if d == DOMAIN_BR {
            ".com.br"
        } else {
            ".com"
        }
    }

    /// The sign of the site's currency.
    pub fn currency_symbol(&self) -> (r: &'static str)
        ensures
            r@ == site_symbol(self@.domain),
    {
        let d: u8 = self.domain;
        if d == DOMAIN_US {
            "US$"
        } else if d == DOMAIN_UK {
            "£"
        } else if d == DOMAIN_DE || d == DOMAIN_FR || d == DOMAIN_IT || d == DOMAIN_ES {
            "€"
        } else if d == DOMAIN_JP {
            "¥"
        } else if d == DOMAIN_CA {
            "CA$"
        } else if d == DOMAIN_IN {
            "₹"
        } else if d == DOMAIN_MX {
            "MX$"
        } else if d == DOMAIN_BR {
            "R$"
        } else {
            "$"
        }
    }
}

/// The price of the buy box with its shipping, where it can be held.
pub open spec fn buy_box_with_shipping(k: KeepaView) -> Option<Decimal> {
    match k.buy_box_price {
        Some(p) => {
            let shipping = match k.buy_box_shipping {
                Some(s) => if s > 0 {
                    s as int
                } else {
                    0
                },
                None => 0,
            };
            if p + shipping <= i64::MAX {
                Some(in_currency(p + shipping, k.domain))
            } else {
                None
            }
        },
        None => None,
    }
}

// ---- Series ----

const CSV_AMAZON: usize = 0;

const CSV_NEW: usize = 1;

const CSV_USED: usize = 2;

const CSV_SALES_RANK: usize = 3;

const CSV_LIST_PRICE: usize = 4;

const CSV_REFURBISHED: usize = 6;

const CSV_NEW_FBM_SHIPPING: usize = 7;

const CSV_LIGHTNING_DEAL: usize = 8;

const CSV_WAREHOUSE: usize = 9;

const CSV_NEW_FBA: usize = 10;

const CSV_COUNT_NEW: usize = 11;

const CSV_COUNT_USED: usize = 12;

const CSV_RATING: usize = 16;

const CSV_COUNT_REVIEWS: usize = 17;

const CSV_BUY_BOX_SHIPPING: usize = 18;

/// The minutes from the start of 1970 from which a series counts.
pub const KEEPA_EPOCH_MINUTES: i64 = 21_564_000;

/// The `index`-th of some series.
pub open spec fn series(csv: Option<Seq<json::JsonView>>, index: int) -> Option<
    Seq<json::JsonView>,
> {
    match csv {
        Some(v) => if 0 <= index < v.len() {
            json::list_of(v[index])
        } else {
            None
        },
        None => None,
    }
}

/// The last value of at least `min` among the second parts of the pairs that end at
/// or before index `i`, unless one behind it is no whole number.
pub open spec fn last_of_pairs(v: Seq<json::JsonView>, i: int, min: int) -> Option<i64>
    decreases i,
{
    if i < 2 || i > v.len() {
        None
    } else {
        match json::signed_of(v[i - 1]) {
            Some(n) => if n >= min {
                Some(n)
            } else {
                last_of_pairs(v, i - 2, min)
            },
            None => None,
        }
    }
}

/// The last value of at least `min` in a series of pairs.
pub open spec fn last_value(s: Option<Seq<json::JsonView>>, min: int) -> Option<i64> {
    match s {
        Some(v) => last_of_pairs(v, v.len() as int, min),
        None => None,
    }
}

/// The smaller of two prices where there are both, and the one there is otherwise.
pub open spec fn cheaper(a: Option<i64>, b: Option<i64>) -> Option<i64> {
    match (a, b) {
        (Some(x), Some(y)) => if y < x {
            b
        } else {
            a
        },
        (Some(_), None) => a,
        _ => b,
    }
}

/// The value at an index of a series of pairs where that is a price.
pub open spec fn pair_price(v: Seq<json::JsonView>, i: int) -> Option<i64> {
    match json::signed_of(v[i]) {
        Some(n) => if i % 2 == 1 && n > 0 {
            Some(n)
        } else {
            None
        },
        None => None,
    }
}

/// The lowest price among the first `k` values of a series of pairs.
pub open spec fn lowest_price(v: Seq<json::JsonView>, k: int) -> Option<i64>
    decreases k,
{
    if k <= 0 {
        None
    } else {
        cheaper(lowest_price(v, k - 1), pair_price(v, k - 1))
    }
}

/// The lowest price in a series of pairs.
pub open spec fn min_price(s: Option<Seq<json::JsonView>>) -> Option<i64> {
    match s {
        Some(v) => lowest_price(v, v.len() as int),
        None => None,
    }
}

/// A price and its shipping: nothing where it is free, and less than nothing where it is
/// not known.
pub struct PriceShipping {
    pub price: Option<i64>,
    pub shipping: Option<i64>,
}

/// A whole number, or another where there is none.
pub open spec fn signed_or(j: json::JsonView, other: int) -> int {
    match json::signed_of(j) {
        Some(n) => n as int,
        None => other,
    }
}

/// The last price of more than nothing among the triplets that end at or before index
/// `i`, with its shipping, which is less than nothing where it is not known.
pub open spec fn last_of_triplets(v: Seq<json::JsonView>, i: int) -> PriceShipping
    decreases i,
{
    if i < 3 || i > v.len() {
        PriceShipping { price: None, shipping: None }
    } else {
        let price = signed_or(v[i - 2], -1);
        let shipping = signed_or(v[i - 1], -1);
        if price > 0 {
            PriceShipping {
                price: Some(price as i64),
                shipping: Some(shipping as i64),
            }
        } else {
            last_of_triplets(v, i - 3)
        }
    }
}

/// The last price in a series of triplets, where it is one.
pub open spec fn last_price_shipping(s: Option<Seq<json::JsonView>>) -> PriceShipping {
    match s {
        Some(v) => if v.len() < 3 || v.len() % 3 != 0 {
            PriceShipping { price: None, shipping: None }
        } else {
            last_of_triplets(v, v.len() as int)
        },
        None => PriceShipping { price: None, shipping: None },
    }
}

/// The values of a series that may be missing.
pub open spec fn list_view(v: Option<&Vec<Json>>) -> Option<Seq<json::JsonView>> {
    match v {
        Some(v) => Some(json::json_views(v@)),
        None => None,
    }
}

fn get_series<'a>(csv: Option<&'a Vec<Json>>, index: usize) -> (r: Option<&'a Vec<Json>>)
    ensures
        list_view(r) == series(list_view(csv), index as int),
{
    match csv {
        Some(v) => {
            assert(json::json_views(v@).len() == v@.len());
            if index < v.len() {
                assert(json::json_views(v@)[index as int] == v@[index as int]@);
                json::as_list(Some(&v[index]))
            } else {
                None
            }
        },
        None => None,
    }
}

/// The last value of at least `min` in a series of pairs.
pub fn csv_last(s: Option<&Vec<Json>>, min: i64) -> (r: Option<i64>)
    ensures
        r == last_value(list_view(s), min as int),
{
    let v = match s {
        Some(v) => v,
        None => {
            return None;
        },
    };
    let ghost all = json::json_views(v@);
    let mut i: usize = v.len();
    while i >= 2
        invariant
            i <= v@.len(),
            all == json::json_views(v@),
            last_of_pairs(all, all.len() as int, min as int) == last_of_pairs(
                all,
                i as int,
                min as int,
            ),
            list_view(s) == Some(all),
        decreases i,
    {
        assert(all[i - 1] == v@[i - 1]@);
        match json::as_signed(Some(&v[i - 1])) {
            Some(n) => {
                if n >= min {
                    return Some(n);
                }
            },
            None => {
                return None;
            },
        }
        i = i - 2;
    }
    None
}

fn last_in(csv: Option<&Vec<Json>>, index: usize, min: i64) -> (r: Option<i64>)
    ensures
        r == last_value(series(list_view(csv), index as int), min as int),
{
    csv_last(get_series(csv, index), min)
}

fn lowest_in(csv: Option<&Vec<Json>>, index: usize) -> (r: Option<i64>)
    ensures
        r == min_price(series(list_view(csv), index as int)),
{
    csv_min_price(get_series(csv, index))
}

/// The lowest price in a series of pairs.
pub fn csv_min_price(s: Option<&Vec<Json>>) -> (r: Option<i64>)
    ensures
        r == min_price(list_view(s)),
{
    let v = match s {
        Some(v) => v,
        None => {
            return None;
        },
    };
    let ghost all = json::json_views(v@);
    let mut best: Option<i64> = None;
    let mut i: usize = 0;
    while i < v.len()
        invariant
            i <= v@.len(),
            all == json::json_views(v@),
            best == lowest_price(all, i as int),
            list_view(s) == Some(all),
        decreases v@.len() - i,
    {
        assert(all[i as int] == v@[i as int]@);
        match json::as_signed(Some(&v[i])) {
            Some(n) => {
                if i % 2 == 1 && n > 0 {
                    best = match best {
                        Some(b) => if n < b {
                            Some(n)
                        } else {
                            Some(b)
                        },
                        None => Some(n),
                    };
                }
            },
            None => {},
        }
        i = i + 1;
    }
    best
}

fn number_or(j: &Json, other: i64) -> (r: i64)
    ensures
        r == signed_or(j@, other as int),
{
    match json::as_signed(Some(j)) {
        Some(n) => n,
        None => other,
    }
}

/// The last price in a series of triplets, with its shipping.
pub fn csv_last_price_shipping(s: Option<&Vec<Json>>) -> (r: PriceShipping)
    ensures
        r == last_price_shipping(list_view(s)),
{
    let v = match s {
        Some(v) => v,
        None => {
            return PriceShipping { price: None, shipping: None };
        },
    };
    let ghost all = json::json_views(v@);
    assert(all.len() == v@.len());
    if v.len() < 3 || v.len() % 3 != 0 {
        return PriceShipping { price: None, shipping: None };
    }
    let mut i: usize = v.len();
    while i >= 3
        invariant
            i <= v@.len(),
            all == json::json_views(v@),
            last_price_shipping(list_view(s)) == last_of_triplets(all, i as int),
        decreases i,
    {
        assert(all[i - 2] == v@[i - 2]@);
        assert(all[i - 1] == v@[i - 1]@);
        let price: i64 = number_or(&v[i - 2], -1);
        let shipping: i64 = number_or(&v[i - 1], -1);
        if price > 0 {
            return PriceShipping { price: Some(price), shipping: Some(shipping) };
        }
        i = i - 3;
    }
    PriceShipping { price: None, shipping: None }
}

// ---- Trends ----

/// The prices of the last week and those of the thirty days before it: their sums and
/// how many they are.
pub struct Samples {
    pub recent_sum: int,
    pub recent_count: int,
    pub history_sum: int,
    pub history_count: int,
}

/// The samples among the first `k` entries of a series with entries of `step` values,
/// at a time in minutes.
pub open spec fn samples(v: Seq<json::JsonView>, k: int, step: int, now: int) -> Samples
    decreases k,
{
    if k <= 0 {
        Samples { recent_sum: 0, recent_count: 0, history_sum: 0, history_count: 0 }
    } else {
        let before = samples(v, k - 1, step, now);
        let at = signed_or(v[(k - 1) * step], 0);
        let price = signed_or(v[(k - 1) * step + 1], -1);
        let age = now - at;
        if price <= 0 || age < 0 {
            before
        } else if age <= 7 * 24 * 60 {
            Samples {
                recent_sum: before.recent_sum + price,
                recent_count: before.recent_count + 1,
                ..before
            }
        } else if age <= 37 * 24 * 60 {
            Samples {
                history_sum: before.history_sum + price,
                history_count: before.history_count + 1,
                ..before
            }
        } else {
            before
        }
    }
}

/// Whether sums and counts are of a size that can be compared.
pub open spec fn samples_held(s: Samples) -> bool {
    s.recent_sum <= i64::MAX && s.history_sum <= i64::MAX && s.recent_count <= u32::MAX
        && s.history_count <= u32::MAX
}

/// Where a price is going: by more than five per cent below or above its average
/// before.
pub open spec fn trend_of(s: Samples) -> Option<PriceTrend> {
    let recent = s.recent_sum * s.history_count * 100;
    let history = s.history_sum * s.recent_count;
    if s.recent_count == 0 || s.history_count == 0 || !samples_held(s) {
        None
    } else if recent < history * 95 {
        Some(PriceTrend::Falling)
    } else if recent > history * 105 {
        Some(PriceTrend::Rising)
    } else {
        Some(PriceTrend::Stable)
    }
}

/// Where a price is going by a series with entries of `step` values, of which it takes
/// four, at a time in seconds since the start of 1970.
pub open spec fn series_trend(s: Option<Seq<json::JsonView>>, step: int, now: int) -> Option<
    PriceTrend,
> {
    match s {
        Some(v) => if v.len() < 4 * step {
            None
        } else {
            trend_of(
                samples(v, v.len() as int / step, step, keepa_minutes(now)),
            )
        },
        None => None,
    }
}

/// A time in seconds as the minutes that a series counts, rounded towards the start of
/// 1970.
pub open spec fn keepa_minutes(now: int) -> int {
    (if now >= 0 {
        now / 60
    } else {
        -((-now) / 60)
    }) - KEEPA_EPOCH_MINUTES
}

proof fn lemma_samples_grow(v: Seq<json::JsonView>, i: int, k: int, step: int, now: int)
    requires
        0 <= i <= k,
    ensures
        samples(v, i, step, now).recent_sum <= samples(v, k, step, now).recent_sum,
        samples(v, i, step, now).history_sum <= samples(v, k, step, now).history_sum,
        samples(v, i, step, now).recent_count <= samples(v, k, step, now).recent_count,
        samples(v, i, step, now).history_count <= samples(v, k, step, now).history_count,
    decreases k - i,
{
    if i < k {
        lemma_samples_grow(v, i, k - 1, step, now);
    }
}

/// Where a price is going by a series, `is_triplet` telling pairs and triplets apart,
/// at a time in seconds since the start of 1970.
pub fn csv_trend(s: Option<&Vec<Json>>, is_triplet: bool, now: i64) -> (r: Option<PriceTrend>)
    ensures
        r == series_trend(
            list_view(s),
            if is_triplet {
                3
            } else {
                2
            },
            now as int,
        ),
{
    let v = match s {
        Some(v) => v,
        None => {
            return None;
        },
    };
    let step: usize = if is_triplet {
        3
    } else {
        2
    };
    let ghost all = json::json_views(v@);
    assert(all.len() == v@.len());
    if v.len() < 4 * step {
        return None;
    }
    let minutes: i128 = if now >= 0 {
        now as i128 / 60
    } else {
        -((-(now as i128)) / 60)
    };
    let now_keepa: i128 = minutes - KEEPA_EPOCH_MINUTES as i128;
    assert(now_keepa == keepa_minutes(now as int));
    let size: usize = v.len();
    let count: usize = size / step;
    let mut recent_sum: i64 = 0;
    let mut recent_count: u32 = 0;
    let mut history_sum: i64 = 0;
    let mut history_count: u32 = 0;
    let mut k: usize = 0;
    while k < count
        invariant
            k <= count,
            2 <= step <= 3,
            size == v@.len(),
            count * step <= size,
            count == all.len() as int / step as int,
            all == json::json_views(v@),
            all.len() == v@.len(),
            -0x1_0000_0000_0000_0000 < now_keepa < 0x1_0000_0000_0000_0000,
            list_view(s) == Some(all),
            series_trend(list_view(s), step as int, now as int) == trend_of(
                samples(all, count as int, step as int, now_keepa as int),
            ),
            step == (if is_triplet {
                3int
            } else {
                2int
            }),
            0 <= recent_sum,
            0 <= history_sum,
            samples(all, k as int, step as int, now_keepa as int) == (Samples {
                recent_sum: recent_sum as int,
                recent_count: recent_count as int,
                history_sum: history_sum as int,
                history_count: history_count as int,
            }),
        decreases count - k,
    {
        assert(k * step + step <= count * step) by (nonlinear_arith)
            requires
                k < count,
        ;
        let i: usize = k * step;
        assert(all[i as int] == v@[i as int]@);
        assert(all[i + 1] == v@[i + 1]@);
        let at: i64 = number_or(&v[i], 0);
        let price: i64 = number_or(&v[i + 1], -1);
        let age: i128 = now_keepa - at as i128;
        let ghost next = samples(all, k + 1, step as int, now_keepa as int);
        if price > 0 && age >= 0 {
            if age <= 7 * 24 * 60 {
                if recent_sum > i64::MAX - price || recent_count == u32::MAX {
                    proof {
                        assert(!samples_held(next));
                        lemma_samples_grow(
                            all,
                            k + 1,
                            count as int,
                            step as int,
                            now_keepa as int,
                        );
                    }
                    return None;
                }
                recent_sum = recent_sum + price;
                recent_count = recent_count + 1;
            } else if age <= 37 * 24 * 60 {
                if history_sum > i64::MAX - price || history_count == u32::MAX {
                    proof {
                        assert(!samples_held(next));
                        lemma_samples_grow(
                            all,
                            k + 1,
                            count as int,
                            step as int,
                            now_keepa as int,
                        );
                    }
                    return None;
                }
                history_sum = history_sum + price;
                history_count = history_count + 1;
            }
        }
        k = k + 1;
    }
    if recent_count == 0 || history_count == 0 {
        return None;
    }
    proof {
        let (a, b, c, d) = (
            recent_sum as int,
            history_count as int,
            history_sum as int,
            recent_count as int,
        );
        assert(0 <= a * b <= 0x7fff_ffff_ffff_ffff * 0xffff_ffff) by (nonlinear_arith)
            requires
                0 <= a <= 0x7fff_ffff_ffff_ffff,
                0 <= b <= 0xffff_ffff,
        ;
        assert(0 <= c * d <= 0x7fff_ffff_ffff_ffff * 0xffff_ffff) by (nonlinear_arith)
            requires
                0 <= c <= 0x7fff_ffff_ffff_ffff,
                0 <= d <= 0xffff_ffff,
        ;
    }
    let recent: i128 = recent_sum as i128 * history_count as i128 * 100;
    let history: i128 = history_sum as i128 * recent_count as i128;
    if recent < history * 95 {
        Some(PriceTrend::Falling)
    } else if recent > history * 105 {
        Some(PriceTrend::Rising)
    } else {
        Some(PriceTrend::Stable)
    }
}

// ---- Products ----

/// A number of at most 32 bits.
pub open spec fn short_number(n: Option<i64>) -> Option<u32> {
    match n {
        Some(n) => if 0 <= n <= u32::MAX {
            Some(n as u32)
        } else {
            None
        },
        None => None,
    }
}

/// A rating, which is given in tenths: nothing above 16 bits, and none above 32.
pub open spec fn tenths(n: Option<i64>) -> Option<Decimal> {
    match n {
        Some(n) => if n > i32::MAX || n < i32::MIN {
            None
        } else if n > i16::MAX || n < i16::MIN {
            Some(decimal::dec(0, 1))
        } else {
            Some(decimal::dec(n as int, 1))
        },
        None => None,
    }
}

/// The texts among some values.
pub open spec fn texts_among(v: Seq<json::JsonView>) -> Seq<Seq<char>>
    decreases v.len(),
{
    if v.len() == 0 {
        Seq::empty()
    } else {
        match json::text_of(v.last()) {
            Some(s) => texts_among(v.drop_last()).push(s),
            None => texts_among(v.drop_last()),
        }
    }
}

/// The site of a product, the American one where it is not told.
pub open spec fn site_of(p: json::JsonView) -> u8 {
    match json::unsigned_of(json::member(p, "domainId"@)) {
        Some(n) => if n <= 255 {
            n as u8
        } else {
            1
        },
        None => 1,
    }
}

/// The trend of a product: by its buy box, by Amazon's own price or by that of new
/// ones, whichever first has one.
pub open spec fn product_trend(csv: Option<Seq<json::JsonView>>, now: int) -> Option<PriceTrend> {
    let buy_box = series_trend(series(csv, 18), 3, now);
    let own = series_trend(series(csv, 0), 2, now);
    if buy_box is Some {
        buy_box
    } else if own is Some {
        own
    } else {
        series_trend(series(csv, 1), 2, now)
    }
}

/// What a product's entry says, at a time in seconds since the start of 1970.
pub open spec fn product_insight(p: json::JsonView, now: int) -> KeepaView {
    let csv = json::list_of(json::member(p, "csv"@));
    KeepaView {
        asin: text::or_empty(json::text_of(json::member(p, "asin"@))),
        title: text::or_empty(json::text_of(json::member(p, "title"@))),
        manufacturer: text::or_empty(json::text_of(json::member(p, "manufacturer"@))),
        domain: site_of(p),
        parent_asin: json::text_of(json::member(p, "parentAsin"@)),
        ean_list: match json::list_of(json::member(p, "eanList"@)) {
            Some(v) => texts_among(v),
            None => Seq::empty(),
        },
        rating: tenths(last_value(series(csv, 16), 0)),
        review_count: short_number(last_value(series(csv, 17), 0)),
        list_price: last_value(series(csv, 4), 1),
        amazon_price: last_value(series(csv, 0), 1),
        buy_box_price: last_price_shipping(series(csv, 18)).price,
        buy_box_shipping: last_price_shipping(series(csv, 18)).shipping,
        new_3p_price: last_value(series(csv, 1), 1),
        fba_price: last_value(series(csv, 10), 1),
        fbm_price: last_price_shipping(series(csv, 7)).price,
        fbm_shipping: last_price_shipping(series(csv, 7)).shipping,
        used_price: last_value(series(csv, 2), 1),
        warehouse_price: last_value(series(csv, 9), 1),
        refurbished_price: last_value(series(csv, 6), 1),
        lightning_deal: last_value(series(csv, 8), 1),
        new_offer_count: short_number(last_value(series(csv, 11), 0)),
        used_offer_count: short_number(last_value(series(csv, 12), 0)),
        amazon_low: min_price(series(csv, 0)),
        new_low: min_price(series(csv, 1)),
        used_low: min_price(series(csv, 2)),
        warehouse_low: min_price(series(csv, 9)),
        sales_rank: last_value(series(csv, 3), 0),
        trend: product_trend(csv, now),
    }
}

fn to_short(n: Option<i64>) -> (r: Option<u32>)
    ensures
        r == short_number(n),
{
    match n {
        Some(n) => if 0 <= n && n <= u32::MAX as i64 {
            Some(n as u32)
        } else {
            None
        },
        None => None,
    }
}

fn to_tenths(n: Option<i64>) -> (r: Option<Decimal>)
    ensures
        r == tenths(n),
{
    match n {
        Some(n) => if n > i32::MAX as i64 || n < i32::MIN as i64 {
            None
        } else if n > i16::MAX as i64 || n < i16::MIN as i64 {
            Some(Decimal::new(0, 1))
        } else {
            Some(Decimal::new(n, 1))
        },
        None => None,
    }
}

fn collect_texts(v: &Vec<Json>) -> (r: Vec<String>)
    ensures
        text::texts(r@) == texts_among(json::json_views(v@)),
{
    let ghost all = json::json_views(v@);
    let mut out: Vec<String> = Vec::new();
    let mut i: usize = 0;
    assert(text::texts(out@) =~= Seq::empty());
    while i < v.len()
        invariant
            i <= v@.len(),
            all == json::json_views(v@),
            text::texts(out@) == texts_among(all.take(i as int)),
        decreases v@.len() - i,
    {
        assert(all.take(i + 1).drop_last() =~= all.take(i as int));
        assert(all[i as int] == v@[i as int]@);
        let ghost so_far = out@;
        match json::as_text(Some(&v[i])) {
            Some(s) => {
                out.push(s);
                assert(text::texts(out@) =~= text::texts(so_far).push(s@));
            },
            None => {},
        }
        i = i + 1;
    }
    assert(all.take(i as int) =~= all);
    out
}

fn find_trend(csv: Option<&Vec<Json>>, now: i64) -> (r: Option<PriceTrend>)
    ensures
        r == product_trend(list_view(csv), now as int),
{
    let by_buy_box = csv_trend(get_series(csv, CSV_BUY_BOX_SHIPPING), true, now);
    let by_amazon = csv_trend(get_series(csv, CSV_AMAZON), false, now);
    if by_buy_box.is_some() {
        by_buy_box
    } else if by_amazon.is_some() {
        by_amazon
    } else {
        csv_trend(get_series(csv, CSV_NEW), false, now)
    }
}

/// What a product's entry says, at a time in seconds since the start of 1970.
pub fn parse_keepa_product(p: &Json, now: i64) -> (r: KeepaInsight)
    ensures
        r@ == product_insight(p@, now as int),
{
    let j = Some(p);
    let csv = json::as_list(json::get(j, "csv"));
    let buy_box = csv_last_price_shipping(get_series(csv, CSV_BUY_BOX_SHIPPING));
    let fbm = csv_last_price_shipping(get_series(csv, CSV_NEW_FBM_SHIPPING));
    let domain: u8 = match json::as_unsigned(json::get(j, "domainId")) {
        Some(n) => if n <= 255 {
            n as u8
        } else {
            1
        },
        None => 1,
    };
    let ean_list = match json::as_list(json::get(j, "eanList")) {
        Some(v) => collect_texts(v),
        None => Vec::new(),
    };
    proof {
        if json::list_of(json::member(p@, "eanList"@)) is None {
            assert(text::texts(ean_list@) =~= Seq::empty());
        }
    }
    let trend = find_trend(csv, now);
    KeepaInsight {
        asin: text::else_empty(json::as_text(json::get(j, "asin"))),
        title: text::else_empty(json::as_text(json::get(j, "title"))),
        manufacturer: text::else_empty(json::as_text(json::get(j, "manufacturer"))),
        domain,
        parent_asin: json::as_text(json::get(j, "parentAsin")),
        ean_list,
        rating: to_tenths(last_in(csv, CSV_RATING, 0)),
        review_count: to_short(last_in(csv, CSV_COUNT_REVIEWS, 0)),
        list_price: last_in(csv, CSV_LIST_PRICE, 1),
        amazon_price: last_in(csv, CSV_AMAZON, 1),
        buy_box_price: buy_box.price,
        buy_box_shipping: buy_box.shipping,
        new_3p_price: last_in(csv, CSV_NEW, 1),
        fba_price: last_in(csv, CSV_NEW_FBA, 1),
        fbm_price: fbm.price,
        fbm_shipping: fbm.shipping,
        used_price: last_in(csv, CSV_USED, 1),
        warehouse_price: last_in(csv, CSV_WAREHOUSE, 1),
        refurbished_price: last_in(csv, CSV_REFURBISHED, 1),
        lightning_deal: last_in(csv, CSV_LIGHTNING_DEAL, 1),
        new_offer_count: to_short(last_in(csv, CSV_COUNT_NEW, 0)),
        used_offer_count: to_short(last_in(csv, CSV_COUNT_USED, 0)),
        amazon_low: lowest_in(csv, CSV_AMAZON),
        new_low: lowest_in(csv, CSV_NEW),
        used_low: lowest_in(csv, CSV_USED),
        warehouse_low: lowest_in(csv, CSV_WAREHOUSE),
        sales_rank: last_in(csv, CSV_SALES_RANK, 0),
        trend,
    }
}

// ---- Messages ----

/// Whether some bytes begin as a frame of compressed bytes does.
pub open spec fn packed(b: Seq<u8>) -> bool {
    b.len() >= 4 && b[0] == 0x28 && b[1] == 0xb5
}

/// Whether some bytes begin as a frame of compressed bytes does.
pub fn is_packed(b: &[u8]) -> (r: bool)
    ensures
        r == packed(b@),
{
    b.len() >= 4 && b[0] == 0x28 && b[1] == 0xb5
}

/// The value in a payload: compressed JSON in base 64, of 1000 bytes or more.
pub open spec fn payload_value(s: Seq<char>) -> Option<json::JsonView> {
    if text::byte_len(s) < 1000 {
        None
    } else {
        match codec::base64_bytes(s) {
            Some(b) => if packed(b) {
                match codec::unpacked_bytes(b) {
                    Some(raw) => match json::json_from_bytes(raw) {
                        Ok(j) => Some(j),
                        Err(_) => None,
                    },
                    None => None,
                }
            } else {
                None
            },
            None => None,
        }
    }
}

/// The value in a payload.
pub fn decode_keepa_payload(s: &str) -> (r: Option<Json>)
    ensures
        match r {
            Some(j) => payload_value(s@) == Some(j@),
            None => payload_value(s@) is None,
        },
{
    if text::text_bytes(s) < 1000 {
        return None;
    }
    match codec::base64_decode(s) {
        Some(b) => {
            if !is_packed(b.as_slice()) {
                return None;
            }
            match codec::unpack(b.as_slice()) {
                Some(raw) => match json::parse_bytes(raw.as_slice()) {
                    Ok(j) => Some(j),
                    Err(_) => None,
                },
                None => None,
            }
        },
        None => None,
    }
}

/// The value that a message of the browser carries: that of the payload of a frame
/// received over a socket.
pub open spec fn message_value(s: Seq<char>) -> Option<json::JsonView> {
    match json::json_from_text(s) {
        Ok(m) => if json::text_of(json::member(m, "method"@)) == Some(
            "Network.webSocketFrameReceived"@,
        ) {
            let response = providers::member2(m, "params"@, "response"@);
            payload_value(text::or_empty(json::text_of(json::member(response, "payloadData"@))))
        } else {
            None
        },
        Err(_) => None,
    }
}

/// The value that a message of the browser carries.
pub fn read_message(s: &str) -> (r: Option<Json>)
    ensures
        match r {
            Some(j) => message_value(s@) == Some(j@),
            None => message_value(s@) is None,
        },
{
    match json::parse_text(s) {
        Ok(m) => {
            let kind = match json::as_text(json::get(Some(&m), "method")) {
                Some(k) => k,
                None => {
                    return None;
                },
            };
            if !text::same_text(kind.as_str(), "Network.webSocketFrameReceived") {
                return None;
            }
            let response = providers::get2(Some(&m), "params", "response");
            let payload = text::else_empty(json::as_text(json::get(response, "payloadData")));
            decode_keepa_payload(payload.as_str())
        },
        Err(_) => None,
    }
}

// ---- Collecting ----

/// What is to be done next while insights are collected.
#[derive(Clone, Copy, Debug, PartialEq, Eq, Structural)]
pub enum Step {
    Listen,
    Compare,
    Stop,
}

/// Insights into a product as they come in, one for each site; whether the first has
/// come, and whether those of other sites are wanted.
pub struct Collector {
    pub compare: bool,
    pub started: bool,
    pub results: Vec<KeepaInsight>,
}

/// Insights into a product as they come in.
pub struct CollectorView {
    pub compare: bool,
    pub started: bool,
    pub results: Seq<KeepaView>,
}

impl View for Collector {
    type V = CollectorView;

    open spec fn view(&self) -> CollectorView {
        CollectorView {
            compare: self.compare,
            started: self.started,
            results: insight_views(self.results@),
        }
    }
}

/// Whether one of some insights is into a site.
pub open spec fn into_site(v: Seq<KeepaView>, domain: u8) -> bool {
    exists|i: int| 0 <= i < v.len() && (#[trigger] v[i]).domain == domain
}

/// Some insights with those that the first `k` of some entries give into further
/// sites.
pub open spec fn with_entries(
    v: Seq<KeepaView>,
    entries: Seq<json::JsonView>,
    k: int,
    now: int,
) -> Seq<KeepaView>
    decreases k,
{
    if k <= 0 {
        v
    } else {
        let before = with_entries(v, entries, k - 1, now);
        let next = product_insight(entries[k - 1], now);
        if into_site(before, next.domain) {
            before
        } else {
            before.push(next)
        }
    }
}

/// The insights after a value has come in.
pub open spec fn received_results(c: CollectorView, value: json::JsonView, now: int) -> Seq<
    KeepaView,
> {
    match json::list_of(json::member(value, "basicProducts"@)) {
        Some(entries) => with_entries(c.results, entries, entries.len() as int, now),
        None => c.results,
    }
}

/// Whether a value that has come in holds the first insight.
pub open spec fn starts(c: CollectorView, value: json::JsonView, now: int) -> bool {
    json::list_of(json::member(value, "basicProducts"@)) is Some && !c.started && received_results(
        c,
        value,
        now,
    ).len() > 0
}

/// What has been collected after a value has come in.
pub open spec fn received(c: CollectorView, value: json::JsonView, now: int) -> CollectorView {
    CollectorView {
        compare: c.compare,
        started: c.started || starts(c, value, now),
        results: received_results(c, value, now),
    }
}

/// What is to be done after a value has come in: with the first insight the other
/// sites are asked for where they are wanted, and nothing more is awaited otherwise.
pub open spec fn step_after(c: CollectorView, value: json::JsonView, now: int) -> Step {
    if !starts(c, value, now) {
        Step::Listen
    } else if c.compare {
        Step::Compare
    } else {
        Step::Stop
    }
}

/// Whether one of some insights is into a site.
pub fn knows_site(v: &Vec<KeepaInsight>, domain: u8) -> (r: bool)
    ensures
        r == into_site(insight_views(v@), domain),
{
    let ghost all = insight_views(v@);
    let mut i: usize = 0;
    while i < v.len()
        invariant
            i <= v@.len(),
            all == insight_views(v@),
            forall|k: int| 0 <= k < i ==> (#[trigger] all[k]).domain != domain,
        decreases v@.len() - i,
    {
        assert(all[i as int] == v@[i as int]@);
        if v[i].domain == domain {
            return true;
        }
        i = i + 1;
    }
    false
}

fn add_entries(results: &mut Vec<KeepaInsight>, entries: &Vec<Json>, now: i64)
    ensures
        insight_views(final(results)@) == with_entries(
            insight_views(old(results)@),
            json::json_views(entries@),
            entries@.len() as int,
            now as int,
        ),
{
    let ghost start = insight_views(results@);
    let ghost all = json::json_views(entries@);
    let mut i: usize = 0;
    while i < entries.len()
        invariant
            i <= entries@.len(),
            all == json::json_views(entries@),
            insight_views(results@) == with_entries(start, all, i as int, now as int),
        decreases entries@.len() - i,
    {
        assert(all[i as int] == entries@[i as int]@);
        let next = parse_keepa_product(&entries[i], now);
        if !knows_site(results, next.domain) {
            let ghost before = results@;
            results.push(next);
            assert(insight_views(results@) =~= insight_views(before).push(next@));
        }
        i = i + 1;
    }
}

impl Collector {
    /// Nothing collected yet.
    pub fn new(compare: bool) -> (r: Collector)
        ensures
            r@ == (CollectorView { compare, started: false, results: Seq::empty() }),
    {
        let r = Collector { compare, started: false, results: Vec::new() };
        assert(r@.results =~= Seq::empty());
        r
    }

    /// The seconds after which collecting is given up.
    pub fn deadline_seconds(&self) -> (r: u64)
        ensures
            r == (if self@.compare {
                20int
            } else {
                15int
            }),
    {
        if self.compare {
            20
        } else {
            15
        }
    }

    /// The seconds of silence to wait for: more while other sites are awaited.
    pub fn patience_seconds(&self) -> (r: u64)
        ensures
            r == (if self@.started && self@.compare {
                5int
            } else {
                2int
            }),
    {
        if self.started && self.compare {
            5
        } else {
            2
        }
    }

    /// Takes in a value, at a time in seconds since the start of 1970.
    pub fn receive(&mut self, value: &Json, now: i64) -> (r: Step)
        ensures
            final(self)@ == received(old(self)@, value@, now as int),
            r == step_after(old(self)@, value@, now as int),
    {
        let ghost before = self@;
        match json::as_list(json::get(Some(value), "basicProducts")) {
            Some(entries) => {
                assert(json::json_views(entries@).len() == entries@.len());
                add_entries(&mut self.results, entries, now);
                assert(insight_views(self.results@).len() == self.results@.len());
                assert(insight_views(self.results@) == received_results(
                    before,
                    value@,
                    now as int,
                ));
                if !self.started && self.results.len() > 0 {
                    self.started = true;
                    if self.compare {
                        Step::Compare
                    } else {
                        Step::Stop
                    }
                } else {
                    Step::Listen
                }
            },
            None => Step::Listen,
        }
    }

    /// Takes in a message of the browser, at a time in seconds since the start of 1970.
    pub fn on_message(&mut self, message: &str, now: i64) -> (r: Step)
        ensures
            match message_value(message@) {
                Some(value) => final(self)@ == received(old(self)@, value, now as int) && r
                    == step_after(old(self)@, value, now as int),
                None => final(self)@ == old(self)@ && r == Step::Listen,
            },
    {
        match read_message(message) {
            Some(value) => self.receive(&value, now),
            None => Step::Listen,
        }
    }

    /// What is to be done after a silence: nothing more is awaited once the first
    /// insight has come, or two of them where other sites are wanted.
    pub fn on_silence(&self) -> (r: Step)
        ensures
            r == (if (!self@.compare && self@.started) || (self@.compare && self@.results.len()
                >= 2) {
                Step::Stop
            } else {
                Step::Listen
            }),
    {
        assert(insight_views(self.results@).len() == self.results@.len());
        if (!self.compare && self.started) || (self.compare && self.results.len() >= 2) {
            Step::Stop
        } else {
            Step::Listen
        }
    }
}

/// The first of some insights into a site.
pub open spec fn insight_into(v: Seq<KeepaView>, domain: u8, i: int) -> Option<KeepaView>
    decreases v.len() - i,
{
    if i < 0 || i >= v.len() {
        None
    } else if v[i].domain == domain {
        Some(v[i])
    } else {
        insight_into(v, domain, i + 1)
    }
}

/// The index of the first of some insights into a site.
pub fn find_insight(v: &Vec<KeepaInsight>, domain: u8) -> (r: Option<usize>)
    ensures
        match r {
            Some(i) => i < v@.len() && insight_into(insight_views(v@), domain, 0) == Some(
                v@[i as int]@,
            ),
            None => insight_into(insight_views(v@), domain, 0) is None,
        },
{
    let ghost all = insight_views(v@);
    let mut i: usize = 0;
    while i < v.len()
        invariant
            i <= v@.len(),
            all == insight_views(v@),
            insight_into(all, domain, 0) == insight_into(all, domain, i as int),
        decreases v@.len() - i,
    {
        assert(all[i as int] == v@[i as int]@);
        if v[i].domain == domain {
            return Some(i);
        }
        i = i + 1;
    }
    None
}

// ---- Tabs ----

/// Whether a tab of the browser shows a page of the site.
pub open spec fn keepa_tab(t: json::JsonView) -> bool {
    text::has(text::or_empty(json::text_of(json::member(t, "url"@))), "keepa.com"@)
        && json::text_of(json::member(t, "type"@)) == Some("page"@)
}

/// Whether a tab of the browser shows the page of a product.
pub open spec fn product_tab(t: json::JsonView, asin: Seq<char>) -> bool {
    keepa_tab(t) && text::has(text::or_empty(json::text_of(json::member(t, "url"@))), asin)
}

/// The addresses of the tabs to be closed: those of the site that have a name.
pub open spec fn stale_tabs(tabs: Seq<json::JsonView>) -> Seq<Seq<char>>
    decreases tabs.len(),
{
    if tabs.len() == 0 {
        Seq::empty()
    } else {
        let before = stale_tabs(tabs.drop_last());
        match json::text_of(json::member(tabs.last(), "id"@)) {
            Some(id) => if keepa_tab(tabs.last()) {
                before.push(id)
            } else {
                before
            },
            None => before,
        }
    }
}

fn is_keepa_tab(t: &Json) -> (r: bool)
    ensures
        r == keepa_tab(t@),
{
    let url = text::else_empty(json::as_text(json::get(Some(t), "url")));
    let kind = match json::as_text(json::get(Some(t), "type")) {
        Some(k) => k,
        None => {
            return false;
        },
    };
    text::contains(url.as_str(), "keepa.com") && text::same_text(kind.as_str(), "page")
}

/// The tabs that the answer of a browser lists, where it is a list.
pub open spec fn listed_tabs(answer: Seq<u8>) -> Option<Seq<json::JsonView>> {
    match json::json_from_bytes(answer) {
        Ok(j) => json::list_of(j),
        Err(_) => None,
    }
}

/// The tabs that the answer of a browser lists, where it is a list.
pub fn read_tabs(answer: &[u8]) -> (r: Option<Vec<Json>>)
    ensures
        match r {
            Some(v) => listed_tabs(answer@) == Some(json::json_views(v@)),
            None => listed_tabs(answer@) is None,
        },
{
    match json::parse_bytes(answer) {
        Ok(Json::List(v)) => {
            assert(json::list_of(Json::List(v)@)->0 =~= json::json_views(v@));
            Some(v)
        },
        _ => None,
    }
}

/// The names of the tabs to be closed before a product is looked up.
pub fn find_stale_tabs(tabs: &Vec<Json>) -> (r: Vec<String>)
    ensures
        text::texts(r@) == stale_tabs(json::json_views(tabs@)),
{
    let ghost all = json::json_views(tabs@);
    let mut out: Vec<String> = Vec::new();
    let mut i: usize = 0;
    assert(text::texts(out@) =~= Seq::empty());
    while i < tabs.len()
        invariant
            i <= tabs@.len(),
            all == json::json_views(tabs@),
            text::texts(out@) == stale_tabs(all.take(i as int)),
        decreases tabs@.len() - i,
    {
        assert(all.take(i + 1).drop_last() =~= all.take(i as int));
        assert(all[i as int] == tabs@[i as int]@);
        let ghost so_far = out@;
        match json::as_text(json::get(Some(&tabs[i]), "id")) {
            Some(id) => {
                if is_keepa_tab(&tabs[i]) {
                    out.push(id);
                    assert(text::texts(out@) =~= text::texts(so_far).push(id@));
                }
            },
            None => {},
        }
        i = i + 1;
    }
    assert(all.take(i as int) =~= all);
    out
}

/// The first of some tabs, from the `i`-th on, that shows the page of a product, or
/// any page of the site.
pub open spec fn first_tab(
    tabs: Seq<json::JsonView>,
    asin: Option<Seq<char>>,
    i: int,
) -> json::JsonView
    decreases tabs.len() - i,
{
    if i < 0 || i >= tabs.len() {
        json::JsonView::Null
    } else if match asin {
        Some(a) => product_tab(tabs[i], a),
        None => keepa_tab(tabs[i]),
    } {
        tabs[i]
    } else {
        first_tab(tabs, asin, i + 1)
    }
}

/// The socket of a tab.
pub open spec fn tab_socket(t: json::JsonView) -> Option<Seq<char>> {
    json::text_of(json::member(t, "webSocketDebuggerUrl"@))
}

/// The socket of the tab that shows a product; at the last attempt that of any tab of
/// the site where there is no other.
pub open spec fn keepa_socket(tabs: Seq<json::JsonView>, asin: Seq<char>, last: bool) -> Option<
    Seq<char>,
> {
    let own = tab_socket(first_tab(tabs, Some(asin), 0));
    if own is Some || !last {
        own
    } else {
        tab_socket(first_tab(tabs, None, 0))
    }
}

/// The times that the tab of a product is looked for.
pub const SOCKET_ATTEMPTS: u32 = 5;

/// The milliseconds to wait before an attempt to find the tab of a product, the first one
/// being attempt 0, or `None` where there is none any more.
pub fn socket_wait(attempt: u32) -> (r: Option<u64>)
    ensures
        r == if attempt == 0 {
            Some(500u64)
        } else if attempt < SOCKET_ATTEMPTS {
            Some(1000u64)
        } else {
            None
        },
{
    if attempt == 0 {
        Some(500)
    } else if attempt < SOCKET_ATTEMPTS {
        Some(1000)
    } else {
        None
    }
}

/// Whether no attempt to find the tab of a product follows on this one.
pub fn is_last_attempt(attempt: u32) -> (r: bool)
    ensures
        r == (attempt >= SOCKET_ATTEMPTS - 1),
{
    attempt >= SOCKET_ATTEMPTS - 1
}

/// The socket of the tab that shows a product; at the last attempt that of any tab of
/// the site where there is no other.
pub fn find_keepa_socket(tabs: &Vec<Json>, asin: &str, last: bool) -> (r: Option<String>)
    ensures
        text::text_view(r) == keepa_socket(json::json_views(tabs@), asin@, last),
{
    let ghost all = json::json_views(tabs@);
    let mut own: Option<&Json> = None;
    let mut any: Option<&Json> = None;
    let mut i: usize = 0;
    while i < tabs.len()
        invariant
            i <= tabs@.len(),
            all == json::json_views(tabs@),
            own is None ==> first_tab(all, Some(asin@), 0) == first_tab(
                all,
                Some(asin@),
                i as int,
            ),
            own is Some ==> json::seen(own) == first_tab(all, Some(asin@), 0),
            any is None ==> first_tab(all, None, 0) == first_tab(all, None, i as int),
            any is Some ==> json::seen(any) == first_tab(all, None, 0),
        decreases tabs@.len() - i,
    {
        assert(all[i as int] == tabs@[i as int]@);
        if is_keepa_tab(&tabs[i]) {
            if any.is_none() {
                any = Some(&tabs[i]);
            }
            let url = text::else_empty(json::as_text(json::get(Some(&tabs[i]), "url")));
            if own.is_none() && text::contains(url.as_str(), asin) {
                own = Some(&tabs[i]);
            }
        }
        i = i + 1;
    }
    let socket = json::as_text(json::get(own, "webSocketDebuggerUrl"));
    if socket.is_some() || !last {
        return socket;
    }
    json::as_text(json::get(any, "webSocketDebuggerUrl"))
}

// ---- Laws ----

/// Whether no two of some insights are into one site.
pub open spec fn one_per_site(v: Seq<KeepaView>) -> bool {
    forall|i: int, j: int| 0 <= i < j < v.len() ==> (#[trigger] v[i]).domain != (#[trigger] v[j]).domain
}

proof fn lemma_with_entries(v: Seq<KeepaView>, entries: Seq<json::JsonView>, k: int, now: int)
    requires
        one_per_site(v),
    ensures
        one_per_site(with_entries(v, entries, k, now)),
        v.is_prefix_of(with_entries(v, entries, k, now)),
    decreases k,
{
    if k > 0 {
        lemma_with_entries(v, entries, k - 1, now);
    }
}

/// Whatever comes in, there is never more than one insight into a site, and none that
/// has come is lost.
pub proof fn collects_one_per_site(c: CollectorView, value: json::JsonView, now: int)
    requires
        one_per_site(c.results),
    ensures
        one_per_site(received(c, value, now).results),
        c.results.is_prefix_of(received(c, value, now).results),
{
    match json::list_of(json::member(value, "basicProducts"@)) {
        Some(entries) => {
            lemma_with_entries(c.results, entries, entries.len() as int, now);
        },
        None => {},
    }
}

proof fn lemma_lowest(v: Seq<json::JsonView>, k: int, i: int)
    requires
        0 <= i < k <= v.len(),
        pair_price(v, i) is Some,
    ensures
        lowest_price(v, k) is Some,
        lowest_price(v, k)->0 <= pair_price(v, i)->0,
    decreases k,
{
    if i < k - 1 {
        lemma_lowest(v, k - 1, i);
    }
}

proof fn lemma_last_is_pair(v: Seq<json::JsonView>, i: int)
    requires
        i % 2 == 0,
        last_of_pairs(v, i, 1) is Some,
    ensures
        exists|j: int|
            0 <= j < v.len() && #[trigger] pair_price(v, j) == last_of_pairs(v, i, 1),
    decreases i,
{
    match json::signed_of(v[i - 1]) {
        Some(n) => {
            if n >= 1 {
                assert(pair_price(v, i - 1) == last_of_pairs(v, i, 1));
            } else {
                lemma_last_is_pair(v, i - 2);
            }
        },
        None => {},
    }
}

/// In a series of whole pairs the lowest price is never above the last one, and both
/// are more than nothing.
pub proof fn lowest_is_at_most_last(v: Seq<json::JsonView>)
    requires
        v.len() % 2 == 0,
        last_value(Some(v), 1) is Some,
    ensures
        min_price(Some(v)) is Some,
        0 < min_price(Some(v))->0 <= last_value(Some(v), 1)->0,
{
    lemma_last_is_pair(v, v.len() as int);
    let j = choose|j: int|
        0 <= j < v.len() && #[trigger] pair_price(v, j) == last_of_pairs(v, v.len() as int, 1);
    lemma_lowest(v, v.len() as int, j);
    lemma_lowest_positive(v, v.len() as int);
}

proof fn lemma_lowest_positive(v: Seq<json::JsonView>, k: int)
    ensures
        lowest_price(v, k) is Some ==> lowest_price(v, k)->0 > 0,
    decreases k,
{
    if k > 0 {
        lemma_lowest_positive(v, k - 1);
    }
}

/// Whether a value stands in a series of pairs of a time and a price, and behind it only
/// whole numbers that are no more than nothing.
pub open spec fn last_price_at(v: Seq<json::JsonView>, k: int, price: i64) -> bool {
    &&& 1 <= k < v.len()
    &&& (v.len() - k) % 2 == 1
    &&& json::signed_of(v[k]) == Some(price)
    &&& forall|j: int|
        k < j < v.len() && (v.len() - j) % 2 == 1 ==> json::signed_of(#[trigger] v[j]) is Some
            && json::signed_of(v[j])->0 <= 0
}

/// Whether a price is the last one of more than nothing in one of some series.
pub open spec fn ends_in(csv: Option<Seq<json::JsonView>>, index: int, price: i64) -> bool {
    &&& csv is Some
    &&& 0 <= index < csv->0.len()
    &&& json::list_of(csv->0[index]) is Some
    &&& exists|k: int| #[trigger] last_price_at(json::list_of(csv->0[index])->0, k, price)
}

proof fn lemma_ends_in(v: Seq<json::JsonView>, i: int, k: int, price: i64, min: int)
    requires
        1 <= k < i <= v.len(),
        (i - k) % 2 == 1,
        json::signed_of(v[k]) == Some(price),
        price >= min,
        forall|j: int|
            k < j < i && (i - j) % 2 == 1 ==> json::signed_of(#[trigger] v[j]) is Some
                && json::signed_of(v[j])->0 < min,
    ensures
        last_of_pairs(v, i, min) == Some(price),
    decreases i,
{
    if i - 1 > k {
        assert(json::signed_of(v[i - 1]) is Some);
        lemma_ends_in(v, i - 2, k, price, min);
    }
}

proof fn lemma_series_end(csv: Option<Seq<json::JsonView>>, index: int, price: i64)
    requires
        ends_in(csv, index, price),
        price > 0,
    ensures
        last_value(series(csv, index), 1) == Some(price),
{
    let v = json::list_of(csv->0[index])->0;
    let k = choose|k: int| #[trigger] last_price_at(v, k, price);
    lemma_ends_in(v, v.len() as int, k, price, 1);
}

/// Each price of an insight is the last price of more than nothing in the series that is
/// kept for it: Amazon's own in the first, new ones in the second, used ones in the third,
/// the list price in the fifth, refurbished ones in the seventh, lightning deals in the
/// ninth, those of the warehouse in the tenth, and new ones that Amazon ships in the
/// eleventh.
pub proof fn prices_come_from_their_series(p: json::JsonView, now: int, price: i64)
    requires
        price > 0,
    ensures
        ({
            let csv = json::list_of(json::member(p, "csv"@));
            let r = product_insight(p, now);
            &&& ends_in(csv, 0, price) ==> r.amazon_price == Some(price)
            &&& ends_in(csv, 1, price) ==> r.new_3p_price == Some(price)
            &&& ends_in(csv, 2, price) ==> r.used_price == Some(price)
            &&& ends_in(csv, 4, price) ==> r.list_price == Some(price)
            &&& ends_in(csv, 6, price) ==> r.refurbished_price == Some(price)
            &&& ends_in(csv, 8, price) ==> r.lightning_deal == Some(price)
            &&& ends_in(csv, 9, price) ==> r.warehouse_price == Some(price)
            &&& ends_in(csv, 10, price) ==> r.fba_price == Some(price)
        }),
{
    let csv = json::list_of(json::member(p, "csv"@));
    assert forall|i: int| #[trigger] ends_in(csv, i, price) implies last_value(
        series(csv, i),
        1,
    ) == Some(price) by {
        lemma_series_end(csv, i, price);
    }
}

/// Whether two entries of a product agree in one of their series.
pub open spec fn same_series(p: json::JsonView, q: json::JsonView, index: int) -> bool {
    let (a, b) = (json::list_of(json::member(p, "csv"@)), json::list_of(json::member(q, "csv"@)));
    &&& a is Some
    &&& b is Some
    &&& 0 <= index < a->0.len()
    &&& index < b->0.len()
    &&& json::list_of(a->0[index]) == json::list_of(b->0[index])
}

/// Each price of an insight, each lowest price and each count depends on its own series
/// alone: whatever else changes, it stays while that series does.
pub proof fn prices_depend_on_their_series_alone(p: json::JsonView, q: json::JsonView, now: int, later: int)
    ensures
        ({
            let (r, s) = (product_insight(p, now), product_insight(q, later));
            &&& same_series(p, q, 0) ==> r.amazon_price == s.amazon_price && r.amazon_low
                == s.amazon_low
            &&& same_series(p, q, 1) ==> r.new_3p_price == s.new_3p_price && r.new_low == s.new_low
            &&& same_series(p, q, 2) ==> r.used_price == s.used_price && r.used_low == s.used_low
            &&& same_series(p, q, 3) ==> r.sales_rank == s.sales_rank
            &&& same_series(p, q, 4) ==> r.list_price == s.list_price
            &&& same_series(p, q, 6) ==> r.refurbished_price == s.refurbished_price
            &&& same_series(p, q, 7) ==> r.fbm_price == s.fbm_price && r.fbm_shipping
                == s.fbm_shipping
            &&& same_series(p, q, 8) ==> r.lightning_deal == s.lightning_deal
            &&& same_series(p, q, 9) ==> r.warehouse_price == s.warehouse_price && r.warehouse_low
                == s.warehouse_low
            &&& same_series(p, q, 10) ==> r.fba_price == s.fba_price
            &&& same_series(p, q, 11) ==> r.new_offer_count == s.new_offer_count
            &&& same_series(p, q, 12) ==> r.used_offer_count == s.used_offer_count
            &&& same_series(p, q, 16) ==> r.rating == s.rating
            &&& same_series(p, q, 17) ==> r.review_count == s.review_count
            &&& same_series(p, q, 18) ==> r.buy_box_price == s.buy_box_price && r.buy_box_shipping
                == s.buy_box_shipping
        }),
{
}

/// Whether a series of a product's entry is missing or no list.
pub open spec fn lacks_series(p: json::JsonView, index: int) -> bool {
    let csv = json::list_of(json::member(p, "csv"@));
    csv is None || index >= csv->0.len() || json::list_of(csv->0[index]) is None
}

/// Without its series an insight has no such price.
pub proof fn prices_need_their_series(p: json::JsonView, now: int)
    ensures
        ({
            let r = product_insight(p, now);
            &&& lacks_series(p, 0) ==> r.amazon_price is None && r.amazon_low is None
            &&& lacks_series(p, 1) ==> r.new_3p_price is None && r.new_low is None
            &&& lacks_series(p, 2) ==> r.used_price is None && r.used_low is None
            &&& lacks_series(p, 3) ==> r.sales_rank is None
            &&& lacks_series(p, 4) ==> r.list_price is None
            &&& lacks_series(p, 6) ==> r.refurbished_price is None
            &&& lacks_series(p, 7) ==> r.fbm_price is None && r.fbm_shipping is None
            &&& lacks_series(p, 8) ==> r.lightning_deal is None
            &&& lacks_series(p, 9) ==> r.warehouse_price is None && r.warehouse_low is None
            &&& lacks_series(p, 10) ==> r.fba_price is None
            &&& lacks_series(p, 11) ==> r.new_offer_count is None
            &&& lacks_series(p, 12) ==> r.used_offer_count is None
            &&& lacks_series(p, 16) ==> r.rating is None
            &&& lacks_series(p, 17) ==> r.review_count is None
            &&& lacks_series(p, 18) ==> r.buy_box_price is None && r.buy_box_shipping is None
        }),
{
}

proof fn lemma_last_is_in(v: Seq<json::JsonView>, i: int, min: int)
    requires
        i <= v.len(),
        last_of_pairs(v, i, min) is Some,
    ensures
        last_of_pairs(v, i, min)->0 >= min,
        exists|k: int|
            1 <= k < i && (i - k) % 2 == 1 && json::signed_of(#[trigger] v[k]) == last_of_pairs(
                v,
                i,
                min,
            ) && forall|j: int|
                k < j < i && (i - j) % 2 == 1 ==> json::signed_of(#[trigger] v[j]) is Some
                    && json::signed_of(v[j])->0 < min,
    decreases i,
{
    let n = json::signed_of(v[i - 1])->0;
    if n >= min {
        assert(json::signed_of(v[i - 1]) == last_of_pairs(v, i, min));
    } else {
        lemma_last_is_in(v, i - 2, min);
        let k = choose|k: int|
            1 <= k < i - 2 && (i - 2 - k) % 2 == 1 && json::signed_of(#[trigger] v[k])
                == last_of_pairs(v, i - 2, min) && forall|j: int|
                k < j < i - 2 && (i - 2 - j) % 2 == 1 ==> json::signed_of(#[trigger] v[j]) is Some
                    && json::signed_of(v[j])->0 < min;
        assert forall|j: int| k < j < i && (i - j) % 2 == 1 implies json::signed_of(
            #[trigger] v[j],
        ) is Some && json::signed_of(v[j])->0 < min by {
            if j >= i - 2 {
                assert(j == i - 1);
            } else {
                assert((i - 2 - j) % 2 == 1);
            }
        }
        assert((i - k) % 2 == 1);
        assert(json::signed_of(v[k]) == last_of_pairs(v, i, min));
    }
}

proof fn lemma_last_ends(csv: Option<Seq<json::JsonView>>, index: int)
    requires
        last_value(series(csv, index), 1) is Some,
    ensures
        last_value(series(csv, index), 1)->0 > 0,
        ends_in(csv, index, last_value(series(csv, index), 1)->0),
{
    let v = json::list_of(csv->0[index])->0;
    lemma_last_is_in(v, v.len() as int, 1);
    let k = choose|k: int|
        1 <= k < v.len() && (v.len() - k) % 2 == 1 && json::signed_of(#[trigger] v[k])
            == last_of_pairs(v, v.len() as int, 1) && forall|j: int|
            k < j < v.len() && (v.len() - j) % 2 == 1 ==> json::signed_of(#[trigger] v[j]) is Some
                && json::signed_of(v[j])->0 < 1;
    assert(last_price_at(v, k, last_value(series(csv, index), 1)->0));
}

/// A price of an insight is always one that its series ends in, and more than nothing.
pub proof fn prices_are_what_series_end_in(p: json::JsonView, now: int)
    ensures
        ({
            let csv = json::list_of(json::member(p, "csv"@));
            let r = product_insight(p, now);
            &&& r.amazon_price is Some ==> r.amazon_price->0 > 0 && ends_in(
                csv,
                0,
                r.amazon_price->0,
            )
            &&& r.new_3p_price is Some ==> r.new_3p_price->0 > 0 && ends_in(
                csv,
                1,
                r.new_3p_price->0,
            )
            &&& r.used_price is Some ==> r.used_price->0 > 0 && ends_in(csv, 2, r.used_price->0)
            &&& r.list_price is Some ==> r.list_price->0 > 0 && ends_in(csv, 4, r.list_price->0)
            &&& r.refurbished_price is Some ==> r.refurbished_price->0 > 0 && ends_in(
                csv,
                6,
                r.refurbished_price->0,
            )
            &&& r.lightning_deal is Some ==> r.lightning_deal->0 > 0 && ends_in(
                csv,
                8,
                r.lightning_deal->0,
            )
            &&& r.warehouse_price is Some ==> r.warehouse_price->0 > 0 && ends_in(
                csv,
                9,
                r.warehouse_price->0,
            )
            &&& r.fba_price is Some ==> r.fba_price->0 > 0 && ends_in(csv, 10, r.fba_price->0)
        }),
{
    let csv = json::list_of(json::member(p, "csv"@));
    assert forall|i: int| (#[trigger] last_value(series(csv, i), 1)) is Some implies last_value(
        series(csv, i),
        1,
    )->0 > 0 && ends_in(csv, i, last_value(series(csv, i), 1)->0) by {
        lemma_last_ends(csv, i);
    }
    assert(last_value(series(csv, 0), 1) is Some ==> ends_in(
        csv,
        0,
        last_value(series(csv, 0), 1)->0,
    ));
}

/// Whether a series of a product's entry is of whole pairs.
pub open spec fn whole_pairs(p: json::JsonView, index: int) -> bool {
    let csv = json::list_of(json::member(p, "csv"@));
    csv is Some && index < csv->0.len() && json::list_of(csv->0[index]) is Some && json::list_of(
        csv->0[index],
    )->0.len() % 2 == 0
}

/// No price of an insight is below the lowest one that is told of its kind, and the
/// lowest one is told wherever there is a price.
pub proof fn lowest_prices_are_lowest(p: json::JsonView, now: int)
    ensures
        ({
            let r = product_insight(p, now);
            &&& whole_pairs(p, 0) && r.amazon_price is Some ==> r.amazon_low is Some && 0
                < r.amazon_low->0 <= r.amazon_price->0
            &&& whole_pairs(p, 1) && r.new_3p_price is Some ==> r.new_low is Some && 0
                < r.new_low->0 <= r.new_3p_price->0
            &&& whole_pairs(p, 2) && r.used_price is Some ==> r.used_low is Some && 0
                < r.used_low->0 <= r.used_price->0
            &&& whole_pairs(p, 9) && r.warehouse_price is Some ==> r.warehouse_low is Some && 0
                < r.warehouse_low->0 <= r.warehouse_price->0
        }),
{
    let csv = json::list_of(json::member(p, "csv"@));
    let r = product_insight(p, now);
    if whole_pairs(p, 0) && r.amazon_price is Some {
        lowest_is_at_most_last(json::list_of(csv->0[0])->0);
    }
    if whole_pairs(p, 1) && r.new_3p_price is Some {
        lowest_is_at_most_last(json::list_of(csv->0[1])->0);
    }
    if whole_pairs(p, 2) && r.used_price is Some {
        lowest_is_at_most_last(json::list_of(csv->0[2])->0);
    }
    if whole_pairs(p, 9) && r.warehouse_price is Some {
        lowest_is_at_most_last(json::list_of(csv->0[9])->0);
    }
}

/// Whether a price and its shipping stand in a series of triplets of a time, a price and
/// its shipping, and behind them no price of more than nothing.
pub open spec fn last_triplet_at(
    v: Seq<json::JsonView>,
    k: int,
    price: i64,
    shipping: i64,
) -> bool {
    &&& v.len() % 3 == 0
    &&& 1 <= k < v.len()
    &&& k % 3 == 1
    &&& price > 0
    &&& json::signed_of(v[k]) == Some(price)
    &&& json::signed_of(v[k + 1]) == Some(shipping) || (json::signed_of(v[k + 1]) is None
        && shipping == -1)
    &&& forall|j: int|
        k < j < v.len() && j % 3 == 1 ==> (json::signed_of(#[trigger] v[j]) is None
            || json::signed_of(v[j])->0 <= 0)
}

proof fn lemma_last_triplet(v: Seq<json::JsonView>, i: int, k: int, price: i64, shipping: i64)
    requires
        last_triplet_at(v, k, price, shipping),
        k < i <= v.len(),
        i % 3 == 0,
    ensures
        last_of_triplets(v, i) == (PriceShipping { price: Some(price), shipping: Some(shipping) }),
    decreases i,
{
    if i - 2 > k {
        assert(json::signed_of(v[i - 2]) is None || json::signed_of(v[i - 2])->0 <= 0);
        lemma_last_triplet(v, i - 3, k, price, shipping);
    } else {
        assert(i - 2 == k);
    }
}

/// Whether one of a product's series of triplets ends in a price with its shipping.
pub open spec fn ends_in_triplet(
    p: json::JsonView,
    index: int,
    price: i64,
    shipping: i64,
) -> bool {
    let csv = json::list_of(json::member(p, "csv"@));
    &&& csv is Some
    &&& 0 <= index < csv->0.len()
    &&& json::list_of(csv->0[index]) is Some
    &&& exists|k: int| #[trigger]
        last_triplet_at(json::list_of(csv->0[index])->0, k, price, shipping)
}

/// The price of the buy box and of those who ship themselves come with their shipping,
/// which is -1 where it is not told, from the nineteenth and the eighth series.
pub proof fn shipping_comes_with_its_price(p: json::JsonView, now: int, price: i64, shipping: i64)
    ensures
        ends_in_triplet(p, 18, price, shipping) ==> product_insight(p, now).buy_box_price == Some(
            price,
        ) && product_insight(p, now).buy_box_shipping == Some(shipping),
        ends_in_triplet(p, 7, price, shipping) ==> product_insight(p, now).fbm_price == Some(price)
            && product_insight(p, now).fbm_shipping == Some(shipping),
{
    let csv = json::list_of(json::member(p, "csv"@));
    assert forall|i: int| #[trigger] ends_in_triplet(p, i, price, shipping) implies
        last_price_shipping(series(csv, i)) == (PriceShipping {
        price: Some(price),
        shipping: Some(shipping),
    }) by {
        let v = json::list_of(csv->0[i])->0;
        let k = choose|k: int| #[trigger] last_triplet_at(v, k, price, shipping);
        lemma_last_triplet(v, v.len() as int, k, price, shipping);
    }
}

proof fn lemma_triplet_found(v: Seq<json::JsonView>, i: int)
    requires
        0 <= i <= v.len(),
        i % 3 == 0,
        v.len() % 3 == 0,
        last_of_triplets(v, i).price is Some || last_of_triplets(v, i).shipping is Some,
        forall|j: int|
            i <= j < v.len() && j % 3 == 1 ==> (json::signed_of(#[trigger] v[j]) is None
                || json::signed_of(v[j])->0 <= 0),
    ensures
        ({
            let r = last_of_triplets(v, i);
            r.price is Some && r.shipping is Some && exists|k: int| #[trigger]
                last_triplet_at(v, k, r.price->0, r.shipping->0)
        }),
    decreases i,
{
    let r = last_of_triplets(v, i);
    if signed_or(v[i - 2], -1) > 0 {
        assert(last_triplet_at(v, i - 2, r.price->0, r.shipping->0));
    } else {
        assert forall|j: int| i - 3 <= j < v.len() && j % 3 == 1 implies (json::signed_of(
            #[trigger] v[j],
        ) is None || json::signed_of(v[j])->0 <= 0) by {
            if j < i {
                assert(j == i - 2);
            }
        }
        lemma_triplet_found(v, i - 3);
    }
}

/// A price with shipping is always one that its series ends in.
pub proof fn shipping_is_what_series_end_in(p: json::JsonView, now: int)
    ensures
        ({
            let r = product_insight(p, now);
            &&& r.buy_box_price is Some <==> r.buy_box_shipping is Some
            &&& r.buy_box_price is Some ==> ends_in_triplet(
                p,
                18,
                r.buy_box_price->0,
                r.buy_box_shipping->0,
            )
            &&& r.fbm_price is Some <==> r.fbm_shipping is Some
            &&& r.fbm_price is Some ==> ends_in_triplet(p, 7, r.fbm_price->0, r.fbm_shipping->0)
        }),
{
    let csv = json::list_of(json::member(p, "csv"@));
    assert forall|i: int|
        (#[trigger] last_price_shipping(series(csv, i))).price is Some || last_price_shipping(
            series(csv, i),
        ).shipping is Some implies last_price_shipping(series(csv, i)).price is Some
        && last_price_shipping(series(csv, i)).shipping is Some && ends_in_triplet(
        p,
        i,
        last_price_shipping(series(csv, i)).price->0,
        last_price_shipping(series(csv, i)).shipping->0,
    ) by {
        let v = json::list_of(csv->0[i])->0;
        lemma_triplet_found(v, v.len() as int);
    }
    let (a, b) = (last_price_shipping(series(csv, 18)), last_price_shipping(series(csv, 7)));
}

proof fn lemma_lowest_is_in(v: Seq<json::JsonView>, k: int)
    requires
        0 <= k <= v.len(),
        lowest_price(v, k) is Some,
    ensures
        lowest_price(v, k)->0 > 0,
        exists|i: int|
            0 <= i < k && i % 2 == 1 && json::signed_of(#[trigger] v[i]) == lowest_price(v, k),
    decreases k,
{
    if lowest_price(v, k - 1) is Some {
        lemma_lowest_is_in(v, k - 1);
    }
    if pair_price(v, k - 1) is Some {
        assert(json::signed_of(v[k - 1]) == pair_price(v, k - 1));
    }
}

/// The lowest price of a series is one of its prices, and none of its prices of more than
/// nothing is below it.
pub proof fn lowest_price_is_the_lowest(v: Seq<json::JsonView>)
    ensures
        match min_price(Some(v)) {
            Some(low) => {
                &&& low > 0
                &&& exists|i: int|
                    0 <= i < v.len() && i % 2 == 1 && json::signed_of(#[trigger] v[i]) == Some(low)
                &&& forall|i: int|
                    0 <= i < v.len() && i % 2 == 1 && json::signed_of(#[trigger] v[i]) is Some
                        && json::signed_of(v[i])->0 > 0 ==> low <= json::signed_of(v[i])->0
            },
            None => forall|i: int|
                0 <= i < v.len() && i % 2 == 1 && json::signed_of(#[trigger] v[i]) is Some
                    ==> json::signed_of(v[i])->0 <= 0,
        },
{
    let n = v.len() as int;
    if min_price(Some(v)) is Some {
        lemma_lowest_is_in(v, n);
    }
    assert forall|i: int|
        0 <= i < v.len() && i % 2 == 1 && json::signed_of(#[trigger] v[i]) is Some
            && json::signed_of(v[i])->0 > 0 implies lowest_price(v, n) is Some && lowest_price(
        v,
        n,
    )->0 <= json::signed_of(v[i])->0 by {
        lemma_lowest(v, n, i);
    }
}

/// The lowest prices that are told are those of Amazon's own, the new, the used and the
/// warehouse series.
pub proof fn lowest_prices_are_of_their_series(p: json::JsonView, now: int, v: Seq<json::JsonView>)
    ensures
        ({
            let csv = json::list_of(json::member(p, "csv"@));
            let r = product_insight(p, now);
            csv is Some && csv->0.len() > 9 ==> {
                &&& json::list_of(csv->0[0]) == Some(v) ==> r.amazon_low == min_price(Some(v))
                &&& json::list_of(csv->0[1]) == Some(v) ==> r.new_low == min_price(Some(v))
                &&& json::list_of(csv->0[2]) == Some(v) ==> r.used_low == min_price(Some(v))
                &&& json::list_of(csv->0[9]) == Some(v) ==> r.warehouse_low == min_price(Some(v))
            }
        }),
{
}

proof fn lemma_counts(p: json::JsonView, index: int, n: i64)
    requires
        ends_in_count(p, index, n),
    ensures
        last_value(series(json::list_of(json::member(p, "csv"@)), index), 0) == Some(n),
{
    let csv = json::list_of(json::member(p, "csv"@));
    let v = json::list_of(csv->0[index])->0;
    let k = choose|k: int| #[trigger] last_count_at(v, k, n);
    lemma_ends_in(v, v.len() as int, k, n, 0);
}

/// Whether a count that is not negative stands in a series of pairs, and behind it only
/// negative whole numbers.
pub open spec fn last_count_at(v: Seq<json::JsonView>, k: int, n: i64) -> bool {
    &&& 1 <= k < v.len()
    &&& (v.len() - k) % 2 == 1
    &&& json::signed_of(v[k]) == Some(n)
    &&& n >= 0
    &&& forall|j: int|
        k < j < v.len() && (v.len() - j) % 2 == 1 ==> json::signed_of(#[trigger] v[j]) is Some
            && json::signed_of(v[j])->0 < 0
}

/// Whether one of a product's series ends in a count that is not negative.
pub open spec fn ends_in_count(p: json::JsonView, index: int, n: i64) -> bool {
    let csv = json::list_of(json::member(p, "csv"@));
    &&& csv is Some
    &&& 0 <= index < csv->0.len()
    &&& json::list_of(csv->0[index]) is Some
    &&& exists|k: int| #[trigger] last_count_at(json::list_of(csv->0[index])->0, k, n)
}

/// The sales rank, the numbers of new and of used offers, the rating in tenths and the
/// number of reviews are the last ones in the fourth, twelfth, thirteenth, seventeenth and
/// eighteenth series that are not negative.
pub proof fn counts_come_from_their_series(p: json::JsonView, now: int, n: i64)
    ensures
        ({
            let r = product_insight(p, now);
            &&& ends_in_count(p, 3, n) ==> r.sales_rank == Some(n)
            &&& ends_in_count(p, 11, n) && n <= u32::MAX ==> r.new_offer_count == Some(n as u32)
            &&& ends_in_count(p, 12, n) && n <= u32::MAX ==> r.used_offer_count == Some(n as u32)
            &&& ends_in_count(p, 16, n) && n <= i16::MAX ==> r.rating == Some(
                decimal::dec(n as int, 1),
            )
            &&& ends_in_count(p, 17, n) && n <= u32::MAX ==> r.review_count == Some(n as u32)
        }),
{
    assert forall|i: int| #[trigger] ends_in_count(p, i, n) implies last_value(
        series(json::list_of(json::member(p, "csv"@)), i),
        0,
    ) == Some(n) by {
        lemma_counts(p, i, n);
    }
}

/// What an entry says of itself: its number, title, maker and the number that its variants
/// share, and its site, which is the American one where it is not told or cannot be.
pub proof fn insights_name_their_product(p: json::JsonView, now: int)
    ensures
        ({
            let r = product_insight(p, now);
            &&& json::text_of(json::member(p, "asin"@)) is Some ==> r.asin == json::text_of(
                json::member(p, "asin"@),
            )->0
            &&& json::text_of(json::member(p, "asin"@)) is None ==> r.asin.len() == 0
            &&& json::text_of(json::member(p, "title"@)) is Some ==> r.title == json::text_of(
                json::member(p, "title"@),
            )->0
            &&& json::text_of(json::member(p, "manufacturer"@)) is Some ==> r.manufacturer
                == json::text_of(json::member(p, "manufacturer"@))->0
            &&& r.parent_asin == json::text_of(json::member(p, "parentAsin"@))
            &&& match json::unsigned_of(json::member(p, "domainId"@)) {
                Some(n) => if n < 256 {
                    r.domain == n
                } else {
                    r.domain == 1
                },
                None => r.domain == 1,
            }
        }),
{
}

proof fn lemma_sample_bounds(
    v: Seq<json::JsonView>,
    k: int,
    step: int,
    now: int,
    low: int,
    high: int,
    old_low: int,
    old_high: int,
)
    requires
        0 <= k,
        step >= 2,
        forall|i: int|
            #![trigger entry_price(v, step, i)]
            0 <= i < k ==> ({
                let at = entry_at(v, step, i);
                let price = entry_price(v, step, i);
                &&& price > 0 && 0 <= now - at <= 10_080 ==> low <= price <= high
                &&& price > 0 && 10_080 < now - at <= 53_280 ==> old_low <= price <= old_high
            }),
    ensures
        ({
            let s = samples(v, k, step, now);
            &&& 0 <= s.recent_count
            &&& 0 <= s.history_count
            &&& low * s.recent_count <= s.recent_sum <= high * s.recent_count
            &&& old_low * s.history_count <= s.history_sum <= old_high * s.history_count
        }),
    decreases k,
{
    if k > 0 {
        lemma_sample_bounds(v, k - 1, step, now, low, high, old_low, old_high);
        let b = samples(v, k - 1, step, now);
        let at = entry_at(v, step, k - 1);
        let price = entry_price(v, step, k - 1);
        assert(low * (b.recent_count + 1) == low * b.recent_count + low) by (nonlinear_arith);
        assert(high * (b.recent_count + 1) == high * b.recent_count + high) by (nonlinear_arith);
        assert(old_low * (b.history_count + 1) == old_low * b.history_count + old_low)
            by (nonlinear_arith);
        assert(old_high * (b.history_count + 1) == old_high * b.history_count + old_high)
            by (nonlinear_arith);
    } else {
        assert(low * 0 == 0 && high * 0 == 0 && old_low * 0 == 0 && old_high * 0 == 0)
            by (nonlinear_arith);
    }
}

/// The time of an entry of a series, in minutes.
pub open spec fn entry_at(v: Seq<json::JsonView>, step: int, i: int) -> int {
    match json::signed_of(v[i * step]) {
        Some(n) => n as int,
        None => 0,
    }
}

/// The price of an entry of a series, which is less than nothing where there is none.
pub open spec fn entry_price(v: Seq<json::JsonView>, step: int, i: int) -> int {
    match json::signed_of(v[i * step + 1]) {
        Some(n) => n as int,
        None => -1,
    }
}

/// Whether some numbers bound the prices of a series: two those of the last seven days,
/// and two those of the thirty days before, at a time in minutes.
pub open spec fn prices_within(
    v: Seq<json::JsonView>,
    step: int,
    now: int,
    low: int,
    high: int,
    old_low: int,
    old_high: int,
) -> bool {
    forall|i: int|
        #![trigger entry_price(v, step, i)]
        0 <= i < v.len() as int / step && entry_price(v, step, i) > 0 ==> {
            &&& 0 <= now - entry_at(v, step, i) <= 7 * 24 * 60 ==> low <= entry_price(v, step, i)
                <= high
            &&& 7 * 24 * 60 < now - entry_at(v, step, i) <= 37 * 24 * 60 ==> old_low
                <= entry_price(v, step, i) <= old_high
        }
}

/// A price falls where each of its prices of the last week is below 95 per cent of each of
/// the thirty days before, rises where each is above 105 per cent of each, and neither
/// where each is within five per cent of each.
pub proof fn trends_follow_prices(
    v: Seq<json::JsonView>,
    step: int,
    now: int,
    low: int,
    high: int,
    old_low: int,
    old_high: int,
)
    requires
        now >= 0,
        step == 2 || step == 3,
        0 < low <= high,
        0 < old_low <= old_high,
        prices_within(
            v,
            step,
            now / 60 - 21_564_000,
            low,
            high,
            old_low,
            old_high,
        ),
    ensures
        ({
            let t = series_trend(Some(v), step, now);
            &&& t is Some && 100 * high < 95 * old_low ==> t == Some(PriceTrend::Falling)
            &&& t is Some && 100 * low > 105 * old_high ==> t == Some(PriceTrend::Rising)
            &&& t is Some && 100 * low >= 95 * old_high && 100 * high <= 105 * old_low ==> t
                == Some(PriceTrend::Stable)
        }),
{
    let k = v.len() as int / step;
    let minutes = now / 60 - 21_564_000;
    assert forall|i: int|
        #![trigger entry_price(v, step, i)]
        0 <= i < k implies ({
        let at = entry_at(v, step, i);
        let price = entry_price(v, step, i);
        &&& price > 0 && 0 <= minutes - at <= 10_080 ==> low <= price <= high
        &&& price > 0 && 10_080 < minutes - at <= 53_280 ==> old_low <= price <= old_high
    }) by {
        assert(entry_price(v, step, i) == entry_price(v, step, i));
    }
    lemma_sample_bounds(v, k, step, minutes, low, high, old_low, old_high);
    let s = samples(v, k, step, minutes);
    if series_trend(Some(v), step, now) is Some {
        let (a, m, b, n) = (s.recent_sum, s.recent_count, s.history_sum, s.history_count);
        lemma_averages(a, m, b, n, low, high, old_low, old_high);
    }
}

proof fn lemma_averages(
    a: int,
    m: int,
    b: int,
    n: int,
    low: int,
    high: int,
    old_low: int,
    old_high: int,
)
    requires
        m > 0,
        n > 0,
        low * m <= a <= high * m,
        old_low * n <= b <= old_high * n,
    ensures
        100 * high < 95 * old_low ==> a * n * 100 < b * m * 95,
        100 * low > 105 * old_high ==> a * n * 100 > b * m * 105,
        100 * low >= 95 * old_high ==> a * n * 100 >= b * m * 95,
        100 * high <= 105 * old_low ==> a * n * 100 <= b * m * 105,
{
    let w = m * n;
    assert(w > 0) by (nonlinear_arith)
        requires
            m > 0,
            n > 0,
            w == m * n,
    ;
    assert(low * w <= a * n <= high * w) by (nonlinear_arith)
        requires
            low * m <= a <= high * m,
            n > 0,
            w == m * n,
    ;
    assert(old_low * w <= b * m <= old_high * w) by (nonlinear_arith)
        requires
            old_low * n <= b <= old_high * n,
            m > 0,
            w == m * n,
    ;
    assert(100 * high < 95 * old_low ==> (100 * high) * w < (95 * old_low) * w) by (nonlinear_arith)
        requires
            w > 0,
    ;
    assert(100 * low > 105 * old_high ==> (100 * low) * w > (105 * old_high) * w)
        by (nonlinear_arith)
        requires
            w > 0,
    ;
    assert(100 * low >= 95 * old_high ==> (100 * low) * w >= (95 * old_high) * w)
        by (nonlinear_arith)
        requires
            w > 0,
    ;
    assert(100 * high <= 105 * old_low ==> (100 * high) * w <= (105 * old_low) * w)
        by (nonlinear_arith)
        requires
            w > 0,
    ;
    assert((100 * high) * w == 100 * (high * w) && (95 * old_low) * w == 95 * (old_low * w)
        && (100 * low) * w == 100 * (low * w) && (105 * old_high) * w == 105 * (old_high * w) && (95
        * old_high) * w == 95 * (old_high * w) && (105 * old_low) * w == 105 * (old_low * w))
        by (nonlinear_arith);
}

proof fn lemma_sampled(v: Seq<json::JsonView>, k: int, step: int, now: int, i: int)
    requires
        0 <= i < k,
        entry_price(v, step, i) > 0,
    ensures
        0 <= now - entry_at(v, step, i) <= 10_080 ==> samples(v, k, step, now).recent_count > 0,
        10_080 < now - entry_at(v, step, i) <= 53_280 ==> samples(v, k, step, now).history_count
            > 0,
    decreases k,
{
    lemma_samples_grow(v, 0, k - 1, step, now);
    if i < k - 1 {
        lemma_sampled(v, k - 1, step, now, i);
    }
}

proof fn lemma_none_sampled(v: Seq<json::JsonView>, k: int, step: int, now: int)
    requires
        0 <= k,
    ensures
        (forall|i: int|
            0 <= i < k && #[trigger] entry_price(v, step, i) > 0 ==> !(0 <= now - entry_at(
                v,
                step,
                i,
            ) <= 10_080)) ==> samples(v, k, step, now).recent_count == 0,
        (forall|i: int|
            0 <= i < k && #[trigger] entry_price(v, step, i) > 0 ==> !(10_080 < now - entry_at(
                v,
                step,
                i,
            ) <= 53_280)) ==> samples(v, k, step, now).history_count == 0,
    decreases k,
{
    if k > 0 {
        lemma_none_sampled(v, k - 1, step, now);
        assert(entry_price(v, step, k - 1) == signed_or(v[(k - 1) * step + 1], -1));
    }
}

/// A trend is told only of a series of four entries or more that has a price of the last
/// seven days and one of the thirty days before; and always of such a one, unless its
/// prices are too large or too many to be added up.
pub proof fn trends_need_prices_of_both_times(
    v: Seq<json::JsonView>,
    step: int,
    now: int,
    i: int,
    j: int,
)
    requires
        now >= 0,
        step == 2 || step == 3,
    ensures
        ({
            let minutes = now / 60 - 21_564_000;
            let n = v.len() as int / step;
            let t = series_trend(Some(v), step, now);
            &&& v.len() < 4 * step ==> t is None
            &&& (forall|k: int|
                0 <= k < n && #[trigger] entry_price(v, step, k) > 0 ==> !(0 <= minutes - entry_at(
                    v,
                    step,
                    k,
                ) <= 7 * 24 * 60)) ==> t is None
            &&& (forall|k: int|
                0 <= k < n && #[trigger] entry_price(v, step, k) > 0 ==> !(7 * 24 * 60 < minutes
                    - entry_at(v, step, k) <= 37 * 24 * 60)) ==> t is None
            &&& v.len() >= 4 * step && 0 <= i < n && 0 <= j < n && entry_price(v, step, i) > 0
                && entry_price(v, step, j) > 0 && 0 <= minutes - entry_at(v, step, i) <= 7 * 24 * 60
                && 7 * 24 * 60 < minutes - entry_at(v, step, j) <= 37 * 24 * 60 && samples_held(
                samples(v, n, step, minutes),
            ) ==> t is Some
        }),
{
    let minutes = now / 60 - 21_564_000;
    let n = v.len() as int / step;
    lemma_none_sampled(v, n, step, minutes);
    if 0 <= i < n && entry_price(v, step, i) > 0 {
        lemma_sampled(v, n, step, minutes, i);
    }
    if 0 <= j < n && entry_price(v, step, j) > 0 {
        lemma_sampled(v, n, step, minutes, j);
    }
}

/// The trend of a product is that of its buy box, of Amazon's own price where the buy box
/// has none, and of new ones where neither has one.
pub proof fn trends_go_by_the_buy_box_first(p: json::JsonView, now: int)
    ensures
        ({
            let csv = json::list_of(json::member(p, "csv"@));
            let t = product_insight(p, now).trend;
            csv is Some && csv->0.len() > 18 ==> {
                let box_trend = series_trend(json::list_of(csv->0[18]), 3, now);
                let own = series_trend(json::list_of(csv->0[0]), 2, now);
                let new = series_trend(json::list_of(csv->0[1]), 2, now);
                &&& box_trend is Some ==> t == box_trend
                &&& box_trend is None && own is Some ==> t == own
                &&& box_trend is None && own is None ==> t == new
            }
        }),
{
}

/// The best price of a new product is that of the buy box, else Amazon's own, else that of
/// a seller whom Amazon ships for, else that of another seller.
pub proof fn best_new_price_is_the_first(k: KeepaView)
    ensures
        k.buy_box_price is Some ==> best_new_cents(k) == k.buy_box_price,
        k.buy_box_price is None && k.amazon_price is Some ==> best_new_cents(k) == k.amazon_price,
        k.buy_box_price is None && k.amazon_price is None && k.fba_price is Some ==> best_new_cents(
            k,
        ) == k.fba_price,
        k.buy_box_price is None && k.amazon_price is None && k.fba_price is None
            ==> best_new_cents(k) == k.new_3p_price,
{
}

/// Shipping that is known is added to the price of the buy box, and shipping that is free
/// or not known adds nothing.
pub proof fn buy_box_adds_known_shipping(k: KeepaView, price: i64, shipping: i64)
    requires
        k.buy_box_price == Some(price),
    ensures
        k.buy_box_shipping == Some(shipping) && shipping > 0 && price + shipping <= i64::MAX
            ==> buy_box_with_shipping(k) == Some(in_currency(price + shipping, k.domain)),
        k.buy_box_shipping is None || k.buy_box_shipping->0 <= 0 ==> buy_box_with_shipping(k)
            == Some(in_currency(price as int, k.domain)),
{
}

/// Every site has a currency of its own sign, an ending of its address and a worth in
/// dollars: a dollar is one, a real nineteen hundredths, a pound 1.27, a euro 1.08.
pub proof fn sites_have_their_currency(domain: u8)
    ensures
        domain == 1 ==> site_symbol(domain) == "US$"@ && site_tld(domain) == ".com"@ && dollar_rate(
            domain,
        ) == decimal::dec(1, 0),
        domain == 2 ==> site_symbol(domain) == "£"@ && site_tld(domain) == ".co.uk"@
            && dollar_rate(domain) == decimal::dec(127, 2),
        domain == 3 || domain == 4 || domain == 8 || domain == 9 ==> site_symbol(domain) == "€"@
            && dollar_rate(domain) == decimal::dec(108, 2),
        domain == 3 ==> site_tld(domain) == ".de"@,
        domain == 4 ==> site_tld(domain) == ".fr"@,
        domain == 5 ==> site_symbol(domain) == "¥"@ && site_tld(domain) == ".co.jp"@
            && dollar_rate(domain) == decimal::dec(67, 4),
        domain == 6 ==> site_symbol(domain) == "CA$"@ && site_tld(domain) == ".ca"@ && dollar_rate(
            domain,
        ) == decimal::dec(72, 2),
        domain == 8 ==> site_tld(domain) == ".it"@,
        domain == 9 ==> site_tld(domain) == ".es"@,
        domain == 10 ==> site_symbol(domain) == "₹"@ && site_tld(domain) == ".in"@ && dollar_rate(
            domain,
        ) == decimal::dec(12, 3),
        domain == 11 ==> site_symbol(domain) == "MX$"@ && site_tld(domain) == ".com.mx"@
            && dollar_rate(domain) == decimal::dec(49, 3),
        domain == 12 ==> site_symbol(domain) == "R$"@ && site_tld(domain) == ".com.br"@
            && dollar_rate(domain) == decimal::dec(19, 2),
{
}

/// Prices are in hundredths of the site's currency, and in whole yen on the Japanese site.
pub proof fn only_yen_have_no_hundredths(cents: i64, domain: u8)
    ensures
        priced(Some(cents), domain) is Some,
        domain == 5 ==> priced(Some(cents), domain)->0 == decimal::dec(cents as int, 0),
        domain != 5 && decimal::quotient(decimal::dec(cents as int, 0), decimal::dec(100, 0)) is Some
            ==> priced(Some(cents), domain) == decimal::quotient(
            decimal::dec(cents as int, 0),
            decimal::dec(100, 0),
        ),
        priced(None, domain) is None,
{
}

/// Insights come one to a site, the first into each: what was there stays, and each entry is
/// among the results or there is another into its site.
pub proof fn entries_become_insights(
    v: Seq<KeepaView>,
    entries: Seq<json::JsonView>,
    k: int,
    now: int,
    i: int,
)
    requires
        0 <= i < k <= entries.len(),
    ensures
        ({
            let r = with_entries(v, entries, k, now);
            &&& exists|j: int|
                0 <= j < r.len() && (#[trigger] r[j]).domain == product_insight(
                    entries[i],
                    now,
                ).domain
            &&& forall|j: int|
                v.len() <= j < r.len() ==> exists|n: int|
                    0 <= n < k && #[trigger] r[j] == product_insight(#[trigger] entries[n], now)
            &&& v.len() <= r.len()
        }),
    decreases k,
{
    let before = with_entries(v, entries, k - 1, now);
    let r = with_entries(v, entries, k, now);
    let next = product_insight(entries[k - 1], now);
    if k > 1 {
        entries_become_insights(
            v,
            entries,
            k - 1,
            now,
            if i < k - 1 {
                i
            } else {
                0
            },
        );
    } else {
        assert(before == v);
    }
    if i < k - 1 {
        let d = product_insight(entries[i], now).domain;
        let j = choose|j: int| 0 <= j < before.len() && (#[trigger] before[j]).domain == d;
        assert(r[j] == before[j]);
    } else if into_site(before, next.domain) {
        let j = choose|j: int| 0 <= j < before.len() && (#[trigger] before[j]).domain == next.domain;
        assert(r[j] == before[j]);
    } else {
        assert(r[before.len() as int] == next);
    }
    assert forall|j: int| v.len() <= j < r.len() implies exists|n: int|
        0 <= n < k && #[trigger] r[j] == product_insight(#[trigger] entries[n], now) by {
        if j < before.len() {
            assert(r[j] == before[j]);
            let n = choose|n: int|
                0 <= n < k - 1 && before[j] == product_insight(#[trigger] entries[n], now);
            assert(r[j] == product_insight(entries[n], now));
        } else {
            assert(r[j] == product_insight(entries[k - 1], now));
        }
    }
}

/// After the first insight the other sites are asked for where they are wanted, and nothing
/// more is awaited where they are not; anything else is listened on for.
pub proof fn first_insights_are_acted_on(c: CollectorView, value: json::JsonView, now: int)
    ensures
        ({
            let entries = json::list_of(json::member(value, "basicProducts"@));
            let r = received(c, value, now);
            let first = entries is Some && !c.started && r.results.len() > 0;
            &&& r.compare == c.compare
            &&& r.started <==> c.started || first
            &&& first && c.compare ==> step_after(c, value, now) == Step::Compare
            &&& first && !c.compare ==> step_after(c, value, now) == Step::Stop
            &&& !first ==> step_after(c, value, now) == Step::Listen
            &&& entries is None ==> r.results == c.results
            &&& entries is Some ==> r.results == with_entries(
                c.results,
                entries->0,
                entries->0.len() as int,
                now,
            )
        }),
{
}

/// A message is read where it is of a frame that was received, has 1000 bytes of payload and
/// more, and these are a compressed frame in base 64 that holds JSON.
pub proof fn frames_are_read_from_sockets(s: Seq<char>)
    requires
        message_value(s) is Some,
    ensures
        ({
            let m = json::json_from_text(s);
            let data = json::text_of(
                json::member(
                    json::member(json::member(m->Ok_0, "params"@), "response"@),
                    "payloadData"@,
                ),
            );
            let b = codec::base64_bytes(data->0);
            let raw = codec::unpacked_bytes(b->0);
            &&& m is Ok
            &&& json::text_of(json::member(m->Ok_0, "method"@)) == Some(
                "Network.webSocketFrameReceived"@,
            )
            &&& data is Some
            &&& text::byte_len(data->0) >= 1000
            &&& b is Some
            &&& b->0.len() >= 4
            &&& b->0[0] == 0x28
            &&& b->0[1] == 0xb5
            &&& raw is Some
            &&& json::json_from_bytes(raw->0) is Ok
            &&& json::json_from_bytes(raw->0)->Ok_0 == message_value(s)->0
        }),
{
    let m = json::json_from_text(s);
    let data = json::text_of(
        json::member(json::member(json::member(m->Ok_0, "params"@), "response"@), "payloadData"@),
    );
    if data is None {
        assert(text::or_empty(data) =~= Seq::empty());
        assert(text::byte_len(Seq::<char>::empty()) == 0);
    }
}

/// The tabs that are closed are the pages of the site that have a name, and no others.
pub proof fn pages_of_the_site_are_closed(tabs: Seq<json::JsonView>, id: Seq<char>)
    ensures
        stale_tabs(tabs).contains(id) <==> exists|i: int|
            0 <= i < tabs.len() && json::text_of(json::member(#[trigger] tabs[i], "id"@)) == Some(id)
                && json::text_of(json::member(tabs[i], "type"@)) == Some("page"@) && text::has(
                text::or_empty(json::text_of(json::member(tabs[i], "url"@))),
                "keepa.com"@,
            ),
    decreases tabs.len(),
{
    if tabs.len() > 0 {
        let t = tabs.drop_last();
        let before = stale_tabs(t);
        let after = stale_tabs(tabs);
        pages_of_the_site_are_closed(t, id);
        assert(tabs.last() == tabs[tabs.len() - 1]);
        if before.contains(id) {
            let i = choose|i: int| 0 <= i < before.len() && before[i] == id;
            assert(after[i] == id);
            let j = choose|j: int|
                0 <= j < t.len() && json::text_of(json::member(#[trigger] t[j], "id"@)) == Some(id)
                    && keepa_tab(t[j]);
            assert(tabs[j] == t[j]);
        }
        if after.len() > before.len() {
            assert(after[before.len() as int] == after.last());
        }
        if after.contains(id) && !before.contains(id) {
            let i = choose|i: int| 0 <= i < after.len() && after[i] == id;
            if i < before.len() {
                assert(before[i] == id);
            }
            assert(keepa_tab(tabs[tabs.len() - 1]));
        }
        if exists|i: int|
            0 <= i < tabs.len() && json::text_of(json::member(#[trigger] tabs[i], "id"@)) == Some(id)
                && keepa_tab(tabs[i]) {
            let i = choose|i: int|
                0 <= i < tabs.len() && json::text_of(json::member(#[trigger] tabs[i], "id"@))
                    == Some(id) && keepa_tab(tabs[i]);
            if i < t.len() {
                assert(t[i] == tabs[i]);
            }
        }
    }
}

/// The socket is that of the first tab with the page of the product, and of any page of the
/// site only at the last attempt, where there is no other.
pub proof fn sockets_are_of_the_product_first(
    tabs: Seq<json::JsonView>,
    asin: Seq<char>,
    i: int,
)
    requires
        0 <= i < tabs.len(),
        product_tab(tabs[i], asin),
        forall|j: int| 0 <= j < i ==> !product_tab(#[trigger] tabs[j], asin),
        json::text_of(json::member(tabs[i], "webSocketDebuggerUrl"@)) is Some,
    ensures
        keepa_socket(tabs, asin, true) == json::text_of(
            json::member(tabs[i], "webSocketDebuggerUrl"@),
        ),
        keepa_socket(tabs, asin, false) == keepa_socket(tabs, asin, true),
{
    lemma_first_tab(tabs, asin, 0, i);
}

proof fn lemma_first_tab(tabs: Seq<json::JsonView>, asin: Seq<char>, k: int, i: int)
    requires
        0 <= k <= i < tabs.len(),
        product_tab(tabs[i], asin),
        forall|j: int| 0 <= j < i ==> !product_tab(#[trigger] tabs[j], asin),
    ensures
        first_tab(tabs, Some(asin), k) == tabs[i],
    decreases i - k,
{
    if k < i {
        lemma_first_tab(tabs, asin, k + 1, i);
    }
}

/// Times are told in minutes since the start of 2011.
pub proof fn minutes_count_from_2011(now: int)
    requires
        0 <= now,
    ensures
        60 * (keepa_minutes(now) + 21_564_000) <= now < 60 * (keepa_minutes(now) + 21_564_001),
{
}

/// Ratings are told in tenths.
pub proof fn ratings_are_told_in_tenths(n: i64)
    requires
        0 <= n <= 50,
    ensures
        tenths(Some(n)) == Some(decimal::dec(n as int, 1)),
        tenths(None) is None,
{
}

/// The numbers of a product's barcodes are the texts of its list, in their order.
pub proof fn barcodes_are_the_texts(v: Seq<json::JsonView>, s: Seq<char>)
    ensures
        texts_among(v).contains(s) <==> exists|i: int|
            0 <= i < v.len() && json::text_of(#[trigger] v[i]) == Some(s),
    decreases v.len(),
{
    if v.len() > 0 {
        let t = v.drop_last();
        let before = texts_among(t);
        let after = texts_among(v);
        barcodes_are_the_texts(t, s);
        assert(v.last() == v[v.len() - 1]);
        assert(forall|i: int| 0 <= i < t.len() ==> #[trigger] t[i] == v[i]);
        if before.contains(s) {
            let i = choose|i: int| 0 <= i < before.len() && before[i] == s;
            assert(after[i] == s);
            let j = choose|j: int| 0 <= j < t.len() && json::text_of(#[trigger] t[j]) == Some(s);
            assert(v[j] == t[j]);
        }
        if after.len() > before.len() {
            assert(after[before.len() as int] == after.last());
        }
        if after.contains(s) && !before.contains(s) {
            let i = choose|i: int| 0 <= i < after.len() && after[i] == s;
            if i < before.len() {
                assert(before[i] == s);
            }
            assert(json::text_of(v[v.len() - 1]) == Some(s));
        }
        if exists|i: int| 0 <= i < v.len() && json::text_of(#[trigger] v[i]) == Some(s) {
            let i = choose|i: int| 0 <= i < v.len() && json::text_of(#[trigger] v[i]) == Some(s);
            if i < t.len() {
                assert(json::text_of(t[i]) == Some(s));
            }
        }
    }
}

/// A trend is shown by an arrow that goes with it.
pub proof fn arrows_go_with_trends()
    ensures
        trend_arrow(PriceTrend::Falling) == "↓"@,
        trend_arrow(PriceTrend::Rising) == "↑"@,
        trend_arrow(PriceTrend::Stable) == "→"@,
{
}

} // verus!
