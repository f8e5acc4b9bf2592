//! Searching the stores and making one list of what they offer.

use vstd::prelude::*;

use crate::config::PechinchaConfig;
use crate::decimal;
use crate::decimal::Decimal;
use crate::keepa;
use crate::models;
use crate::models::{
    Currency, PriceInfo, Product, ProductCondition, SearchQuery, SortOrder, TaxInfo, TaxRegime,
};
use crate::order;
use crate::providers;
use crate::providers::ProviderId;
use crate::scoring;
use crate::scoring::Ratio;
use crate::tax;
use crate::tax::TaxCalculator;
use crate::text;

verus! {

/// The stores that are searched, the seconds to wait for each, and the port at which a
/// browser can be reached.
pub struct SearchOrchestrator {
    pub providers: Vec<ProviderId>,
    pub timeout: u64,
    pub cdp_port: Option<u16>,
}

/// `s` with a store at its end where it is to be searched.
pub open spec fn with_store(s: Seq<ProviderId>, p: ProviderId, searched: bool) -> Seq<ProviderId> {
    if searched {
        s.push(p)
    } else {
        s
    }
}

/// The stores that settings have searched: with a browser every store but Google
/// Shopping, which has to be asked for; without one those that are asked for.
pub open spec fn configured_stores(c: PechinchaConfig) -> Seq<ProviderId> {
    let all = c.general.cdp_port is Some;
    let p = c.providers;
    let s = Seq::<ProviderId>::empty();
    let s = with_store(s, ProviderId::MercadoLivre, p.mercadolivre.enabled || all);
    let s = with_store(s, ProviderId::AliExpress, p.aliexpress.enabled || all);
    let s = with_store(s, ProviderId::Shopee, p.shopee.enabled || all);
    let s = with_store(s, ProviderId::Amazon, p.amazon.enabled || all);
    let s = with_store(s, ProviderId::Kabum, p.kabum.enabled || all);
    let s = with_store(s, ProviderId::MagazineLuiza, p.magalu.enabled || all);
    let s = with_store(s, ProviderId::AmazonUS, p.amazon_us.enabled || all);
    let s = with_store(s, ProviderId::Olx, p.olx.enabled || all);
    let s = with_store(s, ProviderId::GoogleShopping, p.google_shopping.enabled);
    with_store(s, ProviderId::Ebay, p.ebay.enabled || all)
}

/// Those of the first `k` stores that a search is for: all of them where it names none.
pub open spec fn selected_stores(s: Seq<ProviderId>, platforms: Seq<ProviderId>, k: int) -> Seq<
    ProviderId,
>
    decreases k,
{
    if k <= 0 {
        Seq::empty()
    } else {
        with_store(
            selected_stores(s, platforms, k - 1),
            s[k - 1],
            platforms.len() == 0 || platforms.contains(s[k - 1]),
        )
    }
}

impl SearchOrchestrator {
    /// The stores that settings have searched.
    pub fn from_config(config: &PechinchaConfig) -> (r: SearchOrchestrator)
        ensures
            r.providers@ == configured_stores(*config),
            r.timeout == config.general.timeout_seconds,
            r.cdp_port == config.general.cdp_port,
    {
        let all = config.general.cdp_port.is_some();
        let p = &config.providers;
        let mut s: Vec<ProviderId> = Vec::new();
        if p.mercadolivre.enabled || all {
            s.push(ProviderId::MercadoLivre);
        }
        if p.aliexpress.enabled || all {
            s.push(ProviderId::AliExpress);
        }
        if p.shopee.enabled || all {
            s.push(ProviderId::Shopee);
        }
        if p.amazon.enabled || all {
            s.push(ProviderId::Amazon);
        }
        if p.kabum.enabled || all {
            s.push(ProviderId::Kabum);
        }
        if p.magalu.enabled || all {
            s.push(ProviderId::MagazineLuiza);
        }
        if p.amazon_us.enabled || all {
            s.push(ProviderId::AmazonUS);
        }
        if p.olx.enabled || all {
            s.push(ProviderId::Olx);
        }
        if p.google_shopping.enabled {
            s.push(ProviderId::GoogleShopping);
        }
        if p.ebay.enabled || all {
            s.push(ProviderId::Ebay);
        }
        SearchOrchestrator {
            providers: s,
            timeout: config.general.timeout_seconds,
            cdp_port: config.general.cdp_port,
        }
    }

    /// The stores that a search is for.
    pub fn active(&self, query: &SearchQuery) -> (r: Vec<ProviderId>)
        ensures
            r@ == selected_stores(
                self.providers@,
                query@.platforms,
                self.providers@.len() as int,
            ),
    {
        let mut out: Vec<ProviderId> = Vec::new();
        let mut k: usize = 0;
        while k < self.providers.len()
            invariant
                k <= self.providers@.len(),
                out@ == selected_stores(self.providers@, query@.platforms, k as int),
            decreases self.providers@.len() - k,
        {
            if query.platforms.len() == 0 || providers::holds(
                &query.platforms,
                self.providers[k],
            ) {
                out.push(self.providers[k]);
            }
            k = k + 1;
        }
        out
    }
}

// ---- Picking ----

/// The elements of the first `k` whose index is kept, in order.
pub open spec fn picked<A>(v: Seq<A>, k: int, keep: spec_fn(int) -> bool) -> Seq<A>
    decreases k,
{
    if k <= 0 {
        Seq::empty()
    } else if keep(k - 1) {
        picked(v, k - 1, keep).push(v[k - 1])
    } else {
        picked(v, k - 1, keep)
    }
}

/// Whether `x` is one of the first `k` elements whose index is kept.
pub open spec fn among<A>(v: Seq<A>, k: int, keep: spec_fn(int) -> bool, x: A) -> bool {
    exists|j: int| 0 <= j < k && keep(j) && #[trigger] v[j] == x
}

/// What holds of every element holds of those that are kept, of each of which there is
/// one in the first `k`, and their order stays.
pub proof fn lemma_picked<A>(
    v: Seq<A>,
    k: int,
    keep: spec_fn(int) -> bool,
    p: spec_fn(A) -> bool,
    le: spec_fn(A, A) -> bool,
)
    requires
        0 <= k <= v.len(),
        forall|i: int| 0 <= i < k && keep(i) ==> p(#[trigger] v[i]),
        order::ordered(v, le),
    ensures
        forall|i: int| 0 <= i < picked(v, k, keep).len() ==> p(#[trigger] picked(v, k, keep)[i]),
        forall|i: int|
            0 <= i < picked(v, k, keep).len() ==> among(
                v,
                k,
                keep,
                #[trigger] picked(v, k, keep)[i],
            ),
        order::ordered(picked(v, k, keep), le),
    decreases k,
{
    if k > 0 {
        lemma_picked(v, k - 1, keep, p, le);
        let before = picked(v, k - 1, keep);
        let after = picked(v, k, keep);
        assert forall|i: int| 0 <= i < after.len() implies among(
            v,
            k,
            keep,
            #[trigger] after[i],
        ) by {
            if i < before.len() {
                assert(after[i] == before[i]);
                assert(among(v, k - 1, keep, before[i]));
                let j = choose|j: int|
                    0 <= j < k - 1 && keep(j) && #[trigger] v[j] == before[i];
                assert(v[j] == after[i]);
            } else {
                assert(v[k - 1] == after[i]);
            }
        }
        assert forall|i: int, j: int| 0 <= i <= j < after.len() implies #[trigger] le(
            after[i],
            after[j],
        ) by {
            if j < before.len() {
                assert(le(before[i], before[j]));
            } else {
                assert(among(v, k, keep, after[i]));
                let a = choose|a: int| 0 <= a < k && keep(a) && #[trigger] v[a] == after[i];
                assert(le(v[a], v[k - 1]));
            }
        }
    }
}

/// The products that are flagged.
pub(crate) fn pick(products: Vec<Product>, flags: &Vec<bool>) -> (r: Vec<Product>)
    requires
        flags@.len() == products@.len(),
    ensures
        models::product_views(r@) == picked(
            models::product_views(products@),
            products@.len() as int,
            |i: int| flags@[i],
        ),
{
    let ghost all = models::product_views(products@);
    let ghost keep = |i: int| flags@[i];
    let mut out: Vec<Product> = Vec::new();
    let mut i: usize = 0;
    assert(models::product_views(out@) =~= Seq::empty());
    while i < products.len()
        invariant
            i <= products@.len() == flags@.len(),
            all == models::product_views(products@),
            keep == (|i: int| flags@[i]),
            models::product_views(out@) == picked(all, i as int, keep),
        decreases products@.len() - i,
    {
        assert(all[i as int] == products@[i as int]@);
        let ghost so_far = out@;
        if flags[i] {
            let p = products[i].clone();
            out.push(p);
            proof {
                providers::lemma_product_push(so_far, p);
            }
        }
        i = i + 1;
    }
    out
}

/// Picking goes by the flags alone.
pub proof fn lemma_picked_same<A>(
    v: Seq<A>,
    k: int,
    a: spec_fn(int) -> bool,
    b: spec_fn(int) -> bool,
)
    requires
        forall|i: int| 0 <= i < k ==> #[trigger] a(i) == b(i),
    ensures
        picked(v, k, a) == picked(v, k, b),
    decreases k,
{
    if k > 0 {
        lemma_picked_same(v, k - 1, a, b);
        assert(a(k - 1) == b(k - 1));
    }
}

/// The products of which something holds.
pub open spec fn filtered(
    v: Seq<models::ProductView>,
    p: spec_fn(models::ProductView) -> bool,
) -> Seq<models::ProductView> {
    picked(v, v.len() as int, |i: int| p(v[i]))
}

// ---- Costs ----

/// The price of a product in reais.
pub open spec fn brl_price(p: PriceInfo, rate: Decimal) -> Option<Decimal> {
    if p.currency == Currency::USD {
        decimal::product(p.listed_price, rate)
    } else {
        Some(p.price_brl)
    }
}

/// The taxes on a product: worked out where its price does not hold them, or where the
/// regime is not known.
pub open spec fn product_tax(p: models::ProductView, brl: Decimal, rate: Decimal) -> Option<
    TaxInfo,
> {
    let t = p.price.tax;
    if !t.taxes_included || t.tax_regime == TaxRegime::Unknown {
        tax::assessed(
            if p.price.currency == Currency::USD {
                Some(p.price.listed_price)
            } else {
                None
            },
            brl,
            p.domestic,
            t.remessa_conforme,
            t.taxes_included,
            rate,
        )
    } else {
        Some(t)
    }
}

/// What shipping costs in reais.
pub open spec fn brl_shipping(p: PriceInfo, rate: Decimal) -> Option<Option<Decimal>> {
    if p.shipping_cost is Some && p.shipping_currency == Currency::USD {
        match decimal::product(p.shipping_cost->0, rate) {
            Some(brl) => Some(Some(brl)),
            None => None,
        }
    } else {
        Some(p.shipping_cost)
    }
}

/// A price with its shipping and its taxes.
pub open spec fn total_of(brl: Decimal, shipping: Option<Decimal>, t: TaxInfo) -> Option<Decimal> {
    decimal::sums(decimal::sum(brl, providers::or_nothing(shipping)), Some(t.total_tax))
}

/// A product with its price and its shipping in reais, its taxes and what it costs in
/// all, or `None` where an amount on the way is too large to be held or is divided by a rate of nothing.
pub open spec fn costed(p: models::ProductView, rate: Decimal) -> Option<models::ProductView> {
    match (brl_price(p.price, rate), brl_shipping(p.price, rate)) {
        (Some(brl), Some(shipping)) => match product_tax(p, brl, rate) {
            Some(t) => match total_of(brl, shipping, t) {
                Some(total) => Some(
                    models::ProductView {
                        price: PriceInfo {
                            price_brl: brl,
                            shipping_cost: shipping,
                            shipping_currency: Currency::BRL,
                            tax: t,
                            total_cost: total,
                            ..p.price
                        },
                        ..p
                    },
                ),
                None => None,
            },
            None => None,
        },
        _ => None,
    }
}

/// The first `k` products with what they cost.
pub open spec fn all_costed(v: Seq<models::ProductView>, k: int, rate: Decimal) -> Option<
    Seq<models::ProductView>,
>
    decreases k,
{
    if k <= 0 {
        Some(Seq::empty())
    } else {
        match (all_costed(v, k - 1, rate), costed(v[k - 1], rate)) {
            (Some(before), Some(p)) => Some(before.push(p)),
            _ => None,
        }
    }
}

proof fn lemma_not_costed(v: Seq<models::ProductView>, i: int, k: int, rate: Decimal)
    requires
        0 <= i <= k,
        all_costed(v, i, rate) is None,
    ensures
        all_costed(v, k, rate) is None,
    decreases k - i,
{
    if i < k {
        lemma_not_costed(v, i, k - 1, rate);
    }
}

fn ship_in_brl(p: &PriceInfo, rate: Decimal) -> (r: Option<Option<Decimal>>)
    ensures
        r == brl_shipping(*p, rate),
{
    match p.shipping_cost {
        Some(s) => if p.shipping_currency == Currency::USD {
            match s.checked_mul(&rate) {
                Some(brl) => Some(Some(brl)),
                None => None,
            }
        } else {
            Some(Some(s))
        },
        None => Some(None),
    }
}

/// A product with its price and its shipping in reais, its taxes and what it costs in
/// all.
pub fn work_out_cost(p: Product, rate: Decimal) -> (r: Option<Product>)
    ensures
        providers::offer_view(r) == costed(p@, rate),
{
    let brl = if p.price.currency == Currency::USD {
        match p.price.listed_price.checked_mul(&rate) {
            Some(b) => b,
            None => {
                return None;
            },
        }
    } else {
        p.price.price_brl
    };
    let shipping = match ship_in_brl(&p.price, rate) {
        Some(s) => s,
        None => {
            return None;
        },
    };
    let old = p.price.tax;
    let t = if !old.taxes_included || old.tax_regime == TaxRegime::Unknown {
        let price_usd = if p.price.currency == Currency::USD {
            Some(p.price.listed_price)
        } else {
            None
        };
        match TaxCalculator::try_calculate(
            price_usd,
            brl,
            p.domestic,
            old.remessa_conforme,
            old.taxes_included,
            rate,
        ) {
            Some(t) => t,
            None => {
                return None;
            },
        }
    } else {
        old
    };
    let shipped = brl.checked_add(&providers::else_nothing(shipping));
    match decimal::plus(shipped, Some(t.total_tax)) {
        Some(total) => {
            let price = PriceInfo {
                price_brl: brl,
                shipping_cost: shipping,
                shipping_currency: Currency::BRL,
                tax: t,
                total_cost: total,
                ..p.price
            };
            Some(Product { price, ..p })
        },
        None => None,
    }
}

/// The products with what they cost, or `None` where an amount on the way is too large
/// to be held or is divided by a rate of nothing.
pub fn apply_costs(products: &Vec<Product>, rate: Decimal) -> (r: Option<Vec<Product>>)
    ensures
        match r {
            Some(v) => all_costed(
                models::product_views(products@),
                products@.len() as int,
                rate,
            ) == Some(models::product_views(v@)),
            None => all_costed(
                models::product_views(products@),
                products@.len() as int,
                rate,
            ) is None,
        },
{
    let ghost all = models::product_views(products@);
    let mut out: Vec<Product> = Vec::new();
    let mut i: usize = 0;
    assert(models::product_views(out@) =~= Seq::empty());
    while i < products.len()
        invariant
            i <= products@.len(),
            all == models::product_views(products@),
            all_costed(all, i as int, rate) == Some(models::product_views(out@)),
        decreases products@.len() - i,
    {
        assert(all[i as int] == products@[i as int]@);
        let ghost so_far = out@;
        match work_out_cost(products[i].clone(), rate) {
            Some(p) => {
                out.push(p);
                proof {
                    providers::lemma_product_push(so_far, p);
                }
            },
            None => {
                proof {
                    lemma_not_costed(all, i + 1, products@.len() as int, rate);
                }
                return None;
            },
        }
        i = i + 1;
    }
    Some(out)
}

// ---- Relevance ----

/// The price that the manufacturer asks, as the first of some products, from the `i`-th
/// on, tells it that insights were found for.
pub open spec fn anchor_price(v: Seq<models::ProductView>, i: int) -> Option<Decimal>
    decreases v.len() - i,
{
    if i < 0 || i >= v.len() {
        None
    } else if v[i].keepa.len() > 0 && v[i].price.original_price is Some {
        v[i].price.original_price
    } else {
        anchor_price(v, i + 1)
    }
}

/// What some products cost in all.
pub open spec fn totals(v: Seq<models::ProductView>) -> Seq<Decimal> {
    Seq::new(v.len(), |i: int| v[i].price.total_cost)
}

/// Whether the `i`-th of some products scores enough to be kept.
pub open spec fn relevant_at(
    v: Seq<models::ProductView>,
    query: Seq<char>,
    msrp: Option<Decimal>,
    i: int,
) -> bool {
    scoring::relevance(
        v[i].title,
        query,
        scoring::cluster_scores(totals(v), msrp)[i],
        scoring::cluster_gap(totals(v), msrp),
    ) >= scoring::RELEVANT_THRESHOLD
}

/// The products that score enough to be kept.
pub open spec fn relevant(
    v: Seq<models::ProductView>,
    query: Seq<char>,
    msrp: Option<Decimal>,
) -> Seq<models::ProductView> {
    picked(v, v.len() as int, |i: int| relevant_at(v, query, msrp, i))
}

/// The products whose titles hold every telling word of a search.
pub open spec fn matched(v: Seq<models::ProductView>, query: Seq<char>) -> Seq<
    models::ProductView,
> {
    filtered(v, |p: models::ProductView| scoring::matching(p.title, query))
}

fn find_anchor(v: &Vec<Product>) -> (r: Option<Decimal>)
    ensures
        r == anchor_price(models::product_views(v@), 0),
{
    let ghost all = models::product_views(v@);
    let mut i: usize = 0;
    while i < v.len()
        invariant
            i <= v@.len(),
            all == models::product_views(v@),
            anchor_price(all, 0) == anchor_price(all, i as int),
        decreases v@.len() - i,
    {
        assert(all[i as int] == v@[i as int]@);
        assert(all[i as int].keepa.len() == v@[i as int].keepa@.len());
        if v[i].keepa.len() > 0 && v[i].price.original_price.is_some() {
            return v[i].price.original_price;
        }
        i = i + 1;
    }
    None
}

/// The products whose titles hold every telling word of a search.
pub fn keep_matched(v: Vec<Product>, query: &str) -> (r: Vec<Product>)
    ensures
        models::product_views(r@) == matched(models::product_views(v@), query@),
{
    let ghost all = models::product_views(v@);
    let ghost keep = |i: int| scoring::matching(all[i].title, query@);
    let mut flags: Vec<bool> = Vec::new();
    let mut i: usize = 0;
    while i < v.len()
        invariant
            i <= v@.len(),
            all == models::product_views(v@),
            flags@.len() == i,
            forall|k: int|
                0 <= k < i ==> #[trigger] flags@[k] == scoring::matching(all[k].title, query@),
        decreases v@.len() - i,
    {
        assert(all[i as int] == v@[i as int]@);
        flags.push(scoring::tokens_match(v[i].title.as_str(), query));
        i = i + 1;
    }
    proof {
        let p = |p: models::ProductView| scoring::matching(p.title, query@);
        lemma_picked_same(all, all.len() as int, |i: int| flags@[i], |i: int| p(all[i]));
    }
    pick(v, &flags)
}

/// The products that score enough to be kept.
pub fn keep_relevant(v: Vec<Product>, query: &str, msrp: Option<Decimal>) -> (r: Vec<Product>)
    ensures
        models::product_views(r@) == relevant(models::product_views(v@), query@, msrp),
{
    let ghost all = models::product_views(v@);
    let mut prices: Vec<Decimal> = Vec::new();
    let mut i: usize = 0;
    while i < v.len()
        invariant
            i <= v@.len(),
            all == models::product_views(v@),
            prices@.len() == i,
            forall|k: int| 0 <= k < i ==> #[trigger] prices@[k] == all[k].price.total_cost,
        decreases v@.len() - i,
    {
        assert(all[i as int] == v@[i as int]@);
        prices.push(v[i].price.total_cost);
        i = i + 1;
    }
    assert(prices@ =~= totals(all));
    let (scores, gap): (Vec<u64>, Ratio) = scoring::price_cluster_scores(prices.as_slice(), msrp);
    let ghost want = scoring::cluster_scores(totals(all), msrp);
    assert(want.len() == all.len());
    assert(scoring::score_views(scores@).len() == scores@.len());
    let mut flags: Vec<bool> = Vec::new();
    let mut k: usize = 0;
    while k < v.len()
        invariant
            k <= v@.len(),
            all == models::product_views(v@),
            all.len() == v@.len(),
            scores@.len() == v@.len(),
            scoring::score_views(scores@) == want,
            want == scoring::cluster_scores(totals(all), msrp),
            gap@ == scoring::cluster_gap(totals(all), msrp),
            flags@.len() == k,
            forall|j: int|
                0 <= j < k ==> #[trigger] flags@[j] == relevant_at(all, query@, msrp, j),
        decreases v@.len() - k,
    {
        assert(all[k as int] == v@[k as int]@);
        assert(want[k as int] == scores@[k as int]);
        let score = scoring::score_product(v[k].title.as_str(), query, scores[k], gap);
        flags.push(score.total >= scoring::RELEVANT_THRESHOLD);
        k = k + 1;
    }
    proof {
        lemma_picked_same(
            all,
            all.len() as int,
            |i: int| flags@[i],
            |i: int| relevant_at(all, query@, msrp, i),
        );
    }
    pick(v, &flags)
}

// ---- Filters ----

/// Whether a product lies within the prices asked for and is in the condition asked
/// for, or in one that is not known.
pub open spec fn fits(p: models::ProductView, q: models::QueryView) -> bool {
    &&& q.min_price is Some ==> decimal::at_most(q.min_price->0, p.price.total_cost)
    &&& q.max_price is Some ==> decimal::at_most(p.price.total_cost, q.max_price->0)
    &&& q.condition is Some ==> p.condition == q.condition->0 || p.condition
        == ProductCondition::Unknown
}

fn does_fit(p: &Product, q: &SearchQuery) -> (r: bool)
    ensures
        r == fits(p@, q@),
{
    let low = match q.min_price {
        Some(m) => m.le(&p.price.total_cost),
        None => true,
    };
    let high = match q.max_price {
        Some(m) => p.price.total_cost.le(&m),
        None => true,
    };
    let condition = match q.condition {
        Some(c) => p.condition == c || p.condition == ProductCondition::Unknown,
        None => true,
    };
    low && high && condition
}

/// The products that lie within the prices asked for and are in the condition asked
/// for.
pub fn keep_fitting(v: Vec<Product>, q: &SearchQuery) -> (r: Vec<Product>)
    ensures
        models::product_views(r@) == filtered(
            models::product_views(v@),
            |p: models::ProductView| fits(p, q@),
        ),
{
    let ghost all = models::product_views(v@);
    let mut flags: Vec<bool> = Vec::new();
    let mut i: usize = 0;
    while i < v.len()
        invariant
            i <= v@.len(),
            all == models::product_views(v@),
            flags@.len() == i,
            forall|k: int| 0 <= k < i ==> #[trigger] flags@[k] == fits(all[k], q@),
        decreases v@.len() - i,
    {
        assert(all[i as int] == v@[i as int]@);
        flags.push(does_fit(&v[i], q));
        i = i + 1;
    }
    proof {
        let p = |p: models::ProductView| fits(p, q@);
        lemma_picked_same(all, all.len() as int, |i: int| flags@[i], |i: int| p(all[i]));
    }
    pick(v, &flags)
}

/// Whether a product has a price.
pub open spec fn has_price(p: models::ProductView) -> bool {
    p.price.listed_price@.mantissa > 0
}

/// The products that have a price.
pub fn keep_priced(v: Vec<Product>) -> (r: Vec<Product>)
    ensures
        models::product_views(r@) == filtered(
            models::product_views(v@),
            |p: models::ProductView| has_price(p),
        ),
{
    let ghost all = models::product_views(v@);
    let mut flags: Vec<bool> = Vec::new();
    let mut i: usize = 0;
    while i < v.len()
        invariant
            i <= v@.len(),
            all == models::product_views(v@),
            flags@.len() == i,
            forall|k: int| 0 <= k < i ==> #[trigger] flags@[k] == has_price(all[k]),
        decreases v@.len() - i,
    {
        assert(all[i as int] == v@[i as int]@);
        flags.push(v[i].price.listed_price.is_positive());
        i = i + 1;
    }
    proof {
        let p = |p: models::ProductView| has_price(p);
        lemma_picked_same(all, all.len() as int, |i: int| flags@[i], |i: int| p(all[i]));
    }
    pick(v, &flags)
}

// ---- Order ----

/// The rating of a product, and nothing where it has none.
pub open spec fn rating_of(p: models::ProductView) -> Decimal {
    providers::or_nothing(p.rating)
}

/// Whether a product may stand before another in an order.
pub open spec fn may_precede(a: models::ProductView, b: models::ProductView, sort: SortOrder) -> bool {
    match sort {
        SortOrder::TotalCost => decimal::at_most(a.price.total_cost, b.price.total_cost),
        SortOrder::PriceAsc => decimal::at_most(a.price.total_cost, b.price.total_cost),
        SortOrder::PriceDesc => decimal::at_most(b.price.total_cost, a.price.total_cost),
        SortOrder::Rating => decimal::at_most(rating_of(b), rating_of(a)),
        SortOrder::Relevance => true,
    }
}

/// An order of products.
pub open spec fn product_order(sort: SortOrder) -> spec_fn(
    models::ProductView,
    models::ProductView,
) -> bool {
    |a: models::ProductView, b: models::ProductView| may_precede(a, b, sort)
}

fn precedes(a: &Product, b: &Product, sort: SortOrder) -> (r: bool)
    ensures
        r == may_precede(a@, b@, sort),
{
    match sort {
        SortOrder::TotalCost => a.price.total_cost.le(&b.price.total_cost),
        SortOrder::PriceAsc => a.price.total_cost.le(&b.price.total_cost),
        SortOrder::PriceDesc => b.price.total_cost.le(&a.price.total_cost),
        SortOrder::Rating => providers::else_nothing(b.rating).le(
            &providers::else_nothing(a.rating),
        ),
        SortOrder::Relevance => true,
    }
}

/// The products in an order, those that are equal in it as they were.
pub fn sort_products(v: &Vec<Product>, sort: SortOrder) -> (r: Vec<Product>)
    ensures
        models::product_views(r@) == order::sorted(
            models::product_views(v@),
            product_order(sort),
        ),
{
    let ghost all = models::product_views(v@);
    let ghost le = product_order(sort);
    let mut out: Vec<Product> = Vec::new();
    let mut i: usize = 0;
    assert(models::product_views(out@) =~= Seq::empty());
    assert(all.take(0) =~= Seq::empty());
    while i < v.len()
        invariant
            i <= v@.len(),
            all == models::product_views(v@),
            le == product_order(sort),
            models::product_views(out@) == order::sorted(all.take(i as int), le),
        decreases v@.len() - i,
    {
        assert(all[i as int] == v@[i as int]@);
        let x = v[i].clone();
        let ghost placed = models::product_views(out@);
        let mut k: usize = out.len();
        while k > 0 && !precedes(&out[k - 1], &x, sort)
            invariant
                k <= out@.len(),
                placed == models::product_views(out@),
                le == product_order(sort),
                forall|j: int| k <= j < out@.len() ==> !#[trigger] le(placed[j], x@),
            decreases k,
        {
            assert(placed[k - 1] == out@[k - 1]@);
            k = k - 1;
        }
        proof {
            assert(all.take(i + 1).drop_last() =~= all.take(i as int));
            if k > 0 {
                assert(placed[k - 1] == out@[k - 1]@);
                assert(le(placed[k - 1], x@));
            }
            order::lemma_inserted(placed, x@, le, k as int);
            assert(models::product_views(out@.insert(k as int, x)) =~= placed.insert(
                k as int,
                x@,
            ));
        }
        out.insert(k, x);
        i = i + 1;
    }
    assert(all.take(i as int) =~= all);
    out
}

// ---- Duplicates ----

/// Whether a character is one that listings use to set words apart.
pub open spec fn separator(c: char) -> bool {
    c == ':' || c == '-' || c == '(' || c == ')' || c == ',' || c == '.' || c == '!' || c == '/' || c
        == '|'
}

/// A text with a space for each character that sets words apart.
pub open spec fn unseparated(s: Seq<char>) -> Seq<char> {
    Seq::new(
        s.len(),
        |i: int|
            if separator(s[i]) {
                ' '
            } else {
                s[i]
            },
    )
}

/// A text without the words by which listings of one product differ: voltages and the
/// commonest colours.
pub open spec fn without_variants(s: Seq<char>) -> Seq<char> {
    let s = text::replaced(s, "bivolt"@, ""@);
    let s = text::replaced(s, "110v"@, ""@);
    let s = text::replaced(s, "220v"@, ""@);
    let s = text::replaced(s, "preto"@, ""@);
    let s = text::replaced(s, "black"@, ""@);
    let s = text::replaced(s, "branco"@, ""@);
    text::replaced(s, "white"@, ""@)
}

/// What is left of a title to tell two listings of one product by.
pub open spec fn plain_title(title: Seq<char>) -> Seq<char> {
    text::joined(
        text::words(without_variants(unseparated(text::lowered(title)))),
        " "@,
    )
}

fn unseparate(s: &str) -> (r: String)
    ensures
        r@ == unseparated(s@),
{
    let chars = text::chars_of(s);
    let mut out = String::new();
    let mut i: usize = 0;
    while i < chars.len()
        invariant
            i <= chars@.len(),
            chars@ == s@,
            out@ == unseparated(s@).take(i as int),
        decreases chars@.len() - i,
    {
        let c = chars[i];
        let gap = c == ':' || c == '-' || c == '(' || c == ')' || c == ',' || c == '.' || c == '!'
            || c == '/' || c == '|';
        proof {
            assert(unseparated(s@).take(i + 1) =~= unseparated(s@).take(i as int).push(
                unseparated(s@)[i as int],
            ));
        }
        out.push(if gap { ' ' } else { c });
        i = i + 1;
    }
    assert(unseparated(s@).take(i as int) =~= unseparated(s@));
    out
}

/// What is left of a title to tell two listings of one product by: in lower case, without
/// punctuation, voltages and the commonest colours, and with single spaces.
pub fn normalize_for_dedup(title: &str) -> (r: String)
    ensures
        r@ == plain_title(title@),
{
    let lower = text::lowercase(title);
    let s = unseparate(lower.as_str());
    let s = text::replace(s.as_str(), "bivolt", "");
    let s = text::replace(s.as_str(), "110v", "");
    let s = text::replace(s.as_str(), "220v", "");
    let s = text::replace(s.as_str(), "preto", "");
    let s = text::replace(s.as_str(), "black", "");
    let s = text::replace(s.as_str(), "branco", "");
    let s = text::replace(s.as_str(), "white", "");
    let words = text::split_words(s.as_str());
    text::join(&words, " ")
}

/// Whether two products are of one store and have one number there.
pub open spec fn same_number(a: models::ProductView, b: models::ProductView) -> bool {
    a.provider == b.provider && a.platform_id == b.platform_id
}

/// Whether two products are of one store and their titles come down to the same.
pub open spec fn same_title(a: models::ProductView, b: models::ProductView) -> bool {
    a.provider == b.provider && plain_title(a.title) == plain_title(b.title)
}

/// Whether the `j`-th product costs less than the `i`-th, or as much and stands before it.
pub open spec fn sooner(v: Seq<models::ProductView>, j: int, i: int) -> bool {
    decimal::below(v[j].price.total_cost, v[i].price.total_cost) || (!decimal::below(
        v[i].price.total_cost,
        v[j].price.total_cost,
    ) && j < i)
}

/// Whether no cheaper product than the `i`-th has its number, if it has one.
pub open spec fn new_number(v: Seq<models::ProductView>, i: int) -> bool {
    v[i].platform_id.len() == 0 || forall|j: int|
        0 <= j < v.len() && sooner(v, j, i) ==> !same_number(#[trigger] v[j], v[i])
}

/// Whether no cheaper product than the `i`-th that is the cheapest with its own number
/// has its title, if anything of the title is left.
pub open spec fn new_title(v: Seq<models::ProductView>, i: int) -> bool {
    plain_title(v[i].title).len() == 0 || forall|j: int|
        0 <= j < v.len() && sooner(v, j, i) && new_number(v, j) ==> !same_title(
            #[trigger] v[j],
            v[i],
        )
}

/// The products of which no cheaper one is a listing too.
pub open spec fn unique(v: Seq<models::ProductView>) -> Seq<models::ProductView> {
    picked(v, v.len() as int, |i: int| new_number(v, i) && new_title(v, i))
}

fn is_sooner(v: &Vec<Product>, j: usize, i: usize) -> (r: bool)
    requires
        j < v@.len(),
        i < v@.len(),
    ensures
        r == sooner(models::product_views(v@), j as int, i as int),
{
    let ghost all = models::product_views(v@);
    assert(all[i as int] == v@[i as int]@);
    assert(all[j as int] == v@[j as int]@);
    v[j].price.total_cost.lt(&v[i].price.total_cost) || (!v[i].price.total_cost.lt(
        &v[j].price.total_cost,
    ) && j < i)
}

fn is_new_number(v: &Vec<Product>, i: usize) -> (r: bool)
    requires
        i < v@.len(),
    ensures
        r == new_number(models::product_views(v@), i as int),
{
    let ghost all = models::product_views(v@);
    assert(all[i as int] == v@[i as int]@);
    if text::text_bytes(v[i].platform_id.as_str()) == 0 {
        return true;
    }
    let mut j: usize = 0;
    while j < v.len()
        invariant
            i < v@.len(),
            j <= v@.len(),
            all == models::product_views(v@),
            all[i as int].platform_id.len() > 0,
            forall|k: int|
                0 <= k < j && sooner(all, k, i as int) ==> !same_number(
                    #[trigger] all[k],
                    all[i as int],
                ),
        decreases v@.len() - j,
    {
        assert(all[j as int] == v@[j as int]@);
        assert(all[i as int] == v@[i as int]@);
        if is_sooner(v, j, i) && v[j].provider == v[i].provider && text::same_text(
            v[j].platform_id.as_str(),
            v[i].platform_id.as_str(),
        ) {
            assert(same_number(all[j as int], all[i as int]));
            return false;
        }
        j = j + 1;
    }
    true
}

fn is_new_title(v: &Vec<Product>, titles: &Vec<String>, fresh: &Vec<bool>, i: usize) -> (r: bool)
    requires
        i < v@.len(),
        titles@.len() == v@.len(),
        fresh@.len() == v@.len(),
        forall|k: int| 0 <= k < v@.len() ==> (#[trigger] titles@[k])@ == plain_title(v@[k]@.title),
        forall|k: int|
            0 <= k < v@.len() ==> #[trigger] fresh@[k] == new_number(
                models::product_views(v@),
                k,
            ),
    ensures
        r == new_title(models::product_views(v@), i as int),
{
    let ghost all = models::product_views(v@);
    assert(all[i as int] == v@[i as int]@);
    if text::text_bytes(titles[i].as_str()) == 0 {
        return true;
    }
    let mut j: usize = 0;
    while j < v.len()
        invariant
            i < v@.len(),
            j <= v@.len(),
            titles@.len() == v@.len(),
            fresh@.len() == v@.len(),
            all == models::product_views(v@),
            plain_title(all[i as int].title).len() > 0,
            forall|k: int|
                0 <= k < v@.len() ==> (#[trigger] titles@[k])@ == plain_title(v@[k]@.title),
            forall|k: int| 0 <= k < v@.len() ==> #[trigger] fresh@[k] == new_number(all, k),
            forall|k: int|
                0 <= k < j && sooner(all, k, i as int) && new_number(all, k) ==> !same_title(
                    #[trigger] all[k],
                    all[i as int],
                ),
        decreases v@.len() - j,
    {
        assert(all[j as int] == v@[j as int]@);
        assert(all[i as int] == v@[i as int]@);
        if fresh[j] && is_sooner(v, j, i) && v[j].provider == v[i].provider && text::same_text(
            titles[j].as_str(),
            titles[i].as_str(),
        ) {
            assert(same_title(all[j as int], all[i as int]));
            return false;
        }
        j = j + 1;
    }
    true
}

/// The products without those that a cheaper one of the same store is a listing of too:
/// one with the same number, or one whose title comes down to the same. Of two that cost
/// the same the earlier one stays.
pub fn deduplicate_products(v: Vec<Product>) -> (r: Vec<Product>)
    ensures
        models::product_views(r@) == unique(models::product_views(v@)),
{
    let ghost all = models::product_views(v@);
    let mut titles: Vec<String> = Vec::new();
    let mut fresh: Vec<bool> = Vec::new();
    let mut i: usize = 0;
    while i < v.len()
        invariant
            i <= v@.len(),
            all == models::product_views(v@),
            titles@.len() == i,
            fresh@.len() == i,
            forall|k: int| 0 <= k < i ==> (#[trigger] titles@[k])@ == plain_title(v@[k]@.title),
            forall|k: int| 0 <= k < i ==> #[trigger] fresh@[k] == new_number(all, k),
        decreases v@.len() - i,
    {
        titles.push(normalize_for_dedup(v[i].title.as_str()));
        fresh.push(is_new_number(&v, i));
        i = i + 1;
    }
    let mut flags: Vec<bool> = Vec::new();
    let mut k: usize = 0;
    while k < v.len()
        invariant
            k <= v@.len(),
            all == models::product_views(v@),
            titles@.len() == v@.len(),
            fresh@.len() == v@.len(),
            forall|j: int|
                0 <= j < v@.len() ==> (#[trigger] titles@[j])@ == plain_title(v@[j]@.title),
            forall|j: int| 0 <= j < v@.len() ==> #[trigger] fresh@[j] == new_number(all, j),
            flags@.len() == k,
            forall|j: int|
                0 <= j < k ==> #[trigger] flags@[j] == (new_number(all, j) && new_title(all, j)),
        decreases v@.len() - k,
    {
        flags.push(fresh[k] && is_new_title(&v, &titles, &fresh, k));
        k = k + 1;
    }
    proof {
        lemma_picked_same(
            all,
            all.len() as int,
            |i: int| flags@[i],
            |i: int| new_number(all, i) && new_title(all, i),
        );
    }
    pick(v, &flags)
}

// ---- Results of each store ----

/// How many of the first `k` products are of a store.
pub open spec fn of_store(v: Seq<models::ProductView>, p: ProviderId, k: int) -> int
    decreases k,
{
    if k <= 0 {
        0
    } else {
        of_store(v, p, k - 1) + if v[k - 1].provider == p {
            1int
        } else {
            0
        }
    }
}

/// At most so many products of each store, the first of each; all of them where 50 or
/// more are asked for.
pub open spec fn limited(v: Seq<models::ProductView>, max: int) -> Seq<models::ProductView> {
    if max < 50 {
        picked(v, v.len() as int, |i: int| of_store(v, v[i].provider, i + 1) <= max)
    } else {
        v
    }
}

fn count_store(v: &Vec<Product>, p: ProviderId, k: usize) -> (r: usize)
    requires
        k <= v@.len(),
    ensures
        r == of_store(models::product_views(v@), p, k as int),
        r <= k,
{
    let ghost all = models::product_views(v@);
    let mut n: usize = 0;
    let mut i: usize = 0;
    while i < k
        invariant
            i <= k <= v@.len(),
            all == models::product_views(v@),
            n == of_store(all, p, i as int),
            n <= i,
        decreases k - i,
    {
        assert(all[i as int] == v@[i as int]@);
        if v[i].provider == p {
            n = n + 1;
        }
        i = i + 1;
    }
    n
}

/// At most so many products of each store, the first of each; all of them where 50 or
/// more are asked for.
pub fn limit_stores(v: Vec<Product>, max: usize) -> (r: Vec<Product>)
    ensures
        models::product_views(r@) == limited(models::product_views(v@), max as int),
{
    if max >= 50 {
        return v;
    }
    let ghost all = models::product_views(v@);
    let mut flags: Vec<bool> = Vec::new();
    let size: usize = v.len();
    let mut i: usize = 0;
    while i < size
        invariant
            i <= size == v@.len(),
            all == models::product_views(v@),
            flags@.len() == i,
            forall|k: int|
                0 <= k < i ==> #[trigger] flags@[k] == (of_store(all, all[k].provider, k + 1)
                    <= max),
        decreases size - i,
    {
        assert(all[i as int] == v@[i as int]@);
        flags.push(count_store(&v, v[i].provider, i + 1) <= max);
        i = i + 1;
    }
    proof {
        lemma_picked_same(
            all,
            all.len() as int,
            |i: int| flags@[i],
            |i: int| of_store(all, all[i].provider, i + 1) <= max,
        );
    }
    pick(v, &flags)
}

// ---- Missing prices ----

/// The Amazon site that a store is, or that stands for it: the Brazilian one for the
/// Brazilian Amazon, else the American one.
pub open spec fn own_domain(p: ProviderId) -> u8 {
    if p == ProviderId::Amazon {
        keepa::DOMAIN_BR
    } else {
        keepa::DOMAIN_US
    }
}

/// The Amazon site that a store is, or that stands for it.
pub fn site_for(p: ProviderId) -> (r: u8)
    ensures
        r == own_domain(p),
{
    if p == ProviderId::Amazon {
        keepa::DOMAIN_BR
    } else {
        keepa::DOMAIN_US
    }
}

/// The price of a new product on its own site, as the insights tell it.
pub open spec fn known_price(p: models::ProductView) -> Option<Decimal> {
    match keepa::insight_into(p.keepa, own_domain(p.provider), 0) {
        Some(k) => keepa::priced(keepa::best_new_cents(k), k.domain),
        None => None,
    }
}

/// A product with the price that the insights tell where it has none.
pub open spec fn filled(p: models::ProductView) -> models::ProductView {
    match known_price(p) {
        Some(price) => if p.price.listed_price@.mantissa == 0 {
            models::ProductView {
                price: PriceInfo { listed_price: price, price_brl: price, ..p.price },
                ..p
            }
        } else {
            p
        },
        None => p,
    }
}

/// Some products with the prices that the insights tell where they have none.
pub open spec fn all_filled(v: Seq<models::ProductView>) -> Seq<models::ProductView> {
    Seq::new(v.len(), |i: int| filled(v[i]))
}

fn fill_price(p: Product) -> (r: Product)
    ensures
        r@ == filled(p@),
{
    if !p.price.listed_price.is_zero() {
        return p;
    }
    let known = match keepa::find_insight(&p.keepa, site_for(p.provider)) {
        Some(i) => p.keepa[i].best_new_price(),
        None => None,
    };
    match known {
        Some(price) => {
            let price = PriceInfo { listed_price: price, price_brl: price, ..p.price };
            Product { price, ..p }
        },
        None => p,
    }
}

/// Some products with the prices that the insights tell where they have none.
pub fn fill_prices(v: &Vec<Product>) -> (r: Vec<Product>)
    ensures
        models::product_views(r@) == all_filled(models::product_views(v@)),
{
    let ghost all = models::product_views(v@);
    let mut out: Vec<Product> = Vec::new();
    let mut i: usize = 0;
    while i < v.len()
        invariant
            i <= v@.len(),
            all == models::product_views(v@),
            models::product_views(out@) == all_filled(all).take(i as int),
        decreases v@.len() - i,
    {
        assert(all[i as int] == v@[i as int]@);
        let ghost so_far = out@;
        let p = fill_price(v[i].clone());
        out.push(p);
        proof {
            providers::lemma_product_push(so_far, p);
            assert(all_filled(all).take(i + 1) =~= all_filled(all).take(i as int).push(
                filled(all[i as int]),
            ));
        }
        i = i + 1;
    }
    assert(all_filled(all).take(i as int) =~= all_filled(all));
    out
}

// ---- The list ----

/// The products of which the price is known, with what they cost, whose titles hold
/// every telling word of a search.
pub open spec fn matched_offers(
    v: Seq<models::ProductView>,
    query: Seq<char>,
    rate: Decimal,
) -> Option<Seq<models::ProductView>> {
    let priced = filtered(all_filled(v), |p: models::ProductView| has_price(p));
    match all_costed(priced, priced.len() as int, rate) {
        Some(c) => Some(matched(c, query)),
        None => None,
    }
}

/// The price that the manufacturer asks, in reais, if it is known.
pub open spec fn anchor_in_reais(v: Seq<models::ProductView>, rate: Decimal) -> Option<
    Option<Decimal>,
> {
    match anchor_price(v, 0) {
        Some(m) => match decimal::product(m, rate) {
            Some(brl) => Some(Some(brl)),
            None => None,
        },
        None => Some(None),
    }
}

/// The list that is made of what the stores offer: the products whose price is known,
/// with what they cost in reais, that a search is about and that fit it, in order, each
/// by its cheapest listing, and not too many of a store. There is none where an amount on the way is too
/// large to be held.
pub open spec fn finished(
    v: Seq<models::ProductView>,
    q: models::QueryView,
    rate: Decimal,
) -> Option<Seq<models::ProductView>> {
    match matched_offers(v, q.query, rate) {
        Some(m) => match anchor_in_reais(m, rate) {
            Some(msrp) => {
                let kept = filtered(
                    relevant(m, q.query, msrp),
                    |p: models::ProductView| fits(p, q),
                );
                Some(
                    limited(
                        unique(order::sorted(kept, product_order(q.sort))),
                        q.max_results as int,
                    ),
                )
            },
            None => None,
        },
        None => None,
    }
}

/// The list that is made of what the stores offer, or `None` where an amount on the way
/// is too large to be held.
pub fn finish_search(products: &Vec<Product>, query: &SearchQuery, rate: Decimal) -> (r: Option<
    Vec<Product>,
>)
    ensures
        match r {
            Some(v) => finished(models::product_views(products@), query@, rate) == Some(
                models::product_views(v@),
            ),
            None => finished(models::product_views(products@), query@, rate) is None,
        },
{
    let priced = keep_priced(fill_prices(products));
    let ghost p = models::product_views(priced@);
    assert(p.len() == priced@.len());
    let costed = match apply_costs(&priced, rate) {
        Some(v) => v,
        None => {
            return None;
        },
    };
    let about = keep_matched(costed, query.query.as_str());
    let msrp = match find_anchor(&about) {
        Some(m) => match m.checked_mul(&rate) {
            Some(brl) => Some(brl),
            None => {
                return None;
            },
        },
        None => None,
    };
    let relevant = keep_relevant(about, query.query.as_str(), msrp);
    let kept = keep_fitting(relevant, query);
    let sorted = sort_products(&kept, query.sort);
    Some(limit_stores(deduplicate_products(sorted), query.max_results))
}

// ---- What holds of the list ----

/// The orders that a list can be in are orders that sorting can go by.
pub proof fn product_order_is_total(sort: SortOrder)
    ensures
        order::total_preorder(product_order(sort)),
{
    let le = product_order(sort);
    assert forall|a: models::ProductView, b: models::ProductView| #[trigger] le(a, b) || le(b, a) by {
        decimal::amounts_are_ordered(a.price.total_cost, b.price.total_cost, a.price.total_cost);
        decimal::amounts_are_ordered(rating_of(a), rating_of(b), rating_of(a));
    }
    assert forall|a: models::ProductView, b: models::ProductView, c: models::ProductView|
        #[trigger] le(a, b) && #[trigger] le(b, c) implies le(a, c) by {
        decimal::amounts_are_ordered(a.price.total_cost, b.price.total_cost, c.price.total_cost);
        decimal::amounts_are_ordered(c.price.total_cost, b.price.total_cost, a.price.total_cost);
        decimal::amounts_are_ordered(rating_of(c), rating_of(b), rating_of(a));
    }
}

/// A list is in the order that the search asks for.
pub proof fn results_are_in_order(v: Seq<models::ProductView>, q: models::QueryView, rate: Decimal)
    ensures
        match finished(v, q, rate) {
            Some(r) => order::ordered(r, product_order(q.sort)),
            None => true,
        },
{
    if finished(v, q, rate) is Some {
        let m = matched_offers(v, q.query, rate)->0;
        let msrp = anchor_in_reais(m, rate)->0;
        let kept = filtered(relevant(m, q.query, msrp), |p: models::ProductView| fits(p, q));
        let le = product_order(q.sort);
        product_order_is_total(q.sort);
        order::sorting_orders(kept, le);
        let s = order::sorted(kept, le);
        let any = |p: models::ProductView| true;
        lemma_picked(
            s,
            s.len() as int,
            |i: int| new_number(s, i) && new_title(s, i),
            any,
            le,
        );
        let u = unique(s);
        lemma_picked(
            u,
            u.len() as int,
            |i: int| of_store(u, u[i].provider, i + 1) <= q.max_results as int,
            any,
            le,
        );
    }
}

/// What holds of every offer that a list is made of holds of every product in it.
proof fn lemma_finished_keeps(
    v: Seq<models::ProductView>,
    q: models::QueryView,
    rate: Decimal,
    p: spec_fn(models::ProductView) -> bool,
)
    requires
        finished(v, q, rate) is Some,
        ({
            let m = matched_offers(v, q.query, rate)->0;
            let msrp = anchor_in_reais(m, rate)->0;
            let r = relevant(m, q.query, msrp);
            forall|i: int| 0 <= i < r.len() && fits(r[i], q) ==> p(#[trigger] r[i])
        }),
    ensures
        forall|i: int|
            0 <= i < finished(v, q, rate)->0.len() ==> p(#[trigger] finished(v, q, rate)->0[i]),
{
    let m = matched_offers(v, q.query, rate)->0;
    let msrp = anchor_in_reais(m, rate)->0;
    let r = relevant(m, q.query, msrp);
    let any = |a: models::ProductView, b: models::ProductView| true;
    let fit = |p: models::ProductView| fits(p, q);
    lemma_picked(r, r.len() as int, |i: int| fit(r[i]), p, any);
    let kept = filtered(r, fit);
    let le = product_order(q.sort);
    order::lemma_sorted_keeps(kept, le, p);
    let s = order::sorted(kept, le);
    lemma_picked(s, s.len() as int, |i: int| new_number(s, i) && new_title(s, i), p, any);
    let u = unique(s);
    lemma_picked(
        u,
        u.len() as int,
        |i: int| of_store(u, u[i].provider, i + 1) <= q.max_results as int,
        p,
        any,
    );
}

/// Every product in a list lies within the prices and is in the condition that the search
/// asks for.
pub proof fn results_fit(v: Seq<models::ProductView>, q: models::QueryView, rate: Decimal)
    ensures
        match finished(v, q, rate) {
            Some(r) => forall|i: int| 0 <= i < r.len() ==> fits(#[trigger] r[i], q),
            None => true,
        },
{
    if finished(v, q, rate) is Some {
        lemma_finished_keeps(v, q, rate, |p: models::ProductView| fits(p, q));
    }
}

/// Whether a product is one of some offers whose price and title score enough among them.
pub open spec fn scores_enough(
    m: Seq<models::ProductView>,
    query: Seq<char>,
    msrp: Option<Decimal>,
    p: models::ProductView,
) -> bool {
    among(m, m.len() as int, |i: int| relevant_at(m, query, msrp, i), p)
}

/// Every product in a list has a title that holds every telling word of the search, and
/// is relevant among the offers that do.
pub proof fn results_are_relevant(v: Seq<models::ProductView>, q: models::QueryView, rate: Decimal)
    ensures
        match finished(v, q, rate) {
            Some(r) => forall|i: int|
                0 <= i < r.len() ==> scoring::matching((#[trigger] r[i]).title, q.query)
                    && scores_enough(
                    matched_offers(v, q.query, rate)->0,
                    q.query,
                    anchor_in_reais(matched_offers(v, q.query, rate)->0, rate)->0,
                    r[i],
                ),
            None => true,
        },
{
    if finished(v, q, rate) is Some {
        let priced = filtered(all_filled(v), |p: models::ProductView| has_price(p));
        let c = all_costed(priced, priced.len() as int, rate)->0;
        let m = matched_offers(v, q.query, rate)->0;
        let msrp = anchor_in_reais(m, rate)->0;
        let any = |a: models::ProductView, b: models::ProductView| true;
        let matches = |p: models::ProductView| scoring::matching(p.title, q.query);
        lemma_picked(c, c.len() as int, |i: int| matches(c[i]), matches, any);
        let keep = |i: int| relevant_at(m, q.query, msrp, i);
        lemma_picked(m, m.len() as int, keep, matches, any);
        let good = |p: models::ProductView|
            matches(p) && scores_enough(m, q.query, msrp, p);
        let r = relevant(m, q.query, msrp);
        assert forall|i: int| 0 <= i < r.len() && fits(r[i], q) implies good(
            #[trigger] r[i],
        ) by {
            assert(matches(r[i]));
            assert(among(m, m.len() as int, keep, r[i]));
        }
        lemma_finished_keeps(v, q, rate, good);
        assert forall|i: int| 0 <= i < finished(v, q, rate)->0.len() implies scoring::matching(
            (#[trigger] finished(v, q, rate)->0[i]).title,
            q.query,
        ) && scores_enough(m, q.query, msrp, finished(v, q, rate)->0[i]) by {
            assert(good(finished(v, q, rate)->0[i]));
        }
    }
}

/// Where the price that the manufacturer asks is known, nothing is listed that costs less
/// than a tenth of it.
pub proof fn accessories_are_not_listed(
    v: Seq<models::ProductView>,
    q: models::QueryView,
    rate: Decimal,
    msrp: Decimal,
    i: int,
)
    requires
        finished(v, q, rate) is Some,
        anchor_in_reais(matched_offers(v, q.query, rate)->0, rate)->0 == Some(msrp),
        msrp@.mantissa > 0,
        0 <= i < finished(v, q, rate)->0.len(),
        finished(v, q, rate)->0[i].price.total_cost@.mantissa > 0,
    ensures
        scoring::ratio(finished(v, q, rate)->0[i].price.total_cost, msrp) >= scoring::ONE / 10,
{
    let m = matched_offers(v, q.query, rate)->0;
    let p = finished(v, q, rate)->0[i];
    results_are_relevant(v, q, rate);
    assert(scores_enough(m, q.query, Some(msrp), p));
    let j = choose|j: int|
        0 <= j < m.len() && relevant_at(m, q.query, Some(msrp), j) && #[trigger] m[j] == p;
    if scoring::ratio(p.price.total_cost, msrp) < scoring::ONE / 10 {
        assert(totals(m)[j] == p.price.total_cost);
        scoring::accessories_score_nothing(m[j].title, q.query, totals(m), msrp, j);
        assert(false);
    }
}

/// Whether a product has a price, and costs in all what it costs in reais with shipping
/// in reais and taxes.
pub open spec fn adds_up(p: models::ProductView) -> bool {
    &&& has_price(p)
    &&& p.price.shipping_currency == Currency::BRL
    &&& total_of(p.price.price_brl, p.price.shipping_cost, p.price.tax) == Some(
        p.price.total_cost,
    )
}

proof fn lemma_all_costed(v: Seq<models::ProductView>, k: int, rate: Decimal)
    requires
        0 <= k <= v.len(),
        forall|i: int| 0 <= i < k ==> has_price(#[trigger] v[i]),
        all_costed(v, k, rate) is Some,
    ensures
        all_costed(v, k, rate)->0.len() == k,
        forall|i: int| 0 <= i < k ==> adds_up(#[trigger] all_costed(v, k, rate)->0[i]),
    decreases k,
{
    if k > 0 {
        lemma_all_costed(v, k - 1, rate);
        assert(has_price(v[k - 1]));
    }
}

/// Every product in a list has a price, and costs in all what it costs in reais with
/// shipping and taxes.
pub proof fn results_add_up(v: Seq<models::ProductView>, q: models::QueryView, rate: Decimal)
    ensures
        match finished(v, q, rate) {
            Some(r) => forall|i: int| 0 <= i < r.len() ==> adds_up(#[trigger] r[i]),
            None => true,
        },
{
    if finished(v, q, rate) is Some {
        let any = |a: models::ProductView, b: models::ProductView| true;
        let has = |p: models::ProductView| has_price(p);
        let all = all_filled(v);
        let priced = filtered(all, has);
        lemma_picked(all, all.len() as int, |i: int| has(all[i]), has, any);
        assert forall|i: int| 0 <= i < priced.len() implies has_price(#[trigger] priced[i]) by {
            assert(has(priced[i]));
        }
        lemma_all_costed(priced, priced.len() as int, rate);
        let c = all_costed(priced, priced.len() as int, rate)->0;
        let good = |p: models::ProductView| adds_up(p);
        let matches = |p: models::ProductView| scoring::matching(p.title, q.query);
        lemma_picked(c, c.len() as int, |i: int| matches(c[i]), good, any);
        let m = matched_offers(v, q.query, rate)->0;
        let msrp = anchor_in_reais(m, rate)->0;
        lemma_picked(
            m,
            m.len() as int,
            |i: int| relevant_at(m, q.query, msrp, i),
            good,
            any,
        );
        lemma_finished_keeps(v, q, rate, good);
        assert forall|i: int| 0 <= i < finished(v, q, rate)->0.len() implies adds_up(
            #[trigger] finished(v, q, rate)->0[i],
        ) by {
            assert(good(finished(v, q, rate)->0[i]));
        }
    }
}

/// Whether two products are one offer, whatever is known of its price: one of one store
/// with one number, title and address, in one condition, from the same side of the border,
/// that was seen at one time.
pub open spec fn same_offer(a: models::ProductView, b: models::ProductView) -> bool {
    &&& a.provider == b.provider
    &&& a.platform_id == b.platform_id
    &&& a.title == b.title
    &&& a.url == b.url
    &&& a.image_url == b.image_url
    &&& a.condition == b.condition
    &&& a.sold_count == b.sold_count
    &&& a.domestic == b.domestic
    &&& a.fetched_at == b.fetched_at
}

/// Whether a product is one of some offers.
pub open spec fn offered(p: models::ProductView, v: Seq<models::ProductView>) -> bool {
    exists|j: int| 0 <= j < v.len() && same_offer(p, #[trigger] v[j])
}

/// Whether every one of some products is one of some offers.
pub open spec fn all_offered(v: Seq<models::ProductView>, w: Seq<models::ProductView>) -> bool {
    forall|i: int| 0 <= i < v.len() ==> offered(#[trigger] v[i], w)
}

/// Offers among offers are offers.
pub proof fn lemma_offered_again(
    a: Seq<models::ProductView>,
    b: Seq<models::ProductView>,
    c: Seq<models::ProductView>,
)
    requires
        all_offered(a, b),
        all_offered(b, c),
    ensures
        all_offered(a, c),
{
    assert forall|i: int| 0 <= i < a.len() implies offered(#[trigger] a[i], c) by {
        let j = choose|j: int| 0 <= j < b.len() && same_offer(a[i], #[trigger] b[j]);
        assert(offered(b[j], c));
        let k = choose|k: int| 0 <= k < c.len() && same_offer(b[j], #[trigger] c[k]);
        assert(same_offer(a[i], c[k]));
    }
}

proof fn lemma_costed_offers(v: Seq<models::ProductView>, k: int, rate: Decimal)
    requires
        0 <= k <= v.len(),
        all_costed(v, k, rate) is Some,
    ensures
        all_costed(v, k, rate)->0.len() == k,
        forall|i: int| 0 <= i < k ==> same_offer(#[trigger] all_costed(v, k, rate)->0[i], v[i]),
    decreases k,
{
    if k > 0 {
        lemma_costed_offers(v, k - 1, rate);
    }
}

/// Every product in a list is one of the offers that it was made of.
pub proof fn results_are_offers(v: Seq<models::ProductView>, q: models::QueryView, rate: Decimal)
    ensures
        match finished(v, q, rate) {
            Some(r) => all_offered(r, v),
            None => true,
        },
{
    if finished(v, q, rate) is Some {
        let any = |a: models::ProductView, b: models::ProductView| true;
        let good = |p: models::ProductView| offered(p, v);
        let has = |p: models::ProductView| has_price(p);
        let all = all_filled(v);
        let priced = filtered(all, has);
        assert forall|i: int| 0 <= i < all.len() implies good(#[trigger] all[i]) by {
            assert(same_offer(all[i], v[i]));
        }
        lemma_picked(all, all.len() as int, |i: int| has(all[i]), good, any);
        lemma_costed_offers(priced, priced.len() as int, rate);
        let c = all_costed(priced, priced.len() as int, rate)->0;
        assert forall|i: int| 0 <= i < c.len() implies good(#[trigger] c[i]) by {
            assert(good(priced[i]));
            let j = choose|j: int| 0 <= j < v.len() && same_offer(priced[i], #[trigger] v[j]);
            assert(same_offer(c[i], v[j]));
        }
        let matches = |p: models::ProductView| scoring::matching(p.title, q.query);
        lemma_picked(c, c.len() as int, |i: int| matches(c[i]), good, any);
        let m = matched_offers(v, q.query, rate)->0;
        let msrp = anchor_in_reais(m, rate)->0;
        lemma_picked(m, m.len() as int, |i: int| relevant_at(m, q.query, msrp, i), good, any);
        lemma_finished_keeps(v, q, rate, good);
        assert forall|i: int| 0 <= i < finished(v, q, rate)->0.len() implies offered(
            #[trigger] finished(v, q, rate)->0[i],
            v,
        ) by {
            assert(good(finished(v, q, rate)->0[i]));
        }
    }
}

/// Whether two products are listings of different things: not of one store, or with
/// different numbers and titles as far as they have any.
pub open spec fn apart(a: models::ProductView, b: models::ProductView) -> bool {
    &&& b.platform_id.len() > 0 ==> !same_number(a, b)
    &&& plain_title(b.title).len() > 0 ==> !same_title(a, b)
}

proof fn lemma_picked_pairs<A>(
    v: Seq<A>,
    k: int,
    keep: spec_fn(int) -> bool,
    rel: spec_fn(A, A) -> bool,
)
    requires
        0 <= k <= v.len(),
        forall|a: int, b: int| 0 <= a < b < k && keep(a) && keep(b) ==> rel(v[a], v[b]),
    ensures
        forall|i: int, j: int|
            0 <= i < j < picked(v, k, keep).len() ==> #[trigger] rel(
                picked(v, k, keep)[i],
                picked(v, k, keep)[j],
            ),
    decreases k,
{
    if k > 0 {
        lemma_picked_pairs(v, k - 1, keep, rel);
        let before = picked(v, k - 1, keep);
        let after = picked(v, k, keep);
        lemma_picked(v, k - 1, keep, |a: A| true, |a: A, b: A| true);
        assert forall|i: int, j: int| 0 <= i < j < after.len() implies #[trigger] rel(
            after[i],
            after[j],
        ) by {
            if j < before.len() {
                assert(rel(before[i], before[j]));
            } else {
                assert(among(v, k - 1, keep, before[i]));
                let a = choose|a: int| 0 <= a < k - 1 && keep(a) && #[trigger] v[a] == before[i];
                assert(rel(v[a], v[k - 1]));
            }
        }
    }
}

/// No two products in a list are of one store and have one number there, or titles that
/// come down to the same.
pub proof fn results_are_listed_once(
    v: Seq<models::ProductView>,
    q: models::QueryView,
    rate: Decimal,
)
    ensures
        match finished(v, q, rate) {
            Some(r) => forall|i: int, j: int|
                0 <= i < j < r.len() ==> apart(#[trigger] r[i], #[trigger] r[j]),
            None => true,
        },
{
    if finished(v, q, rate) is Some {
        let m = matched_offers(v, q.query, rate)->0;
        let msrp = anchor_in_reais(m, rate)->0;
        let kept = filtered(relevant(m, q.query, msrp), |p: models::ProductView| fits(p, q));
        let s = order::sorted(kept, product_order(q.sort));
        let rel = |a: models::ProductView, b: models::ProductView| apart(a, b);
        lemma_picked_pairs(
            s,
            s.len() as int,
            |i: int| new_number(s, i) && new_title(s, i),
            rel,
        );
        let u = unique(s);
        assert forall|a: int, b: int| 0 <= a < b < u.len() implies rel(u[a], u[b]) by {}
        lemma_picked_pairs(
            u,
            u.len() as int,
            |i: int| of_store(u, u[i].provider, i + 1) <= q.max_results as int,
            rel,
        );
        let r = finished(v, q, rate)->0;
        assert forall|i: int, j: int| 0 <= i < j < r.len() implies apart(
            #[trigger] r[i],
            #[trigger] r[j],
        ) by {
            assert(rel(r[i], r[j]));
        }
    }
}

/// The offers that a list is made of before those that are listed twice are left out.
pub open spec fn fitting_offers(
    v: Seq<models::ProductView>,
    q: models::QueryView,
    rate: Decimal,
) -> Seq<models::ProductView> {
    let m = matched_offers(v, q.query, rate)->0;
    filtered(
        relevant(m, q.query, anchor_in_reais(m, rate)->0),
        |p: models::ProductView| fits(p, q),
    )
}

proof fn lemma_result_is_new(
    v: Seq<models::ProductView>,
    q: models::QueryView,
    rate: Decimal,
    i: int,
) -> (k: int)
    requires
        finished(v, q, rate) is Some,
        0 <= i < finished(v, q, rate)->0.len(),
    ensures
        ({
            let s = order::sorted(fitting_offers(v, q, rate), product_order(q.sort));
            &&& 0 <= k < s.len()
            &&& s[k] == finished(v, q, rate)->0[i]
            &&& new_number(s, k)
            &&& new_title(s, k)
        }),
{
    let s = order::sorted(fitting_offers(v, q, rate), product_order(q.sort));
    let any = |a: models::ProductView, b: models::ProductView| true;
    let yes = |a: models::ProductView| true;
    let new = |k: int| new_number(s, k) && new_title(s, k);
    let u = unique(s);
    let r = finished(v, q, rate)->0;
    lemma_picked(s, s.len() as int, new, yes, any);
    let few = |k: int| of_store(u, u[k].provider, k + 1) <= q.max_results;
    lemma_picked(u, u.len() as int, few, yes, any);
    assert(u.contains(r[i])) by {
        if q.max_results < 50 {
            assert(among(u, u.len() as int, few, r[i]));
        }
    }
    let b = choose|b: int| 0 <= b < u.len() && u[b] == r[i];
    assert(among(s, s.len() as int, new, u[b]));
    choose|k: int| 0 <= k < s.len() && new(k) && #[trigger] s[k] == r[i]
}

proof fn lemma_offer_is_sorted(
    v: Seq<models::ProductView>,
    q: models::QueryView,
    rate: Decimal,
    p: models::ProductView,
)
    requires
        fitting_offers(v, q, rate).contains(p),
    ensures
        order::sorted(fitting_offers(v, q, rate), product_order(q.sort)).contains(p),
{
    broadcast use vstd::seq_lib::group_to_multiset_ensures;

    let kept = fitting_offers(v, q, rate);
    let le = product_order(q.sort);
    product_order_is_total(q.sort);
    order::sorting_orders(kept, le);
    assert(kept.to_multiset().count(p) > 0);
    assert(order::sorted(kept, le).to_multiset().count(p) > 0);
}

/// However a list is ordered, no offer of the same store with the same number is cheaper
/// than the one that is listed.
pub proof fn cheapest_listing_is_kept(
    v: Seq<models::ProductView>,
    q: models::QueryView,
    rate: Decimal,
    i: int,
    p: models::ProductView,
)
    requires
        finished(v, q, rate) is Some,
        0 <= i < finished(v, q, rate)->0.len(),
        fitting_offers(v, q, rate).contains(p),
        p.platform_id.len() > 0,
        same_number(p, finished(v, q, rate)->0[i]),
    ensures
        decimal::at_most(finished(v, q, rate)->0[i].price.total_cost, p.price.total_cost),
{
    let s = order::sorted(fitting_offers(v, q, rate), product_order(q.sort));
    let k = lemma_result_is_new(v, q, rate, i);
    lemma_offer_is_sorted(v, q, rate, p);
    let j = choose|j: int| 0 <= j < s.len() && s[j] == p;
    assert(same_number(s[j], s[k]));
    assert(!sooner(s, j, k));
}

/// Whether an offer has no number, or is cheaper than every other one among some that has
/// its number.
pub open spec fn cheapest_of_its_number(
    v: Seq<models::ProductView>,
    p: models::ProductView,
) -> bool {
    p.platform_id.len() == 0 || forall|o: models::ProductView| #[trigger]
        v.contains(o) && same_number(o, p) && o != p ==> decimal::below(
            p.price.total_cost,
            o.price.total_cost,
        )
}

/// However a list is ordered, no offer of the same store whose title comes down to the
/// same is cheaper than the one that is listed, among those that are the cheapest with
/// their number.
pub proof fn cheapest_title_is_kept(
    v: Seq<models::ProductView>,
    q: models::QueryView,
    rate: Decimal,
    i: int,
    p: models::ProductView,
)
    requires
        finished(v, q, rate) is Some,
        0 <= i < finished(v, q, rate)->0.len(),
        fitting_offers(v, q, rate).contains(p),
        plain_title(p.title).len() > 0,
        same_title(p, finished(v, q, rate)->0[i]),
        cheapest_of_its_number(fitting_offers(v, q, rate), p),
    ensures
        decimal::at_most(finished(v, q, rate)->0[i].price.total_cost, p.price.total_cost),
{
    let kept = fitting_offers(v, q, rate);
    let le = product_order(q.sort);
    let s = order::sorted(kept, le);
    let k = lemma_result_is_new(v, q, rate, i);
    lemma_offer_is_sorted(v, q, rate, p);
    s.index_of_first_ensures(p);
    let j = s.index_of_first(p)->0;
    product_order_is_total(q.sort);
    order::sorting_orders(kept, le);
    assert(new_number(s, j)) by {
        assert forall|o: int|
            0 <= o < s.len() && sooner(s, o, j) && p.platform_id.len() > 0 implies !same_number(
            #[trigger] s[o],
            s[j],
        ) by {
            if same_number(s[o], p) {
                assert(kept.contains(s[o])) by {
                    broadcast use vstd::seq_lib::group_to_multiset_ensures;

                    assert(s.contains(s[o]));
                    assert(s.to_multiset().count(s[o]) > 0);
                    assert(kept.to_multiset().count(s[o]) > 0);
                }
                decimal::amounts_are_ordered(
                    p.price.total_cost,
                    s[o].price.total_cost,
                    p.price.total_cost,
                );
            }
        }
    }
    assert(same_title(s[j], s[k]));
    assert(!sooner(s, j, k));
}

proof fn lemma_of_store_prefix(
    a: Seq<models::ProductView>,
    b: Seq<models::ProductView>,
    p: ProviderId,
    k: int,
)
    requires
        forall|i: int| 0 <= i < k ==> #[trigger] a[i] == b[i],
    ensures
        of_store(a, p, k) == of_store(b, p, k),
    decreases k,
{
    if k > 0 {
        lemma_of_store_prefix(a, b, p, k - 1);
        assert(a[k - 1] == b[k - 1]);
    }
}

proof fn lemma_limited(v: Seq<models::ProductView>, p: ProviderId, max: int, k: int)
    requires
        0 <= k <= v.len(),
        0 <= max,
    ensures
        ({
            let keep = |i: int| of_store(v, v[i].provider, i + 1) <= max;
            let r = picked(v, k, keep);
            of_store(r, p, r.len() as int) == if of_store(v, p, k) <= max {
                of_store(v, p, k)
            } else {
                max
            }
        }),
    decreases k,
{
    let keep = |i: int| of_store(v, v[i].provider, i + 1) <= max;
    if k > 0 {
        lemma_limited(v, p, max, k - 1);
        let before = picked(v, k - 1, keep);
        let after = picked(v, k, keep);
        if keep(k - 1) {
            lemma_of_store_prefix(before, after, p, before.len() as int);
        }
    }
}

/// A list holds no more products of a store than the search asks for, where it asks for
/// fewer than 50.
pub proof fn results_of_a_store_are_limited(
    v: Seq<models::ProductView>,
    q: models::QueryView,
    rate: Decimal,
    p: ProviderId,
)
    requires
        q.max_results < 50,
    ensures
        match finished(v, q, rate) {
            Some(r) => of_store(r, p, r.len() as int) <= q.max_results,
            None => true,
        },
{
    if finished(v, q, rate) is Some {
        let m = matched_offers(v, q.query, rate)->0;
        let msrp = anchor_in_reais(m, rate)->0;
        let kept = filtered(relevant(m, q.query, msrp), |p: models::ProductView| fits(p, q));
        let u = unique(order::sorted(kept, product_order(q.sort)));
        lemma_limited(u, p, q.max_results as int, u.len() as int);
    }
}

/// With a browser every store is searched but Google Shopping, whatever the settings say;
/// Google Shopping is searched exactly where the settings ask for it.
pub proof fn browser_searches_every_store(c: PechinchaConfig, p: ProviderId)
    requires
        c.general.cdp_port is Some,
    ensures
        configured_stores(c).contains(p) <==> p != ProviderId::GoogleShopping
            || c.providers.google_shopping.enabled,
{
    let s = configured_stores(c);
    let g = c.providers.google_shopping.enabled;
    assert(s[0] == ProviderId::MercadoLivre);
    assert(s[1] == ProviderId::AliExpress);
    assert(s[2] == ProviderId::Shopee);
    assert(s[3] == ProviderId::Amazon);
    assert(s[4] == ProviderId::Kabum);
    assert(s[5] == ProviderId::MagazineLuiza);
    assert(s[6] == ProviderId::AmazonUS);
    assert(s[7] == ProviderId::Olx);
    if g {
        assert(s.len() == 10);
        assert(s[8] == ProviderId::GoogleShopping);
        assert(s[9] == ProviderId::Ebay);
    } else {
        assert(s.len() == 9);
        assert(s[8] == ProviderId::Ebay);
    }
}

/// The stores that are searched are those of the settings that a search names, or all of
/// the settings where it names none.
pub proof fn chosen_stores_are_searched(
    s: Seq<ProviderId>,
    platforms: Seq<ProviderId>,
    k: int,
    p: ProviderId,
)
    requires
        0 <= k <= s.len(),
    ensures
        selected_stores(s, platforms, k).contains(p) <==> s.take(k).contains(p) && (
        platforms.len() == 0 || platforms.contains(p)),
    decreases k,
{
    if k > 0 {
        chosen_stores_are_searched(s, platforms, k - 1, p);
        let before = selected_stores(s, platforms, k - 1);
        let after = selected_stores(s, platforms, k);
        assert(s.take(k) =~= s.take(k - 1).push(s[k - 1]));
        assert(s.take(k)[k - 1] == s[k - 1]);
        let head = s.take(k - 1);
        if head.contains(p) {
            let i = choose|i: int| 0 <= i < head.len() && head[i] == p;
            assert(s.take(k)[i] == p);
        }
        if before.contains(p) {
            let i = choose|i: int| 0 <= i < before.len() && before[i] == p;
            assert(after[i] == p);
        }
        if after.len() > before.len() {
            assert(after[before.len() as int] == s[k - 1]);
        }
    }
}

/// The taxes of an offer whose taxes are to be worked out are those of its own programme, its
/// own origin and its own price: an import marked as in the Remessa Conforme programme owes
/// the programme's rates, by whether it costs 50 dollars or more, and one that is not marked
/// the standard rate.
pub proof fn offers_are_taxed_by_their_programme(
    p: models::ProductView,
    rate: Decimal,
    dollars: Decimal,
)
    requires
        !p.domestic,
        !p.price.tax.taxes_included,
        p.price.currency == Currency::USD ==> dollars == p.price.listed_price,
        p.price.currency == Currency::BRL ==> decimal::quotient(p.price.price_brl, rate) == Some(
            dollars,
        ),
    ensures
        match costed(p, rate) {
            Some(c) => {
                let t = c.price.tax;
                let brl = c.price.price_brl;
                &&& t.remessa_conforme == p.price.tax.remessa_conforme
                &&& !t.taxes_included
                &&& p.price.tax.remessa_conforme && !decimal::at_most(
                    decimal::dec(500, 1),
                    dollars,
                ) ==> t.tax_regime == TaxRegime::RemessaConformeUnder50 && t.import_tax
                    == decimal::product(brl, decimal::dec(20, 2))
                &&& p.price.tax.remessa_conforme && decimal::at_most(
                    decimal::dec(500, 1),
                    dollars,
                ) ==> t.tax_regime == TaxRegime::RemessaConformeOver50 && ({
                    let left = decimal::difference(
                        decimal::product(brl, decimal::dec(60, 2))->0,
                        decimal::product(decimal::dec(200, 1), rate)->0,
                    );
                    &&& left is Some
                    &&& !decimal::at_most(left->0, decimal::dec(0, 0)) ==> t.import_tax == left
                    &&& decimal::at_most(left->0, decimal::dec(0, 0)) ==> t.import_tax == Some(
                        decimal::dec(0, 0),
                    )
                })
                &&& !p.price.tax.remessa_conforme ==> t.tax_regime
                    == TaxRegime::InternationalStandard && t.import_tax == decimal::product(
                    brl,
                    decimal::dec(60, 2),
                )
                &&& ({
                    let base = decimal::sum(brl, t.import_tax->0);
                    let whole = decimal::quotient(base->0, decimal::dec(83, 2));
                    &&& base is Some
                    &&& whole is Some
                    &&& t.icms is Some
                    &&& t.icms == decimal::difference(whole->0, base->0)
                    &&& decimal::sum(t.import_tax->0, t.icms->0) == Some(t.total_tax)
                })
            },
            None => true,
        },
{
    if costed(p, rate) is Some {
        tax::imports_are_taxed_by_their_programme(
            if p.price.currency == Currency::USD {
                Some(p.price.listed_price)
            } else {
                None
            },
            costed(p, rate)->0.price.price_brl,
            p.price.tax.remessa_conforme,
            rate,
            dollars,
        );
    }
}

/// An offer from within Brazil owes no taxes, and neither does one whose price holds them;
/// and taxes that are known and held in the price stay as they are.
pub proof fn held_taxes_are_not_added(p: models::ProductView, rate: Decimal)
    ensures
        match costed(p, rate) {
            Some(c) => {
                let t = c.price.tax;
                &&& p.price.tax.taxes_included && p.price.tax.tax_regime != TaxRegime::Unknown ==> t
                    == p.price.tax
                &&& p.domestic && !(p.price.tax.taxes_included && p.price.tax.tax_regime
                    != TaxRegime::Unknown) ==> t.total_tax == decimal::dec(0, 0) && t.tax_regime
                    == TaxRegime::Domestic && t.taxes_included
                &&& !p.domestic && p.price.tax.taxes_included && p.price.tax.tax_regime
                    == TaxRegime::Unknown ==> t.total_tax == decimal::dec(0, 0) && t.taxes_included
                    && t.remessa_conforme == p.price.tax.remessa_conforme
            },
            None => true,
        },
{
}

/// What an offer costs in all is its price in reais, its shipping in reais and its taxes: a
/// price and shipping in dollars are converted at the rate, and those in reais stay.
pub proof fn costs_are_price_shipping_and_taxes(p: models::ProductView, rate: Decimal)
    ensures
        match costed(p, rate) {
            Some(c) => {
                &&& p.price.currency == Currency::USD ==> Some(c.price.price_brl)
                    == decimal::product(p.price.listed_price, rate)
                &&& p.price.currency == Currency::BRL ==> c.price.price_brl == p.price.price_brl
                &&& p.price.shipping_cost is None ==> c.price.shipping_cost is None
                &&& p.price.shipping_cost is Some && p.price.shipping_currency == Currency::USD
                    ==> c.price.shipping_cost is Some && c.price.shipping_cost == decimal::product(
                    p.price.shipping_cost->0,
                    rate,
                )
                &&& p.price.shipping_cost is Some && p.price.shipping_currency == Currency::BRL
                    ==> c.price.shipping_cost == p.price.shipping_cost
                &&& c.price.shipping_currency == Currency::BRL
                &&& ({
                    let shipped = decimal::sum(
                        c.price.price_brl,
                        if c.price.shipping_cost is Some {
                            c.price.shipping_cost->0
                        } else {
                            decimal::dec(0, 0)
                        },
                    );
                    shipped is Some && decimal::sum(shipped->0, c.price.tax.total_tax) == Some(
                        c.price.total_cost,
                    )
                })
                &&& c.price.listed_price == p.price.listed_price
                &&& c.price.currency == p.price.currency
                &&& c.price.original_price == p.price.original_price
                &&& c.price.installments == p.price.installments
                &&& c == (models::ProductView { price: c.price, ..p })
            },
            None => true,
        },
{
}

/// An offer that is relevant fits a search exactly where it costs no less than the least and
/// no more than the most that it asks for, and is in the condition that it asks for or in
/// one that is not known.
pub proof fn offers_fit_by_price_and_condition(
    v: Seq<models::ProductView>,
    q: models::QueryView,
    p: models::ProductView,
)
    requires
        v.contains(p),
    ensures
        ({
            let cost = p.price.total_cost@;
            let least = q.min_price->0@;
            let most = q.max_price->0@;
            filtered(v, |p: models::ProductView| fits(p, q)).contains(p) <==> {
                &&& q.min_price is None || least.mantissa * decimal::pow10(cost.scale)
                    <= cost.mantissa * decimal::pow10(least.scale)
                &&& q.max_price is None || cost.mantissa * decimal::pow10(most.scale)
                    <= most.mantissa * decimal::pow10(cost.scale)
                &&& q.condition is None || q.condition == Some(p.condition) || p.condition
                    == ProductCondition::Unknown
            }
        }),
{
    let fit = |p: models::ProductView| fits(p, q);
    lemma_filtered(v, fit, p);
}

/// An offer is left in a filtered list exactly where it passes.
pub proof fn lemma_filtered(
    v: Seq<models::ProductView>,
    pass: spec_fn(models::ProductView) -> bool,
    p: models::ProductView,
)
    ensures
        filtered(v, pass).contains(p) <==> v.contains(p) && pass(p),
{
    let keep = |i: int| pass(v[i]);
    lemma_picked_has(v, v.len() as int, keep, p);
    if v.contains(p) && pass(p) {
        let i = choose|i: int| 0 <= i < v.len() && v[i] == p;
        assert(keep(i));
        assert(among(v, v.len() as int, keep, p));
    }
}

/// What is picked is what stands at a place that is kept.
pub proof fn lemma_picked_has<A>(v: Seq<A>, k: int, keep: spec_fn(int) -> bool, x: A)
    requires
        0 <= k <= v.len(),
    ensures
        picked(v, k, keep).contains(x) <==> among(v, k, keep, x),
    decreases k,
{
    if k > 0 {
        lemma_picked_has(v, k - 1, keep, x);
        let before = picked(v, k - 1, keep);
        let after = picked(v, k, keep);
        if before.contains(x) {
            let i = choose|i: int| 0 <= i < before.len() && before[i] == x;
            assert(after[i] == x);
            assert(among(v, k - 1, keep, x));
            let j = choose|j: int| 0 <= j < k - 1 && keep(j) && #[trigger] v[j] == x;
            assert(v[j] == x);
        }
        if keep(k - 1) && v[k - 1] == x {
            assert(after[after.len() - 1] == x);
        }
        if after.contains(x) && !before.contains(x) {
            let i = choose|i: int| 0 <= i < after.len() && after[i] == x;
            if i < before.len() {
                assert(before[i] == x);
            }
            assert(v[k - 1] == x);
        }
        if among(v, k, keep, x) {
            let j = choose|j: int| 0 <= j < k && keep(j) && #[trigger] v[j] == x;
            if j < k - 1 {
                assert(v[j] == x);
                assert(among(v, k - 1, keep, x));
            }
        }
    }
}

/// A list is from the cheapest to the dearest by default and where the cheapest are asked for
/// first, from the dearest to the cheapest where those are, and from the best to the worst
/// rated where those are, an offer without a rating being rated at nothing.
pub proof fn results_go_up_or_down(
    v: Seq<models::ProductView>,
    q: models::QueryView,
    rate: Decimal,
    i: int,
    j: int,
)
    requires
        finished(v, q, rate) is Some,
        0 <= i < j < finished(v, q, rate)->0.len(),
    ensures
        ({
            let a = finished(v, q, rate)->0[i];
            let b = finished(v, q, rate)->0[j];
            let x = a.price.total_cost@;
            let y = b.price.total_cost@;
            &&& q.sort == SortOrder::TotalCost || q.sort == SortOrder::PriceAsc ==> x.mantissa
                * decimal::pow10(y.scale) <= y.mantissa * decimal::pow10(x.scale)
            &&& q.sort == SortOrder::PriceDesc ==> y.mantissa * decimal::pow10(x.scale)
                <= x.mantissa * decimal::pow10(y.scale)
            &&& q.sort == SortOrder::Rating && a.rating is Some && b.rating is Some
                ==> b.rating->0@.mantissa * decimal::pow10(a.rating->0@.scale)
                <= a.rating->0@.mantissa * decimal::pow10(b.rating->0@.scale)
            &&& q.sort == SortOrder::Rating && a.rating is None && b.rating is Some
                ==> b.rating->0@.mantissa <= 0
            &&& q.sort == SortOrder::Rating && a.rating is Some && b.rating is None
                ==> a.rating->0@.mantissa >= 0
        }),
{
    results_are_in_order(v, q, rate);
    let r = finished(v, q, rate)->0;
    assert(order::ordered(r, product_order(q.sort)));
    assert(product_order(q.sort)(r[i], r[j]));
    assert(may_precede(r[i], r[j], q.sort));
    decimal::lemma_dec(0, 0);
    assert(decimal::pow10(0) == 1);
    let none = decimal::dec(0, 0);
    if q.sort == SortOrder::Rating && r[i].rating is None && r[j].rating is Some {
        let b = r[j].rating->0;
        assert(b@.mantissa * decimal::pow10(none@.scale) <= none@.mantissa * decimal::pow10(
            b@.scale,
        ));
        assert(b@.mantissa * 1 <= 0 * decimal::pow10(b@.scale));
    }
    if q.sort == SortOrder::Rating && r[i].rating is Some && r[j].rating is None {
        let a = r[i].rating->0;
        assert(none@.mantissa * decimal::pow10(a@.scale) <= a@.mantissa * decimal::pow10(
            none@.scale,
        ));
        assert(0 * decimal::pow10(a@.scale) <= a@.mantissa * 1);
    }
}

/// Where a search asks for no order, the offers keep theirs.
pub proof fn relevance_keeps_the_order(v: Seq<models::ProductView>)
    ensures
        order::sorted(v, product_order(SortOrder::Relevance)) == v,
{
    lemma_unordered(v);
}

proof fn lemma_unordered(v: Seq<models::ProductView>)
    ensures
        order::sorted(v, product_order(SortOrder::Relevance)) == v,
    decreases v.len(),
{
    let le = product_order(SortOrder::Relevance);
    if v.len() > 0 {
        lemma_unordered(v.drop_last());
        let t = v.drop_last();
        if t.len() > 0 {
            assert(le(t.last(), v.last()));
        }
        assert(order::inserted(t, v.last(), le) =~= v);
    }
}

/// No two products in a list that are of one store have one number there, or titles that
/// come down to the same.
pub proof fn listed_numbers_and_titles_differ(
    v: Seq<models::ProductView>,
    q: models::QueryView,
    rate: Decimal,
    i: int,
    j: int,
)
    requires
        finished(v, q, rate) is Some,
        0 <= i < j < finished(v, q, rate)->0.len(),
        finished(v, q, rate)->0[i].provider == finished(v, q, rate)->0[j].provider,
    ensures
        ({
            let a = finished(v, q, rate)->0[i];
            let b = finished(v, q, rate)->0[j];
            &&& b.platform_id.len() > 0 ==> a.platform_id != b.platform_id
            &&& plain_title(b.title).len() > 0 ==> plain_title(a.title) != plain_title(b.title)
        }),
{
    results_are_listed_once(v, q, rate);
    let r = finished(v, q, rate)->0;
    assert(apart(r[i], r[j]));
}

/// Offers are told apart by nothing else: one is left out only for another of its store that
/// costs no more and has its number or a title that comes down to the same.
pub proof fn only_listings_of_one_thing_are_left_out(v: Seq<models::ProductView>, i: int)
    requires
        0 <= i < v.len(),
        !unique(v).contains(v[i]),
    ensures
        exists|j: int|
            0 <= j < v.len() && j != i && (#[trigger] v[j]).provider == v[i].provider && (
            v[i].platform_id.len() > 0 && v[j].platform_id == v[i].platform_id || plain_title(
                v[i].title,
            ).len() > 0 && plain_title(v[j].title) == plain_title(v[i].title))
                && decimal::at_most(v[j].price.total_cost, v[i].price.total_cost),
{
    let keep = |i: int| new_number(v, i) && new_title(v, i);
    lemma_picked_has(v, v.len() as int, keep, v[i]);
    if keep(i) {
        assert(among(v, v.len() as int, keep, v[i]));
    }
    let j = if !new_number(v, i) {
        choose|j: int| 0 <= j < v.len() && sooner(v, j, i) && same_number(#[trigger] v[j], v[i])
    } else {
        choose|j: int|
            0 <= j < v.len() && sooner(v, j, i) && new_number(v, j) && same_title(
                #[trigger] v[j],
                v[i],
            )
    };
    assert(sooner(v, j, i));
    decimal::amounts_are_ordered(
        v[j].price.total_cost,
        v[i].price.total_cost,
        v[i].price.total_cost,
    );
}

/// Titles that differ only in their case or in what sets words apart come down to the same.
pub proof fn titles_go_by_their_words(a: Seq<char>, b: Seq<char>)
    requires
        text::lowered(a).len() == text::lowered(b).len(),
        forall|i: int|
            0 <= i < text::lowered(a).len() ==> {
                let c = #[trigger] text::lowered(a)[i];
                let d = text::lowered(b)[i];
                c == d || " :-(),.!/|"@.contains(c) && " :-(),.!/|"@.contains(d)
            },
    ensures
        plain_title(a) == plain_title(b),
{
    reveal_strlit(" :-(),.!/|");
    let s = unseparated(text::lowered(a));
    let t = unseparated(text::lowered(b));
    let seps = " :-(),.!/|"@;
    assert forall|c: char| seps.contains(c) implies c == ' ' || separator(c) by {
        let k = choose|k: int| 0 <= k < seps.len() && seps[k] == c;
    }
    assert forall|i: int| 0 <= i < s.len() implies s[i] == t[i] by {
        let c = text::lowered(a)[i];
    }
    assert(s =~= t);
}

/// A title comes down to the words that are left of it in lower case once voltages and the
/// commonest colours are taken out.
pub proof fn titles_lose_voltages_and_colours(title: Seq<char>, s: Seq<char>)
    requires
        s.len() == text::lowered(title).len(),
        forall|i: int|
            0 <= i < s.len() ==> {
                let c = text::lowered(title)[i];
                #[trigger] s[i] == (if c == ':' || c == '-' || c == '(' || c == ')' || c == ','
                    || c == '.' || c == '!' || c == '/' || c == '|' {
                    ' '
                } else {
                    c
                })
            },
    ensures
        ({
            let volts = text::replaced(
                text::replaced(text::replaced(s, "bivolt"@, ""@), "110v"@, ""@),
                "220v"@,
                ""@,
            );
            let dark = text::replaced(text::replaced(volts, "preto"@, ""@), "black"@, ""@);
            let left = text::replaced(text::replaced(dark, "branco"@, ""@), "white"@, ""@);
            text::words(plain_title(title)) == text::words(left)
        }),
{
    assert(unseparated(text::lowered(title)) =~= s);
    text::lemma_words(without_variants(s));
    text::lemma_words_joined(text::words(without_variants(s)));
}

/// The offers of a store are counted one by one.
pub proof fn stores_are_counted(v: Seq<models::ProductView>, p: ProviderId, k: int)
    requires
        0 <= k <= v.len(),
    ensures
        of_store(v, p, k) == v.take(k).filter(|o: models::ProductView| o.provider == p).len(),
    decreases k,
{
    let of = |o: models::ProductView| o.provider == p;
    reveal(Seq::filter);
    if k > 0 {
        stores_are_counted(v, p, k - 1);
        assert(v.take(k).drop_last() =~= v.take(k - 1));
        assert(v.take(k).last() == v[k - 1]);
    } else {
        assert(v.take(0).filter(of).len() == 0);
    }
}

/// Fewer than 50 results leave of each store the first ones and no others, and 50 or more
/// leave all.
pub proof fn first_offers_of_a_store_are_kept(v: Seq<models::ProductView>, max: int, i: int)
    requires
        0 <= i < v.len(),
    ensures
        max >= 50 ==> limited(v, max) == v,
        ({
            let before = v.take(i).filter(|o: models::ProductView| o.provider == v[i].provider).len();
            max < 50 && before < max ==> limited(v, max).contains(v[i])
        }),
        ({
            let before = v.take(i).filter(|o: models::ProductView| o.provider == v[i].provider).len();
            max < 50 && before >= max ==> limited(v, max).len() < v.len()
        }),
{
    let keep = |i: int| of_store(v, v[i].provider, i + 1) <= max;
    stores_are_counted(v, v[i].provider, i);
    let before = v.take(i).filter(|o: models::ProductView| o.provider == v[i].provider).len();
    assert(of_store(v, v[i].provider, i + 1) == of_store(v, v[i].provider, i) + 1);
    if max < 50 {
        lemma_picked_has(v, v.len() as int, keep, v[i]);
        if before < max {
            assert(keep(i));
            assert(among(v, v.len() as int, keep, v[i]));
        } else {
            assert(!keep(i));
            lemma_picked_fewer(v, v.len() as int, keep, i);
        }
    }
}

/// What is picked is fewer where something is not.
proof fn lemma_picked_fewer<A>(v: Seq<A>, k: int, keep: spec_fn(int) -> bool, i: int)
    requires
        0 <= k <= v.len(),
    ensures
        picked(v, k, keep).len() <= k,
        0 <= i < k && !keep(i) ==> picked(v, k, keep).len() < k,
    decreases k,
{
    if k > 0 {
        lemma_picked_fewer(v, k - 1, keep, i);
    }
}

/// Without a browser a store is searched exactly where the settings ask for it.
pub proof fn settings_choose_the_stores(c: PechinchaConfig, p: ProviderId)
    requires
        c.general.cdp_port is None,
    ensures
        configured_stores(c).contains(p) <==> match p {
            ProviderId::MercadoLivre => c.providers.mercadolivre.enabled,
            ProviderId::AliExpress => c.providers.aliexpress.enabled,
            ProviderId::Shopee => c.providers.shopee.enabled,
            ProviderId::Amazon => c.providers.amazon.enabled,
            ProviderId::Kabum => c.providers.kabum.enabled,
            ProviderId::MagazineLuiza => c.providers.magalu.enabled,
            ProviderId::AmazonUS => c.providers.amazon_us.enabled,
            ProviderId::Olx => c.providers.olx.enabled,
            ProviderId::GoogleShopping => c.providers.google_shopping.enabled,
            ProviderId::Ebay => c.providers.ebay.enabled,
        },
{
    let q = c.providers;
    let s0 = Seq::<ProviderId>::empty();
    lemma_with_store(s0, ProviderId::MercadoLivre, q.mercadolivre.enabled, p);
    let s1 = with_store(s0, ProviderId::MercadoLivre, q.mercadolivre.enabled);
    lemma_with_store(s1, ProviderId::AliExpress, q.aliexpress.enabled, p);
    let s2 = with_store(s1, ProviderId::AliExpress, q.aliexpress.enabled);
    lemma_with_store(s2, ProviderId::Shopee, q.shopee.enabled, p);
    let s3 = with_store(s2, ProviderId::Shopee, q.shopee.enabled);
    lemma_with_store(s3, ProviderId::Amazon, q.amazon.enabled, p);
    let s4 = with_store(s3, ProviderId::Amazon, q.amazon.enabled);
    lemma_with_store(s4, ProviderId::Kabum, q.kabum.enabled, p);
    let s5 = with_store(s4, ProviderId::Kabum, q.kabum.enabled);
    lemma_with_store(s5, ProviderId::MagazineLuiza, q.magalu.enabled, p);
    let s6 = with_store(s5, ProviderId::MagazineLuiza, q.magalu.enabled);
    lemma_with_store(s6, ProviderId::AmazonUS, q.amazon_us.enabled, p);
    let s7 = with_store(s6, ProviderId::AmazonUS, q.amazon_us.enabled);
    lemma_with_store(s7, ProviderId::Olx, q.olx.enabled, p);
    let s8 = with_store(s7, ProviderId::Olx, q.olx.enabled);
    lemma_with_store(s8, ProviderId::GoogleShopping, q.google_shopping.enabled, p);
    let s9 = with_store(s8, ProviderId::GoogleShopping, q.google_shopping.enabled);
    lemma_with_store(s9, ProviderId::Ebay, q.ebay.enabled, p);
    assert(!s0.contains(p));
}

proof fn lemma_with_store(s: Seq<ProviderId>, a: ProviderId, searched: bool, p: ProviderId)
    ensures
        with_store(s, a, searched).contains(p) <==> s.contains(p) || searched && p == a,
{
    let t = s.push(a);
    if s.contains(p) {
        let i = choose|i: int| 0 <= i < s.len() && s[i] == p;
        assert(t[i] == p);
    }
    assert(t[s.len() as int] == a);
    if t.contains(p) {
        let i = choose|i: int| 0 <= i < t.len() && t[i] == p;
        if i < s.len() {
            assert(s[i] == p);
        }
    }
}

/// The price asked by the manufacturer is the original price of the first offer that has one
/// and into which there are insights.
pub proof fn anchors_come_from_insights(v: Seq<models::ProductView>)
    ensures
        match anchor_price(v, 0) {
            Some(m) => exists|i: int|
                0 <= i < v.len() && (#[trigger] v[i]).keepa.len() > 0 && v[i].price.original_price
                    == Some(m) && forall|j: int|
                    0 <= j < i ==> (#[trigger] v[j]).keepa.len() == 0
                        || v[j].price.original_price is None,
            None => forall|i: int|
                0 <= i < v.len() ==> (#[trigger] v[i]).keepa.len() == 0
                    || v[i].price.original_price is None,
        },
{
    lemma_anchor(v, 0);
}

proof fn lemma_anchor(v: Seq<models::ProductView>, k: int)
    requires
        0 <= k,
    ensures
        match anchor_price(v, k) {
            Some(m) => exists|i: int|
                k <= i < v.len() && (#[trigger] v[i]).keepa.len() > 0 && v[i].price.original_price
                    == Some(m) && forall|j: int|
                    k <= j < i ==> (#[trigger] v[j]).keepa.len() == 0
                        || v[j].price.original_price is None,
            None => forall|i: int|
                k <= i < v.len() ==> (#[trigger] v[i]).keepa.len() == 0
                    || v[i].price.original_price is None,
        },
    decreases v.len() - k,
{
    if k < v.len() && !(v[k].keepa.len() > 0 && v[k].price.original_price is Some) {
        lemma_anchor(v, k + 1);
    }
}

/// A price is filled in only where there is none, from the insights into the offer on its own
/// site, which is the Brazilian one for the Brazilian Amazon and the American one for any
/// other store; nothing else of the offer changes.
pub proof fn missing_prices_are_filled_in(p: models::ProductView)
    ensures
        ({
            let r = filled(p);
            let site = if p.provider == ProviderId::Amazon {
                12u8
            } else {
                1u8
            };
            &&& r == (models::ProductView { price: r.price, ..p })
            &&& r.price == (PriceInfo {
                listed_price: r.price.listed_price,
                price_brl: r.price.price_brl,
                ..p.price
            })
            &&& p.price.listed_price@.mantissa != 0 ==> r == p
            &&& (forall|i: int| 0 <= i < p.keepa.len() ==> (#[trigger] p.keepa[i]).domain != site)
                ==> r == p
            &&& r != p ==> exists|i: int|
                0 <= i < p.keepa.len() && (#[trigger] p.keepa[i]).domain == site && keepa::priced(
                    keepa::best_new_cents(p.keepa[i]),
                    site,
                ) == Some(r.price.listed_price) && r.price.price_brl == r.price.listed_price
            &&& forall|i: int|
                p.price.listed_price@.mantissa == 0 && 0 <= i < p.keepa.len() && (
                #[trigger] p.keepa[i]).domain == site && (forall|j: int|
                    0 <= j < i ==> (#[trigger] p.keepa[j]).domain != site) && keepa::priced(
                    keepa::best_new_cents(p.keepa[i]),
                    site,
                ) is Some ==> Some(r.price.listed_price) == keepa::priced(
                    keepa::best_new_cents(p.keepa[i]),
                    site,
                ) && r.price.price_brl == r.price.listed_price
        }),
{
    let site = if p.provider == ProviderId::Amazon {
        12u8
    } else {
        1u8
    };
    lemma_insight(p.keepa, site, 0);
}

proof fn lemma_insight(v: Seq<keepa::KeepaView>, site: u8, k: int)
    requires
        0 <= k,
    ensures
        match keepa::insight_into(v, site, k) {
            Some(x) => exists|i: int|
                k <= i < v.len() && #[trigger] v[i] == x && x.domain == site && forall|j: int|
                    k <= j < i ==> (#[trigger] v[j]).domain != site,
            None => forall|i: int| k <= i < v.len() ==> (#[trigger] v[i]).domain != site,
        },
    decreases v.len() - k,
{
    if k < v.len() {
        lemma_insight(v, site, k + 1);
    }
}

/// Every product in a list scores at least two fifths of the whole among the offers whose
/// titles hold what is searched for.
pub proof fn results_score_two_fifths(
    v: Seq<models::ProductView>,
    q: models::QueryView,
    rate: Decimal,
    i: int,
)
    requires
        finished(v, q, rate) is Some,
        0 <= i < finished(v, q, rate)->0.len(),
    ensures
        ({
            let m = matched_offers(v, q.query, rate)->0;
            let costs = Seq::new(m.len(), |k: int| m[k].price.total_cost);
            let msrp = anchor_in_reais(m, rate)->0;
            exists|j: int|
                0 <= j < m.len() && #[trigger] m[j] == finished(v, q, rate)->0[i]
                    && scoring::relevance(
                    m[j].title,
                    q.query,
                    scoring::cluster_scores(costs, msrp)[j],
                    scoring::cluster_gap(costs, msrp),
                ) >= 400_000_000_000_000_000
        }),
{
    let m = matched_offers(v, q.query, rate)->0;
    let msrp = anchor_in_reais(m, rate)->0;
    results_are_relevant(v, q, rate);
    let p = finished(v, q, rate)->0[i];
    assert(scores_enough(m, q.query, msrp, p));
    let j = choose|j: int|
        0 <= j < m.len() && relevant_at(m, q.query, msrp, j) && #[trigger] m[j] == p;
    assert(totals(m) =~= Seq::new(m.len(), |k: int| m[k].price.total_cost));
    assert(m[j] == p);
}

/// An offer is relevant exactly where it scores two fifths of the whole.
pub proof fn offers_that_score_two_fifths_are_kept(
    m: Seq<models::ProductView>,
    query: Seq<char>,
    msrp: Option<Decimal>,
    j: int,
)
    requires
        0 <= j < m.len(),
        scoring::relevance(
            m[j].title,
            query,
            scoring::cluster_scores(
                Seq::new(m.len(), |k: int| m[k].price.total_cost),
                msrp,
            )[j],
            scoring::cluster_gap(Seq::new(m.len(), |k: int| m[k].price.total_cost), msrp),
        ) >= 400_000_000_000_000_000,
    ensures
        relevant(m, query, msrp).contains(m[j]),
{
    assert(totals(m) =~= Seq::new(m.len(), |k: int| m[k].price.total_cost));
    let keep = |i: int| relevant_at(m, query, msrp, i);
    lemma_picked_has(m, m.len() as int, keep, m[j]);
    assert(keep(j));
    assert(among(m, m.len() as int, keep, m[j]));
}

/// Offers are matched by their titles alone, and those that match are all kept.
pub proof fn matching_offers_are_kept(
    v: Seq<models::ProductView>,
    query: Seq<char>,
    p: models::ProductView,
)
    ensures
        matched(v, query).contains(p) <==> v.contains(p) && scoring::matching(p.title, query),
{
    lemma_filtered(v, |p: models::ProductView| scoring::matching(p.title, query), p);
}

/// Offers with a price above nothing are kept and no others.
pub proof fn priced_offers_are_kept(v: Seq<models::ProductView>, p: models::ProductView)
    ensures
        filtered(v, |p: models::ProductView| has_price(p)).contains(p) <==> v.contains(p)
            && p.price.listed_price@.mantissa > 0,
{
    lemma_filtered(v, |p: models::ProductView| has_price(p), p);
}

/// Offers that pass are left, in their order, and no others.
pub proof fn passing_offers_keep_their_order(
    v: Seq<models::ProductView>,
    pass: spec_fn(models::ProductView) -> bool,
)
    ensures
        filtered(v, pass) == v.filter(pass),
{
    lemma_picked_filter(v, pass, v.len() as int);
    assert(v.take(v.len() as int) =~= v);
}

proof fn lemma_picked_filter(
    v: Seq<models::ProductView>,
    pass: spec_fn(models::ProductView) -> bool,
    k: int,
)
    requires
        0 <= k <= v.len(),
    ensures
        picked(v, k, |i: int| pass(v[i])) == v.take(k).filter(pass),
    decreases k,
{
    reveal(Seq::filter);
    if k > 0 {
        lemma_picked_filter(v, pass, k - 1);
        assert(v.take(k).drop_last() =~= v.take(k - 1));
        assert(v.take(k).last() == v[k - 1]);
    } else {
        assert(v.take(0) =~= Seq::empty());
    }
}

/// What is picked stands in the order in which it stood.
pub proof fn picking_keeps_the_order<A>(v: Seq<A>, k: int, keep: spec_fn(int) -> bool)
    requires
        0 < k <= v.len(),
    ensures
        keep(k - 1) ==> picked(v, k, keep) == picked(v, k - 1, keep).push(v[k - 1]),
        !keep(k - 1) ==> picked(v, k, keep) == picked(v, k - 1, keep),
        picked(v, 0, keep).len() == 0,
{
}

/// A list costs each of its offers, in order.
pub proof fn offers_are_costed_in_order(v: Seq<models::ProductView>, k: int, rate: Decimal, i: int)
    requires
        0 <= i < k <= v.len(),
        all_costed(v, k, rate) is Some,
    ensures
        all_costed(v, k, rate)->0.len() == k,
        costed(v[i], rate) == Some(all_costed(v, k, rate)->0[i]),
    decreases k,
{
    if i < k - 1 {
        offers_are_costed_in_order(v, k - 1, rate, i);
    } else if k > 1 {
        offers_are_costed_in_order(v, k - 1, rate, 0);
    } else {
        assert(all_costed(v, 0, rate) == Some(Seq::<models::ProductView>::empty()));
    }
}

/// A price in dollars becomes one in reais at the rate, and so does shipping in dollars; the
/// listed price stays.
pub proof fn dollars_become_reais(p: models::ProductView, rate: Decimal)
    requires
        costed(p, rate) is Some,
    ensures
        ({
            let r = costed(p, rate)->0;
            &&& r == (models::ProductView { price: r.price, ..p })
            &&& r.price.listed_price == p.price.listed_price
            &&& r.price.currency == p.price.currency
            &&& r.price.original_price == p.price.original_price
            &&& r.price.installments == p.price.installments
            &&& p.price.currency == Currency::USD ==> decimal::product(p.price.listed_price, rate)
                == Some(r.price.price_brl)
            &&& p.price.currency == Currency::BRL ==> r.price.price_brl == p.price.price_brl
            &&& r.price.shipping_currency == Currency::BRL
            &&& p.price.shipping_cost is None ==> r.price.shipping_cost is None
            &&& p.price.shipping_cost is Some && p.price.shipping_currency == Currency::USD
                ==> r.price.shipping_cost is Some && decimal::product(
                p.price.shipping_cost->0,
                rate,
            ) == r.price.shipping_cost
            &&& p.price.shipping_cost is Some && p.price.shipping_currency == Currency::BRL
                ==> r.price.shipping_cost == p.price.shipping_cost
        }),
{
}

} // verus!
