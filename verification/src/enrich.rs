//! What is added to offers from the pages of single products and from Keepa.

use vstd::prelude::*;

use crate::cdp;
use crate::cdp::AmazonUsDetails;
use crate::decimal;
use crate::decimal::Decimal;
use crate::keepa;
use crate::keepa::KeepaInsight;
use crate::models;
use crate::models::{Currency, PriceInfo, Product, SellerInfo, TaxInfo, TaxRegime};
use crate::order;
use crate::providers;
use crate::providers::ProviderId;
use crate::scoring;
use crate::scoring::Ratio;
use crate::search;
use crate::text;

verus! {

/// The most pages of single products that are opened for a store.
pub const MAX_DETAIL_PAGES: usize = 3;

// ---- Which pages to open ----

/// Whether the page of a product is worth opening for a search in a store: the product
/// has a page, its title holds every telling word, and its price is missing. On AliExpress
/// the price does not matter, since the page is opened for the taxes.
pub open spec fn wanted(p: models::ProductView, query: Seq<char>, store: ProviderId) -> bool {
    &&& p.provider == store
    &&& p.url.len() > 0
    &&& store == ProviderId::AliExpress || p.price.listed_price@.mantissa == 0
    &&& scoring::matching(p.title, query)
}

/// The indices of the first products of the first `k` whose page is worth opening, as many
/// of them as are opened.
pub open spec fn targets(v: Seq<models::ProductView>, query: Seq<char>, store: ProviderId, k: int) -> Seq<
    int,
>
    decreases k,
{
    if k <= 0 {
        Seq::empty()
    } else {
        let before = targets(v, query, store, k - 1);
        if before.len() < MAX_DETAIL_PAGES && wanted(v[k - 1], query, store) {
            before.push(k - 1)
        } else {
            before
        }
    }
}

/// Some indices.
pub open spec fn indices(v: Seq<usize>) -> Seq<int> {
    Seq::new(v.len(), |i: int| v[i] as int)
}

/// The indices of the products whose pages are to be opened for a search in a store: the
/// first three that are worth it.
pub fn detail_targets(products: &Vec<Product>, query: &str, store: ProviderId) -> (r: Vec<usize>)
    ensures
        indices(r@) == targets(
            models::product_views(products@),
            query@,
            store,
            products@.len() as int,
        ),
        r@.len() <= MAX_DETAIL_PAGES,
        forall|i: int| 0 <= i < r@.len() ==> #[trigger] r@[i] < products@.len(),
{
    let ghost all = models::product_views(products@);
    let mut out: Vec<usize> = Vec::new();
    let mut i: usize = 0;
    assert(indices(out@) =~= Seq::empty());
    while i < products.len()
        invariant
            i <= products@.len(),
            all == models::product_views(products@),
            indices(out@) == targets(all, query@, store, i as int),
            out@.len() <= MAX_DETAIL_PAGES,
            forall|k: int| 0 <= k < out@.len() ==> #[trigger] out@[k] < products@.len(),
        decreases products@.len() - i,
    {
        assert(all[i as int] == products@[i as int]@);
        assert(indices(out@).len() == out@.len());
        let p = &products[i];
        let ghost so_far = out@;
        if out.len() < MAX_DETAIL_PAGES && p.provider == store && text::text_bytes(p.url.as_str())
            > 0 && (store == ProviderId::AliExpress || p.price.listed_price.is_zero())
            && scoring::tokens_match(p.title.as_str(), query) {
            out.push(i);
            assert(indices(out@) =~= indices(so_far).push(i as int));
        }
        i = i + 1;
    }
    out
}

// ---- Pages of the American Amazon ----

/// A product with what its page on the American Amazon tells, or `None` where shipping
/// is too dear to be held in reais.
pub open spec fn detailed(p: models::ProductView, d: cdp::DetailsView, rate: Decimal) -> Option<
    models::ProductView,
> {
    let price = if p.price.listed_price@.mantissa == 0 && d.product_price is Some {
        PriceInfo { listed_price: d.product_price->0, price_brl: d.product_price->0, ..p.price }
    } else {
        p.price
    };
    let price = if d.msrp is Some {
        PriceInfo { original_price: d.msrp, ..price }
    } else {
        price
    };
    let seller = match d.sold_by {
        Some(name) => Some(
            models::SellerView { name, reputation: None, official_store: false },
        ),
        None => p.seller,
    };
    match d.shipping_import {
        Some(s) => match decimal::product(s, rate) {
            Some(brl) => Some(
                models::ProductView {
                    price: PriceInfo {
                        shipping_cost: Some(brl),
                        shipping_currency: Currency::BRL,
                        tax: models::untaxed(false, true, TaxRegime::InternationalStandard),
                        ..price
                    },
                    seller,
                    ..p
                },
            ),
            None => None,
        },
        None => Some(models::ProductView { price, seller, ..p }),
    }
}

/// Some replies, each with the index of the product that it is about.
pub open spec fn reply_views(v: Seq<(usize, AmazonUsDetails)>) -> Seq<(usize, cdp::DetailsView)> {
    Seq::new(v.len(), |i: int| (v[i].0, v[i].1@))
}

/// Some products with what the first `k` replies tell of those that they are about.
pub open spec fn all_detailed(
    v: Seq<models::ProductView>,
    replies: Seq<(usize, cdp::DetailsView)>,
    k: int,
    rate: Decimal,
) -> Option<Seq<models::ProductView>>
    decreases k,
{
    if k <= 0 {
        Some(v)
    } else {
        match all_detailed(v, replies, k - 1, rate) {
            Some(w) => match detailed(w[replies[k - 1].0 as int], replies[k - 1].1, rate) {
                Some(p) => Some(w.update(replies[k - 1].0 as int, p)),
                None => None,
            },
            None => None,
        }
    }
}

/// Whether a product is not one of the American Amazon without a price.
pub open spec fn not_unpriced_us(p: models::ProductView) -> bool {
    p.provider != ProviderId::AmazonUS || search::has_price(p)
}

/// Some products with what the replies tell, without those of the American Amazon whose
/// price is still missing.
pub open spec fn after_us_details(
    v: Seq<models::ProductView>,
    replies: Seq<(usize, cdp::DetailsView)>,
    rate: Decimal,
) -> Option<Seq<models::ProductView>> {
    match all_detailed(v, replies, replies.len() as int, rate) {
        Some(w) => Some(
            search::filtered(w, |p: models::ProductView| not_unpriced_us(p)),
        ),
        None => None,
    }
}

/// A product with what its page on the American Amazon tells, or `None` where shipping
/// is too dear to be held in reais.
pub fn add_us_details(p: Product, d: &AmazonUsDetails, rate: Decimal) -> (r: Option<Product>)
    ensures
        providers::offer_view(r) == detailed(p@, d@, rate),
{
    let mut price = p.price;
    if price.listed_price.is_zero() {
        match d.product_price {
            Some(listed) => {
                price = PriceInfo { listed_price: listed, price_brl: listed, ..price };
            },
            None => {},
        }
    }
    if d.msrp.is_some() {
        price = PriceInfo { original_price: d.msrp, ..price };
    }
    match d.shipping_import {
        Some(s) => match s.checked_mul(&rate) {
            Some(brl) => {
                let tax = TaxInfo::untaxed(false, true, TaxRegime::InternationalStandard);
                price = PriceInfo {
                    shipping_cost: Some(brl),
                    shipping_currency: Currency::BRL,
                    tax,
                    ..price
                };
            },
            None => {
                return None;
            },
        },
        None => {},
    }
    let seller = match &d.sold_by {
        Some(name) => Some(
            SellerInfo { name: name.clone(), reputation: None, official_store: false },
        ),
        None => p.seller,
    };
    Some(Product { price, seller, ..p })
}

proof fn lemma_product_update(v: Seq<Product>, i: int, p: Product)
    requires
        0 <= i < v.len(),
    ensures
        models::product_views(v.update(i, p)) == models::product_views(v).update(i, p@),
{
    assert(models::product_views(v.update(i, p)) =~= models::product_views(v).update(i, p@));
}

proof fn lemma_not_detailed(
    v: Seq<models::ProductView>,
    replies: Seq<(usize, cdp::DetailsView)>,
    i: int,
    k: int,
    rate: Decimal,
)
    requires
        0 <= i <= k,
        all_detailed(v, replies, i, rate) is None,
    ensures
        all_detailed(v, replies, k, rate) is None,
    decreases k - i,
{
    if i < k {
        lemma_not_detailed(v, replies, i, k - 1, rate);
    }
}

/// The products without those of the American Amazon whose price is missing.
fn drop_unpriced_us(v: Vec<Product>) -> (r: Vec<Product>)
    ensures
        models::product_views(r@) == search::filtered(
            models::product_views(v@),
            |p: models::ProductView| not_unpriced_us(p),
        ),
{
    let ghost all = models::product_views(v@);
    let mut flags: Vec<bool> = Vec::new();
    let mut i: usize = 0;
    while i < v.len()
        invariant
            i <= v@.len(),
            all == models::product_views(v@),
            flags@.len() == i,
            forall|k: int| 0 <= k < i ==> #[trigger] flags@[k] == not_unpriced_us(all[k]),
        decreases v@.len() - i,
    {
        assert(all[i as int] == v@[i as int]@);
        flags.push(v[i].provider != ProviderId::AmazonUS || v[i].price.listed_price.is_positive());
        i = i + 1;
    }
    proof {
        let p = |p: models::ProductView| not_unpriced_us(p);
        search::lemma_picked_same(all, all.len() as int, |i: int| flags@[i], |i: int| p(all[i]));
    }
    search::pick(v, &flags)
}

/// Some products with what the replies tell of those that they are about, without those
/// of the American Amazon whose price is still missing; `None` where shipping is too dear
/// to be held in reais.
pub fn apply_us_details(
    products: Vec<Product>,
    replies: &Vec<(usize, AmazonUsDetails)>,
    rate: Decimal,
) -> (r: Option<Vec<Product>>)
    requires
        forall|i: int| 0 <= i < replies@.len() ==> #[trigger] replies@[i].0 < products@.len(),
    ensures
        match r {
            Some(v) => after_us_details(models::product_views(products@), reply_views(replies@), rate) == Some(
                models::product_views(v@),
            ),
            None => after_us_details(models::product_views(products@), reply_views(replies@), rate) is None,
        },
{
    let ghost all = models::product_views(products@);
    let ghost size = products@.len();
    let ghost told = reply_views(replies@);
    let mut out = products;
    let mut i: usize = 0;
    while i < replies.len()
        invariant
            i <= replies@.len(),
            size == out@.len(),
            told == reply_views(replies@),
            all == models::product_views(products@),
            forall|i: int| 0 <= i < replies@.len() ==> #[trigger] replies@[i].0 < size,
            all_detailed(all, told, i as int, rate) == Some(
                models::product_views(out@),
            ),
        decreases replies@.len() - i,
    {
        let at: usize = replies[i].0;
        assert(replies@[i as int].0 < size);
        assert(told[i as int] == (at, replies@[i as int].1@));
        let ghost so_far = out@;
        assert(models::product_views(so_far)[at as int] == so_far[at as int]@);
        match add_us_details(out[at].clone(), &replies[i].1, rate) {
            Some(p) => {
                out.set(at, p);
                proof {
                    lemma_product_update(so_far, at as int, p);
                }
            },
            None => {
                proof {
                    lemma_not_detailed(all, told, i + 1, replies@.len() as int, rate);
                }
                return None;
            },
        }
        i = i + 1;
    }
    Some(drop_unpriced_us(out))
}

// ---- Pages of the Brazilian Amazon ----

/// The most reais that a price read from a page of the Brazilian Amazon is taken for
/// something else at.
pub const NO_PRICE: i64 = 50;

/// A product with a price read from its page, unless that is too low to be one.
pub open spec fn repriced(p: models::ProductView, price: Decimal) -> models::ProductView {
    if decimal::below(decimal::dec(NO_PRICE as int, 0), price) {
        models::ProductView {
            price: PriceInfo {
                listed_price: price,
                price_brl: price,
                total_cost: price,
                ..p.price
            },
            ..p
        }
    } else {
        p
    }
}

/// Some products with the prices that the first `k` replies tell.
pub open spec fn all_repriced(
    v: Seq<models::ProductView>,
    replies: Seq<(usize, Decimal)>,
    k: int,
) -> Seq<models::ProductView>
    decreases k,
{
    if k <= 0 {
        v
    } else {
        let w = all_repriced(v, replies, k - 1);
        let at = replies[k - 1].0 as int;
        w.update(at, repriced(w[at], replies[k - 1].1))
    }
}

fn reprice(p: Product, price: Decimal) -> (r: Product)
    ensures
        r@ == repriced(p@, price),
{
    if Decimal::new(NO_PRICE, 0).lt(&price) {
        let price = PriceInfo {
            listed_price: price,
            price_brl: price,
            total_cost: price,
            ..p.price
        };
        Product { price, ..p }
    } else {
        p
    }
}

/// Some products with the prices that were read from their pages on the Brazilian
/// Amazon.
pub fn apply_br_prices(products: Vec<Product>, replies: &Vec<(usize, Decimal)>) -> (r: Vec<Product>)
    requires
        forall|i: int| 0 <= i < replies@.len() ==> #[trigger] replies@[i].0 < products@.len(),
    ensures
        models::product_views(r@) == all_repriced(
            models::product_views(products@),
            replies@,
            replies@.len() as int,
        ),
        r@.len() == products@.len(),
{
    let ghost all = models::product_views(products@);
    let ghost size = products@.len();
    let mut products = products;
    let mut i: usize = 0;
    while i < replies.len()
        invariant
            i <= replies@.len(),
            size == products@.len(),
            forall|i: int| 0 <= i < replies@.len() ==> #[trigger] replies@[i].0 < size,
            all_repriced(all, replies@, i as int) == models::product_views(products@),
        decreases replies@.len() - i,
    {
        let at: usize = replies[i].0;
        assert(replies@[i as int].0 < size);
        let ghost so_far = products@;
        assert(models::product_views(so_far)[at as int] == so_far[at as int]@);
        let p = reprice(products[at].clone(), replies[i].1);
        products.set(at, p);
        proof {
            lemma_product_update(so_far, at as int, p);
        }
        i = i + 1;
    }
    products
}

// ---- Taxes on AliExpress ----

/// A product whose price is known to come with a tax.
pub open spec fn taxed(p: models::ProductView, tax: Decimal) -> models::ProductView {
    models::ProductView {
        price: PriceInfo {
            tax: TaxInfo {
                import_tax: Some(tax),
                total_tax: tax,
                taxes_included: true,
                tax_regime: TaxRegime::RemessaConformeOver50,
                ..p.price.tax
            },
            ..p.price
        },
        ..p
    }
}

/// Some products with the taxes that the first `k` replies tell.
pub open spec fn all_taxed(
    v: Seq<models::ProductView>,
    replies: Seq<(usize, Decimal)>,
    k: int,
) -> Seq<models::ProductView>
    decreases k,
{
    if k <= 0 {
        v
    } else {
        let w = all_taxed(v, replies, k - 1);
        let at = replies[k - 1].0 as int;
        w.update(at, taxed(w[at], replies[k - 1].1))
    }
}

/// What part of the price the tax is, in those of the first `k` replies that are about
/// a product with a price.
pub open spec fn tax_ratios(
    v: Seq<models::ProductView>,
    replies: Seq<(usize, Decimal)>,
    k: int,
) -> Option<Seq<Decimal>>
    decreases k,
{
    if k <= 0 {
        Some(Seq::empty())
    } else {
        let p = v[replies[k - 1].0 as int];
        match tax_ratios(v, replies, k - 1) {
            Some(before) => if search::has_price(p) {
                match decimal::quotient(replies[k - 1].1, p.price.listed_price) {
                    Some(ratio) => Some(before.push(ratio)),
                    None => None,
                }
            } else {
                Some(before)
            },
            None => None,
        }
    }
}

/// The sum of some amounts.
pub open spec fn added_up(v: Seq<Decimal>) -> Option<Decimal>
    decreases v.len(),
{
    if v.len() == 0 {
        Some(decimal::dec(0, 0))
    } else {
        decimal::sums(added_up(v.drop_last()), Some(v.last()))
    }
}

/// The mean of some amounts.
pub open spec fn mean(v: Seq<Decimal>) -> Option<Decimal> {
    decimal::quotients(added_up(v), Some(decimal::dec(v.len() as int, 0)))
}

/// Whether a reply is about the `i`-th product.
pub open spec fn replied(replies: Seq<(usize, Decimal)>, i: int) -> bool {
    exists|j: int| 0 <= j < replies.len() && (#[trigger] replies[j]).0 == i
}

/// The first `k` products, those of AliExpress that no reply is about with a tax of a
/// part of their price.
pub open spec fn all_estimated(
    v: Seq<models::ProductView>,
    replies: Seq<(usize, Decimal)>,
    ratio: Decimal,
    k: int,
) -> Option<Seq<models::ProductView>>
    decreases k,
{
    if k <= 0 {
        Some(Seq::empty())
    } else {
        match all_estimated(v, replies, ratio, k - 1) {
            Some(before) => if v[k - 1].provider == ProviderId::AliExpress && !replied(
                replies,
                k - 1,
            ) {
                match decimal::product(v[k - 1].price.listed_price, ratio) {
                    Some(tax) => Some(before.push(taxed(v[k - 1], tax))),
                    None => None,
                }
            } else {
                Some(before.push(v[k - 1]))
            },
            None => None,
        }
    }
}

/// Some products with the taxes that the replies tell, and where these tell of a product
/// with a price, the others of AliExpress with a tax of the mean part of their price.
pub open spec fn after_taxes(v: Seq<models::ProductView>, replies: Seq<(usize, Decimal)>) -> Option<
    Seq<models::ProductView>,
> {
    let told = all_taxed(v, replies, replies.len() as int);
    match tax_ratios(v, replies, replies.len() as int) {
        Some(ratios) => if ratios.len() == 0 {
            Some(told)
        } else {
            match mean(ratios) {
                Some(ratio) => all_estimated(told, replies, ratio, told.len() as int),
                None => None,
            }
        },
        None => None,
    }
}

fn set_tax(p: Product, tax: Decimal) -> (r: Product)
    ensures
        r@ == taxed(p@, tax),
{
    let info = TaxInfo {
        import_tax: Some(tax),
        total_tax: tax,
        taxes_included: true,
        tax_regime: TaxRegime::RemessaConformeOver50,
        ..p.price.tax
    };
    let price = PriceInfo { tax: info, ..p.price };
    Product { price, ..p }
}

proof fn lemma_no_ratios(
    v: Seq<models::ProductView>,
    replies: Seq<(usize, Decimal)>,
    i: int,
    k: int,
)
    requires
        0 <= i <= k,
        tax_ratios(v, replies, i) is None,
    ensures
        tax_ratios(v, replies, k) is None,
    decreases k - i,
{
    if i < k {
        lemma_no_ratios(v, replies, i, k - 1);
    }
}

fn find_ratios(products: &Vec<Product>, replies: &Vec<(usize, Decimal)>) -> (r: Option<Vec<Decimal>>)
    requires
        forall|i: int| 0 <= i < replies@.len() ==> #[trigger] replies@[i].0 < products@.len(),
    ensures
        match r {
            Some(v) => tax_ratios(
                models::product_views(products@),
                replies@,
                replies@.len() as int,
            ) == Some(v@),
            None => tax_ratios(
                models::product_views(products@),
                replies@,
                replies@.len() as int,
            ) is None,
        },
{
    let ghost all = models::product_views(products@);
    let mut out: Vec<Decimal> = Vec::new();
    let mut i: usize = 0;
    while i < replies.len()
        invariant
            i <= replies@.len(),
            all == models::product_views(products@),
            forall|i: int| 0 <= i < replies@.len() ==> #[trigger] replies@[i].0 < products@.len(),
            tax_ratios(all, replies@, i as int) == Some(out@),
        decreases replies@.len() - i,
    {
        let at: usize = replies[i].0;
        assert(replies@[i as int].0 < products@.len());
        assert(all[at as int] == products@[at as int]@);
        let listed = products[at].price.listed_price;
        if listed.is_positive() {
            match replies[i].1.checked_div(&listed) {
                Some(ratio) => {
                    out.push(ratio);
                },
                None => {
                    proof {
                        lemma_no_ratios(all, replies@, i + 1, replies@.len() as int);
                    }
                    return None;
                },
            }
        }
        i = i + 1;
    }
    Some(out)
}

fn find_mean(v: &Vec<Decimal>) -> (r: Option<Decimal>)
    ensures
        r == mean(v@),
{
    let mut total = Some(Decimal::zero());
    let mut count: i128 = 0;
    let mut i: usize = 0;
    assert(v@.take(0) =~= Seq::empty());
    while i < v.len()
        invariant
            i <= v@.len(),
            count == i,
            total == added_up(v@.take(i as int)),
        decreases v@.len() - i,
    {
        assert(v@.take(i + 1).drop_last() =~= v@.take(i as int));
        total = decimal::plus(total, Some(v[i]));
        count = count + 1;
        i = i + 1;
    }
    assert(v@.take(i as int) =~= v@);
    decimal::over(total, Decimal::from_parts(count, 0))
}

fn has_reply(replies: &Vec<(usize, Decimal)>, i: usize) -> (r: bool)
    ensures
        r == replied(replies@, i as int),
{
    let mut j: usize = 0;
    while j < replies.len()
        invariant
            j <= replies@.len(),
            forall|k: int| 0 <= k < j ==> (#[trigger] replies@[k]).0 != i,
        decreases replies@.len() - j,
    {
        if replies[j].0 == i {
            assert(replies@[j as int].0 == i);
            return true;
        }
        j = j + 1;
    }
    false
}

proof fn lemma_not_estimated(
    v: Seq<models::ProductView>,
    replies: Seq<(usize, Decimal)>,
    ratio: Decimal,
    i: int,
    k: int,
)
    requires
        0 <= i <= k,
        all_estimated(v, replies, ratio, i) is None,
    ensures
        all_estimated(v, replies, ratio, k) is None,
    decreases k - i,
{
    if i < k {
        lemma_not_estimated(v, replies, ratio, i, k - 1);
    }
}

fn estimate_taxes(products: &Vec<Product>, replies: &Vec<(usize, Decimal)>, ratio: Decimal) -> (r:
    Option<Vec<Product>>)
    ensures
        match r {
            Some(v) => all_estimated(
                models::product_views(products@),
                replies@,
                ratio,
                products@.len() as int,
            ) == Some(models::product_views(v@)),
            None => all_estimated(
                models::product_views(products@),
                replies@,
                ratio,
                products@.len() as int,
            ) is None,
        },
{
    let ghost all = models::product_views(products@);
    let mut out: Vec<Product> = Vec::new();
    let mut i: usize = 0;
    assert(models::product_views(out@) =~= Seq::empty());
    while i < products.len()
        invariant
            i <= products@.len(),
            all == models::product_views(products@),
            all_estimated(all, replies@, ratio, i as int) == Some(models::product_views(out@)),
        decreases products@.len() - i,
    {
        assert(all[i as int] == products@[i as int]@);
        let ghost so_far = out@;
        let p = products[i].clone();
        let p = if p.provider == ProviderId::AliExpress && !has_reply(replies, i) {
            match p.price.listed_price.checked_mul(&ratio) {
                Some(tax) => set_tax(p, tax),
                None => {
                    proof {
                        lemma_not_estimated(all, replies@, ratio, i + 1, products@.len() as int);
                    }
                    return None;
                },
            }
        } else {
            p
        };
        out.push(p);
        proof {
            providers::lemma_product_push(so_far, p);
        }
        i = i + 1;
    }
    Some(out)
}

fn tell_taxes(products: Vec<Product>, replies: &Vec<(usize, Decimal)>) -> (r: Vec<Product>)
    requires
        forall|i: int| 0 <= i < replies@.len() ==> #[trigger] replies@[i].0 < products@.len(),
    ensures
        models::product_views(r@) == all_taxed(
            models::product_views(products@),
            replies@,
            replies@.len() as int,
        ),
{
    let ghost all = models::product_views(products@);
    let ghost size = products@.len();
    let mut out = products;
    let mut i: usize = 0;
    while i < replies.len()
        invariant
            i <= replies@.len(),
            size == out@.len(),
            all == models::product_views(products@),
            forall|i: int| 0 <= i < replies@.len() ==> #[trigger] replies@[i].0 < size,
            all_taxed(all, replies@, i as int) == models::product_views(out@),
        decreases replies@.len() - i,
    {
        let at: usize = replies[i].0;
        assert(replies@[i as int].0 < size);
        let ghost so_far = out@;
        assert(models::product_views(so_far)[at as int] == so_far[at as int]@);
        let p = set_tax(out[at].clone(), replies[i].1);
        out.set(at, p);
        proof {
            lemma_product_update(so_far, at as int, p);
        }
        i = i + 1;
    }
    out
}

/// Some products with the taxes that were read from their pages on AliExpress, and the
/// others of AliExpress with a tax of the mean part of their price, where that is known.
/// There is no result where an amount on the way is too large to be held.
pub fn apply_ali_taxes(products: Vec<Product>, replies: &Vec<(usize, Decimal)>) -> (r: Option<
    Vec<Product>,
>)
    requires
        forall|i: int| 0 <= i < replies@.len() ==> #[trigger] replies@[i].0 < products@.len(),
    ensures
        match r {
            Some(v) => after_taxes(models::product_views(products@), replies@) == Some(
                models::product_views(v@),
            ),
            None => after_taxes(models::product_views(products@), replies@) is None,
        },
{
    let ratios = match find_ratios(&products, replies) {
        Some(v) => v,
        None => {
            return None;
        },
    };
    let told = tell_taxes(products, replies);
    if ratios.len() == 0 {
        return Some(told);
    }
    assert(models::product_views(told@).len() == told@.len());
    match find_mean(&ratios) {
        Some(ratio) => estimate_taxes(&told, replies, ratio),
        None => None,
    }
}

// ---- Products to ask Keepa about ----

/// The price signal of a product whose price tells nothing yet: half of the whole.
pub const UNKNOWN_PRICE: u64 = 500_000_000_000_000_000;

/// A product of one of the Amazon stores that Keepa may know.
pub struct Candidate {
    pub asin: String,
    pub score: u64,
    pub reviews: u32,
    pub price: Decimal,
    pub domain: u8,
    pub title: String,
}

/// A product of one of the Amazon stores that Keepa may know.
pub struct CandidateView {
    pub asin: Seq<char>,
    pub score: int,
    pub reviews: u32,
    pub price: Decimal,
    pub domain: u8,
    pub title: Seq<char>,
}

impl View for Candidate {
    type V = CandidateView;

    open spec fn view(&self) -> CandidateView {
        CandidateView {
            asin: self.asin@,
            score: self.score as int,
            reviews: self.reviews,
            price: self.price,
            domain: self.domain,
            title: self.title@,
        }
    }
}

/// Some candidates.
pub open spec fn candidate_views(v: Seq<Candidate>) -> Seq<CandidateView> {
    Seq::new(v.len(), |i: int| v[i]@)
}

/// Whether a product is of one of the Amazon stores, has a number of the length that
/// these give, and a title that holds every telling word of a search.
pub open spec fn eligible(p: models::ProductView, query: Seq<char>) -> bool {
    &&& p.provider == ProviderId::Amazon || p.provider == ProviderId::AmazonUS
    &&& text::byte_len(p.platform_id) == 10
    &&& scoring::matching(p.title, query)
}

/// Whether the `i`-th product is the first eligible one with its number.
pub open spec fn first_listing(v: Seq<models::ProductView>, query: Seq<char>, i: int) -> bool {
    eligible(v[i], query) && forall|j: int|
        0 <= j < i && eligible(v[j], query) ==> (#[trigger] v[j]).platform_id != v[i].platform_id
}

/// A product as a candidate.
pub open spec fn candidate_of(p: models::ProductView, query: Seq<char>) -> CandidateView {
    CandidateView {
        asin: p.platform_id,
        score: scoring::relevance(
            p.title,
            query,
            UNKNOWN_PRICE as int,
            scoring::ONE as int,
        ),
        reviews: match p.review_count {
            Some(n) => n,
            None => 0,
        },
        price: p.price.listed_price,
        domain: search::own_domain(p.provider),
        title: p.title,
    }
}

/// The first `k` products, those that are candidates.
pub open spec fn candidates(v: Seq<models::ProductView>, query: Seq<char>, k: int) -> Seq<
    CandidateView,
>
    decreases k,
{
    if k <= 0 {
        Seq::empty()
    } else if first_listing(v, query, k - 1) {
        candidates(v, query, k - 1).push(candidate_of(v[k - 1], query))
    } else {
        candidates(v, query, k - 1)
    }
}

/// Whether a candidate may stand before another: the one that scores more, then the one
/// with more reviews, then the dearer one.
pub open spec fn ranks(a: CandidateView, b: CandidateView) -> bool {
    ||| a.score > b.score
    ||| a.score == b.score && a.reviews > b.reviews
    ||| a.score == b.score && a.reviews == b.reviews && decimal::at_most(b.price, a.price)
}

/// The order of candidates.
pub open spec fn rank_order() -> spec_fn(CandidateView, CandidateView) -> bool {
    |a: CandidateView, b: CandidateView| ranks(a, b)
}

/// The candidates for a search, the best first.
pub open spec fn ranked(v: Seq<models::ProductView>, query: Seq<char>) -> Seq<CandidateView> {
    order::sorted(candidates(v, query, v.len() as int), rank_order())
}

fn is_eligible(p: &Product, query: &str) -> (r: bool)
    ensures
        r == eligible(p@, query@),
{
    (p.provider == ProviderId::Amazon || p.provider == ProviderId::AmazonUS) && text::text_bytes(
        p.platform_id.as_str(),
    ) == 10 && scoring::tokens_match(p.title.as_str(), query)
}

fn is_first_listing(v: &Vec<Product>, query: &str, i: usize) -> (r: bool)
    requires
        i < v@.len(),
    ensures
        r == first_listing(models::product_views(v@), query@, i as int),
{
    let ghost all = models::product_views(v@);
    assert(all[i as int] == v@[i as int]@);
    if !is_eligible(&v[i], query) {
        return false;
    }
    let mut j: usize = 0;
    while j < i
        invariant
            j <= i < v@.len(),
            all == models::product_views(v@),
            eligible(all[i as int], query@),
            forall|k: int|
                0 <= k < j && eligible(all[k], query@) ==> (#[trigger] all[k]).platform_id
                    != all[i as int].platform_id,
        decreases i - j,
    {
        assert(all[j as int] == v@[j as int]@);
        assert(all[i as int] == v@[i as int]@);
        if text::same_text(v[j].platform_id.as_str(), v[i].platform_id.as_str()) && is_eligible(
            &v[j],
            query,
        ) {
            assert(!first_listing(all, query@, i as int));
            return false;
        }
        j = j + 1;
    }
    true
}

fn to_candidate(p: &Product, query: &str) -> (r: Candidate)
    ensures
        r@ == candidate_of(p@, query@),
{
    let score = scoring::score_product(
        p.title.as_str(),
        query,
        UNKNOWN_PRICE,
        Ratio::new(scoring::ONE as u128),
    );
    Candidate {
        asin: p.platform_id.clone(),
        score: score.total,
        reviews: match p.review_count {
            Some(n) => n,
            None => 0,
        },
        price: p.price.listed_price,
        domain: search::site_for(p.provider),
        title: p.title.clone(),
    }
}

fn may_rank(a: &Candidate, b: &Candidate) -> (r: bool)
    ensures
        r == ranks(a@, b@),
{
    a.score > b.score || (a.score == b.score && (a.reviews > b.reviews || (a.reviews == b.reviews
        && b.price.le(&a.price))))
}

fn insert_ranked(v: &mut Vec<Candidate>, x: Candidate)
    ensures
        candidate_views(final(v)@) == order::inserted(
            candidate_views(old(v)@),
            x@,
            rank_order(),
        ),
{
    let ghost placed = candidate_views(v@);
    let ghost le = rank_order();
    let mut k: usize = v.len();
    while k > 0 && !may_rank(&v[k - 1], &x)
        invariant
            k <= v@.len(),
            placed == candidate_views(v@),
            le == rank_order(),
            forall|j: int| k <= j < v@.len() ==> !#[trigger] le(placed[j], x@),
        decreases k,
    {
        assert(placed[k - 1] == v@[k - 1]@);
        k = k - 1;
    }
    proof {
        if k > 0 {
            assert(placed[k - 1] == v@[k - 1]@);
            assert(le(placed[k - 1], x@));
        }
        order::lemma_inserted(placed, x@, le, k as int);
        assert(candidate_views(v@.insert(k as int, x)) =~= placed.insert(k as int, x@));
    }
    v.insert(k, x);
}

/// The candidates for a search, the best first.
pub fn rank_candidates(products: &Vec<Product>, query: &str) -> (r: Vec<Candidate>)
    ensures
        candidate_views(r@) == ranked(models::product_views(products@), query@),
{
    let ghost all = models::product_views(products@);
    let mut out: Vec<Candidate> = Vec::new();
    let mut i: usize = 0;
    assert(candidate_views(out@) =~= Seq::empty());
    while i < products.len()
        invariant
            i <= products@.len(),
            all == models::product_views(products@),
            candidate_views(out@) == order::sorted(
                candidates(all, query@, i as int),
                rank_order(),
            ),
        decreases products@.len() - i,
    {
        assert(all[i as int] == products@[i as int]@);
        if is_first_listing(products, query, i) {
            let x = to_candidate(&products[i], query);
            proof {
                let before = candidates(all, query@, i as int);
                assert(before.push(x@).drop_last() =~= before);
            }
            insert_ranked(&mut out, x);
        }
        i = i + 1;
    }
    out
}

/// Whether the best of some candidates, the best first, is good enough to ask Keepa
/// about.
pub open spec fn worth_asking(c: Seq<CandidateView>) -> bool {
    c.len() > 0 && c[0].score >= scoring::KEEPA_CANDIDATE_THRESHOLD
}

/// Whether the best of some candidates, the best first, is good enough to ask Keepa
/// about.
pub fn has_target(c: &Vec<Candidate>) -> (r: bool)
    ensures
        r == worth_asking(candidate_views(c@)),
{
    assert(candidate_views(c@).len() == c@.len());
    assert(c@.len() > 0 ==> candidate_views(c@)[0] == c@[0]@);
    c.len() > 0 && c[0].score >= scoring::KEEPA_CANDIDATE_THRESHOLD
}

/// The order of candidates is one that sorting can go by, so that none ranks before the
/// first of them.
pub proof fn best_candidate_is_first(v: Seq<models::ProductView>, query: Seq<char>)
    ensures
        forall|i: int|
            0 <= i < ranked(v, query).len() ==> ranks(
                ranked(v, query)[0],
                #[trigger] ranked(v, query)[i],
            ),
{
    let le = rank_order();
    assert forall|a: CandidateView, b: CandidateView| #[trigger] le(a, b) || le(b, a) by {
        decimal::amounts_are_ordered(a.price, b.price, a.price);
    }
    assert forall|a: CandidateView, b: CandidateView, c: CandidateView| #[trigger]
        le(a, b) && #[trigger] le(b, c) implies le(a, c) by {
        decimal::amounts_are_ordered(c.price, b.price, a.price);
    }
    order::sorting_orders(candidates(v, query, v.len() as int), le);
    let r = ranked(v, query);
    assert forall|i: int| 0 <= i < r.len() implies ranks(r[0], #[trigger] r[i]) by {
        assert(le(r[0], r[i]));
    }
}

// ---- What to ask Keepa ----

/// What to ask Keepa after it told of some sites.
pub enum NextFetch {
    Enough,
    Compare(usize),
    Single,
}

/// The index of the first candidate of the American Amazon from the `i`-th on that is not
/// the best one.
pub open spec fn us_fallback(c: Seq<CandidateView>, i: int) -> Option<int>
    decreases c.len() - i,
{
    if i < 0 || i >= c.len() {
        None
    } else if c[i].domain == keepa::DOMAIN_US && c[i].asin != c[0].asin {
        Some(i)
    } else {
        us_fallback(c, i + 1)
    }
}

/// What to ask Keepa after it told of some sites for the best of some candidates: nothing
/// where it told of two or more; else for a comparison for the first other candidate of
/// the American Amazon; else, where there is none, for the best one on the American site
/// alone.
pub fn next_fetch(c: &Vec<Candidate>, sites: usize) -> (r: NextFetch)
    requires
        c@.len() > 0,
    ensures
        match r {
            NextFetch::Enough => sites > 1,
            NextFetch::Compare(i) => sites <= 1 && i < c@.len() && us_fallback(
                candidate_views(c@),
                0,
            ) == Some(i as int),
            NextFetch::Single => sites <= 1 && us_fallback(candidate_views(c@), 0) is None,
        },
{
    if sites > 1 {
        return NextFetch::Enough;
    }
    let ghost all = candidate_views(c@);
    let mut i: usize = 0;
    while i < c.len()
        invariant
            i <= c@.len(),
            sites <= 1,
            all == candidate_views(c@),
            us_fallback(all, 0) == us_fallback(all, i as int),
        decreases c@.len() - i,
    {
        assert(all[i as int] == c@[i as int]@);
        assert(all[0] == c@[0]@);
        if c[i].domain == keepa::DOMAIN_US && !text::same_text(
            c[i].asin.as_str(),
            c[0].asin.as_str(),
        ) {
            return NextFetch::Compare(i);
        }
        i = i + 1;
    }
    NextFetch::Single
}

/// The insights that tell of more sites, the first ones where neither tells of more, and
/// whether these are the second ones.
pub fn fuller_insights(first: Vec<KeepaInsight>, second: Vec<KeepaInsight>) -> (r: (
    bool,
    Vec<KeepaInsight>,
))
    ensures
        r.0 == (second@.len() > first@.len()),
        keepa::insight_views(r.1@) == keepa::insight_views(
            if second@.len() > first@.len() {
                second@
            } else {
                first@
            },
        ),
{
    if second.len() > first.len() {
        (true, second)
    } else {
        (false, first)
    }
}

/// Some insights with one more, where it is into a further site.
pub open spec fn with_single(v: Seq<keepa::KeepaView>, single: Option<keepa::KeepaView>) -> Seq<
    keepa::KeepaView,
> {
    match single {
        Some(k) => if keepa::into_site(v, k.domain) {
            v
        } else {
            v.push(k)
        },
        None => v,
    }
}

/// An insight that may be missing.
pub open spec fn insight_view(k: Option<KeepaInsight>) -> Option<keepa::KeepaView> {
    match k {
        Some(k) => Some(k@),
        None => None,
    }
}

/// Some insights with one more, where it is into a further site.
pub fn add_single(v: Vec<KeepaInsight>, single: Option<KeepaInsight>) -> (r: Vec<KeepaInsight>)
    ensures
        keepa::insight_views(r@) == with_single(keepa::insight_views(v@), insight_view(single)),
{
    match single {
        Some(k) => {
            if keepa::knows_site(&v, k.domain) {
                v
            } else {
                let mut out = v;
                out.push(k);
                assert(keepa::insight_views(out@) =~= keepa::insight_views(v@).push(k@));
                out
            }
        },
        None => v,
    }
}

// ---- The price that the manufacturer asks ----

/// The prices in dollars that the manufacturer asks on the first `k` of some sites, as
/// far as they are known and not nothing.
pub open spec fn asked_prices(v: Seq<keepa::KeepaView>, k: int) -> Seq<Decimal>
    decreases k,
{
    if k <= 0 {
        Seq::empty()
    } else {
        let before = asked_prices(v, k - 1);
        match keepa::in_dollars(keepa::priced(v[k - 1].list_price, v[k - 1].domain), v[k - 1].domain) {
            Some(m) => if m@.mantissa > 0 {
                before.push(m)
            } else {
                before
            },
            None => before,
        }
    }
}

/// The amount in the middle of some, the upper one of two.
pub open spec fn middle(v: Seq<Decimal>) -> Option<Decimal> {
    if v.len() == 0 {
        None
    } else {
        Some(order::sorted(v, order::amount_order())[v.len() as int / 2])
    }
}

/// The prices of the first `k` products that have one and whose titles hold every telling
/// word of a search.
pub open spec fn result_prices(v: Seq<models::ProductView>, query: Seq<char>, k: int) -> Seq<Decimal>
    decreases k,
{
    if k <= 0 {
        Seq::empty()
    } else if search::has_price(v[k - 1]) && scoring::matching(v[k - 1].title, query) {
        result_prices(v, query, k - 1).push(v[k - 1].price.listed_price)
    } else {
        result_prices(v, query, k - 1)
    }
}

/// A price that the manufacturer asks, in dollars, unless it is less than a tenth of the
/// middle price of the results, since it is then one of an accessory. It is `None` where
/// an amount on the way is too large to be held.
pub open spec fn plausible(
    m: Decimal,
    v: Seq<models::ProductView>,
    query: Seq<char>,
    rate: Decimal,
) -> Option<Option<Decimal>> {
    match decimal::product(m, rate) {
        Some(brl) => match middle(result_prices(v, query, v.len() as int)) {
            Some(price) => match decimal::product(price, decimal::dec(10, 2)) {
                Some(least) => Some(
                    if decimal::below(brl, least) {
                        None
                    } else {
                        Some(m)
                    },
                ),
                None => None,
            },
            None => Some(Some(m)),
        },
        None => None,
    }
}

/// The price in dollars that the manufacturer asks: the middle one of those on the sites,
/// if it is plausible for the results of a search.
pub open spec fn msrp_of(
    insights: Seq<keepa::KeepaView>,
    v: Seq<models::ProductView>,
    query: Seq<char>,
    rate: Decimal,
) -> Option<Option<Decimal>> {
    match middle(asked_prices(insights, insights.len() as int)) {
        Some(m) => plausible(m, v, query, rate),
        None => Some(None),
    }
}

fn find_middle(v: &Vec<Decimal>) -> (r: Option<Decimal>)
    ensures
        r == middle(v@),
{
    if v.len() == 0 {
        return None;
    }
    let sorted = order::sort_amounts(v);
    proof {
        order::amount_order_is_total();
        order::sorting_orders(v@, order::amount_order());
    }
    Some(sorted[v.len() / 2])
}

fn find_asked_prices(v: &Vec<KeepaInsight>) -> (r: Vec<Decimal>)
    ensures
        r@ == asked_prices(keepa::insight_views(v@), v@.len() as int),
{
    let ghost all = keepa::insight_views(v@);
    let mut out: Vec<Decimal> = Vec::new();
    let mut i: usize = 0;
    while i < v.len()
        invariant
            i <= v@.len(),
            all == keepa::insight_views(v@),
            out@ == asked_prices(all, i as int),
        decreases v@.len() - i,
    {
        assert(all[i as int] == v@[i as int]@);
        match v[i].msrp_usd() {
            Some(m) => {
                if m.is_positive() {
                    out.push(m);
                }
            },
            None => {},
        }
        i = i + 1;
    }
    out
}

fn find_result_prices(v: &Vec<Product>, query: &str) -> (r: Vec<Decimal>)
    ensures
        r@ == result_prices(models::product_views(v@), query@, v@.len() as int),
{
    let ghost all = models::product_views(v@);
    let mut out: Vec<Decimal> = Vec::new();
    let mut i: usize = 0;
    while i < v.len()
        invariant
            i <= v@.len(),
            all == models::product_views(v@),
            out@ == result_prices(all, query@, i as int),
        decreases v@.len() - i,
    {
        assert(all[i as int] == v@[i as int]@);
        if v[i].price.listed_price.is_positive() && scoring::tokens_match(
            v[i].title.as_str(),
            query,
        ) {
            out.push(v[i].price.listed_price);
        }
        i = i + 1;
    }
    out
}

/// The price in dollars that the manufacturer asks: the middle one of those on the sites,
/// unless it is less than a tenth of the middle price of the results of a search. The
/// outer `None` is for an amount on the way that is too large to be held.
pub fn find_msrp(
    insights: &Vec<KeepaInsight>,
    products: &Vec<Product>,
    query: &str,
    rate: Decimal,
) -> (r: Option<Option<Decimal>>)
    ensures
        r == msrp_of(
            keepa::insight_views(insights@),
            models::product_views(products@),
            query@,
            rate,
        ),
{
    assert(keepa::insight_views(insights@).len() == insights@.len());
    assert(models::product_views(products@).len() == products@.len());
    let asked = find_asked_prices(insights);
    let m = match find_middle(&asked) {
        Some(m) => m,
        None => {
            return Some(None);
        },
    };
    let brl = match m.checked_mul(&rate) {
        Some(brl) => brl,
        None => {
            return None;
        },
    };
    let prices = find_result_prices(products, query);
    match find_middle(&prices) {
        Some(price) => match price.checked_mul(&Decimal::new(10, 2)) {
            Some(least) => if brl.lt(&least) {
                Some(None)
            } else {
                Some(Some(m))
            },
            None => None,
        },
        None => Some(Some(m)),
    }
}

// ---- What Keepa told ----

/// A product with some insights, with the price that the manufacturer asks, where that is
/// known, and with the rating and the reviews on its own site, where it has none.
pub open spec fn enriched(
    p: models::ProductView,
    insights: Seq<keepa::KeepaView>,
    msrp: Option<Decimal>,
) -> models::ProductView {
    let price = if msrp is Some {
        PriceInfo { original_price: msrp, ..p.price }
    } else {
        p.price
    };
    let p = models::ProductView { keepa: insights, price, ..p };
    match keepa::insight_into(insights, search::own_domain(p.provider), 0) {
        Some(own) => models::ProductView {
            rating: if p.rating is None {
                own.rating
            } else {
                p.rating
            },
            review_count: if p.review_count is None {
                own.review_count
            } else {
                p.review_count
            },
            ..p
        },
        None => p,
    }
}

/// Whether a product has one of two numbers.
pub open spec fn numbered(p: models::ProductView, a: Seq<char>, b: Seq<char>) -> bool {
    p.platform_id == a || p.platform_id == b
}

/// Some products, those with one of two numbers enriched.
pub open spec fn all_enriched(
    v: Seq<models::ProductView>,
    insights: Seq<keepa::KeepaView>,
    msrp: Option<Decimal>,
    a: Seq<char>,
    b: Seq<char>,
) -> Seq<models::ProductView> {
    Seq::new(
        v.len(),
        |i: int|
            if numbered(v[i], a, b) {
                enriched(v[i], insights, msrp)
            } else {
                v[i]
            },
    )
}

fn is_numbered(p: &Product, a: &str, b: &str) -> (r: bool)
    ensures
        r == numbered(p@, a@, b@),
{
    text::same_text(p.platform_id.as_str(), a) || text::same_text(p.platform_id.as_str(), b)
}

fn enrich(p: Product, insights: &Vec<KeepaInsight>, msrp: Option<Decimal>) -> (r: Product)
    ensures
        r@ == enriched(p@, keepa::insight_views(insights@), msrp),
{
    let price = if msrp.is_some() {
        PriceInfo { original_price: msrp, ..p.price }
    } else {
        p.price
    };
    let mut rating = p.rating;
    let mut review_count = p.review_count;
    match keepa::find_insight(insights, search::site_for(p.provider)) {
        Some(i) => {
            if rating.is_none() {
                rating = insights[i].rating;
            }
            if review_count.is_none() {
                review_count = insights[i].review_count;
            }
        },
        None => {},
    }
    let keepa = keepa::copy_insights(insights);
    Product { price, keepa, rating, review_count, ..p }
}

/// Some products, those with one of two numbers with what Keepa told.
pub fn attach_insights(
    products: &Vec<Product>,
    insights: &Vec<KeepaInsight>,
    msrp: Option<Decimal>,
    effective_asin: &str,
    best_asin: &str,
) -> (r: Vec<Product>)
    ensures
        models::product_views(r@) == all_enriched(
            models::product_views(products@),
            keepa::insight_views(insights@),
            msrp,
            effective_asin@,
            best_asin@,
        ),
{
    let ghost all = models::product_views(products@);
    let ghost goal = all_enriched(
        all,
        keepa::insight_views(insights@),
        msrp,
        effective_asin@,
        best_asin@,
    );
    let mut out: Vec<Product> = Vec::new();
    let mut i: usize = 0;
    while i < products.len()
        invariant
            i <= products@.len(),
            all == models::product_views(products@),
            goal == all_enriched(
                all,
                keepa::insight_views(insights@),
                msrp,
                effective_asin@,
                best_asin@,
            ),
            models::product_views(out@) == goal.take(i as int),
        decreases products@.len() - i,
    {
        assert(all[i as int] == products@[i as int]@);
        let ghost so_far = out@;
        let p = products[i].clone();
        let p = if is_numbered(&p, effective_asin, best_asin) {
            enrich(p, insights, msrp)
        } else {
            p
        };
        out.push(p);
        proof {
            providers::lemma_product_push(so_far, p);
            assert(goal.take(i + 1) =~= goal.take(i as int).push(goal[i as int]));
        }
        i = i + 1;
    }
    assert(goal.take(i as int) =~= goal);
    out
}

/// Whether the price that the manufacturer asks is known of a product with one of two
/// numbers.
pub open spec fn msrp_known(v: Seq<models::ProductView>, a: Seq<char>, b: Seq<char>) -> bool {
    exists|i: int|
        0 <= i < v.len() && numbered(#[trigger] v[i], a, b) && v[i].price.original_price is Some
}

/// Whether the price that the manufacturer asks is known of a product with one of two
/// numbers.
pub fn has_msrp(products: &Vec<Product>, effective_asin: &str, best_asin: &str) -> (r: bool)
    ensures
        r == msrp_known(models::product_views(products@), effective_asin@, best_asin@),
{
    let ghost all = models::product_views(products@);
    let mut i: usize = 0;
    while i < products.len()
        invariant
            i <= products@.len(),
            all == models::product_views(products@),
            forall|k: int|
                0 <= k < i && numbered(#[trigger] all[k], effective_asin@, best_asin@)
                    ==> all[k].price.original_price is None,
        decreases products@.len() - i,
    {
        assert(all[i as int] == products@[i as int]@);
        if is_numbered(&products[i], effective_asin, best_asin)
            && products[i].price.original_price.is_some() {
            assert(numbered(all[i as int], effective_asin@, best_asin@));
            return true;
        }
        i = i + 1;
    }
    false
}

/// A product with the price that the manufacturer asks.
pub open spec fn with_msrp(p: models::ProductView, msrp: Decimal) -> models::ProductView {
    models::ProductView { price: PriceInfo { original_price: Some(msrp), ..p.price }, ..p }
}

/// Some products, those with one of two numbers with the price that the manufacturer
/// asks.
pub open spec fn all_with_msrp(
    v: Seq<models::ProductView>,
    msrp: Decimal,
    a: Seq<char>,
    b: Seq<char>,
) -> Seq<models::ProductView> {
    Seq::new(
        v.len(),
        |i: int|
            if numbered(v[i], a, b) {
                with_msrp(v[i], msrp)
            } else {
                v[i]
            },
    )
}

/// Some products, those with one of two numbers with the price that the manufacturer
/// asks.
pub fn set_msrp(products: &Vec<Product>, msrp: Decimal, effective_asin: &str, best_asin: &str) -> (r:
    Vec<Product>)
    ensures
        models::product_views(r@) == all_with_msrp(
            models::product_views(products@),
            msrp,
            effective_asin@,
            best_asin@,
        ),
{
    let ghost all = models::product_views(products@);
    let ghost goal = all_with_msrp(all, msrp, effective_asin@, best_asin@);
    let mut out: Vec<Product> = Vec::new();
    let mut i: usize = 0;
    while i < products.len()
        invariant
            i <= products@.len(),
            all == models::product_views(products@),
            goal == all_with_msrp(all, msrp, effective_asin@, best_asin@),
            models::product_views(out@) == goal.take(i as int),
        decreases products@.len() - i,
    {
        assert(all[i as int] == products@[i as int]@);
        let ghost so_far = out@;
        let p = products[i].clone();
        let p = if is_numbered(&p, effective_asin, best_asin) {
            let price = PriceInfo { original_price: Some(msrp), ..p.price };
            Product { price, ..p }
        } else {
            p
        };
        out.push(p);
        proof {
            providers::lemma_product_push(so_far, p);
            assert(goal.take(i + 1) =~= goal.take(i as int).push(goal[i as int]));
        }
        i = i + 1;
    }
    assert(goal.take(i as int) =~= goal);
    out
}

/// Whether some products are the same offers as others, one by one.
pub open spec fn same_offers(v: Seq<models::ProductView>, w: Seq<models::ProductView>) -> bool {
    v.len() == w.len() && forall|i: int| 0 <= i < v.len() ==> search::same_offer(#[trigger] v[i], w[i])
}

/// Whether every reply is about one of so many products.
pub open spec fn about<T>(replies: Seq<(usize, T)>, size: nat) -> bool {
    forall|i: int| 0 <= i < replies.len() ==> (#[trigger] replies[i]).0 < size
}

proof fn lemma_detailed_offers(
    v: Seq<models::ProductView>,
    replies: Seq<(usize, cdp::DetailsView)>,
    k: int,
    rate: Decimal,
)
    requires
        0 <= k <= replies.len(),
        about(replies, v.len()),
        all_detailed(v, replies, k, rate) is Some,
    ensures
        same_offers(all_detailed(v, replies, k, rate)->0, v),
    decreases k,
{
    if k > 0 {
        lemma_detailed_offers(v, replies, k - 1, rate);
        assert(replies[k - 1].0 < v.len());
    }
}

/// What the pages of the American Amazon tell leaves offers what they are.
pub proof fn us_details_keep_offers(
    v: Seq<models::ProductView>,
    replies: Seq<(usize, cdp::DetailsView)>,
    rate: Decimal,
)
    requires
        about(replies, v.len()),
    ensures
        match after_us_details(v, replies, rate) {
            Some(w) => search::all_offered(w, v),
            None => true,
        },
{
    if after_us_details(v, replies, rate) is Some {
        lemma_detailed_offers(v, replies, replies.len() as int, rate);
        let w = all_detailed(v, replies, replies.len() as int, rate)->0;
        let good = |p: models::ProductView| search::offered(p, v);
        let priced = |p: models::ProductView| not_unpriced_us(p);
        assert forall|i: int| 0 <= i < w.len() implies good(#[trigger] w[i]) by {
            assert(search::same_offer(w[i], v[i]));
        }
        search::lemma_picked(
            w,
            w.len() as int,
            |i: int| priced(w[i]),
            good,
            |a: models::ProductView, b: models::ProductView| true,
        );
        assert forall|i: int| 0 <= i < after_us_details(v, replies, rate)->0.len() implies
            search::offered(#[trigger] after_us_details(v, replies, rate)->0[i], v) by {
            assert(good(after_us_details(v, replies, rate)->0[i]));
        }
    }
}

/// What the pages of the Brazilian Amazon tell leaves offers what they are.
pub proof fn prices_keep_offers(
    v: Seq<models::ProductView>,
    replies: Seq<(usize, Decimal)>,
    k: int,
)
    requires
        0 <= k <= replies.len(),
        about(replies, v.len()),
    ensures
        same_offers(all_repriced(v, replies, k), v),
    decreases k,
{
    if k > 0 {
        prices_keep_offers(v, replies, k - 1);
        assert(replies[k - 1].0 < v.len());
    }
}

proof fn lemma_taxed_offers(v: Seq<models::ProductView>, replies: Seq<(usize, Decimal)>, k: int)
    requires
        0 <= k <= replies.len(),
        about(replies, v.len()),
    ensures
        same_offers(all_taxed(v, replies, k), v),
    decreases k,
{
    if k > 0 {
        lemma_taxed_offers(v, replies, k - 1);
        assert(replies[k - 1].0 < v.len());
    }
}

proof fn lemma_estimated_offers(
    v: Seq<models::ProductView>,
    replies: Seq<(usize, Decimal)>,
    ratio: Decimal,
    k: int,
)
    requires
        0 <= k <= v.len(),
        all_estimated(v, replies, ratio, k) is Some,
    ensures
        all_estimated(v, replies, ratio, k)->0.len() == k,
        forall|i: int|
            0 <= i < k ==> search::same_offer(
                #[trigger] all_estimated(v, replies, ratio, k)->0[i],
                v[i],
            ),
    decreases k,
{
    if k > 0 {
        lemma_estimated_offers(v, replies, ratio, k - 1);
    }
}

/// What the pages of AliExpress tell leaves offers what they are.
pub proof fn taxes_keep_offers(v: Seq<models::ProductView>, replies: Seq<(usize, Decimal)>)
    requires
        about(replies, v.len()),
    ensures
        match after_taxes(v, replies) {
            Some(w) => same_offers(w, v),
            None => true,
        },
{
    if after_taxes(v, replies) is Some {
        lemma_taxed_offers(v, replies, replies.len() as int);
        let told = all_taxed(v, replies, replies.len() as int);
        let ratios = tax_ratios(v, replies, replies.len() as int)->0;
        if ratios.len() > 0 {
            lemma_estimated_offers(told, replies, mean(ratios)->0, told.len() as int);
            assert forall|i: int| 0 <= i < v.len() implies search::same_offer(
                #[trigger] after_taxes(v, replies)->0[i],
                v[i],
            ) by {
                assert(search::same_offer(told[i], v[i]));
            }
        }
    }
}

/// Insights go to the products with one of two numbers, and leave what is offered there
/// and all other products as they are.
pub proof fn insights_go_to_their_product(
    v: Seq<models::ProductView>,
    insights: Seq<keepa::KeepaView>,
    msrp: Option<Decimal>,
    a: Seq<char>,
    b: Seq<char>,
    i: int,
)
    requires
        0 <= i < v.len(),
    ensures
        same_offers(all_enriched(v, insights, msrp, a, b), v),
        numbered(v[i], a, b) ==> all_enriched(v, insights, msrp, a, b)[i].keepa == insights,
        !numbered(v[i], a, b) ==> all_enriched(v, insights, msrp, a, b)[i] == v[i],
{
}

/// At most three pages of a store are opened, for offers of that store with an address and a
/// title that matches the search, and outside AliExpress without a price; with fewer than
/// three, there is no other such offer.
pub proof fn pages_are_opened_for_missing_prices(
    v: Seq<models::ProductView>,
    query: Seq<char>,
    store: ProviderId,
    k: int,
)
    requires
        0 <= k <= v.len(),
    ensures
        ({
            let t = targets(v, query, store, k);
            &&& t.len() <= 3
            &&& forall|i: int|
                0 <= i < t.len() ==> {
                    let p = v[#[trigger] t[i]];
                    &&& 0 <= t[i] < k
                    &&& p.provider == store
                    &&& p.url.len() > 0
                    &&& store == ProviderId::AliExpress || p.price.listed_price@.mantissa == 0
                    &&& scoring::matching(p.title, query)
                }
            &&& forall|i: int, j: int| 0 <= i < j < t.len() ==> #[trigger] t[i] < #[trigger] t[j]
            &&& t.len() < 3 ==> forall|n: int|
                0 <= n < k && (#[trigger] v[n]).provider == store && v[n].url.len() > 0 && (store
                    == ProviderId::AliExpress || v[n].price.listed_price@.mantissa == 0)
                    && scoring::matching(v[n].title, query) ==> t.contains(n)
        }),
    decreases k,
{
    if k > 0 {
        pages_are_opened_for_missing_prices(v, query, store, k - 1);
        let before = targets(v, query, store, k - 1);
        let t = targets(v, query, store, k);
        assert forall|n: int| before.contains(n) implies t.contains(n) by {
            let i = choose|i: int| 0 <= i < before.len() && before[i] == n;
            assert(t[i] == n);
        }
        if t.len() > before.len() {
            assert(t[before.len() as int] == k - 1);
            assert(t.contains(k - 1));
        }
    }
}

/// A page of the American Amazon gives an offer its price where it has none, the price that
/// the manufacturer asks, its seller, and its shipping with the import charges in reais,
/// after which no tax is left to be worked out; what the page does not tell stays as it is.
pub proof fn us_pages_tell_what_is_missing(
    p: models::ProductView,
    d: cdp::DetailsView,
    rate: Decimal,
)
    ensures
        match detailed(p, d, rate) {
            Some(r) => {
                &&& search::same_offer(r, p)
                &&& p.price.listed_price@.mantissa != 0 || d.product_price is None
                    ==> r.price.listed_price == p.price.listed_price && r.price.price_brl
                    == p.price.price_brl
                &&& p.price.listed_price@.mantissa == 0 && d.product_price is Some
                    ==> r.price.listed_price == d.product_price->0 && r.price.price_brl
                    == d.product_price->0
                &&& r.price.original_price == (if d.msrp is Some {
                    d.msrp
                } else {
                    p.price.original_price
                })
                &&& d.sold_by is Some ==> r.seller is Some && r.seller->0.name == d.sold_by->0
                    && !r.seller->0.official_store
                &&& d.sold_by is None ==> r.seller == p.seller
                &&& d.shipping_import is Some ==> r.price.shipping_cost == decimal::product(
                    d.shipping_import->0,
                    rate,
                ) && r.price.shipping_currency == Currency::BRL && r.price.tax.taxes_included
                    && r.price.tax.tax_regime == TaxRegime::InternationalStandard
                    && r.price.tax.total_tax == decimal::dec(0, 0)
                    && !r.price.tax.remessa_conforme
                &&& d.shipping_import is None ==> r.price.shipping_cost == p.price.shipping_cost
                    && r.price.shipping_currency == p.price.shipping_currency && r.price.tax
                    == p.price.tax
                &&& r.price.currency == p.price.currency
                &&& r.rating == p.rating
                &&& r.review_count == p.review_count
                &&& r.keepa == p.keepa
            },
            None => d.shipping_import is Some && decimal::product(
                d.shipping_import->0,
                rate,
            ) is None,
        },
{
}

/// A page tells of its own offer alone: one that no reply is about stays as it is, and one
/// that a single reply is about has what that reply tells.
pub proof fn us_pages_tell_of_their_own(
    v: Seq<models::ProductView>,
    replies: Seq<(usize, cdp::DetailsView)>,
    k: int,
    rate: Decimal,
    i: int,
)
    requires
        0 <= k <= replies.len(),
        about(replies, v.len()),
        all_detailed(v, replies, k, rate) is Some,
        0 <= i < v.len(),
    ensures
        all_detailed(v, replies, k, rate)->0.len() == v.len(),
        (forall|j: int| 0 <= j < k ==> (#[trigger] replies[j]).0 != i) ==> all_detailed(
            v,
            replies,
            k,
            rate,
        )->0[i] == v[i],
        forall|n: int|
            0 <= n < k && (#[trigger] replies[n]).0 == i && (forall|j: int|
                0 <= j < k && j != n ==> (#[trigger] replies[j]).0 != i) ==> detailed(
                v[i],
                replies[n].1,
                rate,
            ) == Some(all_detailed(v, replies, k, rate)->0[i]),
    decreases k,
{
    if k > 0 {
        us_pages_tell_of_their_own(v, replies, k - 1, rate, i);
        let w = all_detailed(v, replies, k - 1, rate)->0;
        assert(replies[k - 1].0 < v.len());
        assert forall|n: int|
            0 <= n < k && (#[trigger] replies[n]).0 == i && (forall|j: int|
                0 <= j < k && j != n ==> (#[trigger] replies[j]).0 != i) implies detailed(
            v[i],
            replies[n].1,
            rate,
        ) == Some(all_detailed(v, replies, k, rate)->0[i]) by {
            if n < k - 1 {
                assert(replies[k - 1].0 != i);
            } else {
                assert(w[i] == v[i]);
            }
        }
    }
}

/// After the pages were read, offers of the American Amazon without a price are left out, and
/// no others.
pub proof fn us_offers_without_a_price_are_left_out(
    v: Seq<models::ProductView>,
    replies: Seq<(usize, cdp::DetailsView)>,
    rate: Decimal,
    p: models::ProductView,
)
    requires
        after_us_details(v, replies, rate) is Some,
    ensures
        after_us_details(v, replies, rate)->0.contains(p) <==> all_detailed(
            v,
            replies,
            replies.len() as int,
            rate,
        )->0.contains(p) && (p.provider != ProviderId::AmazonUS
            || p.price.listed_price@.mantissa > 0),
{
    let w = all_detailed(v, replies, replies.len() as int, rate)->0;
    search::lemma_filtered(w, |p: models::ProductView| not_unpriced_us(p), p);
}

/// A price on a page of the Brazilian Amazon is taken where it is more than 50 reais, and
/// then for all that the offer costs; else the offer stays as it is.
pub proof fn read_prices_are_above_fifty(p: models::ProductView, price: Decimal)
    ensures
        ({
            let r = repriced(p, price);
            &&& price@.mantissa <= 50 * decimal::pow10(price@.scale) ==> r == p
            &&& price@.mantissa > 50 * decimal::pow10(price@.scale) ==> {
                &&& r.price.listed_price == price
                &&& r.price.price_brl == price
                &&& r.price.total_cost == price
                &&& r.price.tax == p.price.tax
                &&& r.price.shipping_cost == p.price.shipping_cost
                &&& r.price.currency == p.price.currency
                &&& search::same_offer(r, p)
            }
        }),
{
    let fifty = decimal::dec(50, 0);
    decimal::lemma_dec(50, 0);
    assert(decimal::pow10(0) == 1);
    assert(decimal::at_most(price, fifty) <==> price@.mantissa * 1 <= 50 * decimal::pow10(
        price@.scale,
    ));
}

/// A price that is read goes to the offer that its page is of, and to no other.
pub proof fn read_prices_go_to_their_offer(
    v: Seq<models::ProductView>,
    replies: Seq<(usize, Decimal)>,
    k: int,
    i: int,
)
    requires
        0 <= k <= replies.len(),
        about(replies, v.len()),
        0 <= i < v.len(),
    ensures
        all_repriced(v, replies, k).len() == v.len(),
        all_taxed(v, replies, k).len() == v.len(),
        (forall|j: int| 0 <= j < k ==> (#[trigger] replies[j]).0 != i) ==> all_repriced(
            v,
            replies,
            k,
        )[i] == v[i] && all_taxed(v, replies, k)[i] == v[i],
        forall|n: int|
            0 <= n < k && (#[trigger] replies[n]).0 == i && (forall|j: int|
                0 <= j < k && j != n ==> (#[trigger] replies[j]).0 != i) ==> all_repriced(
                v,
                replies,
                k,
            )[i] == repriced(v[i], replies[n].1) && all_taxed(v, replies, k)[i] == taxed(
                v[i],
                replies[n].1,
            ),
    decreases k,
{
    if k > 0 {
        read_prices_go_to_their_offer(v, replies, k - 1, i);
        assert(replies[k - 1].0 < v.len());
        assert forall|n: int|
            0 <= n < k && (#[trigger] replies[n]).0 == i && (forall|j: int|
                0 <= j < k && j != n ==> (#[trigger] replies[j]).0 != i) implies all_repriced(
            v,
            replies,
            k,
        )[i] == repriced(v[i], replies[n].1) && all_taxed(v, replies, k)[i] == taxed(
            v[i],
            replies[n].1,
        ) by {
            if n < k - 1 {
                assert(replies[k - 1].0 != i);
            }
        }
    }
}

/// A tax that is told is all the tax there is, is held in the price, and is that of the
/// Remessa Conforme programme on an import of 50 dollars and more; the price stays.
pub proof fn told_taxes_are_held(p: models::ProductView, tax: Decimal)
    ensures
        ({
            let r = taxed(p, tax);
            &&& r.price.tax.import_tax == Some(tax)
            &&& r.price.tax.total_tax == tax
            &&& r.price.tax.taxes_included
            &&& r.price.tax.tax_regime == TaxRegime::RemessaConformeOver50
            &&& r.price.tax.icms == p.price.tax.icms
            &&& r.price.tax.remessa_conforme == p.price.tax.remessa_conforme
            &&& r.price.listed_price == p.price.listed_price
            &&& r.price.price_brl == p.price.price_brl
            &&& r.price.total_cost == p.price.total_cost
            &&& r.price.shipping_cost == p.price.shipping_cost
            &&& search::same_offer(r, p)
        }),
{
}

/// Offers of AliExpress whose page was not read are taxed with one part of their price, the
/// same for all; no other offer changes beyond what its page tells.
pub proof fn unread_taxes_are_one_part_of_the_price(
    v: Seq<models::ProductView>,
    replies: Seq<(usize, Decimal)>,
    n: int,
)
    requires
        about(replies, v.len()),
        after_taxes(v, replies) is Some,
        0 <= n < replies.len(),
        v[replies[n].0 as int].price.listed_price@.mantissa > 0,
    ensures
        ({
            let told = all_taxed(v, replies, replies.len() as int);
            let r = after_taxes(v, replies)->0;
            r.len() == v.len() && exists|part: Decimal|
                #![trigger all_estimated(told, replies, part, told.len() as int)]
                mean(tax_ratios(v, replies, replies.len() as int)->0) == Some(part) && forall|i: int|
                    0 <= i < v.len() ==> {
                        let (p, q) = (told[i], #[trigger] r[i]);
                        if p.provider == ProviderId::AliExpress && (forall|j: int|
                            0 <= j < replies.len() ==> (#[trigger] replies[j]).0 != i) {
                            decimal::product(p.price.listed_price, part) == Some(
                                q.price.tax.total_tax,
                            ) && q == taxed(p, q.price.tax.total_tax)
                        } else {
                            q == p
                        }
                    }
        }),
{
    let told = all_taxed(v, replies, replies.len() as int);
    read_prices_go_to_their_offer(v, replies, replies.len() as int, replies[n].0 as int);
    lemma_ratio_told(v, replies, replies.len() as int, n);
    let ratios = tax_ratios(v, replies, replies.len() as int)->0;
    let part = mean(ratios)->0;
    assert(all_estimated(told, replies, part, told.len() as int) is Some);
    lemma_estimated(told, replies, part, told.len() as int);
    let r = after_taxes(v, replies)->0;
    assert forall|i: int| 0 <= i < v.len() implies ({
        let (p, q) = (told[i], #[trigger] r[i]);
        if p.provider == ProviderId::AliExpress && (forall|j: int|
            0 <= j < replies.len() ==> (#[trigger] replies[j]).0 != i) {
            decimal::product(p.price.listed_price, part) == Some(q.price.tax.total_tax) && q
                == taxed(p, q.price.tax.total_tax)
        } else {
            q == p
        }
    }) by {
        assert(replied(replies, i) <==> !(forall|j: int|
            0 <= j < replies.len() ==> (#[trigger] replies[j]).0 != i));
    }
}

proof fn lemma_ratio_told(
    v: Seq<models::ProductView>,
    replies: Seq<(usize, Decimal)>,
    k: int,
    n: int,
)
    requires
        0 <= n < k <= replies.len(),
        v[replies[n].0 as int].price.listed_price@.mantissa > 0,
        tax_ratios(v, replies, k) is Some,
    ensures
        tax_ratios(v, replies, k)->0.len() > 0,
    decreases k,
{
    if n < k - 1 {
        lemma_ratio_told(v, replies, k - 1, n);
    }
}

proof fn lemma_estimated(
    v: Seq<models::ProductView>,
    replies: Seq<(usize, Decimal)>,
    part: Decimal,
    k: int,
)
    requires
        0 <= k <= v.len(),
        all_estimated(v, replies, part, k) is Some,
    ensures
        all_estimated(v, replies, part, k)->0.len() == k,
        forall|i: int|
            0 <= i < k ==> {
                let (p, q) = (v[i], #[trigger] all_estimated(v, replies, part, k)->0[i]);
                if p.provider == ProviderId::AliExpress && !replied(replies, i) {
                    decimal::product(p.price.listed_price, part) == Some(q.price.tax.total_tax) && q
                        == taxed(p, q.price.tax.total_tax)
                } else {
                    q == p
                }
            },
    decreases k,
{
    if k > 0 {
        lemma_estimated(v, replies, part, k - 1);
    }
}

/// The part of the price is the mean of the parts that the replies tell: with one reply its
/// tax by its price.
pub proof fn one_reply_tells_the_part(v: Seq<models::ProductView>, at: usize, tax: Decimal)
    requires
        at < v.len(),
        v[at as int].price.listed_price@.mantissa > 0,
    ensures
        ({
            let ratios = tax_ratios(v, seq![(at, tax)], 1);
            let part = decimal::quotient(tax, v[at as int].price.listed_price);
            &&& part is None ==> ratios is None
            &&& part is Some ==> ratios == Some(seq![part->0]) && mean(ratios->0)
                == decimal::quotients(
                decimal::sum(decimal::dec(0, 0), part->0),
                Some(decimal::dec(1, 0)),
            )
        }),
{
    let replies = seq![(at, tax)];
    reveal_with_fuel(tax_ratios, 2);
    reveal_with_fuel(added_up, 2);
    assert(replies[0] == (at, tax));
    let part = decimal::quotient(tax, v[at as int].price.listed_price);
    if part is Some {
        let one = Seq::<Decimal>::empty().push(part->0);
        assert(one =~= seq![part->0]);
        assert(one.drop_last() =~= Seq::<Decimal>::empty());
    }
}

/// Whether a candidate is what an offer of either Amazon says, the Brazilian one on site 12
/// and the American one on site 1.
pub open spec fn candidate_says(p: models::ProductView, c: CandidateView, query: Seq<char>) -> bool {
    &&& scoring::matching(p.title, query)
    &&& text::byte_len(p.platform_id) == 10
    &&& p.provider == ProviderId::Amazon && c.domain == 12 || p.provider == ProviderId::AmazonUS
        && c.domain == 1
    &&& c.asin == p.platform_id
    &&& c.title == p.title
    &&& c.price == p.price.listed_price
    &&& c.reviews == (if p.review_count is Some {
        p.review_count->0
    } else {
        0
    })
    &&& c.score == scoring::relevance(
        p.title,
        query,
        500_000_000_000_000_000,
        1_000_000_000_000_000_000,
    )
}

/// The candidates for insights are offers of either Amazon with a number of ten bytes and a
/// title that matches the search, no two of one number; and every such number is a
/// candidate's.
pub proof fn candidates_are_amazon_offers(v: Seq<models::ProductView>, query: Seq<char>, k: int)
    requires
        0 <= k <= v.len(),
    ensures
        ({
            let c = candidates(v, query, k);
            &&& forall|i: int|
                0 <= i < c.len() ==> exists|n: int|
                    0 <= n < k && candidate_says(#[trigger] v[n], #[trigger] c[i], query)
            &&& forall|i: int, j: int|
                0 <= i < j < c.len() ==> (#[trigger] c[i]).asin != (#[trigger] c[j]).asin
            &&& forall|n: int|
                0 <= n < k && ((#[trigger] v[n]).provider == ProviderId::Amazon || v[n].provider
                    == ProviderId::AmazonUS) && text::byte_len(v[n].platform_id) == 10
                    && scoring::matching(v[n].title, query) ==> exists|i: int|
                    0 <= i < c.len() && (#[trigger] c[i]).asin == v[n].platform_id
        }),
{
    lemma_candidates_from(v, query, k);
    lemma_candidates_apart(v, query, k);
    lemma_candidates_all(v, query, k);
    let c = candidates(v, query, k);
    assert forall|i: int| 0 <= i < c.len() implies exists|n: int|
        0 <= n < k && candidate_says(#[trigger] v[n], #[trigger] c[i], query) by {
        assert(candidate_from(v, query, k, c[i]));
        let n = choose|n: int|
            0 <= n < k && eligible(#[trigger] v[n], query) && c[i] == candidate_of(v[n], query);
        assert(candidate_says(v[n], c[i], query));
    }
    assert forall|n: int|
        0 <= n < k && ((#[trigger] v[n]).provider == ProviderId::Amazon || v[n].provider
            == ProviderId::AmazonUS) && text::byte_len(v[n].platform_id) == 10 && scoring::matching(
            v[n].title,
            query,
        ) implies exists|i: int| 0 <= i < c.len() && (#[trigger] c[i]).asin == v[n].platform_id by {
        assert(eligible(v[n], query));
        assert(among_candidates(c, v[n].platform_id));
    }
}

/// Whether a candidate is one of the first `k` offers.
pub open spec fn candidate_from(
    v: Seq<models::ProductView>,
    query: Seq<char>,
    k: int,
    c: CandidateView,
) -> bool {
    exists|n: int| 0 <= n < k && eligible(#[trigger] v[n], query) && c == candidate_of(v[n], query)
}

proof fn lemma_candidates_from(v: Seq<models::ProductView>, query: Seq<char>, k: int)
    requires
        0 <= k <= v.len(),
    ensures
        forall|i: int|
            0 <= i < candidates(v, query, k).len() ==> candidate_from(
                v,
                query,
                k,
                #[trigger] candidates(v, query, k)[i],
            ),
    decreases k,
{
    if k > 0 {
        lemma_candidates_from(v, query, k - 1);
        let before = candidates(v, query, k - 1);
        let c = candidates(v, query, k);
        assert forall|i: int| 0 <= i < c.len() implies candidate_from(v, query, k, #[trigger] c[i]) by {
            if i < before.len() {
                assert(c[i] == before[i]);
                assert(candidate_from(v, query, k - 1, before[i]));
                let n = choose|n: int|
                    0 <= n < k - 1 && eligible(#[trigger] v[n], query) && before[i]
                        == candidate_of(v[n], query);
                assert(eligible(v[n], query));
            } else {
                assert(eligible(v[k - 1], query));
            }
        }
    }
}

proof fn lemma_candidates_apart(v: Seq<models::ProductView>, query: Seq<char>, k: int)
    requires
        0 <= k <= v.len(),
    ensures
        forall|i: int, j: int|
            0 <= i < j < candidates(v, query, k).len() ==> (#[trigger] candidates(
                v,
                query,
                k,
            )[i]).asin != (#[trigger] candidates(v, query, k)[j]).asin,
    decreases k,
{
    if k > 0 {
        lemma_candidates_apart(v, query, k - 1);
        lemma_candidates_from(v, query, k - 1);
        let before = candidates(v, query, k - 1);
        let c = candidates(v, query, k);
        assert forall|i: int, j: int| 0 <= i < j < c.len() implies (#[trigger] c[i]).asin != (
        #[trigger] c[j]).asin by {
            assert(c[i] == before[i]);
            if j < before.len() {
                assert(c[j] == before[j]);
            } else {
                assert(candidate_from(v, query, k - 1, before[i]));
                let n = choose|n: int|
                    0 <= n < k - 1 && eligible(#[trigger] v[n], query) && before[i]
                        == candidate_of(v[n], query);
                assert(v[n].platform_id != v[k - 1].platform_id);
            }
        }
    }
}

/// Whether one of some candidates has a number.
pub open spec fn among_candidates(c: Seq<CandidateView>, asin: Seq<char>) -> bool {
    exists|i: int| 0 <= i < c.len() && (#[trigger] c[i]).asin == asin
}

proof fn lemma_candidates_all(v: Seq<models::ProductView>, query: Seq<char>, k: int)
    requires
        0 <= k <= v.len(),
    ensures
        forall|n: int|
            0 <= n < k && eligible(#[trigger] v[n], query) ==> among_candidates(
                candidates(v, query, k),
                v[n].platform_id,
            ),
    decreases k,
{
    if k > 0 {
        lemma_candidates_all(v, query, k - 1);
        let before = candidates(v, query, k - 1);
        let c = candidates(v, query, k);
        assert forall|asin: Seq<char>| #[trigger]
            among_candidates(before, asin) implies among_candidates(c, asin) by {
            let i = choose|i: int| 0 <= i < before.len() && (#[trigger] before[i]).asin == asin;
            assert(c[i] == before[i]);
        }
        if first_listing(v, query, k - 1) {
            assert(c[before.len() as int].asin == v[k - 1].platform_id);
        } else if eligible(v[k - 1], query) {
            let j = choose|j: int|
                0 <= j < k - 1 && eligible(v[j], query) && (#[trigger] v[j]).platform_id
                    == v[k - 1].platform_id;
            assert(among_candidates(before, v[j].platform_id));
        }
        assert forall|n: int| 0 <= n < k && eligible(#[trigger] v[n], query) implies among_candidates(
            c,
            v[n].platform_id,
        ) by {
            if n < k - 1 {
                assert(among_candidates(before, v[n].platform_id));
            }
        }
    }
}

/// The first of the candidates scores no less than any other; has no fewer reviews than any
/// other that scores as much; and costs no less than any other with as many reviews. It is
/// asked about where it scores half of the whole.
pub proof fn best_candidate_scores_most(v: Seq<models::ProductView>, query: Seq<char>, i: int)
    requires
        0 <= i < ranked(v, query).len(),
    ensures
        ({
            let (a, b) = (ranked(v, query)[0], ranked(v, query)[i]);
            &&& a.score >= b.score
            &&& a.score == b.score ==> a.reviews >= b.reviews
            &&& a.score == b.score && a.reviews == b.reviews ==> b.price@.mantissa * decimal::pow10(
                a.price@.scale,
            ) <= a.price@.mantissa * decimal::pow10(b.price@.scale)
            &&& worth_asking(ranked(v, query)) <==> 2 * a.score >= 1_000_000_000_000_000_000int
        }),
{
    best_candidate_is_first(v, query);
}

/// Where the best candidate is not found, the next one asked about is the first other one of
/// the American site.
pub proof fn fallback_is_american(c: Seq<CandidateView>)
    ensures
        match us_fallback(c, 0) {
            Some(i) => 0 <= i < c.len() && c[i].domain == 1 && c[i].asin != c[0].asin && forall|
                j: int,
            |
                0 <= j < i ==> (#[trigger] c[j]).domain != 1 || c[j].asin == c[0].asin,
            None => forall|j: int|
                0 <= j < c.len() ==> (#[trigger] c[j]).domain != 1 || c[j].asin == c[0].asin,
        },
{
    lemma_fallback(c, 0);
}

proof fn lemma_fallback(c: Seq<CandidateView>, k: int)
    requires
        0 <= k,
    ensures
        match us_fallback(c, k) {
            Some(i) => k <= i < c.len() && c[i].domain == 1 && c[i].asin != c[0].asin && forall|
                j: int,
            |
                k <= j < i ==> (#[trigger] c[j]).domain != 1 || c[j].asin == c[0].asin,
            None => forall|j: int|
                k <= j < c.len() ==> (#[trigger] c[j]).domain != 1 || c[j].asin == c[0].asin,
        },
    decreases c.len() - k,
{
    if k < c.len() {
        lemma_fallback(c, k + 1);
    }
}

/// A single insight is added where there is none into its site, behind the others.
pub proof fn one_insight_for_each_site(v: Seq<keepa::KeepaView>, k: keepa::KeepaView)
    ensures
        (exists|i: int| 0 <= i < v.len() && (#[trigger] v[i]).domain == k.domain) ==> with_single(
            v,
            Some(k),
        ) == v,
        (forall|i: int| 0 <= i < v.len() ==> (#[trigger] v[i]).domain != k.domain) ==> with_single(
            v,
            Some(k),
        ) == v.push(k),
        with_single(v, None) == v,
{
}

/// The middle of some amounts is one of them that half of them, rounded down, come before
/// when they are put in order.
pub proof fn middle_halves(v: Seq<Decimal>)
    ensures
        v.len() == 0 ==> middle(v) is None,
        v.len() > 0 ==> exists|s: Seq<Decimal>|
            #[trigger] s.to_multiset() == v.to_multiset() && s.len() == v.len() && (forall|
                a: int,
                b: int,
            |
                0 <= a <= b < s.len() ==> decimal::at_most(#[trigger] s[a], #[trigger] s[b]))
                && middle(v) == Some(s[s.len() as int / 2]),
{
    if v.len() > 0 {
        let le = order::amount_order();
        let s = order::sorted(v, le);
        order::amount_order_is_total();
        order::sorting_orders(v, le);
        assert forall|a: int, b: int| 0 <= a <= b < s.len() implies decimal::at_most(
            #[trigger] s[a],
            #[trigger] s[b],
        ) by {
            assert(le(s[a], s[b]));
        }
        assert(s.to_multiset() == v.to_multiset());
    }
}

/// The price that the manufacturer asks is taken unless it is less than a tenth of the middle
/// price of the results in reais.
pub proof fn asked_prices_are_plausible(
    m: Decimal,
    v: Seq<models::ProductView>,
    query: Seq<char>,
    rate: Decimal,
)
    ensures
        ({
            let typical = middle(result_prices(v, query, v.len() as int));
            match plausible(m, v, query, rate) {
                Some(r) => {
                    &&& r is None || r == Some(m)
                    &&& typical is None ==> r == Some(m)
                    &&& typical is Some ==> (r is None <==> ({
                        let a = decimal::product(m, rate)->0@;
                        let b = decimal::product(typical->0, decimal::dec(10, 2))->0@;
                        a.mantissa * decimal::pow10(b.scale) < b.mantissa * decimal::pow10(a.scale)
                    }))
                },
                None => decimal::product(m, rate) is None || typical is Some && decimal::product(
                    typical->0,
                    decimal::dec(10, 2),
                ) is None,
            }
        }),
{
}

/// The prices of the results are the listed ones of those that have one and match the search.
pub proof fn result_prices_are_listed(
    v: Seq<models::ProductView>,
    query: Seq<char>,
    k: int,
    d: Decimal,
)
    requires
        0 <= k <= v.len(),
    ensures
        result_prices(v, query, k).contains(d) <==> exists|i: int|
            0 <= i < k && (#[trigger] v[i]).price.listed_price == d && d@.mantissa > 0
                && scoring::matching(v[i].title, query),
    decreases k,
{
    if k > 0 {
        result_prices_are_listed(v, query, k - 1, d);
        let before = result_prices(v, query, k - 1);
        let after = result_prices(v, query, k);
        if before.contains(d) {
            let i = choose|i: int| 0 <= i < before.len() && before[i] == d;
            assert(after[i] == d);
        }
        if after.len() > before.len() {
            assert(after[before.len() as int] == v[k - 1].price.listed_price);
        }
        if after.contains(d) && !before.contains(d) {
            let i = choose|i: int| 0 <= i < after.len() && after[i] == d;
            if i < before.len() {
                assert(before[i] == d);
            }
            assert(v[k - 1].price.listed_price == d);
        }
    }
}

/// The prices that the manufacturer asks are those of the insights, in dollars, that are more
/// than nothing.
pub proof fn asked_prices_are_listed(v: Seq<keepa::KeepaView>, k: int, d: Decimal)
    requires
        0 <= k <= v.len(),
    ensures
        asked_prices(v, k).contains(d) <==> d@.mantissa > 0 && exists|i: int|
            0 <= i < k && keepa::in_dollars(
                keepa::priced((#[trigger] v[i]).list_price, v[i].domain),
                v[i].domain,
            ) == Some(d),
    decreases k,
{
    if k > 0 {
        asked_prices_are_listed(v, k - 1, d);
        let before = asked_prices(v, k - 1);
        let after = asked_prices(v, k);
        let m = keepa::in_dollars(
            keepa::priced(v[k - 1].list_price, v[k - 1].domain),
            v[k - 1].domain,
        );
        if before.contains(d) {
            let i = choose|i: int| 0 <= i < before.len() && before[i] == d;
            assert(after[i] == d);
        }
        if after.len() > before.len() {
            assert(after[before.len() as int] == m->0);
        }
        if after.contains(d) && !before.contains(d) {
            let i = choose|i: int| 0 <= i < after.len() && after[i] == d;
            if i < before.len() {
                assert(before[i] == d);
            }
            assert(m == Some(d));
        }
    }
}

/// Insights leave the price of an offer, give it the price that the manufacturer asks where
/// that is known, and its rating and reviews on its own site where it has none of its own.
pub proof fn insights_fill_what_is_missing(
    p: models::ProductView,
    insights: Seq<keepa::KeepaView>,
    msrp: Option<Decimal>,
    i: int,
)
    requires
        0 <= i < insights.len(),
        insights[i].domain == (if p.provider == ProviderId::Amazon {
            12u8
        } else {
            1u8
        }),
        forall|j: int| 0 <= j < i ==> (#[trigger] insights[j]).domain != insights[i].domain,
    ensures
        ({
            let r = enriched(p, insights, msrp);
            &&& r.keepa == insights
            &&& r.rating == (if p.rating is Some {
                p.rating
            } else {
                insights[i].rating
            })
            &&& r.review_count == (if p.review_count is Some {
                p.review_count
            } else {
                insights[i].review_count
            })
            &&& r.price.original_price == (if msrp is Some {
                msrp
            } else {
                p.price.original_price
            })
            &&& r.price == (PriceInfo { original_price: r.price.original_price, ..p.price })
            &&& search::same_offer(r, p)
        }),
{
    lemma_first_insight(insights, insights[i].domain, 0, i);
}

proof fn lemma_first_insight(v: Seq<keepa::KeepaView>, site: u8, k: int, i: int)
    requires
        0 <= k <= i < v.len(),
        v[i].domain == site,
        forall|j: int| 0 <= j < i ==> (#[trigger] v[j]).domain != site,
    ensures
        keepa::insight_into(v, site, k) == Some(v[i]),
    decreases i - k,
{
    if k < i {
        lemma_first_insight(v, site, k + 1, i);
    }
}

/// The price that the manufacturer asks goes to the offers with one of two numbers, and to no
/// others.
pub proof fn asked_prices_go_to_their_offers(
    v: Seq<models::ProductView>,
    msrp: Decimal,
    a: Seq<char>,
    b: Seq<char>,
    i: int,
)
    requires
        0 <= i < v.len(),
    ensures
        ({
            let r = all_with_msrp(v, msrp, a, b);
            &&& r.len() == v.len()
            &&& v[i].platform_id == a || v[i].platform_id == b ==> r[i].price.original_price == Some(
                msrp,
            ) && r[i].price == (PriceInfo { original_price: Some(msrp), ..v[i].price })
                && search::same_offer(r[i], v[i])
            &&& v[i].platform_id != a && v[i].platform_id != b ==> r[i] == v[i]
        }),
{
}

} // verus!
