//! Amazon in the United States.

use vstd::prelude::*;

use crate::decimal;
use crate::decimal::Decimal;
use crate::error::ProviderError;
use crate::html;
use crate::html::Card;
use crate::models;
use crate::models::{Currency, PriceInfo, Product, TaxInfo, TaxRegime};
use crate::providers;
use crate::providers::amazon;
use crate::providers::{Provider, ProviderId};
use crate::rating;
use crate::text;

verus! {

/// Amazon in the United States.
pub struct AmazonUS;

impl AmazonUS {
    pub fn new() -> (r: AmazonUS)
        ensures
            r == AmazonUS,
    {
        AmazonUS
    }
}

/// The address of the page of a card: where it leads, or the page of the product's
/// number where it leads nowhere, as an advertisement does.
pub open spec fn us_url(c: html::CardView, asin: Seq<char>) -> Seq<char> {
    match html::attr_in(html::first_part(c, 3), 0) {
        Some(href) => if href == "#"@ || href.len() == 0 {
            "https://www.amazon.com/dp/"@ + asin
        } else {
            providers::absolute("https://www.amazon.com"@, href)
        },
        None => "https://www.amazon.com/dp/"@ + asin,
    }
}

/// The rating of a card: its first word.
pub open spec fn us_rating(c: html::CardView) -> Option<Decimal> {
    match html::text_in(html::first_part(c, 5)) {
        Some(t) => rating::rating(text::up_to(t, ' ')),
        None => None,
    }
}

/// A price in dollars from abroad, to which taxes are yet to be added.
pub open spec fn us_price(price: Decimal) -> PriceInfo {
    models::listed(
        price,
        Currency::USD,
        models::untaxed(false, false, TaxRegime::InternationalStandard),
    )
}

/// The offer on a card of the American site: none without a title or a number, and
/// none on an advertisement.
pub open spec fn us_offer(c: html::CardView, at: int) -> Option<models::ProductView> {
    let asin = text::or_empty(html::attr_of(c.element, 3));
    if amazon::card_title(c).len() == 0 || asin.len() == 0 || text::has(c.markup, "Sponsored"@)
        || text::has(c.markup, "AdHolder"@) {
        None
    } else {
        Some(
            models::ProductView {
                image_url: html::attr_in(html::first_part(c, 4), 1),
                rating: us_rating(c),
                domestic: false,
                ..models::offer(
                    ProviderId::AmazonUS,
                    asin,
                    amazon::card_title(c),
                    us_url(c, asin),
                    us_price(amazon::card_price(c)),
                    at,
                )
            },
        )
    }
}

/// The offer on a card of the American site.
pub fn read_us_card(c: &Card, at: i128) -> (r: Option<Product>)
    ensures
        providers::offer_view(r) == us_offer(c@, at as int),
{
    let title = amazon::extract_amazon_title(c);
    if title.as_str().is_empty() {
        return None;
    }
    let asin = text::else_empty(html::attr(&c.element, 3));
    if asin.as_str().is_empty() {
        return None;
    }
    if text::contains(c.markup.as_str(), "Sponsored") || text::contains(
        c.markup.as_str(),
        "AdHolder",
    ) {
        return None;
    }
    let own = text::join2("https://www.amazon.com/dp/", asin.as_str());
    let url = match html::part_attr(c, 3, 0) {
        Some(href) => if text::same_text(href.as_str(), "#") || href.as_str().is_empty() {
            own
        } else {
            providers::to_absolute("https://www.amazon.com", href.as_str())
        },
        None => own,
    };
    let rating = match html::part_text(c, 5) {
        Some(t) => {
            let word = text::before_char(t.as_str(), ' ');
            rating::read_rating(word.as_str())
        },
        None => None,
    };
    let price = PriceInfo::listed(
        amazon::extract_amazon_price(c),
        Currency::USD,
        TaxInfo::untaxed(false, false, TaxRegime::InternationalStandard),
    );
    let base = Product::offer(ProviderId::AmazonUS, asin, title, url, price, at);
    Some(Product { image_url: html::part_attr(c, 4, 1), rating, domestic: false, ..base })
}

/// The offers on the first `max_results` cards.
pub open spec fn us_offers(cards: Seq<html::CardView>, max_results: nat, at: int) -> Seq<
    models::ProductView,
> {
    providers::gathered(
        providers::first_of(cards, max_results),
        |c: html::CardView| us_offer(c, at),
    )
}

/// The offers on the first `max_results` cards.
pub fn read_us_cards(cards: &Vec<Card>, max_results: usize, at: i128) -> (r: Vec<Product>)
    ensures
        models::product_views(r@) == us_offers(
            html::card_views(cards@),
            max_results as nat,
            at as int,
        ),
{
    let ghost all = providers::first_of(html::card_views(cards@), max_results as nat);
    let ghost item = |c: html::CardView| us_offer(c, at as int);
    let limit: usize = if cards.len() <= max_results {
        cards.len()
    } else {
        max_results
    };
    let mut out: Vec<Product> = Vec::new();
    let mut i: usize = 0;
    assert(models::product_views(out@) =~= Seq::empty());
    while i < limit
        invariant
            i <= limit <= cards@.len(),
            all.len() == limit,
            forall|k: int| 0 <= k < limit ==> #[trigger] all[k] == cards@[k]@,
            item == (|c: html::CardView| us_offer(c, at as int)),
            models::product_views(out@) == providers::gathered(all.take(i as int), item),
        decreases limit - i,
    {
        assert(all.take(i + 1).drop_last() =~= all.take(i as int));
        assert(all[i as int] == cards@[i as int]@);
        let ghost so_far = out@;
        match read_us_card(&cards[i], at) {
            Some(p) => {
                out.push(p);
                proof {
                    providers::lemma_product_push(so_far, p);
                }
            },
            None => {},
        }
        i = i + 1;
    }
    assert(all.take(i as int) =~= all);
    out
}

impl Provider for AmazonUS {
    open spec fn identity(&self) -> ProviderId {
        ProviderId::AmazonUS
    }

    open spec fn offers(&self, page: Seq<char>, max_results: nat, at: int) -> Result<
        Seq<models::ProductView>,
        crate::error::ProviderErrorView,
    > {
        Ok(us_offers(amazon::amazon_cards(page), max_results, at))
    }

    fn name(&self) -> (r: &'static str) {
        "Amazon US"
    }

    fn id(&self) -> (r: ProviderId) {
        ProviderId::AmazonUS
    }

    fn is_available(&self) -> (r: bool) {
        true
    }

    fn parse_html(&self, html: &str, max_results: usize, at: i128) -> (r: Result<
        Vec<Product>,
        ProviderError,
    >) {
        let cards = amazon::select_amazon_cards(html);
        Ok(read_us_cards(&cards, max_results, at))
    }
}

/// Whether an offer is what a card of the American site says: in dollars, from abroad and
/// outside the Remessa Conforme programme, with its taxes yet to be worked out; on no
/// advertisement.
pub open spec fn us_card_says(c: html::CardView, p: models::ProductView, at: int) -> bool {
    let asin = html::attr_of(c.element, 3);
    let href = html::attr_in(html::first_part(c, 3), 0);
    let stars = html::text_in(html::first_part(c, 5));
    &&& !text::has(c.markup, "Sponsored"@)
    &&& !text::has(c.markup, "AdHolder"@)
    &&& p.provider == ProviderId::AmazonUS
    &&& p.title.len() > 0
    &&& amazon::amazon_card_prices(c, p.title, p.price.listed_price)
    &&& asin == Some(p.platform_id)
    &&& p.platform_id.len() > 0
    &&& href is Some && href->0.len() > 0 && href->0[0] == '/' ==> p.url
        == "https://www.amazon.com"@ + href->0
    &&& href is Some && href->0.len() > 0 && href->0[0] != '/' && href->0 != "#"@ ==> p.url
        == href->0
    &&& href is None || href->0.len() == 0 || href->0 == "#"@ ==> p.url
        == "https://www.amazon.com/dp/"@ + p.platform_id
    &&& p.image_url == html::attr_in(html::first_part(c, 4), 1)
    &&& stars is Some ==> p.rating == rating::rating(text::up_to(stars->0, ' '))
    &&& stars is None ==> p.rating is None
    &&& p.price.currency == Currency::USD
    &&& p.price.shipping_cost is None
    &&& !p.price.tax.taxes_included
    &&& !p.price.tax.remessa_conforme
    &&& p.price.tax.tax_regime == TaxRegime::InternationalStandard
    &&& !p.domestic
    &&& p.fetched_at == at
    &&& p.normalized_title is None
    &&& p.keepa.len() == 0
    &&& p.price.tax.import_tax is None
    &&& p.price.tax.icms is None
    &&& p.price.shipping_currency == Currency::BRL
    &&& p.review_count is None
    &&& p.sold_count is None
    &&& p.seller is None
    &&& p.price.original_price is None
    &&& p.price.installments is None
    &&& p.condition == models::ProductCondition::New
    &&& p.price.price_brl == p.price.listed_price
    &&& p.price.total_cost == p.price.listed_price
    &&& p.price.tax.total_tax == decimal::dec(0, 0)
}

/// The offers on a page of the American site are what its first cards say, and a card with a
/// title and a number that is no advertisement is an offer.
pub proof fn us_offers_are_what_cards_say(page: Seq<char>, max: nat, at: int)
    ensures
        ({
            let cards = amazon::amazon_cards(page);
            match AmazonUS.offers(page, max, at) {
                Ok(v) => {
                    &&& v.len() <= max
                    &&& forall|i: int|
                        0 <= i < v.len() ==> exists|k: int|
                            0 <= k < cards.len() && k < max && us_card_says(
                                #[trigger] cards[k],
                                #[trigger] v[i],
                                at,
                            )
                    &&& forall|k: int|
                        0 <= k < cards.len() && k < max && html::text_in(
                            html::first_part(#[trigger] cards[k], 0),
                        ) is Some && text::byte_len(
                            text::trimmed(html::text_in(html::first_part(cards[k], 0))->0),
                        ) >= 15 && html::attr_of(cards[k].element, 3) is Some && html::attr_of(
                            cards[k].element,
                            3,
                        )->0.len() > 0 && !text::has(cards[k].markup, "Sponsored"@) && !text::has(
                            cards[k].markup,
                            "AdHolder"@,
                        ) ==> exists|i: int|
                            0 <= i < v.len() && us_card_says(cards[k], #[trigger] v[i], at)
                },
                Err(_) => us_offers(cards, max, at).len() == 0,
            }
        }),
{
    let cards = amazon::amazon_cards(page);
    let item = |c: html::CardView| us_offer(c, at);
    let first = providers::first_of(cards, max);
    let v = providers::gathered(first, item);
    providers::lemma_gathered_few(first, item);
    assert forall|c: html::CardView| (#[trigger] item(c)) is Some implies us_card_says(
        c,
        item(c)->0,
        at,
    ) by {
        let href = html::attr_in(html::first_part(c, 3), 0);
        reveal_strlit("#");
        if href is Some {
            providers::addresses_are_made_whole("https://www.amazon.com"@, href->0);
        }
    }
    assert forall|i: int| 0 <= i < v.len() implies exists|k: int|
        0 <= k < cards.len() && k < max && us_card_says(#[trigger] cards[k], #[trigger] v[i], at) by {
        providers::lemma_gathered_from(first, item, i);
        let k = choose|k: int| 0 <= k < first.len() && item(#[trigger] first[k]) == Some(v[i]);
        assert(first[k] == cards[k]);
        assert(us_card_says(cards[k], v[i], at));
    }
    assert forall|k: int|
        0 <= k < cards.len() && k < max && item(#[trigger] cards[k]) is Some implies exists|i: int|
        0 <= i < v.len() && us_card_says(cards[k], #[trigger] v[i], at) by {
        assert(first[k] == cards[k]);
        providers::lemma_gathered_all(first, item, k);
        let i = choose|i: int| 0 <= i < v.len() && #[trigger] v[i] == item(first[k])->0;
        assert(us_card_says(cards[k], v[i], at));
    }
    assert forall|k: int|
        0 <= k < cards.len() && k < max && html::text_in(
            html::first_part(#[trigger] cards[k], 0),
        ) is Some && text::byte_len(
            text::trimmed(html::text_in(html::first_part(cards[k], 0))->0),
        ) >= 15 && html::attr_of(cards[k].element, 3) is Some && html::attr_of(
            cards[k].element,
            3,
        )->0.len() > 0 && !text::has(cards[k].markup, "Sponsored"@) && !text::has(
            cards[k].markup,
            "AdHolder"@,
        ) implies exists|i: int| 0 <= i < v.len() && us_card_says(cards[k], #[trigger] v[i], at) by {
        assert(item(cards[k]) is Some);
    }
}

} // verus!
