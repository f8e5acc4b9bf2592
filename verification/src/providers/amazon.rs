//! Amazon in Brazil.

use vstd::prelude::*;

use crate::decimal;
use crate::decimal::Decimal;
use crate::error::ProviderError;
use crate::html;
use crate::html::Card;
use crate::models;
use crate::models::{Currency, Product, TaxRegime};
use crate::providers;
use crate::providers::{Provider, ProviderId};
use crate::rating;
use crate::text;

verus! {

/// Amazon in Brazil.
pub struct Amazon;

impl Amazon {
    pub fn new() -> (r: Amazon)
        ensures
            r == Amazon,
    {
        Amazon
    }
}

/// The cards on a page of results of either Amazon site: title, whole and
/// fractional price, link, image, rating and reviews; and the address, the source,
/// the caption and the number of each element.
pub open spec fn amazon_cards(page: Seq<char>) -> Seq<html::CardView> {
    html::page_cards(
        page,
        "div[data-component-type='s-search-result']"@,
        seq![
            "h2 span"@,
            "span.a-price-whole"@,
            "span.a-price-fraction"@,
            "h2 a.a-link-normal, h2 a[href*='/dp/'], a.s-underline-text"@,
            "img.s-image"@,
            "span.a-icon-alt"@,
            "a[href*='customerReviews'] span.a-size-base, a[href*='customerReviews'] span.a-size-small"@,
        ],
        seq!["href"@, "src"@, "alt"@, "data-asin"@],
    )
}

/// The cards on a page of results of either Amazon site.
pub fn select_amazon_cards(page: &str) -> (r: Vec<Card>)
    ensures
        html::card_views(r@) == amazon_cards(page@),
{
    let parts: [&str; 7] = [
        "h2 span",
        "span.a-price-whole",
        "span.a-price-fraction",
        "h2 a.a-link-normal, h2 a[href*='/dp/'], a.s-underline-text",
        "img.s-image",
        "span.a-icon-alt",
        "a[href*='customerReviews'] span.a-size-base, a[href*='customerReviews'] span.a-size-small",
    ];
    let attrs: [&str; 4] = ["href", "src", "alt", "data-asin"];
    proof {
        assert(html::slices(parts@) =~= seq![
            "h2 span"@,
            "span.a-price-whole"@,
            "span.a-price-fraction"@,
            "h2 a.a-link-normal, h2 a[href*='/dp/'], a.s-underline-text"@,
            "img.s-image"@,
            "span.a-icon-alt"@,
            "a[href*='customerReviews'] span.a-size-base, a[href*='customerReviews'] span.a-size-small"@,
        ]);
        assert(html::slices(attrs@) =~= seq!["href"@, "src"@, "alt"@, "data-asin"@]);
    }
    html::select(page, "div[data-component-type='s-search-result']", &parts, &attrs)
}

/// The title of a card: that of its heading, or the caption of its image where the
/// heading is under 15 bytes long and shorter than the caption.
pub open spec fn card_title(c: html::CardView) -> Seq<char> {
    let heading = text::trimmed(text::or_empty(html::text_in(html::first_part(c, 0))));
    match html::attr_in(html::first_part(c, 4), 2) {
        Some(alt) => if text::byte_len(heading) < 15 && text::byte_len(alt) > text::byte_len(
            heading,
        ) {
            text::trimmed(alt)
        } else {
            heading
        },
        None => heading,
    }
}

/// The title of a card.
pub fn extract_amazon_title(c: &Card) -> (r: String)
    ensures
        r@ == card_title(c@),
{
    let found = text::else_empty(html::part_text(c, 0));
    let heading = text::trim(found.as_str());
    let short: usize = text::text_bytes(heading.as_str());
    match html::part_attr(c, 4, 2) {
        Some(alt) => if short < 15 && text::text_bytes(alt.as_str()) > short {
            text::trim(alt.as_str())
        } else {
            heading
        },
        None => heading,
    }
}

/// The price of a card: its whole part without separators, a point, and its
/// fraction, which is "00" where there is none.
pub open spec fn card_price(c: html::CardView) -> Decimal {
    let whole = text::trimmed(
        text::dropped(text::dropped(text::or_empty(html::text_in(html::first_part(c, 1))), '.'), ','),
    );
    let fraction = match html::text_in(html::first_part(c, 2)) {
        Some(t) => text::trimmed(t),
        None => "00"@,
    };
    if whole.len() == 0 {
        decimal::dec(0, 0)
    } else {
        providers::or_nothing(providers::amount(whole + "."@ + fraction))
    }
}

/// The price of a card.
pub fn extract_amazon_price(c: &Card) -> (r: Decimal)
    ensures
        r == card_price(c@),
{
    let shown = text::else_empty(html::part_text(c, 1));
    let no_points = text::drop_char(shown.as_str(), '.');
    let no_commas = text::drop_char(no_points.as_str(), ',');
    let whole = text::trim(no_commas.as_str());
    let fraction = match html::part_text(c, 2) {
        Some(t) => text::trim(t.as_str()),
        None => "00".to_string(),
    };
    if whole.as_str().is_empty() {
        Decimal::zero()
    } else {
        let number = text::join3(whole.as_str(), ".", fraction.as_str());
        providers::else_nothing(Decimal::parse(number.as_str()))
    }
}

/// The address that a card leads to.
pub open spec fn card_link(c: html::CardView, base: Seq<char>) -> Seq<char> {
    match html::attr_in(html::first_part(c, 3), 0) {
        Some(href) => providers::absolute(base, href),
        None => Seq::empty(),
    }
}

/// The address that a card leads to.
pub fn extract_amazon_link(c: &Card, base: &str) -> (r: String)
    ensures
        r@ == card_link(c@, base@),
{
    match html::part_attr(c, 3, 0) {
        Some(href) => providers::to_absolute(base, href.as_str()),
        None => String::new(),
    }
}

/// The rating of a card: its first word, with a point for the comma.
pub open spec fn card_rating(c: html::CardView) -> Option<Decimal> {
    match html::text_in(html::first_part(c, 5)) {
        Some(t) => rating::rating(text::swapped(text::up_to(t, ' '), ',', '.')),
        None => None,
    }
}

/// The rating of a card.
pub fn extract_rating(c: &Card) -> (r: Option<Decimal>)
    ensures
        r == card_rating(c@),
{
    match html::part_text(c, 5) {
        Some(t) => {
            let word = text::before_char(t.as_str(), ' ');
            let plain = text::swap_char(word.as_str(), ',', '.');
            rating::read_rating(plain.as_str())
        },
        None => None,
    }
}

/// The number of reviews that a text gives.
pub open spec fn review_number(s: Seq<char>) -> Option<u32> {
    match text::parsed_number(
        text::trimmed(text::dropped(text::dropped(s, '.'), ',')),
        u32::MAX as nat,
    ) {
        Some(n) => Some(n as u32),
        None => None,
    }
}

/// The number of reviews of a card.
pub open spec fn card_reviews(c: html::CardView) -> Option<u32> {
    match html::text_in(html::first_part(c, 6)) {
        Some(t) => review_number(t),
        None => None,
    }
}

/// The number of reviews of a card.
pub fn extract_review_count(c: &Card) -> (r: Option<u32>)
    ensures
        r == card_reviews(c@),
{
    match html::part_text(c, 6) {
        Some(t) => {
            let no_points = text::drop_char(t.as_str(), '.');
            let no_commas = text::drop_char(no_points.as_str(), ',');
            let bare = text::trim(no_commas.as_str());
            match text::parse_number(bare.as_str(), u32::MAX as u64) {
                Some(n) => Some(n as u32),
                None => None,
            }
        },
        None => None,
    }
}

/// The offer on a card of the Brazilian site: none without a title; the address of
/// the product's number where the card leads nowhere.
pub open spec fn amazon_offer(c: html::CardView, at: int) -> Option<models::ProductView> {
    let asin = text::or_empty(html::attr_of(c.element, 3));
    let link = card_link(c, "https://www.amazon.com.br"@);
    let url = if link.len() == 0 && asin.len() > 0 {
        "https://www.amazon.com.br/dp/"@ + asin
    } else {
        link
    };
    if card_title(c).len() == 0 {
        None
    } else {
        Some(
            models::ProductView {
                image_url: html::attr_in(html::first_part(c, 4), 1),
                rating: card_rating(c),
                review_count: card_reviews(c),
                ..models::offer(
                    ProviderId::Amazon,
                    asin,
                    card_title(c),
                    url,
                    providers::domestic_price(card_price(c)),
                    at,
                )
            },
        )
    }
}

/// The offer on a card of the Brazilian site.
pub fn read_amazon_card(c: &Card, at: i128) -> (r: Option<Product>)
    ensures
        providers::offer_view(r) == amazon_offer(c@, at as int),
{
    let title = extract_amazon_title(c);
    if title.as_str().is_empty() {
        return None;
    }
    let asin = text::else_empty(html::attr(&c.element, 3));
    let link = extract_amazon_link(c, "https://www.amazon.com.br");
    let url = if link.as_str().is_empty() && !asin.as_str().is_empty() {
        text::join2("https://www.amazon.com.br/dp/", asin.as_str())
    } else {
        link
    };
    let price = providers::price_at_home(extract_amazon_price(c));
    let base = Product::offer(ProviderId::Amazon, asin, title, url, price, at);
    Some(
        Product {
            image_url: html::part_attr(c, 4, 1),
            rating: extract_rating(c),
            review_count: extract_review_count(c),
            ..base
        },
    )
}

/// The offers on the first 50 cards.
pub open spec fn amazon_offers(cards: Seq<html::CardView>, at: int) -> Seq<models::ProductView> {
    providers::gathered(
        providers::first_of(cards, 50),
        |c: html::CardView| amazon_offer(c, at),
    )
}

/// The offers on the first 50 cards.
pub fn read_amazon_cards(cards: &Vec<Card>, at: i128) -> (r: Vec<Product>)
    ensures
        models::product_views(r@) == amazon_offers(html::card_views(cards@), at as int),
{
    let ghost all = providers::first_of(html::card_views(cards@), 50);
    let ghost item = |c: html::CardView| amazon_offer(c, at as int);
    let limit: usize = if cards.len() <= 50 {
        cards.len()
    } else {
        50
    };
    let mut out: Vec<Product> = Vec::new();
    let mut i: usize = 0;
    assert(models::product_views(out@) =~= Seq::empty());
    while i < limit
        invariant
            i <= limit <= cards@.len(),
            all.len() == limit,
            forall|k: int| 0 <= k < limit ==> #[trigger] all[k] == cards@[k]@,
            item == (|c: html::CardView| amazon_offer(c, at as int)),
            models::product_views(out@) == providers::gathered(all.take(i as int), item),
        decreases limit - i,
    {
        assert(all.take(i + 1).drop_last() =~= all.take(i as int));
        assert(all[i as int] == cards@[i as int]@);
        let ghost so_far = out@;
        match read_amazon_card(&cards[i], at) {
            Some(p) => {
                out.push(p);
                proof {
                    providers::lemma_product_push(so_far, p);
                }
            },
            None => {},
        }
        i = i + 1;
    }
    assert(all.take(i as int) =~= all);
    out
}

impl Provider for Amazon {
    open spec fn identity(&self) -> ProviderId {
        ProviderId::Amazon
    }

    open spec fn offers(&self, page: Seq<char>, max_results: nat, at: int) -> Result<
        Seq<models::ProductView>,
        crate::error::ProviderErrorView,
    > {
        Ok(amazon_offers(amazon_cards(page), at))
    }

    fn name(&self) -> (r: &'static str) {
        "Amazon BR"
    }

    fn id(&self) -> (r: ProviderId) {
        ProviderId::Amazon
    }

    fn is_available(&self) -> (r: bool) {
        true
    }

    fn parse_html(&self, html: &str, max_results: usize, at: i128) -> (r: Result<
        Vec<Product>,
        ProviderError,
    >) {
        let cards = select_amazon_cards(html);
        Ok(read_amazon_cards(&cards, at))
    }
}

/// Whether a title and a price are those that a card of either Amazon site says: the title in
/// its heading, or a longer caption of its image where the heading is under 15 bytes; and the
/// price of its whole part without separators and its fraction, which is "00" where there is
/// none.
pub open spec fn amazon_card_prices(c: html::CardView, title: Seq<char>, price: Decimal) -> bool {
    let heading = match html::text_in(html::first_part(c, 0)) {
        Some(t) => text::trimmed(t),
        None => text::trimmed(Seq::empty()),
    };
    let caption = html::attr_in(html::first_part(c, 4), 2);
    let shown = html::text_in(html::first_part(c, 1));
    let whole = text::trimmed(text::dropped(text::dropped(shown->0, '.'), ','));
    let cents = html::text_in(html::first_part(c, 2));
    let number = whole + "."@ + (if cents is Some {
        text::trimmed(cents->0)
    } else {
        "00"@
    });
    &&& caption is None || text::byte_len(heading) >= 15 || text::byte_len(caption->0)
        <= text::byte_len(heading) ==> title == heading
    &&& caption is Some && text::byte_len(heading) < 15 && text::byte_len(caption->0)
        > text::byte_len(heading) ==> title == text::trimmed(caption->0)
    &&& shown is Some && whole.len() > 0 && decimal::decimal_from_text(number) is Some ==> price
        == decimal::of_view(decimal::decimal_from_text(number)->0)
    &&& shown is Some && (whole.len() == 0 || decimal::decimal_from_text(number) is None) ==> price
        == decimal::dec(0, 0)
    &&& shown is None ==> price == decimal::dec(0, 0)
}

/// Whether an offer is what a card of the Brazilian site says.
pub open spec fn amazon_card_says(c: html::CardView, p: models::ProductView, at: int) -> bool {
    let asin = html::attr_of(c.element, 3);
    let href = html::attr_in(html::first_part(c, 3), 0);
    let stars = html::text_in(html::first_part(c, 5));
    let reviews = html::text_in(html::first_part(c, 6));
    &&& p.provider == ProviderId::Amazon
    &&& p.title.len() > 0
    &&& amazon_card_prices(c, p.title, p.price.listed_price)
    &&& asin is Some ==> p.platform_id == asin->0
    &&& asin is None ==> p.platform_id.len() == 0
    &&& href is Some && href->0.len() > 0 && href->0[0] == '/' ==> p.url
        == "https://www.amazon.com.br"@ + href->0
    &&& href is Some && href->0.len() > 0 && href->0[0] != '/' ==> p.url == href->0
    &&& href is None && asin is Some && asin->0.len() > 0 ==> p.url
        == "https://www.amazon.com.br/dp/"@ + asin->0
    &&& p.image_url == html::attr_in(html::first_part(c, 4), 1)
    &&& stars is Some ==> p.rating == rating::rating(
        text::swapped(text::up_to(stars->0, ' '), ',', '.'),
    )
    &&& stars is None ==> p.rating is None
    &&& reviews is None ==> p.review_count is None
    &&& reviews is Some ==> ({
        let n = text::parsed_number(
            text::trimmed(text::dropped(text::dropped(reviews->0, '.'), ',')),
            0xffff_ffff,
        );
        (n is None <==> p.review_count is None) && (n is Some ==> p.review_count->0 == n->0)
    })
    &&& p.fetched_at == at
    &&& p.price.price_brl == p.price.listed_price
    &&& p.price.total_cost == p.price.listed_price
    &&& p.price.currency == Currency::BRL
    &&& p.price.shipping_cost is None
    &&& p.price.tax.taxes_included
    &&& !p.price.tax.remessa_conforme
    &&& p.price.tax.tax_regime == TaxRegime::Domestic
    &&& p.price.tax.total_tax == decimal::dec(0, 0)
    &&& p.domestic
    &&& p.normalized_title is None
    &&& p.keepa.len() == 0
    &&& p.price.tax.import_tax is None
    &&& p.price.tax.icms is None
    &&& p.price.shipping_currency == Currency::BRL
    &&& p.sold_count is None
    &&& p.seller is None
    &&& p.price.original_price is None
    &&& p.price.installments is None
    &&& p.condition == models::ProductCondition::New
    &&& href is Some && href->0.len() == 0 && asin is Some && asin->0.len() > 0 ==> p.url
        == "https://www.amazon.com.br/dp/"@ + asin->0
}

/// The offers on a page are what its first fifty cards say, and a card with a title is an
/// offer.
pub proof fn amazon_offers_are_what_cards_say(page: Seq<char>, max: nat, at: int)
    ensures
        amazon_cards(page) == html::page_cards(
            page,
            "div[data-component-type='s-search-result']"@,
            seq![
                "h2 span"@,
                "span.a-price-whole"@,
                "span.a-price-fraction"@,
                "h2 a.a-link-normal, h2 a[href*='/dp/'], a.s-underline-text"@,
                "img.s-image"@,
                "span.a-icon-alt"@,
                "a[href*='customerReviews'] span.a-size-base, a[href*='customerReviews'] span.a-size-small"@,
            ],
            seq!["href"@, "src"@, "alt"@, "data-asin"@],
        ),
        Amazon.offers(page, max, at) is Ok,
        ({
            let cards = amazon_cards(page);
            let v = Amazon.offers(page, max, at)->Ok_0;
            v.len() <= 50
        }),
        ({
            let cards = amazon_cards(page);
            let v = Amazon.offers(page, max, at)->Ok_0;
            forall|i: int|
                0 <= i < v.len() ==> exists|k: int|
                    0 <= k < cards.len() && k < 50 && amazon_card_says(
                        #[trigger] cards[k],
                        #[trigger] v[i],
                        at,
                    )
        }),
        ({
            let cards = amazon_cards(page);
            let v = Amazon.offers(page, max, at)->Ok_0;
            forall|k: int|
                0 <= k < cards.len() && k < 50 && html::text_in(
                    html::first_part(#[trigger] cards[k], 0),
                ) is Some && text::byte_len(
                    text::trimmed(html::text_in(html::first_part(cards[k], 0))->0),
                ) >= 15 ==> exists|i: int|
                    0 <= i < v.len() && amazon_card_says(cards[k], #[trigger] v[i], at)
        }),
{
    let cards = amazon_cards(page);
    let item = |c: html::CardView| amazon_offer(c, at);
    let first = providers::first_of(cards, 50);
    let v = Amazon.offers(page, max, at)->Ok_0;
    assert(v == providers::gathered(first, item));
    providers::lemma_gathered_few(first, item);
    assert forall|c: html::CardView| (#[trigger] item(c)) is Some implies amazon_card_says(
        c,
        item(c)->0,
        at,
    ) by {
        let href = html::attr_in(html::first_part(c, 3), 0);
        if href is Some {
            providers::addresses_are_made_whole("https://www.amazon.com.br"@, href->0);
        }
    }
    assert forall|i: int| 0 <= i < v.len() implies exists|k: int|
        0 <= k < cards.len() && k < 50 && amazon_card_says(#[trigger] cards[k], #[trigger] v[i], at) by {
        providers::lemma_gathered_from(first, item, i);
        let k = choose|k: int| 0 <= k < first.len() && item(#[trigger] first[k]) == Some(v[i]);
        assert(first[k] == cards[k]);
        assert(amazon_card_says(cards[k], v[i], at));
    }
    assert forall|k: int|
        0 <= k < cards.len() && k < 50 && html::text_in(
            html::first_part(#[trigger] cards[k], 0),
        ) is Some && text::byte_len(
            text::trimmed(html::text_in(html::first_part(cards[k], 0))->0),
        ) >= 15 implies exists|i: int|
        0 <= i < v.len() && amazon_card_says(cards[k], #[trigger] v[i], at) by {
        assert(first[k] == cards[k]);
        assert(item(first[k]) is Some);
        providers::lemma_gathered_all(first, item, k);
        let i = choose|i: int| 0 <= i < v.len() && #[trigger] v[i] == item(first[k])->0;
        assert(amazon_card_says(cards[k], v[i], at));
    }
}

} // verus!
