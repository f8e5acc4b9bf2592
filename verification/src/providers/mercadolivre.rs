//! Mercado Livre.

use vstd::prelude::*;

use crate::decimal;
use crate::decimal::Decimal;
use crate::error::ProviderError;
use crate::html;
use crate::html::Card;
use crate::models;
use crate::models::{Currency, PriceInfo, Product, ProductCondition, TaxInfo, TaxRegime};
use crate::providers;
use crate::providers::{Provider, ProviderId};
use crate::text;

verus! {

/// Mercado Livre.
pub struct MercadoLivre;

impl MercadoLivre {
    pub fn new() -> (r: MercadoLivre)
        ensures
            r == MercadoLivre,
    {
        MercadoLivre
    }
}

/// The cards on a page of results: title, price, image and shipping; and the
/// address, the source and the late source of each element.
pub open spec fn ml_cards(page: Seq<char>) -> Seq<html::CardView> {
    html::page_cards(
        page,
        "li.ui-search-layout__item"@,
        seq![
            "a.poly-component__title"@,
            ".poly-price__current .andes-money-amount__fraction"@,
            "img.poly-component__picture"@,
            ".poly-component__shipping"@,
        ],
        seq!["href"@, "src"@, "data-src"@],
    )
}

/// The cards on a page of results.
pub fn select_ml_cards(page: &str) -> (r: Vec<Card>)
    ensures
        html::card_views(r@) == ml_cards(page@),
{
    let parts: [&str; 4] = [
        "a.poly-component__title",
        ".poly-price__current .andes-money-amount__fraction",
        "img.poly-component__picture",
        ".poly-component__shipping",
    ];
    let attrs: [&str; 3] = ["href", "src", "data-src"];
    proof {
        assert(html::slices(parts@) =~= seq![
            "a.poly-component__title"@,
            ".poly-price__current .andes-money-amount__fraction"@,
            "img.poly-component__picture"@,
            ".poly-component__shipping"@,
        ]);
        assert(html::slices(attrs@) =~= seq!["href"@, "src"@, "data-src"@]);
    }
    html::select(page, "li.ui-search-layout__item", &parts, &attrs)
}

/// The price of a card.
pub open spec fn ml_price(c: html::CardView) -> Decimal {
    providers::or_nothing(
        providers::amount(
            text::trimmed(
                text::dropped(text::or_empty(html::text_in(html::first_part(c, 1))), '.'),
            ),
        ),
    )
}

/// What shipping costs: nothing where it is said to be free, and it is not known
/// otherwise.
pub open spec fn ml_shipping(c: html::CardView) -> Option<Decimal> {
    if text::has(
        text::lowered(text::or_empty(html::text_in(html::first_part(c, 3)))),
        "grátis"@,
    ) {
        Some(decimal::dec(0, 0))
    } else {
        None
    }
}

/// Whether a card is of a purchase from abroad.
pub open spec fn ml_international(c: html::CardView) -> bool {
    text::has(c.markup, "Internacional"@) || text::has(c.markup, "poly-component__cbt"@)
}

/// The offer on a card: none without a title or a price. One from abroad is in the
/// Remessa Conforme programme, and its taxes are yet to be worked out.
pub open spec fn ml_offer(c: html::CardView, at: int) -> Option<models::ProductView> {
    let abroad = ml_international(c);
    match html::first_part(c, 0) {
        Some(title) => if title.text.len() == 0 || ml_price(c)@.mantissa == 0 {
            None
        } else {
            Some(
                models::ProductView {
                    image_url: if html::attr_in(html::first_part(c, 2), 1) is Some {
                        html::attr_in(html::first_part(c, 2), 1)
                    } else {
                        html::attr_in(html::first_part(c, 2), 2)
                    },
                    condition: ProductCondition::Unknown,
                    domestic: !abroad,
                    ..models::offer(
                        ProviderId::MercadoLivre,
                        Seq::empty(),
                        title.text,
                        text::or_empty(html::attr_of(title, 0)),
                        PriceInfo {
                            shipping_cost: ml_shipping(c),
                            ..models::listed(
                                ml_price(c),
                                Currency::BRL,
                                models::untaxed(
                                    abroad,
                                    !abroad,
                                    if abroad {
                                        TaxRegime::Unknown
                                    } else {
                                        TaxRegime::Domestic
                                    },
                                ),
                            )
                        },
                        at,
                    )
                },
            )
        },
        None => None,
    }
}

/// The offer on a card.
pub fn read_ml_card(c: &Card, at: i128) -> (r: Option<Product>)
    ensures
        providers::offer_view(r) == ml_offer(c@, at as int),
{
    let title_el = match html::part(c, 0) {
        Some(e) => e,
        None => {
            return None;
        },
    };
    if title_el.text.as_str().is_empty() {
        return None;
    }
    let link = text::else_empty(html::attr(title_el, 0));
    let shown = text::else_empty(html::part_text(c, 1));
    let digits = text::drop_char(shown.as_str(), '.');
    let bare = text::trim(digits.as_str());
    let price = providers::else_nothing(Decimal::parse(bare.as_str()));
    if price.is_zero() {
        return None;
    }
    let image = match html::part_attr(c, 2, 1) {
        Some(s) => Some(s),
        None => html::part_attr(c, 2, 2),
    };
    let shipping_text = text::else_empty(html::part_text(c, 3));
    let shipping_lower = text::lowercase(shipping_text.as_str());
    let shipping_cost = if text::contains(shipping_lower.as_str(), "grátis") {
        Some(Decimal::zero())
    } else {
        None
    };
    let abroad = text::contains(c.markup.as_str(), "Internacional") || text::contains(
        c.markup.as_str(),
        "poly-component__cbt",
    );
    let regime = if abroad {
        TaxRegime::Unknown
    } else {
        TaxRegime::Domestic
    };
    let listed = PriceInfo::listed(
        price,
        Currency::BRL,
        TaxInfo::untaxed(abroad, !abroad, regime),
    );
    let empty = String::new();
    let base = Product::offer(
        ProviderId::MercadoLivre,
        empty,
        title_el.text.clone(),
        link,
        PriceInfo { shipping_cost, ..listed },
        at,
    );
    Some(
        Product {
            image_url: image,
            condition: ProductCondition::Unknown,
            domestic: !abroad,
            ..base
        },
    )
}

/// The offers on the first 50 cards.
pub open spec fn ml_offers(cards: Seq<html::CardView>, at: int) -> Seq<models::ProductView> {
    providers::gathered(providers::first_of(cards, 50), |c: html::CardView| ml_offer(c, at))
}

/// The offers on the first 50 cards.
pub fn read_ml_cards(cards: &Vec<Card>, at: i128) -> (r: Vec<Product>)
    ensures
        models::product_views(r@) == ml_offers(html::card_views(cards@), at as int),
{
    let ghost all = providers::first_of(html::card_views(cards@), 50);
    let ghost item = |c: html::CardView| ml_offer(c, at as int);
    let limit: usize = if cards.len() <= 50 {
        cards.len()
    } else {
        50
    };
    let mut out: Vec<Product> = Vec::new();
    let mut i: usize = 0;
    assert(models::product_views(out@) =~= Seq::empty());
    while i < limit
        invariant
            i <= limit <= cards@.len(),
            all.len() == limit,
            forall|k: int| 0 <= k < limit ==> #[trigger] all[k] == cards@[k]@,
            item == (|c: html::CardView| ml_offer(c, at as int)),
            models::product_views(out@) == providers::gathered(all.take(i as int), item),
        decreases limit - i,
    {
        assert(all.take(i + 1).drop_last() =~= all.take(i as int));
        assert(all[i as int] == cards@[i as int]@);
        let ghost so_far = out@;
        match read_ml_card(&cards[i], at) {
            Some(p) => {
                out.push(p);
                proof {
                    providers::lemma_product_push(so_far, p);
                }
            },
            None => {},
        }
        i = i + 1;
    }
    assert(all.take(i as int) =~= all);
    out
}

impl Provider for MercadoLivre {
    open spec fn identity(&self) -> ProviderId {
        ProviderId::MercadoLivre
    }

    open spec fn offers(&self, page: Seq<char>, max_results: nat, at: int) -> Result<
        Seq<models::ProductView>,
        crate::error::ProviderErrorView,
    > {
        Ok(ml_offers(ml_cards(page), at))
    }

    fn name(&self) -> (r: &'static str) {
        "Mercado Livre"
    }

    fn id(&self) -> (r: ProviderId) {
        ProviderId::MercadoLivre
    }

    fn is_available(&self) -> (r: bool) {
        true
    }

    fn parse_html(&self, html: &str, max_results: usize, at: i128) -> (r: Result<
        Vec<Product>,
        ProviderError,
    >) {
        let cards = select_ml_cards(html);
        Ok(read_ml_cards(&cards, at))
    }
}

/// Whether an offer is what a card says: its title and address, its price in reais with the
/// points left out, free shipping only where it is said to be free; and, where the card is
/// marked as of a purchase from abroad, from abroad, in the Remessa Conforme programme and
/// with its taxes yet to be worked out, and from within Brazil with its taxes held otherwise.
pub open spec fn ml_card_says(c: html::CardView, p: models::ProductView, at: int) -> bool {
    let abroad = text::has(c.markup, "Internacional"@) || text::has(
        c.markup,
        "poly-component__cbt"@,
    );
    &&& html::first_part(c, 0) is Some
    &&& p.title == html::first_part(c, 0)->0.text
    &&& p.title.len() > 0
    &&& p.url == text::or_empty(html::attr_of(html::first_part(c, 0)->0, 0))
    &&& p.provider == ProviderId::MercadoLivre
    &&& p.platform_id.len() == 0
    &&& p.fetched_at == at
    &&& p.price.listed_price@.mantissa != 0
    &&& decimal::decimal_from_text(
        text::trimmed(text::dropped(html::text_in(html::first_part(c, 1))->0, '.')),
    ) is Some || html::text_in(html::first_part(c, 1)) is None
    &&& html::text_in(html::first_part(c, 1)) is Some ==> p.price.listed_price == decimal::of_view(
        decimal::decimal_from_text(
            text::trimmed(text::dropped(html::text_in(html::first_part(c, 1))->0, '.')),
        )->0,
    )
    &&& p.price.price_brl == p.price.listed_price
    &&& p.price.total_cost == p.price.listed_price
    &&& p.price.currency == Currency::BRL
    &&& p.price.shipping_currency == Currency::BRL
    &&& html::text_in(html::first_part(c, 3)) is Some ==> p.price.shipping_cost == (if text::has(
        text::lowered(html::text_in(html::first_part(c, 3))->0),
        "grátis"@,
    ) {
        Some(decimal::dec(0, 0))
    } else {
        None
    })
    &&& html::attr_in(html::first_part(c, 2), 1) is Some ==> p.image_url == html::attr_in(
        html::first_part(c, 2),
        1,
    )
    &&& html::attr_in(html::first_part(c, 2), 1) is None ==> p.image_url == html::attr_in(
        html::first_part(c, 2),
        2,
    )
    &&& p.condition == ProductCondition::Unknown
    &&& p.domestic == !abroad
    &&& p.price.tax.remessa_conforme == abroad
    &&& p.price.tax.taxes_included == !abroad
    &&& p.price.tax.tax_regime == (if abroad {
        TaxRegime::Unknown
    } else {
        TaxRegime::Domestic
    })
    &&& p.price.tax.total_tax == decimal::dec(0, 0)
    &&& p.normalized_title is None
    &&& p.keepa.len() == 0
    &&& p.price.tax.import_tax is None
    &&& p.price.tax.icms is None
    &&& p.review_count is None
    &&& p.sold_count is None
    &&& p.rating is None
    &&& p.seller is None
    &&& p.price.original_price is None
    &&& p.price.installments is None
}

/// The offers on a page are what its first fifty cards say, and a card with a title and a
/// price is an offer.
pub proof fn ml_offers_are_what_cards_say(page: Seq<char>, max: nat, at: int)
    ensures
        ({
            let cards = html::page_cards(
                page,
                "li.ui-search-layout__item"@,
                seq![
                    "a.poly-component__title"@,
                    ".poly-price__current .andes-money-amount__fraction"@,
                    "img.poly-component__picture"@,
                    ".poly-component__shipping"@,
                ],
                seq!["href"@, "src"@, "data-src"@],
            );
            match MercadoLivre.offers(page, max, at) {
                Ok(v) => {
                    &&& v.len() <= 50
                    &&& forall|i: int|
                        0 <= i < v.len() ==> exists|k: int|
                            0 <= k < cards.len() && k < 50 && ml_card_says(
                                #[trigger] cards[k],
                                #[trigger] v[i],
                                at,
                            )
                    &&& forall|k: int|
                        0 <= k < cards.len() && k < 50 && html::first_part(
                            #[trigger] cards[k],
                            0,
                        ) is Some && html::first_part(cards[k], 0)->0.text.len() > 0
                            && html::text_in(html::first_part(cards[k], 1)) is Some && ({
                            let amount = decimal::decimal_from_text(
                                text::trimmed(
                                    text::dropped(
                                        html::text_in(html::first_part(cards[k], 1))->0,
                                        '.',
                                    ),
                                ),
                            );
                            amount is Some && decimal::of_view(amount->0)@.mantissa != 0
                        }) ==> exists|i: int|
                            0 <= i < v.len() && ml_card_says(cards[k], #[trigger] v[i], at)
                },
                Err(_) => false,
            }
        }),
{
    let cards = ml_cards(page);
    let item = |c: html::CardView| ml_offer(c, at);
    let first = providers::first_of(cards, 50);
    let v = providers::gathered(first, item);
    decimal::lemma_dec(0, 0);
    providers::lemma_gathered_few(first, item);
    assert forall|i: int| 0 <= i < v.len() implies exists|k: int|
        0 <= k < cards.len() && k < 50 && ml_card_says(#[trigger] cards[k], #[trigger] v[i], at) by {
        providers::lemma_gathered_from(first, item, i);
        let k = choose|k: int| 0 <= k < first.len() && item(#[trigger] first[k]) == Some(v[i]);
        assert(first[k] == cards[k]);
        assert(ml_card_says(cards[k], v[i], at));
    }
    assert forall|k: int|
        0 <= k < cards.len() && k < 50 && item(#[trigger] cards[k]) is Some implies exists|i: int|
        0 <= i < v.len() && ml_card_says(cards[k], #[trigger] v[i], at) by {
        assert(first[k] == cards[k]);
        providers::lemma_gathered_all(first, item, k);
        let i = choose|i: int| 0 <= i < v.len() && #[trigger] v[i] == item(first[k])->0;
        assert(ml_card_says(cards[k], v[i], at));
    }
    assert forall|k: int|
        0 <= k < cards.len() && k < 50 && html::first_part(#[trigger] cards[k], 0) is Some
            && html::first_part(cards[k], 0)->0.text.len() > 0 && html::text_in(
            html::first_part(cards[k], 1),
        ) is Some && ({
            let amount = decimal::decimal_from_text(
                text::trimmed(
                    text::dropped(html::text_in(html::first_part(cards[k], 1))->0, '.'),
                ),
            );
            amount is Some && decimal::of_view(amount->0)@.mantissa != 0
        }) implies exists|i: int| 0 <= i < v.len() && ml_card_says(cards[k], #[trigger] v[i], at) by {
        assert(item(cards[k]) is Some);
    }
}

} // verus!
