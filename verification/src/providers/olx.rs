//! OLX.

use vstd::prelude::*;

use crate::decimal;
use crate::decimal::Decimal;
use crate::error::{ProviderError, ProviderErrorView};
use crate::json;
use crate::json::Json;
use crate::models;
use crate::models::{Currency, PriceInfo, Product, ProductCondition, SellerInfo, TaxRegime};
use crate::providers;
use crate::providers::{Provider, ProviderId};
use crate::text;

verus! {

/// OLX.
pub struct Olx;

impl Olx {
    pub fn new() -> (r: Olx)
        ensures
            r == Olx,
    {
        Olx
    }
}

/// The amount that a text such as "R$ 3.500" stands for.
pub open spec fn olx_amount(s: Seq<char>) -> Option<Decimal> {
    providers::amount(
        text::trimmed(
            providers::plain_notation(text::dropped(text::replaced(s, "R$"@, ""@), ' ')),
        ),
    )
}

/// The amount that a text such as "R$ 3.500" stands for.
pub fn parse_brl_price(s: &str) -> (r: Option<Decimal>)
    ensures
        r == olx_amount(s@),
{
    let bare = text::replace(s, "R$", "");
    let tight = text::drop_char(bare.as_str(), ' ');
    let plain = providers::to_plain_notation(tight.as_str());
    let number = text::trim(plain.as_str());
    Decimal::parse(number.as_str())
}

/// The price of an advertisement.
pub open spec fn olx_price(ad: json::JsonView) -> Decimal {
    providers::or_nothing(
        providers::either_amount(
            providers::amount_in(json::member(ad, "priceValue"@)),
            match json::text_of(json::member(ad, "price"@)) {
                Some(s) => olx_amount(s),
                None => None,
            },
        ),
    )
}

/// Whether a title says that a thing is new.
pub open spec fn says_new(title: Seq<char>) -> bool {
    text::has(text::lowered(title), "novo"@) || text::has(text::lowered(title), "lacrado"@)
}

/// The offer that an advertisement is: none without a title or a price. A thing is
/// used unless its title says that it is new.
pub open spec fn olx_offer(ad: json::JsonView, at: int) -> Option<models::ProductView> {
    let title = text::or_empty(
        json::either(
            json::text_of(json::member(ad, "subject"@)),
            json::text_of(json::member(ad, "title"@)),
        ),
    );
    let image = providers::first_element(json::member(ad, "images"@));
    if title.len() == 0 || olx_price(ad)@.mantissa == 0 {
        None
    } else {
        Some(
            models::ProductView {
                image_url: json::either(
                    json::text_of(json::member(image, "original"@)),
                    json::text_of(json::member(image, "originalWebp"@)),
                ),
                seller: Some(
                    models::SellerView {
                        name: json::text_or(
                            json::text_of(providers::member2(ad, "user"@, "displayName"@)),
                            "Particular"@,
                        ),
                        reputation: None,
                        official_store: json::bool_of(json::member(ad, "professionalAd"@)) == Some(
                            true,
                        ),
                    },
                ),
                condition: if says_new(title) {
                    ProductCondition::New
                } else {
                    ProductCondition::Used
                },
                ..models::offer(
                    ProviderId::Olx,
                    match json::unsigned_of(json::member(ad, "listId"@)) {
                        Some(n) => text::number_text(n as nat),
                        None => Seq::empty(),
                    },
                    title,
                    text::or_empty(
                        json::either(
                            json::text_of(json::member(ad, "friendlyUrl"@)),
                            json::text_of(json::member(ad, "url"@)),
                        ),
                    ),
                    PriceInfo {
                        original_price: providers::amount_in(json::member(ad, "oldPrice"@)),
                        ..providers::domestic_price(olx_price(ad))
                    },
                    at,
                )
            },
        )
    }
}

/// The offer that an advertisement is.
pub fn read_olx_ad(ad: &Json, at: i128) -> (r: Option<Product>)
    ensures
        providers::offer_view(r) == olx_offer(ad@, at as int),
{
    let j = Some(ad);
    let title = text::else_empty(
        json::first_text(
            json::as_text(json::get(j, "subject")),
            json::as_text(json::get(j, "title")),
        ),
    );
    if title.as_str().is_empty() {
        return None;
    }
    let price = match providers::read_amount(json::get(j, "priceValue")) {
        Some(d) => d,
        None => match json::as_text(json::get(j, "price")) {
            Some(s) => providers::else_nothing(parse_brl_price(s.as_str())),
            None => Decimal::zero(),
        },
    };
    if price.is_zero() {
        return None;
    }
    let original_price = providers::read_amount(json::get(j, "oldPrice"));
    let url = text::else_empty(
        json::first_text(
            json::as_text(json::get(j, "friendlyUrl")),
            json::as_text(json::get(j, "url")),
        ),
    );
    let image = providers::get_first(json::get(j, "images"));
    let image_url = json::first_text(
        json::as_text(json::get(image, "original")),
        json::as_text(json::get(image, "originalWebp")),
    );
    let id = match json::as_unsigned(json::get(j, "listId")) {
        Some(n) => text::show_number(n),
        None => String::new(),
    };
    let name = json::text_else(
        json::as_text(providers::get2(j, "user", "displayName")),
        "Particular",
    );
    let professional = match json::as_bool(json::get(j, "professionalAd")) {
        Some(b) => b,
        None => false,
    };
    let lower = text::lowercase(title.as_str());
    let condition = if text::contains(lower.as_str(), "novo") || text::contains(
        lower.as_str(),
        "lacrado",
    ) {
        ProductCondition::New
    } else {
        ProductCondition::Used
    };
    let listed = providers::price_at_home(price);
    let base = Product::offer(
        ProviderId::Olx,
        id,
        title,
        url,
        PriceInfo { original_price, ..listed },
        at,
    );
    Some(
        Product {
            image_url,
            seller: Some(SellerInfo { name, reputation: None, official_store: professional }),
            condition,
            ..base
        },
    )
}

/// The offers that the first 50 advertisements are.
pub open spec fn olx_ads(ads: Seq<json::JsonView>, at: int) -> Seq<models::ProductView> {
    providers::gathered(providers::first_of(ads, 50), |j: json::JsonView| olx_offer(j, at))
}

/// The offers that the first 50 advertisements are.
pub fn read_olx_ads(ads: &Vec<Json>, at: i128) -> (r: Vec<Product>)
    ensures
        models::product_views(r@) == olx_ads(json::json_views(ads@), at as int),
{
    let ghost all = providers::first_of(json::json_views(ads@), 50);
    let ghost item = |j: json::JsonView| olx_offer(j, at as int);
    let limit: usize = if ads.len() <= 50 {
        ads.len()
    } else {
        50
    };
    let mut out: Vec<Product> = Vec::new();
    let mut i: usize = 0;
    assert(models::product_views(out@) =~= Seq::empty());
    while i < limit
        invariant
            i <= limit <= ads@.len(),
            all.len() == limit,
            forall|k: int| 0 <= k < limit ==> #[trigger] all[k] == ads@[k]@,
            item == (|j: json::JsonView| olx_offer(j, at as int)),
            models::product_views(out@) == providers::gathered(all.take(i as int), item),
        decreases limit - i,
    {
        assert(all.take(i + 1).drop_last() =~= all.take(i as int));
        assert(all[i as int] == ads@[i as int]@);
        let ghost so_far = out@;
        match read_olx_ad(&ads[i], at) {
            Some(p) => {
                out.push(p);
                proof {
                    providers::lemma_product_push(so_far, p);
                }
            },
            None => {},
        }
        i = i + 1;
    }
    assert(all.take(i as int) =~= all);
    out
}

/// The advertisements in the data of a page.
pub open spec fn olx_list(data: json::JsonView) -> Option<Seq<json::JsonView>> {
    json::list_of(json::member(providers::member2(data, "props"@, "pageProps"@), "ads"@))
}

/// The offers in the data of a page, or the reason why there are none.
pub open spec fn olx_data_offers(
    parsed: Result<json::JsonView, Seq<char>>,
    at: int,
) -> Result<Seq<models::ProductView>, ProviderErrorView> {
    match parsed {
        Ok(data) => match olx_list(data) {
            Some(ads) => Ok(olx_ads(ads, at)),
            None => Err(ProviderErrorView::Scraping("OLX ads list not found"@)),
        },
        Err(e) => Err(ProviderErrorView::Parse("OLX JSON parse error: "@ + e)),
    }
}

/// The offers in the data of a page, or the reason why there are none.
pub fn read_olx_data(parsed: Result<Json, String>, at: i128) -> (r: Result<
    Vec<Product>,
    ProviderError,
>)
    ensures
        providers::outcome_view(r) == olx_data_offers(json::parse_view(parsed), at as int),
{
    match parsed {
        Ok(data) => {
            let page = providers::get2(Some(&data), "props", "pageProps");
            match json::as_list(json::get(page, "ads")) {
                Some(ads) => Ok(read_olx_ads(ads, at)),
                None => Err(ProviderError::Scraping("OLX ads list not found".to_string())),
            }
        },
        Err(e) => Err(ProviderError::Parse(text::join2("OLX JSON parse error: ", e.as_str()))),
    }
}

/// The offers on a page, or the reason why there are none.
pub open spec fn olx_offers(page: Seq<char>, at: int) -> Result<
    Seq<models::ProductView>,
    ProviderErrorView,
> {
    if providers::data_start(page) is None {
        Err(ProviderErrorView::Scraping("OLX __NEXT_DATA__ not found"@))
    } else {
        match providers::page_data(page) {
            Some(data) => olx_data_offers(json::json_from_text(data), at),
            None => Err(ProviderErrorView::Scraping("OLX __NEXT_DATA__ closing tag missing"@)),
        }
    }
}

impl Provider for Olx {
    open spec fn identity(&self) -> ProviderId {
        ProviderId::Olx
    }

    open spec fn offers(&self, page: Seq<char>, max_results: nat, at: int) -> Result<
        Seq<models::ProductView>,
        ProviderErrorView,
    > {
        olx_offers(page, at)
    }

    fn name(&self) -> (r: &'static str) {
        "OLX"
    }

    fn id(&self) -> (r: ProviderId) {
        ProviderId::Olx
    }

    fn is_available(&self) -> (r: bool) {
        true
    }

    fn parse_html(&self, html: &str, max_results: usize, at: i128) -> (r: Result<
        Vec<Product>,
        ProviderError,
    >) {
        let (found, data) = providers::find_page_data(html);
        if !found {
            return Err(ProviderError::Scraping("OLX __NEXT_DATA__ not found".to_string()));
        }
        match data {
            Some(data) => read_olx_data(json::parse_text(data.as_str()), at),
            None => Err(
                ProviderError::Scraping("OLX __NEXT_DATA__ closing tag missing".to_string()),
            ),
        }
    }
}

/// Whether an offer is what an advertisement says: its title, number and address, its price
/// as a number or as a text, its first image and its seller; new where its title says so and
/// used otherwise; from within Brazil, in reais, with its taxes held.
pub open spec fn olx_ad_says(ad: json::JsonView, p: models::ProductView, at: int) -> bool {
    let subject = json::text_of(json::member(ad, "subject"@));
    let title = json::text_of(json::member(ad, "title"@));
    let number = json::unsigned_of(json::member(ad, "listId"@));
    let friendly = json::text_of(json::member(ad, "friendlyUrl"@));
    let url = json::text_of(json::member(ad, "url"@));
    let value = json::text_of(json::member(ad, "priceValue"@));
    let shown = json::text_of(json::member(ad, "price"@));
    let images = json::list_of(json::member(ad, "images"@));
    let seller = json::text_of(json::member(json::member(ad, "user"@), "displayName"@));
    &&& p.provider == ProviderId::Olx
    &&& p.title.len() > 0
    &&& subject is Some ==> p.title == subject->0
    &&& subject is None ==> title == Some(p.title)
    &&& number is Some ==> p.platform_id == text::number_text(number->0 as nat)
    &&& number is None ==> p.platform_id.len() == 0
    &&& friendly is Some ==> p.url == friendly->0
    &&& friendly is None && url is Some ==> p.url == url->0
    &&& p.price.listed_price@.mantissa != 0
    &&& value is Some && decimal::decimal_from_text(value->0) is Some ==> p.price.listed_price
        == decimal::of_view(decimal::decimal_from_text(value->0)->0)
    &&& (value is None || decimal::decimal_from_text(value->0) is None) ==> shown is Some
        && decimal::of_opt(
        decimal::decimal_from_text(
            text::trimmed(
                text::swapped(
                    text::dropped(text::dropped(text::replaced(shown->0, "R$"@, ""@), ' '), '.'),
                    ',',
                    '.',
                ),
            ),
        ),
    ) == Some(p.price.listed_price)
    &&& images is Some && images->0.len() > 0 && json::text_of(
        json::member(images->0[0], "original"@),
    ) is Some ==> p.image_url == json::text_of(json::member(images->0[0], "original"@))
    &&& p.seller is Some
    &&& p.seller->0.name == (if seller is Some {
        seller->0
    } else {
        "Particular"@
    })
    &&& p.seller->0.official_store == (json::bool_of(json::member(ad, "professionalAd"@)) == Some(
        true,
    ))
    &&& p.condition == (if text::has(text::lowered(p.title), "novo"@) || text::has(
        text::lowered(p.title),
        "lacrado"@,
    ) {
        ProductCondition::New
    } else {
        ProductCondition::Used
    })
    &&& p.fetched_at == at
    &&& p.price.price_brl == p.price.listed_price
    &&& p.price.total_cost == p.price.listed_price
    &&& p.price.currency == Currency::BRL
    &&& p.price.shipping_cost is None
    &&& p.price.tax.taxes_included
    &&& !p.price.tax.remessa_conforme
    &&& p.price.tax.tax_regime == TaxRegime::Domestic
    &&& p.price.tax.total_tax == decimal::dec(0, 0)
    &&& p.domestic
    &&& p.normalized_title is None
    &&& p.keepa.len() == 0
    &&& p.price.tax.import_tax is None
    &&& p.price.tax.icms is None
    &&& p.price.shipping_currency == Currency::BRL
    &&& p.review_count is None
    &&& p.sold_count is None
    &&& p.rating is None
    &&& p.price.installments is None
    &&& p.seller->0.reputation is None
    &&& friendly is None && url is None ==> p.url.len() == 0
    &&& images is Some && images->0.len() > 0 && json::text_of(
        json::member(images->0[0], "original"@),
    ) is None ==> p.image_url == json::text_of(json::member(images->0[0], "originalWebp"@))
    &&& p.price.original_price == (match json::text_of(json::member(ad, "oldPrice"@)) {
        Some(s) => decimal::of_opt(decimal::decimal_from_text(s)),
        None => None,
    })
}

/// The offers in the data of a page are what its first fifty advertisements say, and one with
/// a title and a price is an offer.
pub proof fn olx_offers_are_what_ads_say(page: Seq<char>, max: nat, at: int)
    ensures
        ({
            let opening = "<script id=\"__NEXT_DATA__\" type=\"application/json\">"@;
            let start = text::after(page, opening);
            let body = text::before(start->0, "</script>"@);
            let data = json::json_from_text(body->0);
            let ads = json::list_of(
                json::member(
                    json::member(json::member(data->Ok_0, "props"@), "pageProps"@),
                    "ads"@,
                ),
            );
            let found = start is Some && body is Some && data is Ok && ads is Some;
            match Olx.offers(page, max, at) {
                Ok(v) => {
                    &&& found
                    &&& v.len() <= 50
                    &&& forall|i: int|
                        0 <= i < v.len() ==> exists|k: int|
                            0 <= k < ads->0.len() && k < 50 && olx_ad_says(
                                #[trigger] ads->0[k],
                                #[trigger] v[i],
                                at,
                            )
                    &&& forall|k: int|
                        0 <= k < ads->0.len() && k < 50 && ({
                            let title = json::text_of(
                                json::member(#[trigger] ads->0[k], "subject"@),
                            );
                            let value = json::text_of(json::member(ads->0[k], "priceValue"@));
                            title is Some && title->0.len() > 0 && value is Some
                                && decimal::decimal_from_text(value->0) is Some && decimal::of_view(
                                decimal::decimal_from_text(value->0)->0,
                            )@.mantissa != 0
                        }) ==> exists|i: int|
                            0 <= i < v.len() && olx_ad_says(ads->0[k], #[trigger] v[i], at)
                },
                Err(_) => !found,
            }
        }),
{
    let parsed = json::json_from_text(providers::page_data(page)->0);
    decimal::lemma_dec(0, 0);
    if Olx.offers(page, max, at) is Ok {
        let ads = olx_list(parsed->Ok_0)->0;
        let item = |j: json::JsonView| olx_offer(j, at);
        let first = providers::first_of(ads, 50);
        let v = providers::gathered(first, item);
        providers::lemma_gathered_few(first, item);
        assert forall|i: int| 0 <= i < v.len() implies exists|k: int|
            0 <= k < ads.len() && k < 50 && olx_ad_says(#[trigger] ads[k], #[trigger] v[i], at) by {
            providers::lemma_gathered_from(first, item, i);
            let k = choose|k: int| 0 <= k < first.len() && item(#[trigger] first[k]) == Some(v[i]);
            assert(first[k] == ads[k]);
            assert(olx_ad_says(ads[k], v[i], at));
        }
        assert forall|k: int|
            0 <= k < ads.len() && k < 50 && item(#[trigger] ads[k]) is Some implies exists|i: int|
            0 <= i < v.len() && olx_ad_says(ads[k], #[trigger] v[i], at) by {
            assert(first[k] == ads[k]);
            providers::lemma_gathered_all(first, item, k);
            let i = choose|i: int| 0 <= i < v.len() && #[trigger] v[i] == item(first[k])->0;
            assert(olx_ad_says(ads[k], v[i], at));
        }
        assert forall|k: int|
            0 <= k < ads.len() && k < 50 && ({
                let title = json::text_of(json::member(#[trigger] ads[k], "subject"@));
                let value = json::text_of(json::member(ads[k], "priceValue"@));
                title is Some && title->0.len() > 0 && value is Some && decimal::decimal_from_text(
                    value->0,
                ) is Some && decimal::of_view(decimal::decimal_from_text(value->0)->0)@.mantissa
                    != 0
            }) implies exists|i: int|
            0 <= i < v.len() && olx_ad_says(ads[k], #[trigger] v[i], at) by {
            assert(item(ads[k]) is Some);
        }
    }
}

} // verus!
