//! Kabum.

use vstd::prelude::*;

use crate::decimal;
use crate::decimal::Decimal;
use crate::error::{ProviderError, ProviderErrorView};
use crate::json;
use crate::json::Json;
use crate::models;
use crate::models::{Currency, InstallmentInfo, PriceInfo, Product, SellerInfo, TaxRegime};
use crate::providers;
use crate::providers::{Provider, ProviderId};
use crate::text;

verus! {

/// Kabum.
pub struct Kabum;

impl Kabum {
    pub fn new() -> (r: Kabum)
        ensures
            r == Kabum,
    {
        Kabum
    }
}

/// The parts that a text such as "10x de R$ 1.249,90" offers to pay in, always
/// without interest.
pub open spec fn kabum_installments(s: Seq<char>) -> Option<InstallmentInfo> {
    match (text::before(s, "x de R$ "@), text::after(s, "x de R$ "@)) {
        (Some(count), Some(each)) => match (
            text::parsed_number(text::trimmed(count), 255),
            providers::amount(text::trimmed(providers::plain_notation(each))),
        ) {
            (Some(n), Some(a)) => Some(
                InstallmentInfo { count: n as u8, amount_per: a, interest_free: true },
            ),
            _ => None,
        },
        _ => None,
    }
}

/// The parts that a text offers to pay in.
pub fn parse_kabum_installments(s: &str) -> (r: Option<InstallmentInfo>)
    ensures
        r == kabum_installments(s@),
{
    match (text::before_text(s, "x de R$ "), text::after_text(s, "x de R$ ")) {
        (Some(count), Some(each)) => {
            let bare_count = text::trim(count.as_str());
            let n = text::parse_number(bare_count.as_str(), 255);
            let plain = providers::to_plain_notation(each.as_str());
            let bare = text::trim(plain.as_str());
            match (n, Decimal::parse(bare.as_str())) {
                (Some(n), Some(a)) => Some(
                    InstallmentInfo { count: n as u8, amount_per: a, interest_free: true },
                ),
                _ => None,
            }
        },
        _ => None,
    }
}

/// The price of an item: with the discount where that is a number, and the full one
/// otherwise.
pub open spec fn kabum_price(item: json::JsonView) -> Decimal {
    match json::number_of(json::member(item, "priceWithDiscount"@)) {
        Some(n) => providers::or_nothing(n.decimal),
        None => providers::or_nothing(json::decimal_of(json::member(item, "price"@))),
    }
}

/// The offer that an item is: none without a name or a price.
pub open spec fn kabum_offer(item: json::JsonView, at: int) -> Option<models::ProductView> {
    let name = json::text_or(json::text_of(json::member(item, "name"@)), Seq::empty());
    let code = match json::unsigned_of(json::member(item, "code"@)) {
        Some(n) => text::number_text(n as nat),
        None => text::number_text(0),
    };
    let friendly = json::text_or(json::text_of(json::member(item, "friendlyName"@)), ""@);
    if name.len() == 0 || kabum_price(item)@.mantissa == 0 {
        None
    } else {
        Some(
            models::ProductView {
                image_url: json::text_of(
                    providers::first_element(json::member(item, "images"@)),
                ),
                seller: Some(
                    models::SellerView {
                        name: json::text_or(
                            json::text_of(providers::member2(item, "manufacturer"@, "name"@)),
                            "Unknown"@,
                        ),
                        reputation: None,
                        official_store: false,
                    },
                ),
                rating: providers::if_positive(
                    json::decimal_of(json::member(item, "averageScore"@)),
                ),
                ..models::offer(
                    ProviderId::Kabum,
                    code,
                    name,
                    "https://www.kabum.com.br/produto/"@ + code + "/"@ + friendly,
                    PriceInfo {
                        original_price: json::decimal_of(json::member(item, "oldPrice"@)),
                        installments: kabum_installments(
                            json::text_or(
                                json::text_of(json::member(item, "maxInstallment"@)),
                                ""@,
                            ),
                        ),
                        ..providers::domestic_price(kabum_price(item))
                    },
                    at,
                )
            },
        )
    }
}

/// The offer that an item is.
pub fn read_kabum_item(item: &Json, at: i128) -> (r: Option<Product>)
    ensures
        providers::offer_view(r) == kabum_offer(item@, at as int),
{
    let j = Some(item);
    let name = text::else_empty(json::as_text(json::get(j, "name")));
    if name.as_str().is_empty() {
        return None;
    }
    let price = match json::as_number(json::get(j, "priceWithDiscount")) {
        Some(n) => providers::else_nothing(n.decimal),
        None => providers::else_nothing(json::as_decimal(json::get(j, "price"))),
    };
    if price.is_zero() {
        return None;
    }
    let original_price = json::as_decimal(json::get(j, "oldPrice"));
    let number: u64 = match json::as_unsigned(json::get(j, "code")) {
        Some(n) => n,
        None => 0,
    };
    let code = text::show_number(number);
    let friendly = json::text_else(json::as_text(json::get(j, "friendlyName")), "");
    let mut url = text::join3("https://www.kabum.com.br/produto/", code.as_str(), "/");
    url.append(friendly.as_str());
    let image_url = json::as_text(providers::get_first(json::get(j, "images")));
    let rating = providers::only_positive(json::as_decimal(json::get(j, "averageScore")));
    let parts = json::text_else(json::as_text(json::get(j, "maxInstallment")), "");
    let installments = parse_kabum_installments(parts.as_str());
    let maker = json::text_else(
        json::as_text(providers::get2(j, "manufacturer", "name")),
        "Unknown",
    );
    let listed = providers::price_at_home(price);
    let base = Product::offer(
        ProviderId::Kabum,
        code,
        name,
        url,
        PriceInfo { original_price, installments, ..listed },
        at,
    );
    Some(
        Product {
            image_url,
            seller: Some(SellerInfo { name: maker, reputation: None, official_store: false }),
            rating,
            ..base
        },
    )
}

/// The offers that the first 50 items are.
pub open spec fn kabum_items(items: Seq<json::JsonView>, at: int) -> Seq<models::ProductView> {
    providers::gathered(providers::first_of(items, 50), |j: json::JsonView| kabum_offer(j, at))
}

/// The offers that the first 50 items are.
pub fn read_kabum_items(items: &Vec<Json>, at: i128) -> (r: Vec<Product>)
    ensures
        models::product_views(r@) == kabum_items(json::json_views(items@), at as int),
{
    let ghost all = providers::first_of(json::json_views(items@), 50);
    let ghost item = |j: json::JsonView| kabum_offer(j, at as int);
    let limit: usize = if items.len() <= 50 {
        items.len()
    } else {
        50
    };
    let mut out: Vec<Product> = Vec::new();
    let mut i: usize = 0;
    assert(models::product_views(out@) =~= Seq::empty());
    while i < limit
        invariant
            i <= limit <= items@.len(),
            all.len() == limit,
            forall|k: int| 0 <= k < limit ==> #[trigger] all[k] == items@[k]@,
            item == (|j: json::JsonView| kabum_offer(j, at as int)),
            models::product_views(out@) == providers::gathered(all.take(i as int), item),
        decreases limit - i,
    {
        assert(all.take(i + 1).drop_last() =~= all.take(i as int));
        assert(all[i as int] == items@[i as int]@);
        let ghost so_far = out@;
        match read_kabum_item(&items[i], at) {
            Some(p) => {
                out.push(p);
                proof {
                    providers::lemma_product_push(so_far, p);
                }
            },
            None => {},
        }
        i = i + 1;
    }
    assert(all.take(i as int) =~= all);
    out
}

/// The items in the data of a page.
pub open spec fn kabum_catalog(data: json::JsonView) -> Option<Seq<json::JsonView>> {
    let page = providers::member2(data, "props"@, "pageProps"@);
    json::list_of(json::member(providers::member2(page, "data"@, "catalogServer"@), "data"@))
}

/// The offers in the data of a page, or the reason why there are none.
pub open spec fn kabum_data_offers(
    parsed: Result<json::JsonView, Seq<char>>,
    at: int,
) -> Result<Seq<models::ProductView>, ProviderErrorView> {
    match parsed {
        Ok(data) => match kabum_catalog(data) {
            Some(items) => Ok(kabum_items(items, at)),
            None => Err(
                ProviderErrorView::Scraping("Kabum catalog data not found in __NEXT_DATA__"@),
            ),
        },
        Err(e) => Err(ProviderErrorView::Parse("__NEXT_DATA__ JSON parse error: "@ + e)),
    }
}

/// The offers in the data of a page, or the reason why there are none.
pub fn read_kabum_data(parsed: Result<Json, String>, at: i128) -> (r: Result<
    Vec<Product>,
    ProviderError,
>)
    ensures
        providers::outcome_view(r) == kabum_data_offers(json::parse_view(parsed), at as int),
{
    match parsed {
        Ok(data) => {
            let props = providers::get2(Some(&data), "props", "pageProps");
            let catalog = providers::get2(props, "data", "catalogServer");
            match json::as_list(json::get(catalog, "data")) {
                Some(items) => Ok(read_kabum_items(items, at)),
                None => Err(
                    ProviderError::Scraping(
                        "Kabum catalog data not found in __NEXT_DATA__".to_string(),
                    ),
                ),
            }
        },
        Err(e) => Err(
            ProviderError::Parse(text::join2("__NEXT_DATA__ JSON parse error: ", e.as_str())),
        ),
    }
}

/// The offers on a page, or the reason why there are none.
pub open spec fn kabum_offers(page: Seq<char>, at: int) -> Result<
    Seq<models::ProductView>,
    ProviderErrorView,
> {
    if providers::data_start(page) is None {
        Err(ProviderErrorView::Scraping("__NEXT_DATA__ not found"@))
    } else {
        match providers::page_data(page) {
            Some(data) => kabum_data_offers(json::json_from_text(data), at),
            None => Err(ProviderErrorView::Scraping("__NEXT_DATA__ closing tag not found"@)),
        }
    }
}

impl Provider for Kabum {
    open spec fn identity(&self) -> ProviderId {
        ProviderId::Kabum
    }

    open spec fn offers(&self, page: Seq<char>, max_results: nat, at: int) -> Result<
        Seq<models::ProductView>,
        ProviderErrorView,
    > {
        kabum_offers(page, at)
    }

    fn name(&self) -> (r: &'static str) {
        "Kabum"
    }

    fn id(&self) -> (r: ProviderId) {
        ProviderId::Kabum
    }

    fn is_available(&self) -> (r: bool) {
        true
    }

    fn parse_html(&self, html: &str, max_results: usize, at: i128) -> (r: Result<
        Vec<Product>,
        ProviderError,
    >) {
        let (found, data) = providers::find_page_data(html);
        if !found {
            return Err(ProviderError::Scraping("__NEXT_DATA__ not found".to_string()));
        }
        match data {
            Some(data) => read_kabum_data(json::parse_text(data.as_str()), at),
            None => Err(ProviderError::Scraping("__NEXT_DATA__ closing tag not found".to_string())),
        }
    }
}

/// Whether an offer is what an item of the catalogue says: its name, its number and address,
/// its price with the discount where there is one, its old price, its first image, its
/// maker, and a rating of more than nothing; from within Brazil, in reais, with its taxes
/// held.
pub open spec fn kabum_item_says(item: json::JsonView, p: models::ProductView, at: int) -> bool {
    let name = json::text_of(json::member(item, "name"@));
    let code = match json::unsigned_of(json::member(item, "code"@)) {
        Some(n) => n as nat,
        None => 0,
    };
    let friendly = json::text_of(json::member(item, "friendlyName"@));
    let discount = json::number_of(json::member(item, "priceWithDiscount"@));
    let full = json::decimal_of(json::member(item, "price"@));
    let images = json::list_of(json::member(item, "images"@));
    let maker = json::text_of(json::member(json::member(item, "manufacturer"@), "name"@));
    let score = json::decimal_of(json::member(item, "averageScore"@));
    &&& p.provider == ProviderId::Kabum
    &&& name == Some(p.title)
    &&& p.title.len() > 0
    &&& p.platform_id == text::number_text(code)
    &&& p.url == "https://www.kabum.com.br/produto/"@ + text::number_text(code) + "/"@ + (
    if friendly is Some {
        friendly->0
    } else {
        ""@
    })
    &&& discount is Some ==> discount->0.decimal == Some(p.price.listed_price)
    &&& discount is None ==> full == Some(p.price.listed_price)
    &&& p.price.listed_price@.mantissa != 0
    &&& p.price.original_price == json::decimal_of(json::member(item, "oldPrice"@))
    &&& images is Some && images->0.len() > 0 ==> p.image_url == json::text_of(images->0[0])
    &&& images is None || images->0.len() == 0 ==> p.image_url is None
    &&& p.seller is Some
    &&& p.seller->0.name == (if maker is Some {
        maker->0
    } else {
        "Unknown"@
    })
    &&& score is Some && score->0@.mantissa > 0 ==> p.rating == score
    &&& score is None || score->0@.mantissa <= 0 ==> p.rating is None
    &&& p.fetched_at == at
    &&& p.price.price_brl == p.price.listed_price
    &&& p.price.total_cost == p.price.listed_price
    &&& p.price.currency == Currency::BRL
    &&& p.price.shipping_cost is None
    &&& p.price.tax.taxes_included
    &&& !p.price.tax.remessa_conforme
    &&& p.price.tax.tax_regime == TaxRegime::Domestic
    &&& p.price.tax.total_tax == decimal::dec(0, 0)
    &&& p.domestic
    &&& p.normalized_title is None
    &&& p.keepa.len() == 0
    &&& p.price.tax.import_tax is None
    &&& p.price.tax.icms is None
    &&& p.price.shipping_currency == Currency::BRL
    &&& p.review_count is None
    &&& p.sold_count is None
    &&& p.condition == models::ProductCondition::New
    &&& p.seller->0.reputation is None
    &&& !p.seller->0.official_store
    &&& p.price.installments == kabum_installments(
        match json::text_of(json::member(item, "maxInstallment"@)) {
            Some(s) => s,
            None => ""@,
        },
    )
}

/// The offers in the data of a page are what the first fifty items of its catalogue say, and
/// an item with a name and a price is an offer.
pub proof fn kabum_offers_are_what_items_say(page: Seq<char>, max: nat, at: int)
    ensures
        ({
            let opening = "<script id=\"__NEXT_DATA__\" type=\"application/json\">"@;
            let start = text::after(page, opening);
            let body = text::before(start->0, "</script>"@);
            let data = json::json_from_text(body->0);
            let items = json::list_of(
                json::member(
                    json::member(
                        json::member(
                            json::member(json::member(data->Ok_0, "props"@), "pageProps"@),
                            "data"@,
                        ),
                        "catalogServer"@,
                    ),
                    "data"@,
                ),
            );
            let found = start is Some && body is Some && data is Ok && items is Some;
            match Kabum.offers(page, max, at) {
                Ok(v) => {
                    &&& found
                    &&& v.len() <= 50
                    &&& forall|i: int|
                        0 <= i < v.len() ==> exists|k: int|
                            0 <= k < items->0.len() && k < 50 && kabum_item_says(
                                #[trigger] items->0[k],
                                #[trigger] v[i],
                                at,
                            )
                    &&& forall|k: int|
                        0 <= k < items->0.len() && k < 50 && ({
                            let name = json::text_of(json::member(#[trigger] items->0[k], "name"@));
                            let discount = json::number_of(
                                json::member(items->0[k], "priceWithDiscount"@),
                            );
                            let price = if discount is Some {
                                discount->0.decimal
                            } else {
                                json::decimal_of(json::member(items->0[k], "price"@))
                            };
                            name is Some && name->0.len() > 0 && price is Some
                                && price->0@.mantissa != 0
                        }) ==> exists|i: int|
                            0 <= i < v.len() && kabum_item_says(items->0[k], #[trigger] v[i], at)
                },
                Err(_) => !found,
            }
        }),
{
    let parsed = json::json_from_text(providers::page_data(page)->0);
    decimal::lemma_dec(0, 0);
    if Kabum.offers(page, max, at) is Ok {
        let items = kabum_catalog(parsed->Ok_0)->0;
        let item = |j: json::JsonView| kabum_offer(j, at);
        let first = providers::first_of(items, 50);
        let v = providers::gathered(first, item);
        providers::lemma_gathered_few(first, item);
        assert forall|i: int| 0 <= i < v.len() implies exists|k: int|
            0 <= k < items.len() && k < 50 && kabum_item_says(
                #[trigger] items[k],
                #[trigger] v[i],
                at,
            ) by {
            providers::lemma_gathered_from(first, item, i);
            let k = choose|k: int| 0 <= k < first.len() && item(#[trigger] first[k]) == Some(v[i]);
            assert(first[k] == items[k]);
            assert(kabum_item_says(items[k], v[i], at));
        }
        assert forall|k: int|
            0 <= k < items.len() && k < 50 && item(#[trigger] items[k]) is Some implies exists|i: int|
            0 <= i < v.len() && kabum_item_says(items[k], #[trigger] v[i], at) by {
            assert(first[k] == items[k]);
            providers::lemma_gathered_all(first, item, k);
            let i = choose|i: int| 0 <= i < v.len() && #[trigger] v[i] == item(first[k])->0;
            assert(kabum_item_says(items[k], v[i], at));
        }
        assert forall|k: int|
            0 <= k < items.len() && k < 50 && ({
                let name = json::text_of(json::member(#[trigger] items[k], "name"@));
                let discount = json::number_of(json::member(items[k], "priceWithDiscount"@));
                let price = if discount is Some {
                    discount->0.decimal
                } else {
                    json::decimal_of(json::member(items[k], "price"@))
                };
                name is Some && name->0.len() > 0 && price is Some && price->0@.mantissa != 0
            }) implies exists|i: int|
            0 <= i < v.len() && kabum_item_says(items[k], #[trigger] v[i], at) by {
            assert(item(items[k]) is Some);
        }
    }
}

/// What is paid in parts is what a text such as "10x de R$ 1.249,90" gives: the number before
/// the sign and the amount behind it.
pub proof fn kabum_parts_are_read(count: Seq<char>, each: Seq<char>, s: Seq<char>)
    requires
        text::before(s, "x de R$ "@) == Some(count),
        text::after(s, "x de R$ "@) == Some(each),
    ensures
        match kabum_installments(s) {
            Some(i) => {
                &&& text::parsed_number(text::trimmed(count), 255) == Some(i.count as nat)
                &&& decimal::of_opt(
                    decimal::decimal_from_text(
                        text::trimmed(text::swapped(text::dropped(each, '.'), ',', '.')),
                    ),
                ) == Some(i.amount_per)
                &&& i.interest_free
            },
            None => text::parsed_number(text::trimmed(count), 255) is None
                || decimal::decimal_from_text(
                text::trimmed(text::swapped(text::dropped(each, '.'), ',', '.')),
            ) is None,
        },
{
}

} // verus!
