//! What is looked up with a browser: where the stores show their results, and what is
//! read from a product's own page.

use vstd::prelude::*;

use crate::codec;
use crate::decimal;
use crate::decimal::Decimal;
use crate::json;
use crate::json::Json;
use crate::models;
use crate::providers;
use crate::providers::ProviderId;
use crate::scraping;
use crate::text;

verus! {

/// The seconds that a page is given to render.
pub const RENDER_WAIT: u64 = 5;

/// The seconds that a page is given to load more after it was scrolled.
pub const SCROLL_WAIT: u64 = 2;

/// The address of a store's page with the results of a search.
pub open spec fn results_url(provider: ProviderId, query: Seq<char>) -> Seq<char> {
    let q = scraping::encoded(query);
    match provider {
        ProviderId::MercadoLivre => "https://lista.mercadolivre.com.br/"@ + text::swapped(
            query,
            ' ',
            '-',
        ),
        ProviderId::AliExpress => "https://pt.aliexpress.com/w/wholesale-"@ + text::swapped(
            query,
            ' ',
            '+',
        ) + ".html"@,
        ProviderId::Shopee => "https://shopee.com.br/search?keyword="@ + q,
        ProviderId::Amazon => "https://www.amazon.com.br/s?k="@ + q,
        ProviderId::AmazonUS => "https://www.amazon.com/s?k="@ + q,
        ProviderId::Kabum => "https://www.kabum.com.br/busca/"@ + text::swapped(query, ' ', '-'),
        ProviderId::MagazineLuiza => "https://www.magazineluiza.com.br/busca/"@ + q + "/"@,
        ProviderId::Olx => "https://www.olx.com.br/brasil?q="@ + q,
        ProviderId::GoogleShopping => "https://www.google.com.br/search?tbm=shop&q="@ + q,
        ProviderId::Ebay => "https://www.ebay.com/sch/i.html?_nkw="@ + q
            + "&_sacat=0&LH_PrefLoc=3&_sop=15"@,
    }
}

/// The address of a store's page with the results of a search.
pub fn search_url(provider: ProviderId, query: &str) -> (r: String)
    ensures
        r@ == results_url(provider, query@),
{
    let q = codec::url_encode(query);
    let dashed = text::swap_char(query, ' ', '-');
    let summed = text::swap_char(query, ' ', '+');
    match provider {
        ProviderId::MercadoLivre => text::join2(
            "https://lista.mercadolivre.com.br/",
            dashed.as_str(),
        ),
        ProviderId::AliExpress => text::join3(
            "https://pt.aliexpress.com/w/wholesale-",
            summed.as_str(),
            ".html",
        ),
        ProviderId::Shopee => text::join2("https://shopee.com.br/search?keyword=", q.as_str()),
        ProviderId::Amazon => text::join2("https://www.amazon.com.br/s?k=", q.as_str()),
        ProviderId::AmazonUS => text::join2("https://www.amazon.com/s?k=", q.as_str()),
        ProviderId::Kabum => text::join2("https://www.kabum.com.br/busca/", dashed.as_str()),
        ProviderId::MagazineLuiza => text::join3(
            "https://www.magazineluiza.com.br/busca/",
            q.as_str(),
            "/",
        ),
        ProviderId::Olx => text::join2("https://www.olx.com.br/brasil?q=", q.as_str()),
        ProviderId::GoogleShopping => text::join2(
            "https://www.google.com.br/search?tbm=shop&q=",
            q.as_str(),
        ),
        ProviderId::Ebay => text::join3(
            "https://www.ebay.com/sch/i.html?_nkw=",
            q.as_str(),
            "&_sacat=0&LH_PrefLoc=3&_sop=15",
        ),
    }
}

/// What the page of a product on the American Amazon tells: its price, what shipping and
/// import cost together, the price that the manufacturer asks, and who sells and ships
/// it.
pub struct AmazonUsDetails {
    pub product_price: Option<Decimal>,
    pub shipping_import: Option<Decimal>,
    pub msrp: Option<Decimal>,
    pub sold_by: Option<String>,
    pub ships_from: Option<String>,
}

/// What the page of a product on the American Amazon tells.
pub struct DetailsView {
    pub product_price: Option<Decimal>,
    pub shipping_import: Option<Decimal>,
    pub msrp: Option<Decimal>,
    pub sold_by: Option<Seq<char>>,
    pub ships_from: Option<Seq<char>>,
}

impl View for AmazonUsDetails {
    type V = DetailsView;

    open spec fn view(&self) -> DetailsView {
        DetailsView {
            product_price: self.product_price,
            shipping_import: self.shipping_import,
            msrp: self.msrp,
            sold_by: text::text_view(self.sold_by),
            ships_from: text::text_view(self.ships_from),
        }
    }
}

impl Clone for AmazonUsDetails {
    fn clone(&self) -> (r: AmazonUsDetails)
        ensures
            r@ == self@,
    {
        AmazonUsDetails {
            product_price: self.product_price,
            shipping_import: self.shipping_import,
            msrp: self.msrp,
            sold_by: models::copy_text(&self.sold_by),
            ships_from: models::copy_text(&self.ships_from),
        }
    }
}

/// Details that may be missing.
pub open spec fn details_view(d: Option<AmazonUsDetails>) -> Option<DetailsView> {
    match d {
        Some(d) => Some(d@),
        None => None,
    }
}

/// The amount in a field of an object, written with commas between the thousands.
pub open spec fn dollars_in(j: json::JsonView, key: Seq<char>) -> Option<Decimal> {
    match json::text_of(json::member(j, key)) {
        Some(s) => providers::amount(text::dropped(s, ',')),
        None => None,
    }
}

/// What shipping and import cost: what is said of both together where anything is, else
/// the sum of what is said of each, if that is anything. It is `None` where that sum is
/// too large to be held.
pub open spec fn shipping_and_import(j: json::JsonView) -> Option<Option<Decimal>> {
    if json::text_of(json::member(j, "combined"@)) is Some {
        Some(dollars_in(j, "combined"@))
    } else {
        match decimal::sum(
            providers::or_nothing(dollars_in(j, "shipping"@)),
            providers::or_nothing(dollars_in(j, "importFee"@)),
        ) {
            Some(total) => Some(
                if total@.mantissa > 0 {
                    Some(total)
                } else {
                    None
                },
            ),
            None => None,
        }
    }
}

/// What was read from the page of a product on the American Amazon.
pub open spec fn read_details(j: json::JsonView) -> Option<DetailsView> {
    match shipping_and_import(j) {
        Some(shipping_import) => Some(
            DetailsView {
                product_price: dollars_in(j, "productPrice"@),
                shipping_import,
                msrp: dollars_in(j, "msrp"@),
                sold_by: json::text_of(json::member(j, "soldBy"@)),
                ships_from: json::text_of(json::member(j, "shipsFrom"@)),
            },
        ),
        None => None,
    }
}

/// What was read from the page of a product on the American Amazon, as a text of JSON.
pub open spec fn details_in(s: Seq<char>) -> Option<DetailsView> {
    match json::json_from_text(s) {
        Ok(j) => read_details(j),
        Err(_) => None,
    }
}

fn read_dollars(j: &Json, key: &str) -> (r: Option<Decimal>)
    ensures
        r == dollars_in(j@, key@),
{
    match json::as_text(json::get(Some(j), key)) {
        Some(s) => {
            let plain = text::drop_char(s.as_str(), ',');
            Decimal::parse(plain.as_str())
        },
        None => None,
    }
}

/// What was read from the page of a product on the American Amazon, or `None` where
/// shipping and import are too large to be added up.
pub fn us_details(j: &Json) -> (r: Option<AmazonUsDetails>)
    ensures
        details_view(r) == read_details(j@),
{
    let shipping_import = if json::as_text(json::get(Some(j), "combined")).is_some() {
        read_dollars(j, "combined")
    } else {
        let shipping = providers::else_nothing(read_dollars(j, "shipping"));
        let import = providers::else_nothing(read_dollars(j, "importFee"));
        match shipping.checked_add(&import) {
            Some(total) => if total.is_positive() {
                Some(total)
            } else {
                None
            },
            None => {
                return None;
            },
        }
    };
    Some(
        AmazonUsDetails {
            product_price: read_dollars(j, "productPrice"),
            shipping_import,
            msrp: read_dollars(j, "msrp"),
            sold_by: json::as_text(json::get(Some(j), "soldBy")),
            ships_from: json::as_text(json::get(Some(j), "shipsFrom")),
        },
    )
}

/// What was read from the page of a product on the American Amazon, or `None` where the
/// text is no JSON, or shipping and import are too large to be added up.
pub fn parse_us_details(s: &str) -> (r: Option<AmazonUsDetails>)
    ensures
        details_view(r) == details_in(s@),
{
    match json::parse_text(s) {
        Ok(j) => us_details(&j),
        Err(_) => None,
    }
}

/// The address of a product on the American Amazon.
pub fn us_product_url(asin: &str) -> (r: String)
    ensures
        r@ == "https://www.amazon.com/dp/"@ + asin@,
{
    text::join2("https://www.amazon.com/dp/", asin)
}

/// What is read from a page of the American Amazon is what its fields say, each of its own:
/// shipping and import charges together where they are given together, and else their sum
/// where it is more than nothing.
pub proof fn details_are_what_fields_say(j: json::JsonView)
    ensures
        match read_details(j) {
            Some(d) => {
                let price = json::text_of(json::member(j, "productPrice"@));
                let msrp = json::text_of(json::member(j, "msrp"@));
                let both = json::text_of(json::member(j, "combined"@));
                let shipping = json::text_of(json::member(j, "shipping"@));
                let import = json::text_of(json::member(j, "importFee"@));
                let a = if shipping is Some && decimal::decimal_from_text(
                    text::dropped(shipping->0, ','),
                ) is Some {
                    decimal::of_view(decimal::decimal_from_text(text::dropped(shipping->0, ','))->0)
                } else {
                    decimal::dec(0, 0)
                };
                let b = if import is Some && decimal::decimal_from_text(
                    text::dropped(import->0, ','),
                ) is Some {
                    decimal::of_view(decimal::decimal_from_text(text::dropped(import->0, ','))->0)
                } else {
                    decimal::dec(0, 0)
                };
                &&& price is Some ==> d.product_price == decimal::of_opt(
                    decimal::decimal_from_text(text::dropped(price->0, ',')),
                )
                &&& price is None ==> d.product_price is None
                &&& msrp is Some ==> d.msrp == decimal::of_opt(
                    decimal::decimal_from_text(text::dropped(msrp->0, ',')),
                )
                &&& msrp is None ==> d.msrp is None
                &&& d.sold_by == json::text_of(json::member(j, "soldBy"@))
                &&& d.ships_from == json::text_of(json::member(j, "shipsFrom"@))
                &&& both is Some ==> d.shipping_import == decimal::of_opt(
                    decimal::decimal_from_text(text::dropped(both->0, ',')),
                )
                &&& both is None && d.shipping_import is Some ==> decimal::sum(a, b)
                    == d.shipping_import && d.shipping_import->0@.mantissa > 0
                &&& both is None && d.shipping_import is None ==> decimal::sum(a, b) is Some
                    && decimal::sum(a, b)->0@.mantissa <= 0
            },
            None => json::text_of(json::member(j, "combined"@)) is None,
        },
{
}

/// The page of a search is at the store itself and holds what is searched for.
pub proof fn results_are_at_their_store(provider: ProviderId, query: Seq<char>)
    ensures
        ({
            let u = results_url(provider, query);
            let q = codec::percent_encoded(text::bytes_of(query));
            &&& provider == ProviderId::MercadoLivre ==> u == "https://lista.mercadolivre.com.br/"@
                + text::swapped(query, ' ', '-')
            &&& provider == ProviderId::AliExpress ==> u == "https://pt.aliexpress.com/w/wholesale-"@
                + text::swapped(query, ' ', '+') + ".html"@
            &&& provider == ProviderId::Shopee ==> u == "https://shopee.com.br/search?keyword="@ + q
            &&& provider == ProviderId::Amazon ==> u == "https://www.amazon.com.br/s?k="@ + q
            &&& provider == ProviderId::AmazonUS ==> u == "https://www.amazon.com/s?k="@ + q
            &&& provider == ProviderId::Kabum ==> u == "https://www.kabum.com.br/busca/"@
                + text::swapped(query, ' ', '-')
            &&& provider == ProviderId::MagazineLuiza ==> u
                == "https://www.magazineluiza.com.br/busca/"@ + q + "/"@
            &&& provider == ProviderId::Olx ==> u == "https://www.olx.com.br/brasil?q="@ + q
            &&& provider == ProviderId::GoogleShopping ==> u
                == "https://www.google.com.br/search?tbm=shop&q="@ + q
            &&& provider == ProviderId::Ebay ==> u == "https://www.ebay.com/sch/i.html?_nkw="@ + q
                + "&_sacat=0&LH_PrefLoc=3&_sop=15"@
        }),
{
}

} // verus!
