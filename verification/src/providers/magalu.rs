//! Magazine Luiza.

use vstd::prelude::*;

use crate::decimal;
use crate::decimal::Decimal;
use crate::error::{ProviderError, ProviderErrorView};
use crate::html;
use crate::html::{Card, Element};
use crate::json;
use crate::json::Json;
use crate::models;
use crate::models::{Currency, InstallmentInfo, PriceInfo, Product, SellerInfo, TaxRegime};
use crate::pattern;
use crate::providers;
use crate::providers::{Provider, ProviderId};
use crate::text;

verus! {

/// Magazine Luiza.
pub struct MagazineLuiza;

impl MagazineLuiza {
    pub fn new() -> (r: MagazineLuiza)
        ensures
            r == MagazineLuiza,
    {
        MagazineLuiza
    }
}

// ---- Items in the data of a page ----

/// The parts that an item offers to pay in.
pub open spec fn magalu_installment(v: json::JsonView) -> Option<InstallmentInfo> {
    match (
        json::unsigned_of(json::member(v, "quantity"@)),
        providers::amount_in(json::member(v, "amount"@)),
        providers::amount_in(json::member(v, "interest"@)),
    ) {
        (Some(n), Some(a), Some(i)) => Some(
            InstallmentInfo {
                count: (n % 256) as u8,
                amount_per: a,
                interest_free: i@.mantissa == 0,
            },
        ),
        _ => None,
    }
}

/// The parts that an item offers to pay in.
pub fn parse_installment(v: Option<&Json>) -> (r: Option<InstallmentInfo>)
    ensures
        r == magalu_installment(json::seen(v)),
{
    match (
        json::as_unsigned(json::get(v, "quantity")),
        providers::read_amount(json::get(v, "amount")),
        providers::read_amount(json::get(v, "interest")),
    ) {
        (Some(n), Some(a), Some(i)) => Some(
            InstallmentInfo {
                count: (n % 256) as u8,
                amount_per: a,
                interest_free: i.is_zero(),
            },
        ),
        _ => None,
    }
}

/// A title as part of an address: in lower case, with dashes for all but letters
/// and numerals.
pub open spec fn slug(title: Seq<char>) -> Seq<char> {
    text::lowered(title).map_values(
        |c: char|
            if text::alphanumeric(c) {
                c
            } else {
                '-'
            },
    )
}

/// A title as part of an address.
pub fn make_slug(title: &str) -> (r: String)
    ensures
        r@ == slug(title@),
{
    let lower = text::lowercase(title);
    let v = text::chars_of(lower.as_str());
    let ghost want = slug(title@);
    let mut out = String::new();
    let mut i: usize = 0;
    while i < v.len()
        invariant
            i <= v@.len(),
            v@ == text::lowered(title@),
            want == slug(title@),
            out@ == want.take(i as int),
        decreases v@.len() - i,
    {
        let c: char = v[i];
        if c.is_alphanumeric() {
            out.push(c);
        } else {
            out.push('-');
        }
        assert(want.take(i + 1) =~= want.take(i as int).push(want[i as int]));
        i = i + 1;
    }
    assert(want.take(i as int) =~= want);
    out
}

/// The address of an item: its own, made whole, or one made of its title and
/// number.
pub open spec fn magalu_url(item: json::JsonView, title: Seq<char>, id: Seq<char>) -> Seq<char> {
    match json::text_of(json::member(item, "url"@)) {
        Some(u) => providers::absolute("https://www.magazineluiza.com.br"@, u),
        None => "https://www.magazineluiza.com.br/"@ + slug(title) + "/s/p/"@ + id + "/"@,
    }
}

/// The price of an item: the best one where there is one, and the full one
/// otherwise.
pub open spec fn magalu_price(item: json::JsonView) -> Decimal {
    providers::or_nothing(
        providers::either_amount(
            providers::amount_in(providers::member2(item, "price"@, "bestPrice"@)),
            providers::amount_in(providers::member2(item, "price"@, "fullPrice"@)),
        ),
    )
}

/// The offer that an item is: none without a title or a price, and none of what is
/// not available.
pub open spec fn magalu_offer(item: json::JsonView, at: int) -> Option<models::ProductView> {
    let title = text::or_empty(json::text_of(json::member(item, "title"@)));
    let id = text::or_empty(json::text_of(json::member(item, "id"@)));
    if json::bool_of(json::member(item, "available"@)) == Some(false) || title.len() == 0
        || magalu_price(item)@.mantissa == 0 {
        None
    } else {
        Some(
            models::ProductView {
                image_url: match json::text_of(json::member(item, "image"@)) {
                    Some(s) => Some(text::replaced(s, "{w}x{h}"@, "300x300"@)),
                    None => None,
                },
                seller: Some(
                    models::SellerView {
                        name: json::text_or(
                            json::text_of(providers::member2(item, "seller"@, "description"@)),
                            "Magazine Luiza"@,
                        ),
                        reputation: None,
                        official_store: json::text_of(
                            providers::member2(item, "seller"@, "category"@),
                        ) == Some("1p"@),
                    },
                ),
                rating: providers::if_positive(
                    json::decimal_of(providers::member2(item, "rating"@, "score"@)),
                ),
                review_count: match json::unsigned_of(
                    providers::member2(item, "rating"@, "count"@),
                ) {
                    Some(n) => Some((n % 4_294_967_296) as u32),
                    None => None,
                },
                ..models::offer(
                    ProviderId::MagazineLuiza,
                    id,
                    title,
                    magalu_url(item, title, id),
                    PriceInfo {
                        original_price: providers::amount_in(
                            providers::member2(item, "price"@, "fullPrice"@),
                        ),
                        installments: magalu_installment(json::member(item, "installment"@)),
                        ..providers::domestic_price(magalu_price(item))
                    },
                    at,
                )
            },
        )
    }
}

/// The offer that an item is.
pub fn read_magalu_item(item: &Json, at: i128) -> (r: Option<Product>)
    ensures
        providers::offer_view(r) == magalu_offer(item@, at as int),
{
    let j = Some(item);
    match json::as_bool(json::get(j, "available")) {
        Some(b) => {
            if !b {
                return None;
            }
        },
        None => {},
    }
    let title = text::else_empty(json::as_text(json::get(j, "title")));
    if title.as_str().is_empty() {
        return None;
    }
    let full = providers::read_amount(providers::get2(j, "price", "fullPrice"));
    let price = match providers::read_amount(providers::get2(j, "price", "bestPrice")) {
        Some(d) => d,
        None => providers::else_nothing(full),
    };
    if price.is_zero() {
        return None;
    }
    let id = text::else_empty(json::as_text(json::get(j, "id")));
    let url = match json::as_text(json::get(j, "url")) {
        Some(u) => providers::to_absolute("https://www.magazineluiza.com.br", u.as_str()),
        None => {
            let part = make_slug(title.as_str());
            let mut made = text::join3("https://www.magazineluiza.com.br/", part.as_str(), "/s/p/");
            made.append(id.as_str());
            made.append("/");
            made
        },
    };
    let image_url = match json::as_text(json::get(j, "image")) {
        Some(s) => Some(text::replace(s.as_str(), "{w}x{h}", "300x300")),
        None => None,
    };
    let rating = providers::only_positive(
        json::as_decimal(providers::get2(j, "rating", "score")),
    );
    let review_count = match json::as_unsigned(providers::get2(j, "rating", "count")) {
        Some(n) => Some((n % 4_294_967_296) as u32),
        None => None,
    };
    let name = json::text_else(
        json::as_text(providers::get2(j, "seller", "description")),
        "Magazine Luiza",
    );
    let official_store = match json::as_text(providers::get2(j, "seller", "category")) {
        Some(s) => text::same_text(s.as_str(), "1p"),
        None => false,
    };
    let installments = parse_installment(json::get(j, "installment"));
    let listed = providers::price_at_home(price);
    let base = Product::offer(
        ProviderId::MagazineLuiza,
        id,
        title,
        url,
        PriceInfo { original_price: full, installments, ..listed },
        at,
    );
    Some(
        Product {
            image_url,
            seller: Some(SellerInfo { name, reputation: None, official_store }),
            rating,
            review_count,
            ..base
        },
    )
}

/// The offers that the first 50 items are.
pub open spec fn magalu_items(items: Seq<json::JsonView>, at: int) -> Seq<models::ProductView> {
    providers::gathered(providers::first_of(items, 50), |j: json::JsonView| magalu_offer(j, at))
}

/// The offers that the first 50 items are.
pub fn read_magalu_items(items: &Vec<Json>, at: i128) -> (r: Vec<Product>)
    ensures
        models::product_views(r@) == magalu_items(json::json_views(items@), at as int),
{
    let ghost all = providers::first_of(json::json_views(items@), 50);
    let ghost item = |j: json::JsonView| magalu_offer(j, at as int);
    let limit: usize = if items.len() <= 50 {
        items.len()
    } else {
        50
    };
    let mut out: Vec<Product> = Vec::new();
    let mut i: usize = 0;
    assert(models::product_views(out@) =~= Seq::empty());
    while i < limit
        invariant
            i <= limit <= items@.len(),
            all.len() == limit,
            forall|k: int| 0 <= k < limit ==> #[trigger] all[k] == items@[k]@,
            item == (|j: json::JsonView| magalu_offer(j, at as int)),
            models::product_views(out@) == providers::gathered(all.take(i as int), item),
        decreases limit - i,
    {
        assert(all.take(i + 1).drop_last() =~= all.take(i as int));
        assert(all[i as int] == items@[i as int]@);
        let ghost so_far = out@;
        match read_magalu_item(&items[i], at) {
            Some(p) => {
                out.push(p);
                proof {
                    providers::lemma_product_push(so_far, p);
                }
            },
            None => {},
        }
        i = i + 1;
    }
    assert(all.take(i as int) =~= all);
    out
}

/// The items in the data of a page.
pub open spec fn magalu_list(data: json::JsonView) -> Option<Seq<json::JsonView>> {
    let page = providers::member2(data, "props"@, "pageProps"@);
    json::list_of(json::member(providers::member2(page, "data"@, "search"@), "products"@))
}

/// The offers in the data of a page, or the reason why there are none.
pub open spec fn magalu_data_offers(
    parsed: Result<json::JsonView, Seq<char>>,
    at: int,
) -> Result<Seq<models::ProductView>, ProviderErrorView> {
    match parsed {
        Ok(data) => match magalu_list(data) {
            Some(items) => Ok(magalu_items(items, at)),
            None => Err(ProviderErrorView::Scraping("Magalu product list not found"@)),
        },
        Err(e) => Err(ProviderErrorView::Parse("Magalu JSON parse error: "@ + e)),
    }
}

/// The offers in the data of a page, or the reason why there are none.
pub fn read_magalu_data(parsed: Result<Json, String>, at: i128) -> (r: Result<
    Vec<Product>,
    ProviderError,
>)
    ensures
        providers::outcome_view(r) == magalu_data_offers(json::parse_view(parsed), at as int),
{
    match parsed {
        Ok(data) => {
            let page = providers::get2(Some(&data), "props", "pageProps");
            let search = providers::get2(page, "data", "search");
            match json::as_list(json::get(search, "products")) {
                Some(items) => Ok(read_magalu_items(items, at)),
                None => Err(ProviderError::Scraping("Magalu product list not found".to_string())),
            }
        },
        Err(e) => Err(ProviderError::Parse(text::join2("Magalu JSON parse error: ", e.as_str()))),
    }
}

// ---- Cards on a page without data ----

/// The cards on a page: titles and links; and the address of each element.
pub open spec fn magalu_cards(page: Seq<char>) -> Seq<html::CardView> {
    html::page_cards(
        page,
        "[data-testid='product-card'], a[href*='/p/'], li[class*='product']"@,
        seq!["h2, [data-testid='product-title'], p"@, "a[href*='/p/']"@],
        seq!["href"@],
    )
}

/// The cards on a page.
pub fn select_magalu_cards(page: &str) -> (r: Vec<Card>)
    ensures
        html::card_views(r@) == magalu_cards(page@),
{
    let parts: [&str; 2] = ["h2, [data-testid='product-title'], p", "a[href*='/p/']"];
    let attrs: [&str; 1] = ["href"];
    proof {
        assert(html::slices(parts@) =~= seq![
            "h2, [data-testid='product-title'], p"@,
            "a[href*='/p/']"@,
        ]);
        assert(html::slices(attrs@) =~= seq!["href"@]);
    }
    html::select(
        page,
        "[data-testid='product-card'], a[href*='/p/'], li[class*='product']",
        &parts,
        &attrs,
    )
}

/// The first text of more than 15 bytes in some elements, from the `i`-th on.
pub open spec fn long_text(v: Seq<html::ElementView>, i: int) -> Seq<char>
    decreases v.len() - i,
{
    if i < 0 || i >= v.len() {
        Seq::empty()
    } else if text::byte_len(text::trimmed(v[i].text)) > 15 {
        text::trimmed(v[i].text)
    } else {
        long_text(v, i + 1)
    }
}

/// The elements in a card that its first selector matches.
pub open spec fn title_elements(c: html::CardView) -> Seq<html::ElementView> {
    if c.parts.len() > 0 {
        c.parts[0]
    } else {
        Seq::empty()
    }
}

/// The address that a card leads to: that of the first link in it, or its own where
/// it is a link itself.
pub open spec fn magalu_card_url(c: html::CardView) -> Seq<char> {
    let href = match html::first_part(c, 1) {
        Some(link) => html::attr_of(link, 0),
        None => if c.element.name == "a"@ {
            html::attr_of(c.element, 0)
        } else {
            None
        },
    };
    match href {
        Some(h) => providers::absolute("https://www.magazineluiza.com.br"@, h),
        None => Seq::empty(),
    }
}

/// The offer on a card with the text of its price: none under 20 bytes of text,
/// without a title, a price or an address.
pub open spec fn magalu_card_offer(
    c: html::CardView,
    price: Option<Seq<char>>,
    at: int,
) -> Option<models::ProductView> {
    let title = long_text(title_elements(c), 0);
    let amount = match price {
        Some(s) => providers::or_nothing(providers::amount(providers::plain_notation(s))),
        None => crate::decimal::dec(0, 0),
    };
    if text::byte_len(c.element.text) < 20 || title.len() == 0 || amount@.mantissa == 0
        || magalu_card_url(c).len() == 0 {
        None
    } else {
        Some(
            models::offer(
                ProviderId::MagazineLuiza,
                Seq::empty(),
                title,
                magalu_card_url(c),
                providers::domestic_price(amount),
                at,
            ),
        )
    }
}

fn find_long_text(v: &Vec<Element>) -> (r: String)
    ensures
        r@ == long_text(html::element_views(v@), 0),
{
    let ghost all = html::element_views(v@);
    let mut i: usize = 0;
    while i < v.len()
        invariant
            i <= v@.len(),
            all == html::element_views(v@),
            long_text(all, 0) == long_text(all, i as int),
        decreases v@.len() - i,
    {
        assert(all[i as int] == v@[i as int]@);
        let t = text::trim(v[i].text.as_str());
        if text::text_bytes(t.as_str()) > 15 {
            return t;
        }
        i = i + 1;
    }
    let none = String::new();
    assert(none@ =~= long_text(all, i as int));
    none
}

/// The offer on a card with the text of its price.
pub fn read_magalu_card(c: &Card, price: Option<String>, at: i128) -> (r: Option<Product>)
    ensures
        providers::offer_view(r) == magalu_card_offer(c@, text::text_view(price), at as int),
{
    if text::text_bytes(c.element.text.as_str()) < 20 {
        return None;
    }
    let title = if c.parts.len() > 0 {
        find_long_text(&c.parts[0])
    } else {
        String::new()
    };
    assert(title@ =~= long_text(title_elements(c@), 0));
    if title.as_str().is_empty() {
        return None;
    }
    let amount = match price {
        Some(s) => {
            let plain = providers::to_plain_notation(s.as_str());
            providers::else_nothing(Decimal::parse(plain.as_str()))
        },
        None => Decimal::zero(),
    };
    if amount.is_zero() {
        return None;
    }
    let href = match html::part(c, 1) {
        Some(link) => html::attr(link, 0),
        None => if text::same_text(c.element.name.as_str(), "a") {
            html::attr(&c.element, 0)
        } else {
            None
        },
    };
    let url = match href {
        Some(h) => providers::to_absolute("https://www.magazineluiza.com.br", h.as_str()),
        None => String::new(),
    };
    if url.as_str().is_empty() {
        return None;
    }
    let empty = String::new();
    Some(
        Product::offer(
            ProviderId::MagazineLuiza,
            empty,
            title,
            url,
            providers::price_at_home(amount),
            at,
        ),
    )
}

/// Whether one of some offers is at an address.
pub open spec fn at_address(v: Seq<models::ProductView>, url: Seq<char>) -> bool {
    exists|i: int| 0 <= i < v.len() && (#[trigger] v[i]).url == url
}

/// The text of the price on a card.
pub open spec fn magalu_price_text(c: html::CardView) -> Option<Seq<char>> {
    pattern::captured("R\\$\\s*([\\d.]+,\\d{2})"@, c.element.text, 1)
}

/// The offers on some cards, at most `max` of them and one for each address.
pub open spec fn magalu_card_offers(cards: Seq<html::CardView>, max: nat, at: int) -> Seq<
    models::ProductView,
>
    decreases cards.len(),
{
    if cards.len() == 0 {
        Seq::empty()
    } else {
        let before = magalu_card_offers(cards.drop_last(), max, at);
        match magalu_card_offer(cards.last(), magalu_price_text(cards.last()), at) {
            Some(p) => if before.len() >= max || at_address(before, p.url) {
                before
            } else {
                before.push(p)
            },
            None => before,
        }
    }
}

fn has_address(v: &Vec<Product>, url: &String) -> (r: bool)
    ensures
        r == at_address(models::product_views(v@), url@),
{
    let ghost all = models::product_views(v@);
    let mut i: usize = 0;
    while i < v.len()
        invariant
            i <= v@.len(),
            all == models::product_views(v@),
            forall|k: int| 0 <= k < i ==> (#[trigger] all[k]).url != url@,
        decreases v@.len() - i,
    {
        assert(all[i as int] == v@[i as int]@);
        if text::same_text(v[i].url.as_str(), url.as_str()) {
            return true;
        }
        i = i + 1;
    }
    false
}

/// The offers on the first `3 * max_results` cards, at most `max_results` of them
/// and one for each address.
pub fn read_magalu_cards(cards: &Vec<Card>, max_results: usize, at: i128) -> (r: Vec<Product>)
    ensures
        models::product_views(r@) == magalu_card_offers(
            providers::first_of(html::card_views(cards@), 3 * max_results as nat),
            max_results as nat,
            at as int,
        ),
{
    let ghost all = providers::first_of(html::card_views(cards@), 3 * max_results as nat);
    let limit: usize = if cards.len() as u128 <= 3 * (max_results as u128) {
        cards.len()
    } else {
        3 * max_results
    };
    let mut out: Vec<Product> = Vec::new();
    let mut i: usize = 0;
    assert(models::product_views(out@) =~= Seq::empty());
    while i < limit
        invariant
            i <= limit <= cards@.len(),
            all.len() == limit,
            forall|k: int| 0 <= k < limit ==> #[trigger] all[k] == cards@[k]@,
            models::product_views(out@) == magalu_card_offers(
                all.take(i as int),
                max_results as nat,
                at as int,
            ),
        decreases limit - i,
    {
        assert(all.take(i + 1).drop_last() =~= all.take(i as int));
        assert(all[i as int] == cards@[i as int]@);
        let ghost so_far = out@;
        let price = pattern::capture(
            "R\\$\\s*([\\d.]+,\\d{2})",
            cards[i].element.text.as_str(),
            1,
        );
        match read_magalu_card(&cards[i], price, at) {
            Some(p) => {
                if out.len() < max_results && !has_address(&out, &p.url) {
                    out.push(p);
                    proof {
                        providers::lemma_product_push(so_far, p);
                    }
                }
            },
            None => {},
        }
        i = i + 1;
    }
    assert(all.take(i as int) =~= all);
    out
}

/// The offers on a page, or the reason why there are none: those in its data, or
/// those on its cards where it has no data.
pub open spec fn magalu_offers(page: Seq<char>, max_results: nat, at: int) -> Result<
    Seq<models::ProductView>,
    ProviderErrorView,
> {
    if providers::data_start(page) is None {
        Ok(
            magalu_card_offers(
                providers::first_of(magalu_cards(page), 3 * max_results),
                max_results,
                at,
            ),
        )
    } else {
        match providers::page_data(page) {
            Some(data) => magalu_data_offers(json::json_from_text(data), at),
            None => Err(ProviderErrorView::Scraping("Magalu __NEXT_DATA__ closing tag missing"@)),
        }
    }
}

impl Provider for MagazineLuiza {
    open spec fn identity(&self) -> ProviderId {
        ProviderId::MagazineLuiza
    }

    open spec fn offers(&self, page: Seq<char>, max_results: nat, at: int) -> Result<
        Seq<models::ProductView>,
        ProviderErrorView,
    > {
        magalu_offers(page, max_results, at)
    }

    fn name(&self) -> (r: &'static str) {
        "Magazine Luiza"
    }

    fn id(&self) -> (r: ProviderId) {
        ProviderId::MagazineLuiza
    }

    fn is_available(&self) -> (r: bool) {
        true
    }

    fn parse_html(&self, html: &str, max_results: usize, at: i128) -> (r: Result<
        Vec<Product>,
        ProviderError,
    >) {
        let (found, data) = providers::find_page_data(html);
        if !found {
            let cards = select_magalu_cards(html);
            return Ok(read_magalu_cards(&cards, max_results, at));
        }
        match data {
            Some(data) => read_magalu_data(json::parse_text(data.as_str()), at),
            None => Err(
                ProviderError::Scraping("Magalu __NEXT_DATA__ closing tag missing".to_string()),
            ),
        }
    }
}

/// Whether an offer is what an item of the data says: on sale, with its best price or else
/// its full one, its full price beside it, and its seller, which is the store itself where
/// none is named.
pub open spec fn magalu_item_says(item: json::JsonView, p: models::ProductView, at: int) -> bool {
    let prices = json::member(item, "price"@);
    let best = json::text_of(json::member(prices, "bestPrice"@));
    let full = json::text_of(json::member(prices, "fullPrice"@));
    let id = json::text_of(json::member(item, "id"@));
    let url = json::text_of(json::member(item, "url"@));
    let image = json::text_of(json::member(item, "image"@));
    let seller = json::text_of(json::member(json::member(item, "seller"@), "description"@));
    let kind = json::text_of(json::member(json::member(item, "seller"@), "category"@));
    let score = json::decimal_of(json::member(json::member(item, "rating"@), "score"@));
    let count = json::unsigned_of(json::member(json::member(item, "rating"@), "count"@));
    let parts = json::member(item, "installment"@);
    &&& json::bool_of(json::member(item, "available"@)) != Some(false)
    &&& p.provider == ProviderId::MagazineLuiza
    &&& json::text_of(json::member(item, "title"@)) == Some(p.title)
    &&& p.title.len() > 0
    &&& id is Some ==> p.platform_id == id->0
    &&& url is Some && url->0.len() > 0 && url->0[0] == '/' ==> p.url
        == "https://www.magazineluiza.com.br"@ + url->0
    &&& url is Some && url->0.len() > 0 && url->0[0] != '/' ==> p.url == url->0
    &&& p.price.listed_price@.mantissa != 0
    &&& best is Some && decimal::decimal_from_text(best->0) is Some ==> p.price.listed_price
        == decimal::of_view(decimal::decimal_from_text(best->0)->0)
    &&& best is None || decimal::decimal_from_text(best->0) is None ==> full is Some
        && decimal::of_opt(decimal::decimal_from_text(full->0)) == Some(p.price.listed_price)
    &&& p.price.original_price == (if full is Some {
        decimal::of_opt(decimal::decimal_from_text(full->0))
    } else {
        None
    })
    &&& p.price.installments is Some ==> {
        &&& json::unsigned_of(json::member(parts, "quantity"@)) is Some
        &&& p.price.installments->0.count == json::unsigned_of(json::member(parts, "quantity"@))->0
            % 256
        &&& json::text_of(json::member(parts, "amount"@)) is Some
        &&& decimal::of_opt(
            decimal::decimal_from_text(json::text_of(json::member(parts, "amount"@))->0),
        ) == Some(p.price.installments->0.amount_per)
        &&& json::text_of(json::member(parts, "interest"@)) is Some
        &&& p.price.installments->0.interest_free <==> decimal::of_view(
            decimal::decimal_from_text(json::text_of(json::member(parts, "interest"@))->0)->0,
        )@.mantissa == 0
    }
    &&& image is Some ==> p.image_url == Some(text::replaced(image->0, "{w}x{h}"@, "300x300"@))
    &&& image is None ==> p.image_url is None
    &&& p.seller is Some
    &&& p.seller->0.name == (if seller is Some {
        seller->0
    } else {
        "Magazine Luiza"@
    })
    &&& p.seller->0.official_store <==> kind == Some("1p"@)
    &&& score is Some && score->0@.mantissa > 0 ==> p.rating == score
    &&& score is None || score->0@.mantissa <= 0 ==> p.rating is None
    &&& count is Some ==> p.review_count is Some && p.review_count->0 == count->0 % 4_294_967_296
    &&& count is None ==> p.review_count is None
    &&& p.fetched_at == at
    &&& p.price.price_brl == p.price.listed_price
    &&& p.price.total_cost == p.price.listed_price
    &&& p.price.currency == Currency::BRL
    &&& p.price.shipping_cost is None
    &&& p.price.tax.taxes_included
    &&& !p.price.tax.remessa_conforme
    &&& p.price.tax.tax_regime == TaxRegime::Domestic
    &&& p.price.tax.total_tax == decimal::dec(0, 0)
    &&& p.domestic
    &&& p.normalized_title is None
    &&& p.keepa.len() == 0
    &&& p.price.tax.import_tax is None
    &&& p.price.tax.icms is None
    &&& p.price.shipping_currency == Currency::BRL
    &&& p.sold_count is None
    &&& p.condition == models::ProductCondition::New
    &&& p.seller->0.reputation is None
    &&& (json::unsigned_of(json::member(parts, "quantity"@)) is Some && json::text_of(
        json::member(parts, "amount"@),
    ) is Some && decimal::decimal_from_text(json::text_of(json::member(parts, "amount"@))->0) is Some
        && json::text_of(json::member(parts, "interest"@)) is Some && decimal::decimal_from_text(
        json::text_of(json::member(parts, "interest"@))->0,
    ) is Some) ==> p.price.installments is Some
}

/// The offers in the data of a page are what the first fifty items of its list say, and an
/// item on sale with a title and a price is an offer.
pub proof fn magalu_offers_are_what_items_say(page: Seq<char>, max: nat, at: int)
    requires
        text::after(page, "<script id=\"__NEXT_DATA__\" type=\"application/json\">"@) is Some,
    ensures
        ({
            let start = text::after(
                page,
                "<script id=\"__NEXT_DATA__\" type=\"application/json\">"@,
            );
            let body = text::before(start->0, "</script>"@);
            let data = json::json_from_text(body->0);
            let items = json::list_of(
                json::member(
                    json::member(
                        json::member(
                            json::member(json::member(data->Ok_0, "props"@), "pageProps"@),
                            "data"@,
                        ),
                        "search"@,
                    ),
                    "products"@,
                ),
            );
            let found = body is Some && data is Ok && items is Some;
            match MagazineLuiza.offers(page, max, at) {
                Ok(v) => {
                    &&& found
                    &&& v.len() <= 50
                    &&& forall|i: int|
                        0 <= i < v.len() ==> exists|k: int|
                            0 <= k < items->0.len() && k < 50 && magalu_item_says(
                                #[trigger] items->0[k],
                                #[trigger] v[i],
                                at,
                            )
                    &&& forall|k: int|
                        0 <= k < items->0.len() && k < 50 && ({
                            let title = json::text_of(
                                json::member(#[trigger] items->0[k], "title"@),
                            );
                            let best = json::text_of(
                                json::member(json::member(items->0[k], "price"@), "bestPrice"@),
                            );
                            json::bool_of(json::member(items->0[k], "available"@)) != Some(false)
                                && title is Some && title->0.len() > 0 && best is Some
                                && decimal::decimal_from_text(best->0) is Some && decimal::of_view(
                                decimal::decimal_from_text(best->0)->0,
                            )@.mantissa != 0
                        }) ==> exists|i: int|
                            0 <= i < v.len() && magalu_item_says(items->0[k], #[trigger] v[i], at)
                },
                Err(_) => !found,
            }
        }),
{
    let parsed = json::json_from_text(providers::page_data(page)->0);
    decimal::lemma_dec(0, 0);
    if MagazineLuiza.offers(page, max, at) is Ok {
        let items = magalu_list(parsed->Ok_0)->0;
        let item = |j: json::JsonView| magalu_offer(j, at);
        let first = providers::first_of(items, 50);
        let v = providers::gathered(first, item);
        providers::lemma_gathered_few(first, item);
        assert forall|j: json::JsonView| (#[trigger] item(j)) is Some implies magalu_item_says(
            j,
            item(j)->0,
            at,
        ) by {
            let url = json::text_of(json::member(j, "url"@));
            if url is Some {
                providers::addresses_are_made_whole("https://www.magazineluiza.com.br"@, url->0);
            }
        }
        assert forall|i: int| 0 <= i < v.len() implies exists|k: int|
            0 <= k < items.len() && k < 50 && magalu_item_says(
                #[trigger] items[k],
                #[trigger] v[i],
                at,
            ) by {
            providers::lemma_gathered_from(first, item, i);
            let k = choose|k: int| 0 <= k < first.len() && item(#[trigger] first[k]) == Some(v[i]);
            assert(first[k] == items[k]);
            assert(magalu_item_says(items[k], v[i], at));
        }
        assert forall|k: int|
            0 <= k < items.len() && k < 50 && item(#[trigger] items[k]) is Some implies exists|i: int|
            0 <= i < v.len() && magalu_item_says(items[k], #[trigger] v[i], at) by {
            assert(first[k] == items[k]);
            providers::lemma_gathered_all(first, item, k);
            let i = choose|i: int| 0 <= i < v.len() && #[trigger] v[i] == item(first[k])->0;
            assert(magalu_item_says(items[k], v[i], at));
        }
        assert forall|k: int|
            0 <= k < items.len() && k < 50 && ({
                let title = json::text_of(json::member(#[trigger] items[k], "title"@));
                let best = json::text_of(
                    json::member(json::member(items[k], "price"@), "bestPrice"@),
                );
                json::bool_of(json::member(items[k], "available"@)) != Some(false) && title is Some
                    && title->0.len() > 0 && best is Some && decimal::decimal_from_text(
                    best->0,
                ) is Some && decimal::of_view(decimal::decimal_from_text(best->0)->0)@.mantissa != 0
            }) implies exists|i: int|
            0 <= i < v.len() && magalu_item_says(items[k], #[trigger] v[i], at) by {
            assert(item(items[k]) is Some);
        }
    }
}

/// Whether an offer is what a card on the page says: the first text of its titles that is
/// longer than 15 bytes, the price behind its sign, and where its link leads.
pub open spec fn magalu_card_says(c: html::CardView, p: models::ProductView, at: int) -> bool {
    let shown = pattern::captured("R\\$\\s*([\\d.]+,\\d{2})"@, c.element.text, 1);
    let href = match html::first_part(c, 1) {
        Some(link) => html::attr_of(link, 0),
        None => html::attr_of(c.element, 0),
    };
    &&& p.provider == ProviderId::MagazineLuiza
    &&& text::byte_len(c.element.text) >= 20
    &&& c.parts.len() > 0
    &&& exists|k: int|
        0 <= k < c.parts[0].len() && p.title == text::trimmed((#[trigger] c.parts[0][k]).text) && (
        forall|j: int|
            0 <= j < k ==> text::byte_len(text::trimmed((#[trigger] c.parts[0][j]).text)) <= 15)
    &&& text::byte_len(p.title) > 15
    &&& shown is Some
    &&& decimal::of_opt(
        decimal::decimal_from_text(text::swapped(text::dropped(shown->0, '.'), ',', '.')),
    ) == Some(p.price.listed_price)
    &&& p.price.listed_price@.mantissa != 0
    &&& href is Some
    &&& href->0.len() > 0 && href->0[0] == '/' ==> p.url == "https://www.magazineluiza.com.br"@
        + href->0
    &&& href->0.len() > 0 && href->0[0] != '/' ==> p.url == href->0
    &&& p.fetched_at == at
    &&& p.price.price_brl == p.price.listed_price
    &&& p.price.total_cost == p.price.listed_price
    &&& p.price.currency == Currency::BRL
    &&& p.price.shipping_cost is None
    &&& p.price.tax.taxes_included
    &&& !p.price.tax.remessa_conforme
    &&& p.price.tax.tax_regime == TaxRegime::Domestic
    &&& p.price.tax.total_tax == decimal::dec(0, 0)
    &&& p.domestic
    &&& p.normalized_title is None
    &&& p.keepa.len() == 0
    &&& p.price.tax.import_tax is None
    &&& p.price.tax.icms is None
    &&& p.price.shipping_currency == Currency::BRL
    &&& p.sold_count is None
    &&& p.review_count is None
    &&& p.rating is None
    &&& p.seller is None
    &&& p.price.original_price is None
    &&& p.price.installments is None
    &&& p.condition == models::ProductCondition::New
    &&& p.platform_id.len() == 0
    &&& p.image_url is None
}

/// The title of a card is the first of its texts that is long enough.
proof fn lemma_long_text(v: Seq<html::ElementView>, i: int)
    requires
        0 <= i,
        long_text(v, i).len() > 0,
    ensures
        text::byte_len(long_text(v, i)) > 15,
        exists|k: int|
            i <= k < v.len() && long_text(v, i) == text::trimmed((#[trigger] v[k]).text) && (forall|
                j: int,
            |
                i <= j < k ==> text::byte_len(text::trimmed((#[trigger] v[j]).text)) <= 15),
    decreases v.len() - i,
{
    if i < v.len() && text::byte_len(text::trimmed(v[i].text)) <= 15 {
        lemma_long_text(v, i + 1);
    } else {
        assert(long_text(v, i) == text::trimmed(v[i].text));
    }
}

/// An offer of a card is what it says.
proof fn lemma_magalu_card(c: html::CardView, at: int)
    ensures
        magalu_card_offer(c, magalu_price_text(c), at) is Some ==> magalu_card_says(
            c,
            magalu_card_offer(c, magalu_price_text(c), at)->0,
            at,
        ),
{
    decimal::lemma_dec(0, 0);
    if magalu_card_offer(c, magalu_price_text(c), at) is Some {
        lemma_long_text(title_elements(c), 0);
        let href = match html::first_part(c, 1) {
            Some(link) => html::attr_of(link, 0),
            None => html::attr_of(c.element, 0),
        };
        providers::addresses_are_made_whole("https://www.magazineluiza.com.br"@, href->0);
    }
}

/// Where a page holds no data, its offers are what its first cards say, three times as many
/// as offers are asked for; no two of them are of one address, and where fewer were found
/// than were asked for, no offer of a card is left out but for its address.
pub proof fn magalu_offers_are_what_cards_say(page: Seq<char>, max: nat, at: int)
    requires
        text::after(page, "<script id=\"__NEXT_DATA__\" type=\"application/json\">"@) is None,
    ensures
        MagazineLuiza.offers(page, max, at) is Ok,
        ({
            let cards = html::page_cards(
                page,
                "[data-testid='product-card'], a[href*='/p/'], li[class*='product']"@,
                seq!["h2, [data-testid='product-title'], p"@, "a[href*='/p/']"@],
                seq!["href"@],
            );
            card_offers_hold(
                if cards.len() <= 3 * max {
                    cards
                } else {
                    cards.take((3 * max) as int)
                },
                MagazineLuiza.offers(page, max, at)->Ok_0,
                max,
                at,
            )
        }),
{
    let cards = magalu_cards(page);
    assert(cards == html::page_cards(
        page,
        "[data-testid='product-card'], a[href*='/p/'], li[class*='product']"@,
        seq!["h2, [data-testid='product-title'], p"@, "a[href*='/p/']"@],
        seq!["href"@],
    ));
    lemma_card_offers_hold(providers::first_of(cards, 3 * max), max, at);
}

/// Whether offers are those of cards: at most as many as asked for, each what a card says,
/// and no two of one address.
pub open spec fn card_offers_hold(
    cards: Seq<html::CardView>,
    v: Seq<models::ProductView>,
    max: nat,
    at: int,
) -> bool {
    &&& v.len() <= max
    &&& forall|i: int|
        0 <= i < v.len() ==> exists|k: int|
            0 <= k < cards.len() && magalu_card_says(#[trigger] cards[k], #[trigger] v[i], at)
    &&& forall|i: int, j: int| 0 <= i < j < v.len() ==> (#[trigger] v[i]).url != (#[trigger] v[j]).url
    &&& v.len() < max ==> forall|k: int|
        0 <= k < cards.len() && magalu_card_offer(
            #[trigger] cards[k],
            magalu_price_text(cards[k]),
            at,
        ) is Some ==> exists|i: int|
            0 <= i < v.len() && (#[trigger] v[i]).url == magalu_card_url(cards[k])
}

proof fn lemma_card_offers_hold(cards: Seq<html::CardView>, max: nat, at: int)
    ensures
        card_offers_hold(cards, magalu_card_offers(cards, max, at), max, at),
    decreases cards.len(),
{
    if cards.len() > 0 {
        let t = cards.drop_last();
        let before = magalu_card_offers(t, max, at);
        let v = magalu_card_offers(cards, max, at);
        lemma_card_offers_hold(t, max, at);
        lemma_magalu_card(cards.last(), at);
        assert(forall|k: int| 0 <= k < t.len() ==> #[trigger] t[k] == cards[k]);
        assert forall|i: int| 0 <= i < v.len() implies exists|k: int|
            0 <= k < cards.len() && magalu_card_says(#[trigger] cards[k], #[trigger] v[i], at) by {
            if i < before.len() {
                assert(v[i] == before[i]);
                let k = choose|k: int|
                    0 <= k < t.len() && magalu_card_says(#[trigger] t[k], before[i], at);
                assert(magalu_card_says(cards[k], v[i], at));
            } else {
                assert(magalu_card_says(cards[cards.len() - 1], v[i], at));
            }
        }
        if v.len() < max {
            assert forall|k: int|
                0 <= k < cards.len() && magalu_card_offer(
                    #[trigger] cards[k],
                    magalu_price_text(cards[k]),
                    at,
                ) is Some implies exists|i: int|
                0 <= i < v.len() && (#[trigger] v[i]).url == magalu_card_url(cards[k]) by {
                if k < t.len() {
                    assert(t[k] == cards[k]);
                    let i = choose|i: int|
                        0 <= i < before.len() && (#[trigger] before[i]).url == magalu_card_url(
                            t[k],
                        );
                    assert(v[i] == before[i]);
                } else {
                    let p = magalu_card_offer(
                        cards.last(),
                        magalu_price_text(cards.last()),
                        at,
                    )->0;
                    if at_address(before, p.url) {
                        let i = choose|i: int|
                            0 <= i < before.len() && (#[trigger] before[i]).url == p.url;
                        assert(v[i].url == p.url);
                    } else {
                        assert(v[v.len() - 1] == p);
                    }
                }
            }
        }
    }
}

/// Offers come in the order of their cards: one more card adds its own offer at the end, or
/// nothing.
pub proof fn magalu_offers_keep_the_order(cards: Seq<html::CardView>, max: nat, at: int)
    requires
        cards.len() > 0,
    ensures
        ({
            let before = magalu_card_offers(cards.drop_last(), max, at);
            let v = magalu_card_offers(cards, max, at);
            v == before || before.len() < max && v.len() == before.len() + 1 && v.drop_last()
                == before && magalu_card_says(cards.last(), v.last(), at)
        }),
{
    lemma_magalu_card(cards.last(), at);
    let before = magalu_card_offers(cards.drop_last(), max, at);
    let v = magalu_card_offers(cards, max, at);
    if v.len() > before.len() {
        assert(v.drop_last() =~= before);
    }
}

} // verus!
