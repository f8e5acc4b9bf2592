//! Shopee.

use vstd::prelude::*;

use crate::decimal;
use crate::decimal::Decimal;
use crate::error::{ProviderError, ProviderErrorView};
use crate::json;
use crate::json::Json;
use crate::models;
use crate::models::{Currency, PriceInfo, Product, TaxInfo, TaxRegime};
use crate::pattern;
use crate::pattern::Found;
use crate::providers;
use crate::providers::{Provider, ProviderId};
use crate::text;

verus! {

/// Shopee, and the port at which a browser can be reached.
pub struct Shopee {
    pub cdp_port: Option<u16>,
}

impl Shopee {
    pub fn new(cdp_port: Option<u16>) -> (r: Shopee)
        ensures
            r.cdp_port == cdp_port,
    {
        Shopee { cdp_port }
    }
}

/// A price in reais, which holds the taxes of the Remessa Conforme programme.
pub open spec fn shopee_price(price: Decimal) -> PriceInfo {
    models::listed(price, Currency::BRL, models::untaxed(true, true, TaxRegime::Domestic))
}

fn price_here(price: Decimal) -> (r: PriceInfo)
    ensures
        r == shopee_price(price),
{
    PriceInfo::listed(price, Currency::BRL, TaxInfo::untaxed(true, true, TaxRegime::Domestic))
}

/// The amount that a text such as "R$1.234,56" stands for, and nothing where it
/// stands for none.
pub open spec fn shopee_amount(s: Seq<char>) -> Decimal {
    providers::brl_amount(text::dropped(text::replaced(s, "R$"@, ""@), ' '))
}

/// The amount that a text such as "R$1.234,56" stands for.
pub fn parse_shopee_price(s: &str) -> (r: Decimal)
    ensures
        r == shopee_amount(s@),
{
    let bare = text::replace(s, "R$", "");
    let tight = text::drop_char(bare.as_str(), ' ');
    providers::parse_brl(tight.as_str())
}

// ---- Links on a page ----

/// Whether a text in a link can be its title.
pub open spec fn title_text(s: Seq<char>) -> bool {
    !"R$"@.is_prefix_of(s) && !"-"@.is_prefix_of(s) && !text::has(s, "vendido"@) && text::byte_len(
        s,
    ) > 10
}

/// The longest of some texts that can be a title, the last of them where several
/// are.
pub open spec fn longest_title(v: Seq<Seq<char>>) -> Seq<char>
    decreases v.len(),
{
    if v.len() == 0 {
        Seq::empty()
    } else {
        let before = longest_title(v.drop_last());
        if title_text(v.last()) && text::byte_len(v.last()) >= text::byte_len(before) {
            v.last()
        } else {
            before
        }
    }
}

/// The price in some texts, from the `i`-th on, with the price read so far: that in
/// the text behind "R$", or behind it in the same text; the first one that is more
/// than nothing, or the last one read.
pub open spec fn price_in(v: Seq<Seq<char>>, i: int, so_far: Decimal) -> Decimal
    decreases v.len() - i,
{
    if i < 0 || i >= v.len() {
        so_far
    } else {
        let beside = v[i] == "R$"@ && i + 1 < v.len();
        let first = if beside {
            shopee_amount(v[i + 1])
        } else {
            so_far
        };
        let within = "R$"@.is_prefix_of(v[i]) && text::byte_len(v[i]) > 2;
        let second = if within {
            shopee_amount(v[i].skip(2))
        } else {
            first
        };
        if beside && first@.mantissa > 0 {
            first
        } else if within && second@.mantissa > 0 {
            second
        } else {
            price_in(v, i + 1, second)
        }
    }
}

/// The number of sales that the first of some texts, from the `i`-th on, that
/// speaks of sales gives.
pub open spec fn sold_in(v: Seq<Seq<char>>, i: int) -> Option<u32>
    decreases v.len() - i,
{
    if i < 0 || i >= v.len() {
        None
    } else if text::has(v[i], "vendido"@) {
        let words = text::words(v[i]);
        if words.len() == 0 {
            None
        } else {
            match text::parsed_number(text::dropped(words[0], '.'), u32::MAX as nat) {
                Some(n) => Some(n as u32),
                None => None,
            }
        }
    } else {
        sold_in(v, i + 1)
    }
}

/// The offer that a link with these texts is: none without a title or a price.
pub open spec fn shopee_offer(
    href: Seq<char>,
    number: Seq<char>,
    texts: Seq<Seq<char>>,
    image: Option<Seq<char>>,
    at: int,
) -> Option<models::ProductView> {
    let title = longest_title(texts);
    let price = price_in(texts, 0, decimal::dec(0, 0));
    if title.len() == 0 || price@.mantissa == 0 {
        None
    } else {
        Some(
            models::ProductView {
                image_url: image,
                sold_count: sold_in(texts, 0),
                ..models::offer(
                    ProviderId::Shopee,
                    number,
                    title,
                    "https://shopee.com.br"@ + href,
                    shopee_price(price),
                    at,
                )
            },
        )
    }
}

fn find_title(v: &Vec<String>) -> (r: String)
    ensures
        r@ == longest_title(text::texts(v@)),
{
    let ghost all = text::texts(v@);
    let mut best = String::new();
    let mut i: usize = 0;
    while i < v.len()
        invariant
            i <= v@.len(),
            all == text::texts(v@),
            best@ == longest_title(all.take(i as int)),
        decreases v@.len() - i,
    {
        assert(all.take(i + 1).drop_last() =~= all.take(i as int));
        assert(all[i as int] == v@[i as int]@);
        let t = v[i].as_str();
        if !text::starts_with(t, "R$") && !text::starts_with(t, "-") && !text::contains(
            t,
            "vendido",
        ) && text::text_bytes(t) > 10 && text::text_bytes(t) >= text::text_bytes(best.as_str()) {
            best = v[i].clone();
        }
        i = i + 1;
    }
    assert(all.take(i as int) =~= all);
    best
}

fn find_price(v: &Vec<String>) -> (r: Decimal)
    ensures
        r == price_in(text::texts(v@), 0, decimal::dec(0, 0)),
{
    let ghost all = text::texts(v@);
    let size: usize = v.len();
    let mut price = Decimal::zero();
    let mut i: usize = 0;
    while i < size
        invariant
            i <= size == v@.len(),
            all == text::texts(v@),
            price_in(all, 0, decimal::dec(0, 0)) == price_in(all, i as int, price),
        decreases size - i,
    {
        let t = v[i].as_str();
        assert(all[i as int] == t@);
        if text::same_text(t, "R$") && i + 1 < size {
            assert(all[i + 1] == v@[i + 1]@);
            price = parse_shopee_price(v[i + 1].as_str());
            if price.is_positive() {
                return price;
            }
        }
        if text::starts_with(t, "R$") && text::text_bytes(t) > 2 {
            let chars = text::chars_of(t);
            proof {
                reveal_strlit("R$");
            }
            let rest = text::part(chars.as_slice(), 2, chars.len());
            assert(rest@ =~= t@.skip(2));
            price = parse_shopee_price(rest.as_str());
            if price.is_positive() {
                return price;
            }
        }
        i = i + 1;
    }
    price
}

fn find_sold(v: &Vec<String>) -> (r: Option<u32>)
    ensures
        r == sold_in(text::texts(v@), 0),
{
    let ghost all = text::texts(v@);
    let mut i: usize = 0;
    while i < v.len()
        invariant
            i <= v@.len(),
            all == text::texts(v@),
            sold_in(all, 0) == sold_in(all, i as int),
        decreases v@.len() - i,
    {
        assert(all[i as int] == v@[i as int]@);
        if text::contains(v[i].as_str(), "vendido") {
            let words = text::split_words(v[i].as_str());
            assert(text::texts(words@).len() == words@.len());
            if words.len() == 0 {
                return None;
            }
            assert(text::texts(words@)[0] == words@[0]@);
            let digits = text::drop_char(words[0].as_str(), '.');
            return match text::parse_number(digits.as_str(), u32::MAX as u64) {
                Some(n) => Some(n as u32),
                None => None,
            };
        }
        i = i + 1;
    }
    None
}

/// The offer that a link with these texts is.
pub fn read_shopee_link(
    href: &str,
    number: &str,
    texts: &Vec<String>,
    image: Option<String>,
    at: i128,
) -> (r: Option<Product>)
    ensures
        providers::offer_view(r) == shopee_offer(
            href@,
            number@,
            text::texts(texts@),
            text::text_view(image),
            at as int,
        ),
{
    let title = find_title(texts);
    if title.as_str().is_empty() {
        return None;
    }
    let price = find_price(texts);
    if price.is_zero() {
        return None;
    }
    let sold_count = find_sold(texts);
    let url = text::join2("https://shopee.com.br", href);
    let base = Product::offer(
        ProviderId::Shopee,
        number.to_string(),
        title,
        url,
        price_here(price),
        at,
    );
    Some(Product { image_url: image, sold_count, ..base })
}

/// The texts of a link: what stands between its tags, without white space around
/// it, where that is two bytes or more.
pub open spec fn link_texts(m: Seq<pattern::FoundView>) -> Seq<Seq<char>>
    decreases m.len(),
{
    if m.len() == 0 {
        Seq::empty()
    } else {
        let t = text::trimmed(pattern::group(m.last(), 1));
        if text::byte_len(t) < 2 {
            link_texts(m.drop_last())
        } else {
            link_texts(m.drop_last()).push(t)
        }
    }
}

/// The texts of a link.
pub fn read_texts(m: &Vec<Found>) -> (r: Vec<String>)
    ensures
        text::texts(r@) == link_texts(pattern::found_views(m@)),
{
    let ghost all = pattern::found_views(m@);
    let mut out: Vec<String> = Vec::new();
    let mut i: usize = 0;
    assert(text::texts(out@) =~= Seq::empty());
    while i < m.len()
        invariant
            i <= m@.len(),
            all == pattern::found_views(m@),
            text::texts(out@) == link_texts(all.take(i as int)),
        decreases m@.len() - i,
    {
        assert(all.take(i + 1).drop_last() =~= all.take(i as int));
        assert(all[i as int] == m@[i as int]@);
        let ghost so_far = out@;
        let raw = pattern::group_text(&m[i], 1);
        let t = text::trim(raw.as_str());
        if text::text_bytes(t.as_str()) >= 2 {
            out.push(t);
            assert(text::texts(out@) =~= text::texts(so_far).push(t@));
        }
        i = i + 1;
    }
    assert(all.take(i as int) =~= all);
    out
}

/// The markup of the link around a byte of a page: from the last "<a " before it to
/// the first "</a>" behind it.
pub open spec fn link_markup(page: Seq<char>, start: int) -> Seq<char> {
    let head = text::byte_slice(page, 0, start);
    let tail = text::byte_slice(page, start, text::byte_len(page) as int);
    (match text::last_position(head, "<a "@, head.len() - "<a "@.len()) {
        Some(i) => head.skip(i),
        None => Seq::empty(),
    }) + (match text::position(tail, "</a>"@, 0) {
        Some(j) => tail.take(j + "</a>"@.len()),
        None => Seq::empty(),
    })
}

/// The markup of the link around a byte of a page, where the page can be cut there.
pub fn find_markup(page: &str, start: usize) -> (r: Option<String>)
    ensures
        r is Some <==> text::sliceable(page@, 0, start as int) && text::sliceable(
            page@,
            start as int,
            text::byte_len(page@) as int,
        ),
        r is Some ==> r->0@ == link_markup(page@, start as int),
{
    let size: usize = text::text_bytes(page);
    match (text::slice_bytes(page, 0, start), text::slice_bytes(page, start, size)) {
        (Some(head), Some(tail)) => {
            let h = text::chars_of(head);
            let t = text::chars_of(tail);
            let open = text::chars_of("<a ");
            let close = text::chars_of("</a>");
            let h_size: usize = h.len();
            let t_size: usize = t.len();
            let mut out = match text::rfind(h.as_slice(), open.as_slice()) {
                Some(i) => {
                    assert(h@.subrange(i as int, h@.len() as int) =~= h@.skip(i as int));
                    text::part(h.as_slice(), i, h_size)
                },
                None => String::new(),
            };
            match text::find(t.as_slice(), close.as_slice(), 0) {
                Some(j) => {
                    let more = text::part(t.as_slice(), 0, j + close.len());
                    assert(more@ =~= t@.take(j + close@.len()));
                    out.append(more.as_str());
                },
                None => {},
            }
            assert(out@ =~= link_markup(page@, start as int));
            Some(out)
        },
        _ => None,
    }
}

/// Whether a page can be cut before and behind a byte.
pub open spec fn parted_at(page: Seq<char>, start: int) -> bool {
    text::sliceable(page, 0, start) && text::sliceable(page, start, text::byte_len(page) as int)
}

/// The offer that a link found on a page is.
pub open spec fn link_offer(page: Seq<char>, m: pattern::FoundView, at: int) -> Option<
    models::ProductView,
> {
    let markup = link_markup(page, m.start);
    if parted_at(page, m.start) {
        shopee_offer(
            pattern::group(m, 1),
            pattern::group(m, 3),
            link_texts(pattern::regex_matches(">([^<]+)<"@, markup)),
            pattern::captured("src=\"(https://[^\"]*susercontent[^\"]*)"@, markup, 1),
            at,
        )
    } else {
        None
    }
}

/// Whether the number of the `k`-th link is that of one before it.
pub open spec fn seen_before(m: Seq<pattern::FoundView>, k: int) -> bool {
    exists|j: int|
        0 <= j < k && pattern::group(#[trigger] m[j], 3) == pattern::group(m[k], 3)
}

/// The offers that the first `k` links found on a page are, at most `max` of them
/// and one for each number.
pub open spec fn link_offers(
    page: Seq<char>,
    m: Seq<pattern::FoundView>,
    k: int,
    max: nat,
    at: int,
) -> Seq<models::ProductView>
    decreases k,
{
    if k <= 0 {
        Seq::empty()
    } else {
        let before = link_offers(page, m, k - 1, max, at);
        if before.len() >= max || seen_before(m, k - 1) {
            before
        } else {
            match link_offer(page, m[k - 1], at) {
                Some(p) => before.push(p),
                None => before,
            }
        }
    }
}

fn read_link(page: &str, m: &Found, at: i128) -> (r: Option<Product>)
    ensures
        providers::offer_view(r) == link_offer(page@, m@, at as int),
{
    match find_markup(page, m.start) {
        Some(markup) => {
            let parts = pattern::find_all(">([^<]+)<", markup.as_str());
            let texts = read_texts(&parts);
            let image = pattern::capture(
                "src=\"(https://[^\"]*susercontent[^\"]*)",
                markup.as_str(),
                1,
            );
            let href = pattern::group_text(m, 1);
            let number = pattern::group_text(m, 3);
            read_shopee_link(href.as_str(), number.as_str(), &texts, image, at)
        },
        None => None,
    }
}

fn number_seen(m: &Vec<Found>, k: usize) -> (r: bool)
    requires
        k < m@.len(),
    ensures
        r == seen_before(pattern::found_views(m@), k as int),
{
    let ghost all = pattern::found_views(m@);
    let number = pattern::group_text(&m[k], 3);
    assert(all[k as int] == m@[k as int]@);
    let mut j: usize = 0;
    while j < k
        invariant
            j <= k < m@.len(),
            all == pattern::found_views(m@),
            number@ == pattern::group(all[k as int], 3),
            forall|i: int| 0 <= i < j ==> pattern::group(#[trigger] all[i], 3) != number@,
        decreases k - j,
    {
        assert(all[j as int] == m@[j as int]@);
        let other = pattern::group_text(&m[j], 3);
        if text::same_text(other.as_str(), number.as_str()) {
            return true;
        }
        j = j + 1;
    }
    false
}

/// The offers that links found on a page are, at most `max_results` of them and one
/// for each number.
pub fn read_shopee_links(page: &str, m: &Vec<Found>, max_results: usize, at: i128) -> (r: Vec<
    Product,
>)
    ensures
        models::product_views(r@) == link_offers(
            page@,
            pattern::found_views(m@),
            m@.len() as int,
            max_results as nat,
            at as int,
        ),
{
    let ghost all = pattern::found_views(m@);
    let mut out: Vec<Product> = Vec::new();
    let mut k: usize = 0;
    assert(models::product_views(out@) =~= Seq::empty());
    while k < m.len()
        invariant
            k <= m@.len(),
            all == pattern::found_views(m@),
            models::product_views(out@) == link_offers(
                page@,
                all,
                k as int,
                max_results as nat,
                at as int,
            ),
        decreases m@.len() - k,
    {
        assert(all[k as int] == m@[k as int]@);
        assert(models::product_views(out@).len() == out@.len());
        let ghost so_far = out@;
        if out.len() < max_results && !number_seen(m, k) {
            match read_link(page, &m[k], at) {
                Some(p) => {
                    out.push(p);
                    proof {
                        providers::lemma_product_push(so_far, p);
                    }
                },
                None => {},
            }
        }
        k = k + 1;
    }
    out
}

/// The offers that the links on a page are.
pub open spec fn shopee_page_offers(page: Seq<char>, max: nat, at: int) -> Seq<
    models::ProductView,
> {
    let m = pattern::regex_matches("href=\"(/[^\"]*-i\\.(\\d+)\\.(\\d+)[^\"]*)"@, page);
    link_offers(page, m, m.len() as int, max, at)
}

/// The offers that the links on a page are.
pub fn parse_shopee_html(page: &str, max_results: usize, at: i128) -> (r: Vec<Product>)
    ensures
        models::product_views(r@) == shopee_page_offers(page@, max_results as nat, at as int),
{
    let m = pattern::find_all("href=\"(/[^\"]*-i\\.(\\d+)\\.(\\d+)[^\"]*)", page);
    assert(pattern::found_views(m@).len() == m@.len());
    read_shopee_links(page, &m, max_results, at)
}

// ---- Items in the data of a page ----

/// A whole number in an item, or in the basic part of it.
pub open spec fn item_number(item: json::JsonView, key: Seq<char>) -> int {
    match json::signed_of(json::member(item, key)) {
        Some(n) => n as int,
        None => match json::signed_of(providers::member2(item, "item_basic"@, key)) {
            Some(n) => n as int,
            None => 0,
        },
    }
}

fn get_number(item: &Json, key: &str) -> (r: i64)
    ensures
        r == item_number(item@, key@),
{
    match json::as_signed(json::get(Some(item), key)) {
        Some(n) => n,
        None => match json::as_signed(providers::get2(Some(item), "item_basic", key)) {
            Some(n) => n,
            None => 0,
        },
    }
}

/// The offer that an item is: none without a name or a price, which is given in
/// hundred-thousandths.
pub open spec fn item_offer(item: json::JsonView, at: int) -> Option<models::ProductView> {
    let name = text::or_empty(
        json::either(
            json::text_of(json::member(item, "name"@)),
            json::text_of(providers::member2(item, "item_basic"@, "name"@)),
        ),
    );
    let price = providers::or_nothing(
        decimal::quotient(
            decimal::dec(item_number(item, "price"@), 0),
            decimal::dec(100_000, 0),
        ),
    );
    let number = text::integer_text(item_number(item, "itemid"@));
    let shop = text::integer_text(item_number(item, "shopid"@));
    if name.len() == 0 || price@.mantissa == 0 {
        None
    } else {
        Some(
            models::offer(
                ProviderId::Shopee,
                number,
                name,
                "https://shopee.com.br/product/"@ + shop + "/"@ + number,
                shopee_price(price),
                at,
            ),
        )
    }
}

/// The offer that an item is.
pub fn read_shopee_item(item: &Json, at: i128) -> (r: Option<Product>)
    ensures
        providers::offer_view(r) == item_offer(item@, at as int),
{
    let j = Some(item);
    let name = text::else_empty(
        json::first_text(
            json::as_text(json::get(j, "name")),
            json::as_text(providers::get2(j, "item_basic", "name")),
        ),
    );
    if name.as_str().is_empty() {
        return None;
    }
    let raw: i64 = get_number(item, "price");
    let price = providers::else_nothing(
        Decimal::new(raw, 0).checked_div(&Decimal::new(100_000, 0)),
    );
    if price.is_zero() {
        return None;
    }
    let number = text::show_integer(get_number(item, "itemid"));
    let shop = text::show_integer(get_number(item, "shopid"));
    let mut url = text::join3("https://shopee.com.br/product/", shop.as_str(), "/");
    url.append(number.as_str());
    Some(Product::offer(ProviderId::Shopee, number, name, url, price_here(price), at))
}

/// The offers that the first 50 items are.
pub open spec fn item_offers(items: Seq<json::JsonView>, at: int) -> Seq<models::ProductView> {
    providers::gathered(providers::first_of(items, 50), |j: json::JsonView| item_offer(j, at))
}

/// The offers that the first 50 items are.
pub fn read_shopee_items(items: &Vec<Json>, at: i128) -> (r: Vec<Product>)
    ensures
        models::product_views(r@) == item_offers(json::json_views(items@), at as int),
{
    let ghost all = providers::first_of(json::json_views(items@), 50);
    let ghost item = |j: json::JsonView| item_offer(j, at as int);
    let limit: usize = if items.len() <= 50 {
        items.len()
    } else {
        50
    };
    let mut out: Vec<Product> = Vec::new();
    let mut i: usize = 0;
    assert(models::product_views(out@) =~= Seq::empty());
    while i < limit
        invariant
            i <= limit <= items@.len(),
            all.len() == limit,
            forall|k: int| 0 <= k < limit ==> #[trigger] all[k] == items@[k]@,
            item == (|j: json::JsonView| item_offer(j, at as int)),
            models::product_views(out@) == providers::gathered(all.take(i as int), item),
        decreases limit - i,
    {
        assert(all.take(i + 1).drop_last() =~= all.take(i as int));
        assert(all[i as int] == items@[i as int]@);
        let ghost so_far = out@;
        match read_shopee_item(&items[i], at) {
            Some(p) => {
                out.push(p);
                proof {
                    providers::lemma_product_push(so_far, p);
                }
            },
            None => {},
        }
        i = i + 1;
    }
    assert(all.take(i as int) =~= all);
    out
}

/// The list of items that a value holds itself.
pub open spec fn own_items(j: json::JsonView) -> Seq<json::JsonView> {
    match json::list_of(json::member(j, "items"@)) {
        Some(v) => v,
        None => Seq::empty(),
    }
}

/// The first list of items that is not empty in a value: its own, or that of the
/// first of its members that has one.
pub open spec fn items_in(j: json::JsonView) -> Option<Seq<json::JsonView>>
    decreases j, 0int,
{
    if own_items(j).len() > 0 {
        Some(own_items(j))
    } else {
        match j {
            json::JsonView::Object(f) => items_in_fields(f, 0),
            _ => None,
        }
    }
}

/// The first list of items in some members, from the `i`-th on.
pub open spec fn items_in_fields(f: Seq<json::FieldView>, i: int) -> Option<Seq<json::JsonView>>
    decreases f, f.len() - i,
{
    if i < 0 || i >= f.len() {
        None
    } else if items_in(f[i].value) is Some {
        items_in(f[i].value)
    } else {
        items_in_fields(f, i + 1)
    }
}

/// The first list of items that is not empty in a value.
pub fn find_items_array(j: &Json) -> (r: Option<&Vec<Json>>)
    ensures
        match r {
            Some(v) => items_in(j@) == Some(json::json_views(v@)),
            None => items_in(j@) is None,
        },
    decreases j,
{
    match json::as_list(json::get(Some(j), "items")) {
        Some(v) => {
            assert(json::json_views(v@).len() == v@.len());
            if v.len() > 0 {
                return Some(v);
            }
        },
        None => {},
    }
    assert(own_items(j@).len() == 0);
    match j {
        Json::Object(v) => {
            let ghost f = json::fields_of(j@)->0;
            assert(f =~= json::field_views(v@));
            let mut i: usize = 0;
            while i < v.len()
                invariant
                    i <= v@.len(),
                    *j == Json::Object(*v),
                    f == json::field_views(v@),
                    items_in(j@) == items_in_fields(f, i as int),
                decreases v@.len() - i,
            {
                assert(f[i as int].value == v@[i as int].value@);
                match find_items_array(&v[i].value) {
                    Some(found) => {
                        return Some(found);
                    },
                    None => {},
                }
                i = i + 1;
            }
            None
        },
        _ => None,
    }
}

/// The offers in the data assigned behind a marker: none where there is no data, no
/// list of items in it or no offer in the list.
pub open spec fn data_offers(object: Option<Result<json::JsonView, Seq<char>>>, at: int) -> Option<
    Seq<models::ProductView>,
> {
    match object {
        Some(Ok(data)) => match items_in(data) {
            Some(items) => if item_offers(items, at).len() > 0 {
                Some(item_offers(items, at))
            } else {
                None
            },
            None => None,
        },
        _ => None,
    }
}

/// The offers in some data.
pub fn read_shopee_data(parsed: Result<Json, String>, at: i128) -> (r: Option<Vec<Product>>)
    ensures
        match r {
            Some(v) => data_offers(Some(json::parse_view(parsed)), at as int) == Some(
                models::product_views(v@),
            ),
            None => data_offers(Some(json::parse_view(parsed)), at as int) is None,
        },
{
    match parsed {
        Ok(data) => match find_items_array(&data) {
            Some(items) => {
                let found = read_shopee_items(items, at);
                assert(models::product_views(found@).len() == found@.len());
                if found.len() > 0 {
                    Some(found)
                } else {
                    None
                }
            },
            None => None,
        },
        Err(_) => None,
    }
}

/// The data assigned behind a marker on a page.
pub open spec fn marked_data(page: Seq<char>, marker: Seq<char>) -> Option<
    Result<json::JsonView, Seq<char>>,
> {
    match providers::assigned_object(page, marker) {
        Some(object) => Some(json::json_from_text(object)),
        None => None,
    }
}

/// The offers in the data of a page: those behind the first marker, or else those
/// behind the second, unless nothing is assigned behind the first where it stands.
pub open spec fn shopee_data_offers(page: Seq<char>, at: int) -> Option<Seq<models::ProductView>> {
    let first = data_offers(marked_data(page, "window.__INITIAL_STATE__"@), at);
    if first is Some {
        first
    } else if text::has(page, "window.__INITIAL_STATE__"@) && providers::assigned(
        page,
        "window.__INITIAL_STATE__"@,
    ) is None {
        None
    } else {
        data_offers(marked_data(page, "window.__data__"@), at)
    }
}

/// The offers in the data of a page.
pub fn try_extract_shopee_json(page: &str, at: i128) -> (r: Option<Vec<Product>>)
    ensures
        match r {
            Some(v) => shopee_data_offers(page@, at as int) == Some(models::product_views(v@)),
            None => shopee_data_offers(page@, at as int) is None,
        },
{
    let first = providers::find_object(page, "window.__INITIAL_STATE__");
    match first.object {
        Some(object) => match read_shopee_data(json::parse_text(object.as_str()), at) {
            Some(v) => {
                return Some(v);
            },
            None => {},
        },
        None => {},
    }
    if first.marked && !first.assigned {
        return None;
    }
    let second = providers::find_object(page, "window.__data__");
    match second.object {
        Some(object) => read_shopee_data(json::parse_text(object.as_str()), at),
        None => None,
    }
}

/// The offers on a page: those of its links, or those in its data where there are no
/// others.
pub open spec fn shopee_offers(page: Seq<char>, max: nat, at: int) -> Seq<models::ProductView> {
    let links = shopee_page_offers(page, max, at);
    if links.len() == 0 && shopee_data_offers(page, at) is Some {
        shopee_data_offers(page, at)->0
    } else {
        links
    }
}

impl Provider for Shopee {
    open spec fn identity(&self) -> ProviderId {
        ProviderId::Shopee
    }

    open spec fn offers(&self, page: Seq<char>, max_results: nat, at: int) -> Result<
        Seq<models::ProductView>,
        ProviderErrorView,
    > {
        Ok(shopee_offers(page, max_results, at))
    }

    fn name(&self) -> (r: &'static str) {
        "Shopee"
    }

    fn id(&self) -> (r: ProviderId) {
        ProviderId::Shopee
    }

    fn is_available(&self) -> (r: bool) {
        true
    }

    fn parse_html(&self, html: &str, max_results: usize, at: i128) -> (r: Result<
        Vec<Product>,
        ProviderError,
    >) {
        let links = parse_shopee_html(html, max_results, at);
        assert(models::product_views(links@).len() == links@.len());
        if links.len() == 0 {
            match try_extract_shopee_json(html, at) {
                Some(v) => {
                    return Ok(v);
                },
                None => {},
            }
        }
        Ok(links)
    }
}

/// The title among the texts of a link is none of a price, a discount or a number sold, has
/// more than 10 bytes, and no other such text is longer.
pub proof fn titles_are_the_longest(v: Seq<Seq<char>>, i: int)
    requires
        0 <= i < v.len(),
        v[i].len() > 0,
        !"R$"@.is_prefix_of(v[i]),
        !"-"@.is_prefix_of(v[i]),
        !text::has(v[i], "vendido"@),
        text::byte_len(v[i]) > 10,
    ensures
        v.contains(longest_title(v)),
        text::byte_len(longest_title(v)) >= text::byte_len(v[i]),
    decreases v.len(),
{
    let t = v.drop_last();
    if i < t.len() {
        assert(t[i] == v[i]);
        titles_are_the_longest(t, i);
        let k = choose|k: int| 0 <= k < t.len() && t[k] == longest_title(t);
        assert(v[k] == longest_title(t));
    } else {
        lemma_longest_title(t);
    }
    assert(v[v.len() - 1] == v.last());
}

/// What is taken for a title is one of the texts, or nothing.
proof fn lemma_longest_title(v: Seq<Seq<char>>)
    ensures
        longest_title(v).len() == 0 || v.contains(longest_title(v)),
        longest_title(v).len() > 0 ==> !"R$"@.is_prefix_of(longest_title(v))
            && !"-"@.is_prefix_of(longest_title(v)) && !text::has(longest_title(v), "vendido"@)
            && text::byte_len(longest_title(v)) > 10,
    decreases v.len(),
{
    if v.len() > 0 {
        let t = v.drop_last();
        lemma_longest_title(t);
        if longest_title(t).len() > 0 {
            let k = choose|k: int| 0 <= k < t.len() && t[k] == longest_title(t);
            assert(v[k] == longest_title(t));
        }
        assert(v[v.len() - 1] == v.last());
    }
}

/// No text that could be a title gives no title.
pub proof fn titles_are_no_prices(v: Seq<Seq<char>>)
    ensures
        longest_title(v).len() > 0 ==> {
            &&& v.contains(longest_title(v))
            &&& !"R$"@.is_prefix_of(longest_title(v))
            &&& !"-"@.is_prefix_of(longest_title(v))
            &&& !text::has(longest_title(v), "vendido"@)
            &&& text::byte_len(longest_title(v)) > 10
        },
{
    lemma_longest_title(v);
}

/// What a text of reais stands for: signs, spaces and points taken out, and a point for the
/// comma.
pub open spec fn reais_in(s: Seq<char>) -> Option<Decimal> {
    decimal::of_opt(
        decimal::decimal_from_text(
            text::trimmed(
                text::swapped(
                    text::dropped(text::dropped(text::replaced(s, "R$"@, ""@), ' '), '.'),
                    ',',
                    '.',
                ),
            ),
        ),
    )
}

/// Whether an amount is what the text at a place gives: the text behind a sign of its own, or
/// what stands behind the sign in the same text.
pub open spec fn priced_at(v: Seq<Seq<char>>, i: int, price: Decimal) -> bool {
    ||| v[i] == "R$"@ && i + 1 < v.len() && reais_in(v[i + 1]) == Some(price)
    ||| "R$"@.is_prefix_of(v[i]) && text::byte_len(v[i]) > 2 && reais_in(v[i].skip(2)) == Some(
        price,
    )
}

/// A price that is more than nothing is what one of the texts gives, and no text before it
/// gives such a price.
pub proof fn prices_are_the_first(v: Seq<Seq<char>>)
    requires
        price_in(v, 0, decimal::dec(0, 0))@.mantissa > 0,
    ensures
        exists|i: int|
            #![trigger v[i]]
            0 <= i < v.len() && priced_at(v, i, price_in(v, 0, decimal::dec(0, 0))) && forall|
                j: int,
                d: Decimal,
            |
                0 <= j < i && #[trigger] priced_at(v, j, d) ==> d@.mantissa <= 0,
{
    decimal::lemma_dec(0, 0);
    lemma_price_in(v, 0, decimal::dec(0, 0));
}

proof fn lemma_price_in(v: Seq<Seq<char>>, i: int, so_far: Decimal)
    requires
        0 <= i,
        so_far@.mantissa <= 0,
        price_in(v, i, so_far)@.mantissa > 0,
    ensures
        exists|k: int|
            #![trigger v[k]]
            i <= k < v.len() && priced_at(v, k, price_in(v, i, so_far)) && forall|
                j: int,
                d: Decimal,
            |
                i <= j < k && #[trigger] priced_at(v, j, d) ==> d@.mantissa <= 0,
    decreases v.len() - i,
{
    reveal_strlit("R$");
    decimal::lemma_dec(0, 0);
    if i < v.len() {
        let beside = v[i] == "R$"@ && i + 1 < v.len();
        let first = if beside {
            shopee_amount(v[i + 1])
        } else {
            so_far
        };
        let within = "R$"@.is_prefix_of(v[i]) && text::byte_len(v[i]) > 2;
        let second = if within {
            shopee_amount(v[i].skip(2))
        } else {
            first
        };
        if beside && first@.mantissa > 0 {
            assert(priced_at(v, i, first));
        } else if within && second@.mantissa > 0 {
            assert(priced_at(v, i, second));
        } else {
            lemma_price_in(v, i + 1, second);
            assert forall|d: Decimal| #[trigger] priced_at(v, i, d) implies d@.mantissa <= 0 by {
            }
            let k = choose|k: int|
                #![trigger v[k]]
                i + 1 <= k < v.len() && priced_at(v, k, price_in(v, i, so_far)) && forall|
                    j: int,
                    d: Decimal,
                |
                    i + 1 <= j < k && #[trigger] priced_at(v, j, d) ==> d@.mantissa <= 0;
            assert forall|j: int, d: Decimal|
                i <= j < k && #[trigger] priced_at(v, j, d) implies d@.mantissa <= 0 by {
                if j > i {
                    assert(i + 1 <= j < k && priced_at(v, j, d));
                }
            }
        }
    }
}

/// Whether an offer is held as those of Shopee are: in reais from within Brazil, in the
/// Remessa Conforme programme, with its taxes held.
pub open spec fn of_shopee(p: models::ProductView, at: int) -> bool {
    &&& p.provider == ProviderId::Shopee
    &&& p.price.listed_price@.mantissa != 0
    &&& p.price.price_brl == p.price.listed_price
    &&& p.price.total_cost == p.price.listed_price
    &&& p.price.currency == Currency::BRL
    &&& p.price.shipping_cost is None
    &&& p.price.tax.taxes_included
    &&& p.price.tax.remessa_conforme
    &&& p.price.tax.tax_regime == TaxRegime::Domestic
    &&& p.price.tax.total_tax == decimal::dec(0, 0)
    &&& p.domestic
    &&& p.condition == models::ProductCondition::New
    &&& p.fetched_at == at
    &&& p.normalized_title is None
    &&& p.keepa.len() == 0
    &&& p.price.tax.import_tax is None
    &&& p.price.tax.icms is None
    &&& p.price.shipping_currency == Currency::BRL
    &&& p.review_count is None
    &&& p.rating is None
    &&& p.seller is None
    &&& p.price.original_price is None
    &&& p.price.installments is None
}

/// Whether an offer is what a link of a page says.
pub open spec fn shopee_link_says(
    page: Seq<char>,
    m: pattern::FoundView,
    p: models::ProductView,
    at: int,
) -> bool {
    let markup = link_markup(page, m.start);
    let texts = link_texts(pattern::regex_matches(">([^<]+)<"@, markup));
    &&& of_shopee(p, at)
    &&& p.platform_id == pattern::group(m, 3)
    &&& p.url == "https://shopee.com.br"@ + pattern::group(m, 1)
    &&& p.title.len() > 0
    &&& p.title == longest_title(texts)
    &&& p.price.listed_price == price_in(texts, 0, decimal::dec(0, 0))
    &&& p.image_url == pattern::captured("src=\"(https://[^\"]*susercontent[^\"]*)"@, markup, 1)
    &&& p.sold_count is Some ==> exists|i: int|
        0 <= i < texts.len() && text::has(#[trigger] texts[i], "vendido"@) && text::words(
            texts[i],
        ).len() > 0 && text::parsed_number(
            text::dropped(text::words(texts[i])[0], '.'),
            4_294_967_295,
        ) == Some(p.sold_count->0 as nat)
}

proof fn lemma_sold_in(v: Seq<Seq<char>>, i: int)
    requires
        0 <= i,
        sold_in(v, i) is Some,
    ensures
        exists|k: int|
            i <= k < v.len() && text::has(#[trigger] v[k], "vendido"@) && text::words(v[k]).len() > 0
                && text::parsed_number(
                text::dropped(text::words(v[k])[0], '.'),
                4_294_967_295,
            ) == Some(sold_in(v, i)->0 as nat),
    decreases v.len() - i,
{
    if text::has(v[i], "vendido"@) {
        let w = text::words(v[i])[0];
        lemma_parsed_small(text::dropped(w, '.'), u32::MAX as nat);
        assert(text::parsed_number(text::dropped(w, '.'), 4_294_967_295) is Some);
    } else {
        lemma_sold_in(v, i + 1);
    }
}

/// A number that is read is no more than what was allowed.
proof fn lemma_parsed_small(s: Seq<char>, most: nat)
    ensures
        text::parsed_number(s, most) is Some ==> text::parsed_number(s, most)->0 <= most,
{
}

/// The offers of the links of a page are at most as many as asked for, each what a link says,
/// and no two are of one number.
pub proof fn shopee_offers_are_what_links_say(page: Seq<char>, max: nat, at: int)
    ensures
        ({
            let m = pattern::regex_matches("href=\"(/[^\"]*-i\\.(\\d+)\\.(\\d+)[^\"]*)"@, page);
            let v = shopee_page_offers(page, max, at);
            &&& v.len() <= max
            &&& v.len() > 0 ==> shopee_offers(page, max, at) == v
            &&& forall|i: int|
                0 <= i < v.len() ==> exists|k: int|
                    0 <= k < m.len() && shopee_link_says(page, #[trigger] m[k], #[trigger] v[i], at)
            &&& forall|i: int, j: int|
                0 <= i < j < v.len() ==> (#[trigger] v[i]).platform_id != (
                #[trigger] v[j]).platform_id
        }),
{
    let m = pattern::regex_matches("href=\"(/[^\"]*-i\\.(\\d+)\\.(\\d+)[^\"]*)"@, page);
    lemma_link_offers(page, m, m.len() as int, max, at);
    let v = shopee_page_offers(page, max, at);
    assert forall|i: int, j: int| 0 <= i < j < v.len() implies (#[trigger] v[i]).platform_id != (
    #[trigger] v[j]).platform_id by {
    }
    assert forall|i: int| 0 <= i < v.len() implies exists|k: int|
        0 <= k < m.len() && shopee_link_says(page, #[trigger] m[k], #[trigger] v[i], at) by {
    }
}

proof fn lemma_link_offers(
    page: Seq<char>,
    m: Seq<pattern::FoundView>,
    k: int,
    max: nat,
    at: int,
)
    requires
        k <= m.len(),
    ensures
        link_offers(page, m, k, max, at).len() <= max,
        forall|i: int|
            0 <= i < link_offers(page, m, k, max, at).len() ==> exists|n: int|
                0 <= n < k && shopee_link_says(
                    page,
                    #[trigger] m[n],
                    #[trigger] link_offers(page, m, k, max, at)[i],
                    at,
                ),
        forall|i: int, j: int|
            0 <= i < j < link_offers(page, m, k, max, at).len() ==> (#[trigger] link_offers(
                page,
                m,
                k,
                max,
                at,
            )[i]).platform_id != (#[trigger] link_offers(page, m, k, max, at)[j]).platform_id,
    decreases k,
{
    if k > 0 {
        let before = link_offers(page, m, k - 1, max, at);
        let v = link_offers(page, m, k, max, at);
        lemma_link_offers(page, m, k - 1, max, at);
        decimal::lemma_dec(0, 0);
        if v.len() > before.len() {
            let markup = link_markup(page, m[k - 1].start);
            let texts = link_texts(pattern::regex_matches(">([^<]+)<"@, markup));
            if sold_in(texts, 0) is Some {
                lemma_sold_in(texts, 0);
            }
            assert(shopee_link_says(page, m[k - 1], v.last(), at));
        }
        assert forall|i: int| 0 <= i < v.len() implies exists|n: int|
            0 <= n < k && shopee_link_says(page, #[trigger] m[n], #[trigger] v[i], at) by {
            if i < before.len() {
                assert(v[i] == before[i]);
                let n = choose|n: int|
                    0 <= n < k - 1 && shopee_link_says(page, #[trigger] m[n], before[i], at);
                assert(shopee_link_says(page, m[n], v[i], at));
            } else {
                assert(shopee_link_says(page, m[k - 1], v[i], at));
            }
        }
        assert forall|i: int, j: int| 0 <= i < j < v.len() implies (#[trigger] v[i]).platform_id
            != (#[trigger] v[j]).platform_id by {
            assert(v[i] == before[i]);
            if j < before.len() {
                assert(v[j] == before[j]);
            } else {
                let n = choose|n: int|
                    0 <= n < k - 1 && shopee_link_says(page, #[trigger] m[n], before[i], at);
                assert(pattern::group(m[n], 3) == before[i].platform_id);
            }
        }
    }
}

/// Whether an offer is what an item of the data says: its price is held in hundred
/// thousandths of a real, and its fields stand in the item or in what is basic of it.
pub open spec fn shopee_item_says(item: json::JsonView, p: models::ProductView, at: int) -> bool {
    let basic = json::member(item, "item_basic"@);
    let name = json::text_of(json::member(item, "name"@));
    let cost = json::signed_of(json::member(item, "price"@));
    let number = json::signed_of(json::member(item, "itemid"@));
    let shop = json::signed_of(json::member(item, "shopid"@));
    &&& of_shopee(p, at)
    &&& p.title.len() > 0
    &&& name is Some ==> p.title == name->0
    &&& name is None ==> json::text_of(json::member(basic, "name"@)) == Some(p.title)
    &&& cost is Some ==> decimal::quotient(
        decimal::dec(cost->0 as int, 0),
        decimal::dec(100_000, 0),
    ) == Some(p.price.listed_price)
    &&& cost is None && json::signed_of(json::member(basic, "price"@)) is Some ==> decimal::quotient(
        decimal::dec(json::signed_of(json::member(basic, "price"@))->0 as int, 0),
        decimal::dec(100_000, 0),
    ) == Some(p.price.listed_price)
    &&& number is Some ==> p.platform_id == text::integer_text(number->0 as int)
    &&& number is Some && shop is Some ==> p.url == "https://shopee.com.br/product/"@
        + text::integer_text(shop->0 as int) + "/"@ + text::integer_text(number->0 as int)
    &&& p.sold_count is None
    &&& p.image_url is None
}

/// The offers of a list of items are what the first fifty say.
pub proof fn shopee_offers_are_what_items_say(items: Seq<json::JsonView>, at: int)
    ensures
        item_offers(items, at).len() <= 50,
        forall|i: int|
            0 <= i < item_offers(items, at).len() ==> exists|k: int|
                0 <= k < items.len() && k < 50 && shopee_item_says(
                    #[trigger] items[k],
                    #[trigger] item_offers(items, at)[i],
                    at,
                ),
{
    let item = |j: json::JsonView| item_offer(j, at);
    let first = providers::first_of(items, 50);
    let v = item_offers(items, at);
    decimal::lemma_dec(0, 0);
    providers::lemma_gathered_few(first, item);
    assert forall|i: int| 0 <= i < v.len() implies exists|k: int|
        0 <= k < items.len() && k < 50 && shopee_item_says(#[trigger] items[k], #[trigger] v[i], at) by {
        providers::lemma_gathered_from(first, item, i);
        let k = choose|k: int| 0 <= k < first.len() && item(#[trigger] first[k]) == Some(v[i]);
        assert(first[k] == items[k]);
        assert(shopee_item_says(items[k], v[i], at));
    }
}

/// Where no link of a page is an offer, its offers are those of the items in its data, which
/// stands behind one of two names.
pub proof fn data_is_read_without_links(page: Seq<char>, max: nat, at: int)
    requires
        shopee_page_offers(page, max, at).len() == 0,
        shopee_offers(page, max, at).len() > 0,
    ensures
        data_gives(page, "window.__INITIAL_STATE__"@, shopee_offers(page, max, at), at)
            || data_gives(page, "window.__data__"@, shopee_offers(page, max, at), at),
{
    let v = shopee_offers(page, max, at);
    let first = data_offers(marked_data(page, "window.__INITIAL_STATE__"@), at);
    if first is Some {
        assert(data_gives(page, "window.__INITIAL_STATE__"@, v, at));
    } else {
        assert(data_gives(page, "window.__data__"@, v, at));
    }
}

/// Whether offers are those of the items in the data behind a name on a page.
pub open spec fn data_gives(
    page: Seq<char>,
    name: Seq<char>,
    v: Seq<models::ProductView>,
    at: int,
) -> bool {
    let object = providers::assigned_object(page, name);
    let data = json::json_from_text(object->0);
    &&& object is Some
    &&& data is Ok
    &&& items_in(data->Ok_0) is Some
    &&& items_in(data->Ok_0)->0.len() > 0
    &&& v == item_offers(items_in(data->Ok_0)->0, at)
}

/// Items are the list of that name in a value, where it is not empty, before any deeper ones;
/// what is no object holds none.
pub proof fn own_items_come_first(j: json::JsonView)
    ensures
        ({
            let own = json::list_of(json::member(j, "items"@));
            &&& own is Some && own->0.len() > 0 ==> items_in(j) == own
            &&& (own is None || own->0.len() == 0) && !(j is Object) ==> items_in(j) is None
            &&& items_in(j) is Some ==> items_in(j)->0.len() > 0
        }),
    decreases j, 0int,
{
    if own_items(j).len() == 0 {
        match j {
            json::JsonView::Object(f) => lemma_items_in_fields(f, 0),
            _ => {},
        }
    }
}

proof fn lemma_items_in_fields(f: Seq<json::FieldView>, i: int)
    ensures
        items_in_fields(f, i) is Some ==> items_in_fields(f, i)->0.len() > 0,
    decreases f, f.len() - i,
{
    if 0 <= i < f.len() {
        own_items_come_first(f[i].value);
        lemma_items_in_fields(f, i + 1);
    }
}

} // verus!
