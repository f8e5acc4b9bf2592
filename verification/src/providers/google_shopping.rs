//! Google Shopping.

use vstd::prelude::*;

use crate::decimal;
use crate::decimal::Decimal;
use crate::error::{ProviderError, ProviderErrorView};
use crate::html;
use crate::html::Nested;
use crate::models;
use crate::models::{Currency, Product, SellerInfo, TaxRegime};
use crate::pattern;
use crate::pattern::Found;
use crate::providers;
use crate::providers::{Provider, ProviderId};
use crate::text;

verus! {

/// Google Shopping.
pub struct GoogleShopping;

impl GoogleShopping {
    pub fn new() -> (r: GoogleShopping)
        ensures
            r == GoogleShopping,
    {
        GoogleShopping
    }
}

impl Default for GoogleShopping {
    fn default() -> (r: GoogleShopping)
        ensures
            r == GoogleShopping,
    {
        GoogleShopping
    }
}

// ---- Headings on a page ----

/// Whether a heading can be the title of a product.
pub open spec fn valid_title(s: Seq<char>) -> bool {
    text::byte_len(s) >= 15 && !text::has(s, "patrocinado"@) && !text::has(s, "Sobre esse"@)
        && !text::has(s, "Avaliações"@) && !text::has(s, "Mais opções"@) && !text::has(
        s,
        "avaliações"@,
    )
}

/// Whether a heading can be the title of a product.
pub fn is_valid_gs_title(s: &str) -> (r: bool)
    ensures
        r == valid_title(s@),
{
    text::text_bytes(s) >= 15 && !text::contains(s, "patrocinado") && !text::contains(
        s,
        "Sobre esse",
    ) && !text::contains(s, "Avaliações") && !text::contains(s, "Mais opções")
        && !text::contains(s, "avaliações")
}

/// The card around a heading: the nearest division that speaks of a price, or the
/// outermost element.
pub open spec fn card_around(
    around: Seq<Option<html::OuterView>>,
    i: int,
    so_far: Option<html::OuterView>,
) -> Option<html::OuterView>
    decreases around.len() - i,
{
    if i < 0 || i >= around.len() {
        so_far
    } else {
        match around[i] {
            Some(e) => if text::has(e.text, "R$"@) && e.name == "div"@ {
                Some(e)
            } else {
                card_around(around, i + 1, Some(e))
            },
            None => card_around(around, i + 1, so_far),
        }
    }
}

/// The text and the markup of the card around a heading.
pub fn walk_up_to_card(h: &Nested) -> (r: (String, String))
    ensures
        match card_around(h@.around, 0, None) {
            Some(e) => r.0@ == e.text && r.1@ == e.markup,
            None => r.0@ == Seq::<char>::empty() && r.1@ == Seq::<char>::empty(),
        },
{
    let ghost all = h@.around;
    let mut card_text = String::new();
    let mut card_markup = String::new();
    let ghost mut seen: Option<html::OuterView> = None;
    let mut i: usize = 0;
    while i < h.around.len()
        invariant
            i <= h.around@.len(),
            all == h@.around,
            card_around(all, 0, None) == card_around(all, i as int, seen),
            match seen {
                Some(e) => card_text@ == e.text && card_markup@ == e.markup,
                None => card_text@ == Seq::<char>::empty() && card_markup@ == Seq::<
                    char,
                >::empty(),
            },
        decreases h.around@.len() - i,
    {
        assert(all[i as int] == html::outer_view(h.around@[i as int]));
        match &h.around[i] {
            Some(e) => {
                card_text = e.text.clone();
                card_markup = e.markup.clone();
                if text::contains(e.text.as_str(), "R$") && text::same_text(
                    e.name.as_str(),
                    "div",
                ) {
                    return (card_text, card_markup);
                }
                proof {
                    seen = Some(e@);
                }
            },
            None => {},
        }
        i = i + 1;
    }
    (card_text, card_markup)
}

/// Whether an address is one of a store.
pub open spec fn store_address(s: Seq<char>) -> bool {
    text::has(s, "mercadolivre"@) || text::has(s, "amazon"@) || text::has(s, "magazineluiza"@)
        || text::has(s, "kabum"@) || text::has(s, "shopee"@) || text::has(s, "aliexpress"@)
        || text::has(s, "/shopping/product/"@) || ("http"@.is_prefix_of(s) && !text::has(
        s,
        "google.com"@,
    ))
}

/// The first of some addresses, from the `i`-th on, that is one of a store.
pub open spec fn store_url(v: Seq<Option<Seq<char>>>, i: int) -> Seq<char>
    decreases v.len() - i,
{
    if i < 0 || i >= v.len() {
        Seq::empty()
    } else {
        match v[i] {
            Some(s) => if store_address(s) {
                s
            } else {
                store_url(v, i + 1)
            },
            None => store_url(v, i + 1),
        }
    }
}

fn is_store(s: &str) -> (r: bool)
    ensures
        r == store_address(s@),
{
    text::contains(s, "mercadolivre") || text::contains(s, "amazon") || text::contains(
        s,
        "magazineluiza",
    ) || text::contains(s, "kabum") || text::contains(s, "shopee") || text::contains(
        s,
        "aliexpress",
    ) || text::contains(s, "/shopping/product/") || (text::starts_with(s, "http")
        && !text::contains(s, "google.com"))
}

/// The first of some addresses that is one of a store.
pub fn pick_store_url(v: &Vec<Option<String>>) -> (r: String)
    ensures
        r@ == store_url(html::optional_texts(v@), 0),
{
    let ghost all = html::optional_texts(v@);
    let mut i: usize = 0;
    while i < v.len()
        invariant
            i <= v@.len(),
            all == html::optional_texts(v@),
            store_url(all, 0) == store_url(all, i as int),
        decreases v@.len() - i,
    {
        assert(all[i as int] == text::text_view(v@[i as int]));
        match &v[i] {
            Some(s) => {
                if is_store(s.as_str()) {
                    return s.clone();
                }
            },
            None => {},
        }
        i = i + 1;
    }
    let none = String::new();
    assert(none@ =~= store_url(all, i as int));
    none
}

/// The stores that are known by name.
pub open spec fn known_stores() -> Seq<Seq<char>> {
    seq![
        "Mercado Livre"@,
        "Amazon"@,
        "Magazine Luiza"@,
        "Kabum"@,
        "Shopee"@,
        "AliExpress"@,
        "Americanas"@,
        "Casas Bahia"@,
        "Ponto"@,
        "Submarino"@,
        "Carrefour"@,
        "Extra"@,
    ]
}

/// The first of some stores, from the `i`-th on, that a text names.
pub open spec fn named_store(s: Seq<char>, stores: Seq<Seq<char>>, i: int) -> Option<Seq<char>>
    decreases stores.len() - i,
{
    if i < 0 || i >= stores.len() {
        None
    } else if text::has(s, stores[i]) {
        Some(stores[i])
    } else {
        named_store(s, stores, i + 1)
    }
}

/// The name of the store in the text of a card: one that is known, or the one that
/// the text says it is from.
pub open spec fn store_name(s: Seq<char>, from: Option<Seq<char>>) -> Option<Seq<char>> {
    match named_store(s, known_stores(), 0) {
        Some(name) => Some(name),
        None => match from {
            Some(f) => Some(text::trimmed(f)),
            None => None,
        },
    }
}

/// The name of the store in the text of a card.
pub fn pick_store_name(s: &str, from: Option<String>) -> (r: Option<String>)
    ensures
        text::text_view(r) == store_name(s@, text::text_view(from)),
{
    let stores: [&str; 12] = [
        "Mercado Livre",
        "Amazon",
        "Magazine Luiza",
        "Kabum",
        "Shopee",
        "AliExpress",
        "Americanas",
        "Casas Bahia",
        "Ponto",
        "Submarino",
        "Carrefour",
        "Extra",
    ];
    let ghost all = known_stores();
    assert(html::slices(stores@) =~= all);
    let mut i: usize = 0;
    while i < 12
        invariant
            i <= 12,
            html::slices(stores@) == all,
            all.len() == 12,
            named_store(s@, all, 0) == named_store(s@, all, i as int),
            all == known_stores(),
        decreases 12 - i,
    {
        assert(all[i as int] == stores@[i as int]@);
        if text::contains(s, stores[i]) {
            return Some(stores[i].to_string());
        }
        i = i + 1;
    }
    match from {
        Some(f) => Some(text::trim(f.as_str())),
        None => None,
    }
}

/// The offer with this title, this text of the price, this address and this store:
/// none without a price.
pub open spec fn gs_offer(
    title: Seq<char>,
    price: Option<Seq<char>>,
    url: Seq<char>,
    store: Option<Seq<char>>,
    at: int,
) -> Option<models::ProductView> {
    let amount = match price {
        Some(s) => providers::brl_amount(s),
        None => decimal::dec(0, 0),
    };
    if amount@.mantissa == 0 {
        None
    } else {
        Some(
            models::ProductView {
                seller: match store {
                    Some(name) => Some(
                        models::SellerView { name, reputation: None, official_store: false },
                    ),
                    None => None,
                },
                ..models::offer(
                    ProviderId::GoogleShopping,
                    Seq::empty(),
                    title,
                    url,
                    providers::domestic_price(amount),
                    at,
                )
            },
        )
    }
}

/// The offer with this title, this text of the price, this address and this store.
pub fn build_gs_product(
    title: String,
    price: Option<String>,
    url: String,
    store: Option<String>,
    at: i128,
) -> (r: Option<Product>)
    ensures
        providers::offer_view(r) == gs_offer(
            title@,
            text::text_view(price),
            url@,
            text::text_view(store),
            at as int,
        ),
{
    let amount = match price {
        Some(s) => providers::parse_brl(s.as_str()),
        None => Decimal::zero(),
    };
    if amount.is_zero() {
        return None;
    }
    let seller = match store {
        Some(name) => Some(SellerInfo { name, reputation: None, official_store: false }),
        None => None,
    };
    let empty = String::new();
    let base = Product::offer(
        ProviderId::GoogleShopping,
        empty,
        title,
        url,
        providers::price_at_home(amount),
        at,
    );
    Some(Product { seller, ..base })
}

/// The title of a heading.
pub open spec fn heading_title(h: html::NestedView) -> Seq<char> {
    text::trimmed(h.text)
}

/// The offer that a heading is.
pub open spec fn heading_offer(h: html::NestedView, at: int) -> Option<models::ProductView> {
    match card_around(h.around, 0, None) {
        Some(card) => if card.text.len() == 0 {
            None
        } else {
            gs_offer(
                heading_title(h),
                pattern::captured("R\\$\\s*([\\d.]+,\\d{2})"@, card.text, 1),
                store_url(html::fragment_attrs(card.markup, "a[href]"@, "href"@), 0),
                store_name(
                    card.text,
                    pattern::captured("(?:De |de )([A-Z][a-zA-Z .]+)"@, card.text, 1),
                ),
                at,
            )
        },
        None => None,
    }
}

/// The offer that a heading is.
pub fn read_heading(h: &Nested, at: i128) -> (r: Option<Product>)
    ensures
        providers::offer_view(r) == heading_offer(h@, at as int),
{
    let (card_text, card_markup) = walk_up_to_card(h);
    if card_text.as_str().is_empty() {
        return None;
    }
    let title = text::trim(h.text.as_str());
    let price = pattern::capture("R\\$\\s*([\\d.]+,\\d{2})", card_text.as_str(), 1);
    let links = html::select_attr(card_markup.as_str(), "a[href]", "href");
    let url = pick_store_url(&links);
    let from = pattern::capture("(?:De |de )([A-Z][a-zA-Z .]+)", card_text.as_str(), 1);
    let store = pick_store_name(card_text.as_str(), from);
    build_gs_product(title, price, url, store, at)
}

/// Whether the title of the `k`-th heading is that of one before it, whatever its
/// case.
pub open spec fn titled_before(v: Seq<html::NestedView>, k: int) -> bool {
    exists|j: int|
        0 <= j < k && valid_title(heading_title(#[trigger] v[j])) && text::lowered(
            heading_title(v[j]),
        ) == text::lowered(heading_title(v[k]))
}

/// The offers that the first `k` headings are, at most `max` of them and one for
/// each title.
pub open spec fn heading_offers(v: Seq<html::NestedView>, k: int, max: nat, at: int) -> Seq<
    models::ProductView,
>
    decreases k,
{
    if k <= 0 {
        Seq::empty()
    } else {
        let before = heading_offers(v, k - 1, max, at);
        if before.len() >= max || !valid_title(heading_title(v[k - 1])) || titled_before(v, k - 1) {
            before
        } else {
            match heading_offer(v[k - 1], at) {
                Some(p) => before.push(p),
                None => before,
            }
        }
    }
}

fn title_seen(v: &Vec<Nested>, k: usize) -> (r: bool)
    requires
        k < v@.len(),
    ensures
        r == titled_before(html::nested_views(v@), k as int),
{
    let ghost all = html::nested_views(v@);
    assert(all[k as int] == v@[k as int]@);
    let own = text::trim(v[k].text.as_str());
    let lower = text::lowercase(own.as_str());
    let mut j: usize = 0;
    while j < k
        invariant
            j <= k < v@.len(),
            all == html::nested_views(v@),
            lower@ == text::lowered(heading_title(all[k as int])),
            forall|i: int|
                0 <= i < j ==> !(valid_title(heading_title(#[trigger] all[i])) && text::lowered(
                    heading_title(all[i]),
                ) == lower@),
        decreases k - j,
    {
        assert(all[j as int] == v@[j as int]@);
        let other = text::trim(v[j].text.as_str());
        let other_lower = text::lowercase(other.as_str());
        if is_valid_gs_title(other.as_str()) && text::same_text(
            other_lower.as_str(),
            lower.as_str(),
        ) {
            return true;
        }
        j = j + 1;
    }
    false
}

/// The offers that headings are, at most `max_results` of them and one for each
/// title.
pub fn read_headings(v: &Vec<Nested>, max_results: usize, at: i128) -> (r: Vec<Product>)
    ensures
        models::product_views(r@) == heading_offers(
            html::nested_views(v@),
            v@.len() as int,
            max_results as nat,
            at as int,
        ),
{
    let ghost all = html::nested_views(v@);
    let mut out: Vec<Product> = Vec::new();
    let mut k: usize = 0;
    assert(models::product_views(out@) =~= Seq::empty());
    while k < v.len()
        invariant
            k <= v@.len(),
            all == html::nested_views(v@),
            models::product_views(out@) == heading_offers(
                all,
                k as int,
                max_results as nat,
                at as int,
            ),
        decreases v@.len() - k,
    {
        assert(all[k as int] == v@[k as int]@);
        assert(models::product_views(out@).len() == out@.len());
        let ghost so_far = out@;
        let title = text::trim(v[k].text.as_str());
        if out.len() < max_results && is_valid_gs_title(title.as_str()) && !title_seen(v, k) {
            match read_heading(&v[k], at) {
                Some(p) => {
                    out.push(p);
                    proof {
                        providers::lemma_product_push(so_far, p);
                    }
                },
                None => {},
            }
        }
        k = k + 1;
    }
    out
}

// ---- Headings in raw markup ----

/// The first byte at or behind `i` at which the characters of a page can be parted.
pub open spec fn next_cut(page: Seq<char>, i: int) -> int
    decreases text::byte_len(page) - i,
{
    if i >= text::byte_len(page) || text::cut_at(page, i) {
        i
    } else {
        next_cut(page, i + 1)
    }
}

fn find_cut(page: &str, from: usize) -> (r: usize)
    requires
        from <= text::byte_len(page@),
    ensures
        r == next_cut(page@, from as int),
        from <= r <= text::byte_len(page@),
{
    let size: usize = text::text_bytes(page);
    let mut i: usize = from;
    while i < size && !page.is_char_boundary(i)
        invariant
            from <= i <= size,
            size == text::byte_len(page@),
            next_cut(page@, from as int) == next_cut(page@, i as int),
        decreases size - i,
    {
        i = i + 1;
    }
    i
}

/// Where the look forward from a byte ends: 500 bytes on, or at the end of the page.
pub open spec fn forward_end(page: Seq<char>, end: int) -> int {
    next_cut(
        page,
        if end + 500 <= text::byte_len(page) {
            end + 500
        } else {
            text::byte_len(page) as int
        },
    )
}

/// Where the look back from a byte starts: 500 bytes before, or at the start of the
/// page.
pub open spec fn backward_start(page: Seq<char>, start: int) -> int {
    if start <= 500 {
        0
    } else {
        next_cut(page, start - 500)
    }
}

/// Whether a title found in raw markup can be one of a product.
pub open spec fn raw_title(s: Seq<char>) -> bool {
    text::byte_len(s) >= 15 && !text::has(s, "patrocinado"@) && !text::has(s, "Avaliações"@)
}

/// The title of a match.
pub open spec fn match_title(m: pattern::FoundView) -> Seq<char> {
    text::trimmed(pattern::group(m, 1))
}

/// The offer that a match is: its price behind it, its address before it.
pub open spec fn match_offer(page: Seq<char>, m: pattern::FoundView, at: int) -> Option<
    models::ProductView,
> {
    let behind = text::byte_slice(page, m.end, forward_end(page, m.end));
    let ahead = text::byte_slice(page, backward_start(page, m.start), m.start);
    if text::sliceable(page, m.end, forward_end(page, m.end)) && text::sliceable(
        page,
        backward_start(page, m.start),
        m.start,
    ) {
        gs_offer(
            match_title(m),
            pattern::captured("R\\$\\s*([\\d.]+,\\d{2})"@, behind, 1),
            text::or_empty(
                pattern::captured(
                    "href=\"(https?://(?:www\\.)?(?:mercadolivre|amazon|magazineluiza|kabum)[^\"]+)"@,
                    ahead,
                    1,
                ),
            ),
            None,
            at,
        )
    } else {
        None
    }
}

/// The offer that a match is.
pub fn read_match(page: &str, m: &Found, at: i128) -> (r: Option<Product>)
    ensures
        providers::offer_view(r) == match_offer(page@, m@, at as int),
{
    let size: usize = text::text_bytes(page);
    if m.end > size || m.start > size {
        return None;
    }
    let far: usize = if size - m.end >= 500 {
        m.end + 500
    } else {
        size
    };
    let end: usize = find_cut(page, far);
    let start: usize = if m.start <= 500 {
        0
    } else {
        find_cut(page, m.start - 500)
    };
    match (text::slice_bytes(page, m.end, end), text::slice_bytes(page, start, m.start)) {
        (Some(behind), Some(ahead)) => {
            let raw = pattern::group_text(m, 1);
            let title = text::trim(raw.as_str());
            let price = pattern::capture("R\\$\\s*([\\d.]+,\\d{2})", behind, 1);
            let url = text::else_empty(
                pattern::capture(
                    "href=\"(https?://(?:www\\.)?(?:mercadolivre|amazon|magazineluiza|kabum)[^\"]+)",
                    ahead,
                    1,
                ),
            );
            build_gs_product(title, price, url, None, at)
        },
        _ => None,
    }
}

/// Whether the title of the `k`-th match is that of one before it, whatever its
/// case.
pub open spec fn matched_before(v: Seq<pattern::FoundView>, k: int) -> bool {
    exists|j: int|
        0 <= j < k && raw_title(match_title(#[trigger] v[j])) && text::lowered(match_title(v[j]))
            == text::lowered(match_title(v[k]))
}

/// The offers that the first `k` matches are, at most `max` of them and one for each
/// title.
pub open spec fn match_offers(
    page: Seq<char>,
    v: Seq<pattern::FoundView>,
    k: int,
    max: nat,
    at: int,
) -> Seq<models::ProductView>
    decreases k,
{
    if k <= 0 {
        Seq::empty()
    } else {
        let before = match_offers(page, v, k - 1, max, at);
        if before.len() >= max || !raw_title(match_title(v[k - 1])) || matched_before(v, k - 1) {
            before
        } else {
            match match_offer(page, v[k - 1], at) {
                Some(p) => before.push(p),
                None => before,
            }
        }
    }
}

fn is_raw_title(s: &str) -> (r: bool)
    ensures
        r == raw_title(s@),
{
    text::text_bytes(s) >= 15 && !text::contains(s, "patrocinado") && !text::contains(
        s,
        "Avaliações",
    )
}

fn match_seen(v: &Vec<Found>, k: usize) -> (r: bool)
    requires
        k < v@.len(),
    ensures
        r == matched_before(pattern::found_views(v@), k as int),
{
    let ghost all = pattern::found_views(v@);
    assert(all[k as int] == v@[k as int]@);
    let raw = pattern::group_text(&v[k], 1);
    let own = text::trim(raw.as_str());
    let lower = text::lowercase(own.as_str());
    let mut j: usize = 0;
    while j < k
        invariant
            j <= k < v@.len(),
            all == pattern::found_views(v@),
            lower@ == text::lowered(match_title(all[k as int])),
            forall|i: int|
                0 <= i < j ==> !(raw_title(match_title(#[trigger] all[i])) && text::lowered(
                    match_title(all[i]),
                ) == lower@),
        decreases k - j,
    {
        assert(all[j as int] == v@[j as int]@);
        let other_raw = pattern::group_text(&v[j], 1);
        let other = text::trim(other_raw.as_str());
        let other_lower = text::lowercase(other.as_str());
        if is_raw_title(other.as_str()) && text::same_text(other_lower.as_str(), lower.as_str()) {
            return true;
        }
        j = j + 1;
    }
    false
}

/// The offers that matches are, at most `max_results` of them and one for each
/// title.
pub fn read_matches(page: &str, v: &Vec<Found>, max_results: usize, at: i128) -> (r: Vec<Product>)
    ensures
        models::product_views(r@) == match_offers(
            page@,
            pattern::found_views(v@),
            v@.len() as int,
            max_results as nat,
            at as int,
        ),
{
    let ghost all = pattern::found_views(v@);
    let mut out: Vec<Product> = Vec::new();
    let mut k: usize = 0;
    assert(models::product_views(out@) =~= Seq::empty());
    while k < v.len()
        invariant
            k <= v@.len(),
            all == pattern::found_views(v@),
            models::product_views(out@) == match_offers(
                page@,
                all,
                k as int,
                max_results as nat,
                at as int,
            ),
        decreases v@.len() - k,
    {
        assert(all[k as int] == v@[k as int]@);
        assert(models::product_views(out@).len() == out@.len());
        let ghost so_far = out@;
        let raw = pattern::group_text(&v[k], 1);
        let title = text::trim(raw.as_str());
        if out.len() < max_results && is_raw_title(title.as_str()) && !match_seen(v, k) {
            match read_match(page, &v[k], at) {
                Some(p) => {
                    out.push(p);
                    proof {
                        providers::lemma_product_push(so_far, p);
                    }
                },
                None => {},
            }
        }
        k = k + 1;
    }
    out
}

/// The offers in the raw markup of a page.
pub open spec fn raw_offers(page: Seq<char>, max: nat, at: int) -> Seq<models::ProductView> {
    let m = pattern::regex_matches("<h3[^>]*>([^<]{15,200})</h3>"@, page);
    match_offers(page, m, m.len() as int, max, at)
}

/// The offers in the raw markup of a page.
pub fn parse_google_shopping_regex(page: &str, max_results: usize, at: i128) -> (r: Vec<Product>)
    ensures
        models::product_views(r@) == raw_offers(page@, max_results as nat, at as int),
{
    let m = pattern::find_all("<h3[^>]*>([^<]{15,200})</h3>", page);
    assert(pattern::found_views(m@).len() == m@.len());
    read_matches(page, &m, max_results, at)
}

/// The offers on a page: those of its headings, or those in its raw markup where
/// there are no others.
pub open spec fn gs_offers(page: Seq<char>, max: nat, at: int) -> Seq<models::ProductView> {
    let v = html::page_nested(page, "h3"@, 5);
    let found = heading_offers(v, v.len() as int, max, at);
    if found.len() == 0 {
        raw_offers(page, max, at)
    } else {
        found
    }
}

impl Provider for GoogleShopping {
    open spec fn identity(&self) -> ProviderId {
        ProviderId::GoogleShopping
    }

    open spec fn offers(&self, page: Seq<char>, max_results: nat, at: int) -> Result<
        Seq<models::ProductView>,
        ProviderErrorView,
    > {
        Ok(gs_offers(page, max_results, at))
    }

    fn name(&self) -> (r: &'static str) {
        "Google Shopping"
    }

    fn id(&self) -> (r: ProviderId) {
        ProviderId::GoogleShopping
    }

    fn is_available(&self) -> (r: bool) {
        true
    }

    fn parse_html(&self, html: &str, max_results: usize, at: i128) -> (r: Result<
        Vec<Product>,
        ProviderError,
    >) {
        let headings = crate::html::select_nested(html, "h3", 5);
        assert(crate::html::nested_views(headings@).len() == headings@.len());
        let found = read_headings(&headings, max_results, at);
        assert(models::product_views(found@).len() == found@.len());
        if found.len() == 0 {
            Ok(parse_google_shopping_regex(html, max_results, at))
        } else {
            Ok(found)
        }
    }
}

/// Whether an offer is held as those of Google Shopping are: in reais from within Brazil,
/// with its taxes held, at the price that a text behind a sign gives.
pub open spec fn of_google(p: models::ProductView, shown: Option<Seq<char>>, at: int) -> bool {
    &&& p.provider == ProviderId::GoogleShopping
    &&& p.platform_id.len() == 0
    &&& shown is Some
    &&& decimal::of_opt(
        decimal::decimal_from_text(
            text::trimmed(text::swapped(text::dropped(shown->0, '.'), ',', '.')),
        ),
    ) == Some(p.price.listed_price)
    &&& p.price.listed_price@.mantissa != 0
    &&& p.price.price_brl == p.price.listed_price
    &&& p.price.total_cost == p.price.listed_price
    &&& p.price.currency == Currency::BRL
    &&& p.price.shipping_cost is None
    &&& p.price.tax.taxes_included
    &&& !p.price.tax.remessa_conforme
    &&& p.price.tax.tax_regime == TaxRegime::Domestic
    &&& p.price.tax.total_tax == decimal::dec(0, 0)
    &&& p.domestic
    &&& p.fetched_at == at
    &&& p.normalized_title is None
    &&& p.keepa.len() == 0
    &&& p.price.tax.import_tax is None
    &&& p.price.tax.icms is None
    &&& p.price.shipping_currency == Currency::BRL
    &&& p.review_count is None
    &&& p.sold_count is None
    &&& p.rating is None
    &&& p.price.original_price is None
    &&& p.price.installments is None
    &&& p.condition == models::ProductCondition::New
    &&& p.image_url is None
    &&& p.seller is Some ==> !p.seller->0.official_store && p.seller->0.reputation is None
}

/// Whether an element around a heading is its card: the innermost `div` with the sign of
/// reais, and the outermost element where there is none.
pub open spec fn is_card(around: Seq<Option<html::OuterView>>, e: html::OuterView) -> bool {
    exists|i: int|
        0 <= i < around.len() && #[trigger] around[i] == Some(e) && (forall|j: int|
            0 <= j < i && (#[trigger] around[j]) is Some ==> !text::has(around[j]->0.text, "R$"@)
                || around[j]->0.name != "div"@) && (text::has(e.text, "R$"@) && e.name == "div"@ || (
        forall|j: int| i < j < around.len() ==> (#[trigger] around[j]) is None))
}

/// The card around a heading is the innermost `div` with the sign of reais, and the outermost
/// element where there is none.
pub proof fn cards_have_the_sign(around: Seq<Option<html::OuterView>>)
    ensures
        card_around(around, 0, None) is Some ==> is_card(around, card_around(around, 0, None)->0),
        card_around(around, 0, None) is None ==> forall|i: int|
            0 <= i < around.len() ==> (#[trigger] around[i]) is None,
{
    lemma_card_around(around, 0, None);
}

proof fn lemma_card_around(
    around: Seq<Option<html::OuterView>>,
    i: int,
    so_far: Option<html::OuterView>,
)
    requires
        0 <= i <= around.len(),
        forall|j: int|
            0 <= j < i && (#[trigger] around[j]) is Some ==> !text::has(around[j]->0.text, "R$"@)
                || around[j]->0.name != "div"@,
        so_far is Some ==> exists|k: int|
            0 <= k < i && #[trigger] around[k] == so_far && (forall|j: int|
                k < j < i ==> (#[trigger] around[j]) is None),
        so_far is None ==> forall|j: int| 0 <= j < i ==> (#[trigger] around[j]) is None,
    ensures
        card_around(around, i, so_far) is Some ==> is_card(
            around,
            card_around(around, i, so_far)->0,
        ),
        card_around(around, i, so_far) is None ==> forall|j: int|
            0 <= j < around.len() ==> (#[trigger] around[j]) is None,
    decreases around.len() - i,
{
    if i < around.len() {
        match around[i] {
            Some(e) => {
                if text::has(e.text, "R$"@) && e.name == "div"@ {
                    assert(is_card(around, e));
                } else {
                    assert(around[i] == Some(e));
                    lemma_card_around(around, i + 1, Some(e));
                }
            },
            None => {
                if so_far is Some {
                    let k = choose|k: int|
                        0 <= k < i && #[trigger] around[k] == so_far && (forall|j: int|
                            k < j < i ==> (#[trigger] around[j]) is None);
                    assert(around[k] == so_far && forall|j: int|
                        k < j < i + 1 ==> (#[trigger] around[j]) is None);
                }
                lemma_card_around(around, i + 1, so_far);
            },
        }
    } else if so_far is Some {
        let k = choose|k: int|
            0 <= k < i && #[trigger] around[k] == so_far && (forall|j: int|
                k < j < i ==> (#[trigger] around[j]) is None);
        assert(around[k] == Some(so_far->0));
        assert(is_card(around, so_far->0));
    }
}

/// Whether an address leads to a store: one of those known, a page of the product, or any
/// that is not of Google.
pub open spec fn leads_to_store(s: Seq<char>) -> bool {
    ||| text::has(s, "mercadolivre"@)
    ||| text::has(s, "amazon"@)
    ||| text::has(s, "magazineluiza"@)
    ||| text::has(s, "kabum"@)
    ||| text::has(s, "shopee"@)
    ||| text::has(s, "aliexpress"@)
    ||| text::has(s, "/shopping/product/"@)
    ||| "http"@.is_prefix_of(s) && !text::has(s, "google.com"@)
}

/// The address of an offer is the first of its card that leads to a store, and there is none
/// where none does.
pub proof fn addresses_lead_to_stores(v: Seq<Option<Seq<char>>>)
    ensures
        store_url(v, 0).len() > 0 ==> exists|i: int|
            0 <= i < v.len() && #[trigger] v[i] == Some(store_url(v, 0)) && leads_to_store(
                store_url(v, 0),
            ) && forall|j: int|
                0 <= j < i && (#[trigger] v[j]) is Some ==> !leads_to_store(v[j]->0),
        (forall|i: int| 0 <= i < v.len() && (#[trigger] v[i]) is Some ==> !leads_to_store(v[i]->0))
            ==> store_url(v, 0).len() == 0,
{
    lemma_store_url(v, 0);
}

proof fn lemma_store_url(v: Seq<Option<Seq<char>>>, i: int)
    requires
        0 <= i,
    ensures
        store_url(v, i).len() > 0 ==> exists|k: int|
            i <= k < v.len() && #[trigger] v[k] == Some(store_url(v, i)) && leads_to_store(
                store_url(v, i),
            ) && forall|j: int|
                i <= j < k && (#[trigger] v[j]) is Some ==> !leads_to_store(v[j]->0),
        (forall|k: int| i <= k < v.len() && (#[trigger] v[k]) is Some ==> !leads_to_store(v[k]->0))
            ==> store_url(v, i).len() == 0,
    decreases v.len() - i,
{
    if i < v.len() {
        lemma_store_url(v, i + 1);
        if v[i] is Some && leads_to_store(v[i]->0) {
            assert(v[i] == Some(store_url(v, i)));
        }
    }
}

/// The seller of an offer is the first of the known stores that its card names, and what
/// stands behind "De" where it names none.
pub proof fn sellers_are_named(s: Seq<char>, from: Option<Seq<char>>)
    ensures
        text::has(s, "Mercado Livre"@) ==> store_name(s, from) == Some("Mercado Livre"@),
        !text::has(s, "Mercado Livre"@) && text::has(s, "Amazon"@) ==> store_name(s, from) == Some(
            "Amazon"@,
        ),
        !text::has(s, "Mercado Livre"@) && !text::has(s, "Amazon"@) && text::has(
            s,
            "Magazine Luiza"@,
        ) ==> store_name(s, from) == Some("Magazine Luiza"@),
        (forall|i: int|
            0 <= i < known_stores().len() ==> !text::has(s, #[trigger] known_stores()[i]))
            ==> store_name(s, from) == (if from is Some {
            Some(text::trimmed(from->0))
        } else {
            None
        }),
        store_name(s, from) is Some ==> text::has(s, store_name(s, from)->0)
            && known_stores().contains(store_name(s, from)->0) || from is Some && store_name(s, from)
            == Some(text::trimmed(from->0)),
{
    reveal_with_fuel(named_store, 5);
    lemma_named_store(s, known_stores(), 0);
    assert(known_stores()[0] == "Mercado Livre"@);
    assert(known_stores()[1] == "Amazon"@);
    assert(known_stores()[2] == "Magazine Luiza"@);
}

proof fn lemma_named_store(s: Seq<char>, stores: Seq<Seq<char>>, i: int)
    requires
        0 <= i,
    ensures
        named_store(s, stores, i) is Some ==> text::has(s, named_store(s, stores, i)->0)
            && stores.contains(named_store(s, stores, i)->0),
        (forall|k: int| i <= k < stores.len() ==> !text::has(s, #[trigger] stores[k]))
            ==> named_store(s, stores, i) is None,
    decreases stores.len() - i,
{
    if i < stores.len() {
        lemma_named_store(s, stores, i + 1);
        assert(stores.contains(stores[i]));
    }
}

/// Whether an offer is what a heading and the card around it say.
pub open spec fn heading_says(h: html::NestedView, p: models::ProductView, at: int) -> bool {
    &&& p.title == text::trimmed(h.text)
    &&& text::byte_len(p.title) >= 15
    &&& !text::has(p.title, "patrocinado"@)
    &&& !text::has(p.title, "Sobre esse"@)
    &&& !text::has(p.title, "Avaliações"@)
    &&& !text::has(p.title, "avaliações"@)
    &&& !text::has(p.title, "Mais opções"@)
    &&& exists|card: html::OuterView|
        #![trigger is_card(h.around, card)]
        is_card(h.around, card) && of_google(
            p,
            pattern::captured("R\\$\\s*([\\d.]+,\\d{2})"@, card.text, 1),
            at,
        ) && p.url == store_url(html::fragment_attrs(card.markup, "a[href]"@, "href"@), 0) && ({
            let name = store_name(
                card.text,
                pattern::captured("(?:De |de )([A-Z][a-zA-Z .]+)"@, card.text, 1),
            );
            (name is Some ==> p.seller is Some && p.seller->0.name == name->0) && (name is None
                ==> p.seller is None)
        })
}

/// The offers on a page are at most as many as asked for, each what a heading says, and no
/// two are of one title, whatever its case.
pub proof fn google_offers_are_what_headings_say(page: Seq<char>, max: nat, at: int)
    ensures
        ({
            let h = html::page_nested(page, "h3"@, 5);
            let v = heading_offers(h, h.len() as int, max, at);
            &&& v.len() <= max
            &&& v.len() > 0 ==> gs_offers(page, max, at) == v
            &&& forall|i: int|
                0 <= i < v.len() ==> exists|k: int|
                    0 <= k < h.len() && heading_says(#[trigger] h[k], #[trigger] v[i], at)
            &&& forall|i: int, j: int|
                0 <= i < j < v.len() ==> text::lowered((#[trigger] v[i]).title) != text::lowered(
                    (#[trigger] v[j]).title,
                )
        }),
{
    let h = html::page_nested(page, "h3"@, 5);
    lemma_heading_offers(h, h.len() as int, max, at);
}

proof fn lemma_heading(h: html::NestedView, at: int)
    requires
        valid_title(heading_title(h)),
        heading_offer(h, at) is Some,
    ensures
        heading_says(h, heading_offer(h, at)->0, at),
{
    decimal::lemma_dec(0, 0);
    cards_have_the_sign(h.around);
    let card = card_around(h.around, 0, None)->0;
    assert(is_card(h.around, card));
}

proof fn lemma_heading_offers(h: Seq<html::NestedView>, k: int, max: nat, at: int)
    requires
        k <= h.len(),
    ensures
        heading_offers(h, k, max, at).len() <= max,
        forall|i: int|
            0 <= i < heading_offers(h, k, max, at).len() ==> exists|n: int|
                0 <= n < k && heading_says(
                    #[trigger] h[n],
                    #[trigger] heading_offers(h, k, max, at)[i],
                    at,
                ),
        forall|i: int, j: int|
            0 <= i < j < heading_offers(h, k, max, at).len() ==> text::lowered(
                (#[trigger] heading_offers(h, k, max, at)[i]).title,
            ) != text::lowered((#[trigger] heading_offers(h, k, max, at)[j]).title),
    decreases k,
{
    if k > 0 {
        let before = heading_offers(h, k - 1, max, at);
        let v = heading_offers(h, k, max, at);
        lemma_heading_offers(h, k - 1, max, at);
        if v.len() > before.len() {
            lemma_heading(h[k - 1], at);
        }
        assert forall|i: int| 0 <= i < v.len() implies exists|n: int|
            0 <= n < k && heading_says(#[trigger] h[n], #[trigger] v[i], at) by {
            if i < before.len() {
                assert(v[i] == before[i]);
                let n = choose|n: int| 0 <= n < k - 1 && heading_says(#[trigger] h[n], before[i], at);
                assert(heading_says(h[n], v[i], at));
            } else {
                assert(heading_says(h[k - 1], v[i], at));
            }
        }
        assert forall|i: int, j: int| 0 <= i < j < v.len() implies text::lowered(
            (#[trigger] v[i]).title,
        ) != text::lowered((#[trigger] v[j]).title) by {
            assert(v[i] == before[i]);
            if j < before.len() {
                assert(v[j] == before[j]);
            } else {
                let n = choose|n: int| 0 <= n < k - 1 && heading_says(#[trigger] h[n], before[i], at);
                assert(heading_title(h[n]) == before[i].title);
                assert(valid_title(heading_title(h[n])));
            }
        }
    }
}

/// The next place to cut a page is not before where it is looked for.
proof fn lemma_next_cut(page: Seq<char>, i: int)
    ensures
        next_cut(page, i) >= i,
    decreases text::byte_len(page) - i,
{
    if i < text::byte_len(page) && !text::cut_at(page, i) {
        lemma_next_cut(page, i + 1);
    }
}

/// An offer found in the bare text of a page has its title, a price behind it, which is
/// looked for over the next 500 bytes, and the address of a store at most 500 bytes ahead of
/// it.
pub proof fn bare_offers_are_what_stands_around(page: Seq<char>, m: pattern::FoundView, at: int)
    requires
        match_offer(page, m, at) is Some,
    ensures
        ({
            let p = match_offer(page, m, at)->0;
            &&& p.title == text::trimmed(pattern::group(m, 1))
            &&& p.seller is None
            &&& exists|from: int, to: int|
                #![trigger text::byte_slice(page, from, m.start), text::byte_slice(page, m.end, to)]
                m.start - 500 <= from && (m.end + 500 <= to || text::byte_len(page) <= to)
                    && of_google(
                    p,
                    pattern::captured(
                        "R\\$\\s*([\\d.]+,\\d{2})"@,
                        text::byte_slice(page, m.end, to),
                        1,
                    ),
                    at,
                ) && ({
                    let url = pattern::captured(
                        "href=\"(https?://(?:www\\.)?(?:mercadolivre|amazon|magazineluiza|kabum)[^\"]+)"@,
                        text::byte_slice(page, from, m.start),
                        1,
                    );
                    (url is Some ==> p.url == url->0) && (url is None ==> p.url.len() == 0)
                })
        }),
{
    decimal::lemma_dec(0, 0);
    let from = backward_start(page, m.start);
    let to = forward_end(page, m.end);
    lemma_next_cut(page, m.start - 500);
    lemma_next_cut(page, m.end + 500);
    lemma_next_cut(page, text::byte_len(page) as int);
    assert(text::byte_slice(page, from, m.start) == text::byte_slice(page, from, m.start));
    assert(text::byte_slice(page, m.end, to) == text::byte_slice(page, m.end, to));
}

} // verus!
