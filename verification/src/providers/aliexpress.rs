//! AliExpress.

use vstd::prelude::*;

use crate::decimal;
use crate::decimal::Decimal;
use crate::error::{ProviderError, ProviderErrorView};
use crate::json;
use crate::json::Json;
use crate::models;
use crate::models::{Currency, PriceInfo, Product, TaxInfo, TaxRegime};
use crate::pattern;
use crate::pattern::Found;
use crate::providers;
use crate::providers::{Provider, ProviderId};
use crate::rating;
use crate::text;

verus! {

/// AliExpress, and the port at which a browser can be reached.
pub struct AliExpress {
    pub cdp_port: Option<u16>,
}

impl AliExpress {
    pub fn new(cdp_port: Option<u16>) -> (r: AliExpress)
        ensures
            r.cdp_port == cdp_port,
    {
        AliExpress { cdp_port }
    }
}

/// The rating that a text value stands for.
pub open spec fn rating_in(j: json::JsonView) -> Option<Decimal> {
    match json::text_of(j) {
        Some(s) => rating::rating(s),
        None => None,
    }
}

/// A price that is said to hold the taxes of the Remessa Conforme programme.
pub open spec fn ali_price(price: Decimal, currency: Currency) -> PriceInfo {
    models::listed(price, currency, models::untaxed(true, true, TaxRegime::Unknown))
}

fn price_there(price: Decimal, currency: Currency) -> (r: PriceInfo)
    ensures
        r == ali_price(price, currency),
{
    PriceInfo::listed(price, currency, TaxInfo::untaxed(true, true, TaxRegime::Unknown))
}

/// A text without the signs of currencies and spaces.
pub open spec fn without_signs(s: Seq<char>) -> Seq<char> {
    text::dropped(
        text::dropped(text::replaced(text::replaced(s, "R$"@, ""@), "US$"@, ""@), '$'),
        ' ',
    )
}

/// The amount that a text such as "R$1.911,33" or "US $12.50" stands for, and
/// nothing where it stands for none. A comma makes the notation a Brazilian one.
pub open spec fn ali_amount(s: Seq<char>) -> Decimal {
    let bare = without_signs(s);
    if text::has(bare, ","@) {
        providers::brl_amount(bare)
    } else {
        providers::or_nothing(providers::amount(text::trimmed(bare)))
    }
}

/// The amount that a text such as "R$1.911,33" or "US $12.50" stands for.
pub fn parse_ali_price(s: &str) -> (r: Decimal)
    ensures
        r == ali_amount(s@),
{
    let a = text::replace(s, "R$", "");
    let b = text::replace(a.as_str(), "US$", "");
    let c = text::drop_char(b.as_str(), '$');
    let bare = text::drop_char(c.as_str(), ' ');
    if text::contains(bare.as_str(), ",") {
        providers::parse_brl(bare.as_str())
    } else {
        let tight = text::trim(bare.as_str());
        providers::else_nothing(Decimal::parse(tight.as_str()))
    }
}

// ---- Items in the data of a page ----

/// The text of the price of an item.
pub open spec fn item_price_text(item: json::JsonView) -> Seq<char> {
    let sale = providers::member2(item, "prices"@, "salePrice"@);
    json::text_or(
        json::either(
            json::text_of(json::member(sale, "formattedPrice"@)),
            json::text_of(json::member(sale, "minPrice"@)),
        ),
        "0"@,
    )
}

/// The offer that an item is: none without a title or a price. A price is in
/// dollars unless it has the sign of the real.
pub open spec fn ali_offer(item: json::JsonView, at: int) -> Option<models::ProductView> {
    let title = json::either(
        json::text_of(providers::member2(item, "title"@, "displayTitle"@)),
        json::text_of(providers::member2(item, "title"@, "text"@)),
    );
    let shown = item_price_text(item);
    let id = text::or_empty(json::text_of(json::member(item, "productId"@)));
    let url = if id.len() > 0 {
        "https://pt.aliexpress.com/item/"@ + id + ".html"@
    } else {
        Seq::empty()
    };
    let currency = if text::has(shown, "R$"@) {
        Currency::BRL
    } else {
        Currency::USD
    };
    match title {
        Some(title) => if ali_amount(shown)@.mantissa == 0 {
            None
        } else {
            Some(
                models::ProductView {
                    image_url: match json::text_of(providers::member2(item, "image"@, "imgUrl"@)) {
                        Some(s) => if "//"@.is_prefix_of(s) {
                            Some("https:"@ + s)
                        } else {
                            Some(s)
                        },
                        None => None,
                    },
                    rating: rating_in(providers::member2(item, "evaluation"@, "starRating"@)),
                    domestic: false,
                    ..models::offer(
                        ProviderId::AliExpress,
                        id,
                        title,
                        url,
                        ali_price(ali_amount(shown), currency),
                        at,
                    )
                },
            )
        },
        None => None,
    }
}

fn find_rating(j: Option<&Json>) -> (r: Option<Decimal>)
    ensures
        r == rating_in(json::seen(j)),
{
    match json::as_text(j) {
        Some(s) => rating::read_rating(s.as_str()),
        None => None,
    }
}

/// The offer that an item is.
pub fn parse_ali_item(item: &Json, at: i128) -> (r: Option<Product>)
    ensures
        providers::offer_view(r) == ali_offer(item@, at as int),
{
    let j = Some(item);
    let title = match json::first_text(
        json::as_text(providers::get2(j, "title", "displayTitle")),
        json::as_text(providers::get2(j, "title", "text")),
    ) {
        Some(t) => t,
        None => {
            return None;
        },
    };
    let sale = providers::get2(j, "prices", "salePrice");
    let shown = json::text_else(
        json::first_text(
            json::as_text(json::get(sale, "formattedPrice")),
            json::as_text(json::get(sale, "minPrice")),
        ),
        "0",
    );
    let price = parse_ali_price(shown.as_str());
    if price.is_zero() {
        return None;
    }
    let id = text::else_empty(json::as_text(json::get(j, "productId")));
    let url = if !id.as_str().is_empty() {
        text::join3("https://pt.aliexpress.com/item/", id.as_str(), ".html")
    } else {
        String::new()
    };
    let image_url = match json::as_text(providers::get2(j, "image", "imgUrl")) {
        Some(s) => if text::starts_with(s.as_str(), "//") {
            Some(text::join2("https:", s.as_str()))
        } else {
            Some(s)
        },
        None => None,
    };
    let rating = find_rating(providers::get2(j, "evaluation", "starRating"));
    let currency = if text::contains(shown.as_str(), "R$") {
        Currency::BRL
    } else {
        Currency::USD
    };
    let base = Product::offer(
        ProviderId::AliExpress,
        id,
        title,
        url,
        price_there(price, currency),
        at,
    );
    Some(Product { image_url, rating, domestic: false, ..base })
}

/// The offers that the first 50 items are.
pub open spec fn ali_items(items: Seq<json::JsonView>, at: int) -> Seq<models::ProductView> {
    providers::gathered(providers::first_of(items, 50), |j: json::JsonView| ali_offer(j, at))
}

/// The offers that the first 50 items are.
pub fn read_ali_items(items: &Vec<Json>, at: i128) -> (r: Vec<Product>)
    ensures
        models::product_views(r@) == ali_items(json::json_views(items@), at as int),
{
    let ghost all = providers::first_of(json::json_views(items@), 50);
    let ghost item = |j: json::JsonView| ali_offer(j, at as int);
    let limit: usize = if items.len() <= 50 {
        items.len()
    } else {
        50
    };
    let mut out: Vec<Product> = Vec::new();
    let mut i: usize = 0;
    assert(models::product_views(out@) =~= Seq::empty());
    while i < limit
        invariant
            i <= limit <= items@.len(),
            all.len() == limit,
            forall|k: int| 0 <= k < limit ==> #[trigger] all[k] == items@[k]@,
            item == (|j: json::JsonView| ali_offer(j, at as int)),
            models::product_views(out@) == providers::gathered(all.take(i as int), item),
        decreases limit - i,
    {
        assert(all.take(i + 1).drop_last() =~= all.take(i as int));
        assert(all[i as int] == items@[i as int]@);
        let ghost so_far = out@;
        match parse_ali_item(&items[i], at) {
            Some(p) => {
                out.push(p);
                proof {
                    providers::lemma_product_push(so_far, p);
                }
            },
            None => {},
        }
        i = i + 1;
    }
    assert(all.take(i as int) =~= all);
    out
}

/// The items in a member of the data.
pub open spec fn module_items(value: json::JsonView) -> Seq<json::JsonView> {
    let mods = providers::member2(value, "fields"@, "mods"@);
    match json::list_of(providers::member2(mods, "itemList"@, "content"@)) {
        Some(v) => v,
        None => Seq::empty(),
    }
}

/// The offers in the first of some members, from the `i`-th on, that has any.
pub open spec fn module_offers(f: Seq<json::FieldView>, i: int, at: int) -> Seq<
    models::ProductView,
>
    decreases f.len() - i,
{
    if i < 0 || i >= f.len() {
        Seq::empty()
    } else if ali_items(module_items(f[i].value), at).len() > 0 {
        ali_items(module_items(f[i].value), at)
    } else {
        module_offers(f, i + 1, at)
    }
}

/// The offers in the data of a page.
pub open spec fn ali_data_offers(parsed: Result<json::JsonView, Seq<char>>, at: int) -> Seq<
    models::ProductView,
> {
    match parsed {
        Ok(config) => match json::fields_of(
            json::member(providers::member2(config, "_init_data_"@, "data"@), "data"@),
        ) {
            Some(f) => module_offers(f, 0, at),
            None => Seq::empty(),
        },
        Err(_) => Seq::empty(),
    }
}

/// The offers in the data of a page.
pub fn read_ali_data(parsed: Result<Json, String>, at: i128) -> (r: Vec<Product>)
    ensures
        models::product_views(r@) == ali_data_offers(json::parse_view(parsed), at as int),
{
    let none: Vec<Product> = Vec::new();
    assert(models::product_views(none@) =~= Seq::empty());
    match parsed {
        Ok(config) => {
            let data = json::get(providers::get2(Some(&config), "_init_data_", "data"), "data");
            match json::as_fields(data) {
                Some(v) => {
                    let ghost f = json::field_views(v@);
                    let mut i: usize = 0;
                    while i < v.len()
                        invariant
                            i <= v@.len(),
                            f == json::field_views(v@),
                            ali_data_offers(json::parse_view(parsed), at as int) == module_offers(
                                f,
                                i as int,
                                at as int,
                            ),
                        decreases v@.len() - i,
                    {
                        assert(f[i as int].value == v@[i as int].value@);
                        let mods = providers::get2(Some(&v[i].value), "fields", "mods");
                        match json::as_list(providers::get2(mods, "itemList", "content")) {
                            Some(items) => {
                                let found = read_ali_items(items, at);
                                assert(models::product_views(found@).len() == found@.len());
                                if found.len() > 0 {
                                    return found;
                                }
                            },
                            None => {},
                        }
                        i = i + 1;
                    }
                    none
                },
                None => none,
            }
        },
        Err(_) => none,
    }
}

/// The offers in the data of a page.
pub open spec fn dida_offers(page: Seq<char>, at: int) -> Seq<models::ProductView> {
    match providers::assigned_object(page, "window._dida_config_"@) {
        Some(object) => ali_data_offers(json::json_from_text(object), at),
        None => Seq::empty(),
    }
}

/// The offers in the data of a page.
pub fn try_extract_dida_data(page: &str, at: i128) -> (r: Vec<Product>)
    ensures
        models::product_views(r@) == dida_offers(page@, at as int),
{
    match providers::find_object(page, "window._dida_config_").object {
        Some(object) => read_ali_data(json::parse_text(object.as_str()), at),
        None => {
            let none: Vec<Product> = Vec::new();
            assert(models::product_views(none@) =~= Seq::empty());
            none
        },
    }
}

// ---- Cards on a rendered page ----

/// Where the card that begins at the `i`-th mark ends: at the next mark, or 4000
/// bytes on where that comes first.
pub open spec fn card_end(m: Seq<pattern::FoundView>, i: int) -> int {
    if i + 1 < m.len() && m[i + 1].start < m[i].start + 4000 {
        m[i + 1].start
    } else {
        m[i].start + 4000
    }
}

/// The texts that stand in a card: its number, its title, its price and its image.
pub struct CardTexts {
    pub number: Option<String>,
    pub title: Option<String>,
    pub price: Option<String>,
    pub image: Option<String>,
}

/// The texts that stand in a card.
pub struct CardTextsView {
    pub number: Option<Seq<char>>,
    pub title: Option<Seq<char>>,
    pub price: Option<Seq<char>>,
    pub image: Option<Seq<char>>,
}

impl View for CardTexts {
    type V = CardTextsView;

    open spec fn view(&self) -> CardTextsView {
        CardTextsView {
            number: text::text_view(self.number),
            title: text::text_view(self.title),
            price: text::text_view(self.price),
            image: text::text_view(self.image),
        }
    }
}

/// The number of the product in a card.
pub open spec fn card_number(card: Seq<char>) -> Option<Seq<char>> {
    pattern::captured("item/(\\d+)\\.html"@, card, 1)
}

/// The texts that stand in a card.
pub open spec fn card_texts(card: Seq<char>) -> CardTextsView {
    CardTextsView {
        number: card_number(card),
        title: pattern::captured("alt=\"([^\"]{15,200})\""@, card, 1),
        price: pattern::captured("R\\$([\\d.,]+)"@, card, 1),
        image: pattern::captured("src=\"(//ae-pic[^\"]+)\""@, card, 1),
    }
}

/// The texts that stand in a card.
pub fn find_card_texts(card: &str) -> (r: CardTexts)
    ensures
        r@ == card_texts(card@),
{
    CardTexts {
        number: pattern::capture("item/(\\d+)\\.html", card, 1),
        title: pattern::capture("alt=\"([^\"]{15,200})\"", card, 1),
        price: pattern::capture("R\\$([\\d.,]+)", card, 1),
        image: pattern::capture("src=\"(//ae-pic[^\"]+)\"", card, 1),
    }
}

/// The offer that a card with these texts is: none without a number, a title of ten
/// bytes or a price.
pub open spec fn card_offer(t: CardTextsView, at: int) -> Option<models::ProductView> {
    let title = text::or_empty(t.title);
    let price = match t.price {
        Some(s) => ali_amount(s),
        None => decimal::dec(0, 0),
    };
    match t.number {
        Some(number) => if text::byte_len(title) < 10 || price@.mantissa == 0 {
            None
        } else {
            Some(
                models::ProductView {
                    image_url: match t.image {
                        Some(s) => Some("https:"@ + s),
                        None => None,
                    },
                    domestic: false,
                    ..models::offer(
                        ProviderId::AliExpress,
                        number,
                        title,
                        "https://pt.aliexpress.com/item/"@ + number + ".html"@,
                        ali_price(price, Currency::BRL),
                        at,
                    )
                },
            )
        },
        None => None,
    }
}

/// The offer that a card with these texts is.
pub fn read_card_texts(t: CardTexts, at: i128) -> (r: Option<Product>)
    ensures
        providers::offer_view(r) == card_offer(t@, at as int),
{
    let number = match t.number {
        Some(n) => n,
        None => {
            return None;
        },
    };
    let title = text::else_empty(t.title);
    if text::text_bytes(title.as_str()) < 10 {
        return None;
    }
    let price = match t.price {
        Some(s) => parse_ali_price(s.as_str()),
        None => Decimal::zero(),
    };
    if price.is_zero() {
        return None;
    }
    let image_url = match t.image {
        Some(s) => Some(text::join2("https:", s.as_str())),
        None => None,
    };
    let url = text::join3("https://pt.aliexpress.com/item/", number.as_str(), ".html");
    let base = Product::offer(
        ProviderId::AliExpress,
        number,
        title,
        url,
        price_there(price, Currency::BRL),
        at,
    );
    Some(Product { image_url, domestic: false, ..base })
}

/// The card that begins at the `i`-th mark.
pub open spec fn card_at(page: Seq<char>, m: Seq<pattern::FoundView>, i: int) -> Seq<char> {
    text::byte_slice(page, m[i].start, card_end(m, i))
}

/// Whether the card that begins at the `i`-th mark lies within the page and ends
/// between two characters.
pub open spec fn card_held(page: Seq<char>, m: Seq<pattern::FoundView>, i: int) -> bool {
    text::sliceable(page, m[i].start, card_end(m, i))
}

/// Whether the number in the `k`-th card is that of one before it.
pub open spec fn number_before(page: Seq<char>, m: Seq<pattern::FoundView>, k: int) -> bool {
    exists|j: int|
        0 <= j < k && card_number(#[trigger] card_at(page, m, j)) == card_number(
            card_at(page, m, k),
        )
}

/// The offers that the first `k` cards of a page are, at most `max` of them and one
/// for each number, or `None` where a card on the way does not lie within the page
/// or ends within a character.
pub open spec fn card_offers(
    page: Seq<char>,
    m: Seq<pattern::FoundView>,
    k: int,
    max: nat,
    at: int,
) -> Option<Seq<models::ProductView>>
    decreases k,
{
    if k <= 0 {
        Some(Seq::empty())
    } else {
        match card_offers(page, m, k - 1, max, at) {
            Some(before) => if before.len() >= max {
                Some(before)
            } else if !card_held(page, m, k - 1) {
                None
            } else if card_number(card_at(page, m, k - 1)) is None || number_before(
                page,
                m,
                k - 1,
            ) {
                Some(before)
            } else {
                match card_offer(card_texts(card_at(page, m, k - 1)), at) {
                    Some(p) => Some(before.push(p)),
                    None => Some(before),
                }
            },
            None => None,
        }
    }
}

proof fn lemma_card_lost(
    page: Seq<char>,
    m: Seq<pattern::FoundView>,
    i: int,
    k: int,
    max: nat,
    at: int,
)
    requires
        i <= k,
        card_offers(page, m, i, max, at) is None,
    ensures
        card_offers(page, m, k, max, at) is None,
    decreases k - i,
{
    if i < k {
        lemma_card_lost(page, m, i, k - 1, max, at);
    }
}

proof fn lemma_card_kept(
    page: Seq<char>,
    m: Seq<pattern::FoundView>,
    i: int,
    k: int,
    max: nat,
    at: int,
)
    requires
        i <= k,
        card_offers(page, m, i, max, at) is Some,
        card_offers(page, m, i, max, at)->0.len() >= max,
    ensures
        card_offers(page, m, k, max, at) == card_offers(page, m, i, max, at),
    decreases k - i,
{
    if i < k {
        lemma_card_kept(page, m, i, k - 1, max, at);
    }
}

/// Whether one of some texts that may be missing is a text.
fn number_known(v: &Vec<Option<String>>, s: &str) -> (r: bool)
    ensures
        r == exists|i: int| 0 <= i < v@.len() && text::text_view(#[trigger] v@[i]) == Some(s@),
{
    let mut i: usize = 0;
    while i < v.len()
        invariant
            i <= v@.len(),
            forall|k: int| 0 <= k < i ==> text::text_view(#[trigger] v@[k]) != Some(s@),
        decreases v@.len() - i,
    {
        match &v[i] {
            Some(t) => {
                if text::same_text(t.as_str(), s) {
                    assert(text::text_view(v@[i as int]) == Some(s@));
                    return true;
                }
            },
            None => {},
        }
        i = i + 1;
    }
    false
}

/// The offers that the cards of a page are, at most `max_results` of them and one
/// for each number, or `None` where a card on the way does not lie within the page
/// or ends within a character.
pub fn read_ali_cards(page: &str, m: &Vec<Found>, max_results: usize, at: i128) -> (r: Option<
    Vec<Product>,
>)
    ensures
        match r {
            Some(v) => card_offers(
                page@,
                pattern::found_views(m@),
                m@.len() as int,
                max_results as nat,
                at as int,
            ) == Some(models::product_views(v@)),
            None => card_offers(
                page@,
                pattern::found_views(m@),
                m@.len() as int,
                max_results as nat,
                at as int,
            ) is None,
        },
{
    let ghost all = pattern::found_views(m@);
    let size: usize = m.len();
    let bytes: usize = text::text_bytes(page);
    let mut out: Vec<Product> = Vec::new();
    let mut numbers: Vec<Option<String>> = Vec::new();
    let mut k: usize = 0;
    assert(models::product_views(out@) =~= Seq::empty());
    while k < size
        invariant
            k <= size == m@.len(),
            bytes == text::byte_len(page@),
            all == pattern::found_views(m@),
            card_offers(page@, all, k as int, max_results as nat, at as int) == Some(
                models::product_views(out@),
            ),
            numbers@.len() == k,
            forall|j: int|
                0 <= j < k ==> text::text_view(#[trigger] numbers@[j]) == card_number(
                    card_at(page@, all, j),
                ),
        decreases size - k,
    {
        assert(all[k as int] == m@[k as int]@);
        assert(models::product_views(out@).len() == out@.len());
        let ghost so_far = out@;
        if out.len() >= max_results {
            proof {
                lemma_card_kept(
                    page@,
                    all,
                    k as int,
                    size as int,
                    max_results as nat,
                    at as int,
                );
            }
            return Some(out);
        }
        let start: usize = m[k].start;
        proof {
            if k + 1 < size {
                assert(all[k + 1] == m@[k + 1]@);
            }
        }
        let card = if k + 1 < size && (m[k + 1].start < start || m[k + 1].start - start < 4000) {
            text::slice_bytes(page, start, m[k + 1].start)
        } else if start > bytes || bytes - start < 4000 {
            None
        } else {
            text::slice_bytes(page, start, start + 4000)
        };
        let card = match card {
            Some(c) => c,
            None => {
                proof {
                    assert(!card_held(page@, all, k as int));
                    lemma_card_lost(
                        page@,
                        all,
                        k + 1,
                        size as int,
                        max_results as nat,
                        at as int,
                    );
                }
                return None;
            },
        };
        assert(card@ == card_at(page@, all, k as int));
        let texts = find_card_texts(card);
        let number = models::copy_text(&texts.number);
        let again = match &texts.number {
            Some(n) => number_known(&numbers, n.as_str()),
            None => true,
        };
        proof {
            if texts.number is Some && again {
                let i = choose|i: int|
                    0 <= i < numbers@.len() && text::text_view(#[trigger] numbers@[i])
                        == card_number(card@);
                assert(card_number(card_at(page@, all, i)) == card_number(card@));
            }
            if texts.number is Some && number_before(page@, all, k as int) {
                let j = choose|j: int|
                    0 <= j < k && card_number(#[trigger] card_at(page@, all, j)) == card_number(
                        card@,
                    );
                assert(text::text_view(numbers@[j]) == card_number(card@));
            }
        }
        if !again {
            match read_card_texts(texts, at) {
                Some(p) => {
                    out.push(p);
                    proof {
                        providers::lemma_product_push(so_far, p);
                    }
                },
                None => {},
            }
        }
        numbers.push(number);
        k = k + 1;
    }
    Some(out)
}

/// The offers that the cards of a page are.
pub open spec fn rendered_offers(page: Seq<char>, max: nat, at: int) -> Option<
    Seq<models::ProductView>,
> {
    let m = pattern::regex_matches("card-out-wrapper"@, page);
    card_offers(page, m, m.len() as int, max, at)
}

/// The offers that the cards of a page are, or `None` where a card on the way does
/// not lie within the page or ends within a character.
pub fn scrape_rendered_html(page: &str, max_results: usize, at: i128) -> (r: Option<Vec<Product>>)
    ensures
        match r {
            Some(v) => rendered_offers(page@, max_results as nat, at as int) == Some(
                models::product_views(v@),
            ),
            None => rendered_offers(page@, max_results as nat, at as int) is None,
        },
{
    let m = pattern::find_all("card-out-wrapper", page);
    assert(pattern::found_views(m@).len() == m@.len());
    read_ali_cards(page, &m, max_results, at)
}

/// The offers on a page, or the reason why there are none: those in its data, or
/// those on its cards where there are no others.
pub open spec fn ali_offers(page: Seq<char>, max: nat, at: int) -> Result<
    Seq<models::ProductView>,
    ProviderErrorView,
> {
    if dida_offers(page, at).len() > 0 {
        Ok(dida_offers(page, at))
    } else {
        match rendered_offers(page, max, at) {
            Some(v) => Ok(v),
            None => Err(ProviderErrorView::Parse("AliExpress card is cut off"@)),
        }
    }
}

impl Provider for AliExpress {
    open spec fn identity(&self) -> ProviderId {
        ProviderId::AliExpress
    }

    open spec fn offers(&self, page: Seq<char>, max_results: nat, at: int) -> Result<
        Seq<models::ProductView>,
        ProviderErrorView,
    > {
        ali_offers(page, max_results, at)
    }

    fn name(&self) -> (r: &'static str) {
        "AliExpress"
    }

    fn id(&self) -> (r: ProviderId) {
        ProviderId::AliExpress
    }

    fn is_available(&self) -> (r: bool) {
        true
    }

    fn parse_html(&self, html: &str, max_results: usize, at: i128) -> (r: Result<
        Vec<Product>,
        ProviderError,
    >) {
        let data = try_extract_dida_data(html, at);
        assert(models::product_views(data@).len() == data@.len());
        if data.len() > 0 {
            return Ok(data);
        }
        match scrape_rendered_html(html, max_results, at) {
            Some(v) => Ok(v),
            None => Err(ProviderError::Parse("AliExpress card is cut off".to_string())),
        }
    }
}

/// Whether an offer is held as those of AliExpress are: from abroad, in the Remessa Conforme
/// programme, with its taxes held.
pub open spec fn of_aliexpress(p: models::ProductView, at: int) -> bool {
    &&& p.provider == ProviderId::AliExpress
    &&& p.price.listed_price@.mantissa != 0
    &&& p.price.price_brl == p.price.listed_price
    &&& p.price.total_cost == p.price.listed_price
    &&& p.price.shipping_cost is None
    &&& p.price.tax.taxes_included
    &&& p.price.tax.remessa_conforme
    &&& p.price.tax.tax_regime == TaxRegime::Unknown
    &&& p.price.tax.total_tax == decimal::dec(0, 0)
    &&& !p.domestic
    &&& p.condition == models::ProductCondition::New
    &&& p.fetched_at == at
    &&& p.normalized_title is None
    &&& p.keepa.len() == 0
    &&& p.price.tax.import_tax is None
    &&& p.price.tax.icms is None
    &&& p.price.shipping_currency == Currency::BRL
    &&& p.review_count is None
    &&& p.sold_count is None
    &&& p.seller is None
    &&& p.price.original_price is None
    &&& p.price.installments is None
}

/// Amounts with a comma are in Brazilian notation and others in plain notation, once the
/// signs of reais and dollars and the spaces are taken out.
pub proof fn amounts_go_by_their_comma(s: Seq<char>)
    ensures
        ({
            let bare = text::dropped(
                text::dropped(text::replaced(text::replaced(s, "R$"@, ""@), "US$"@, ""@), '$'),
                ' ',
            );
            let plain = if text::has(bare, ","@) {
                text::trimmed(text::swapped(text::dropped(bare, '.'), ',', '.'))
            } else {
                text::trimmed(bare)
            };
            let amount = decimal::decimal_from_text(plain);
            &&& amount is Some ==> ali_amount(s) == decimal::of_view(amount->0)
            &&& amount is None ==> ali_amount(s) == decimal::dec(0, 0)
        }),
{
}

/// Whether an offer is what an item of the data says, in reais where its price has their sign
/// and in dollars otherwise.
pub open spec fn ali_item_says(item: json::JsonView, p: models::ProductView, at: int) -> bool {
    let shown = json::text_of(json::member(json::member(item, "title"@), "displayTitle"@));
    let sale = json::member(json::member(item, "prices"@), "salePrice"@);
    let formatted = json::text_of(json::member(sale, "formattedPrice"@));
    let least = json::text_of(json::member(sale, "minPrice"@));
    let id = json::text_of(json::member(item, "productId"@));
    let image = json::text_of(json::member(json::member(item, "image"@), "imgUrl"@));
    let stars = json::text_of(json::member(json::member(item, "evaluation"@), "starRating"@));
    &&& of_aliexpress(p, at)
    &&& shown is Some ==> p.title == shown->0
    &&& shown is None ==> json::text_of(json::member(json::member(item, "title"@), "text"@))
        == Some(p.title)
    &&& id is Some ==> p.platform_id == id->0
    &&& id is Some && id->0.len() > 0 ==> p.url == "https://pt.aliexpress.com/item/"@ + id->0
        + ".html"@
    &&& formatted is Some ==> p.price.listed_price == ali_amount(formatted->0)
    &&& formatted is Some ==> (p.price.currency == Currency::BRL <==> text::has(
        formatted->0,
        "R$"@,
    ))
    &&& formatted is None && least is Some ==> p.price.listed_price == ali_amount(least->0)
    &&& p.price.currency == Currency::BRL || p.price.currency == Currency::USD
    &&& image is Some && "//"@.is_prefix_of(image->0) ==> p.image_url == Some("https:"@ + image->0)
    &&& image is Some && !"//"@.is_prefix_of(image->0) ==> p.image_url == image
    &&& image is None ==> p.image_url is None
    &&& stars is Some ==> p.rating == rating::rating(stars->0)
    &&& stars is None ==> p.rating is None
}

/// The offers of a list of items are what the first fifty say.
pub proof fn ali_offers_are_what_items_say(items: Seq<json::JsonView>, at: int)
    ensures
        ali_items(items, at).len() <= 50,
        forall|i: int|
            0 <= i < ali_items(items, at).len() ==> exists|k: int|
                0 <= k < items.len() && k < 50 && ali_item_says(
                    #[trigger] items[k],
                    #[trigger] ali_items(items, at)[i],
                    at,
                ),
{
    let item = |j: json::JsonView| ali_offer(j, at);
    let first = providers::first_of(items, 50);
    let v = ali_items(items, at);
    decimal::lemma_dec(0, 0);
    providers::lemma_gathered_few(first, item);
    assert forall|i: int| 0 <= i < v.len() implies exists|k: int|
        0 <= k < items.len() && k < 50 && ali_item_says(#[trigger] items[k], #[trigger] v[i], at) by {
        providers::lemma_gathered_from(first, item, i);
        let k = choose|k: int| 0 <= k < first.len() && item(#[trigger] first[k]) == Some(v[i]);
        assert(first[k] == items[k]);
        assert(ali_item_says(items[k], v[i], at));
    }
}

/// Whether an offer is what the markup of a card says.
pub open spec fn ali_card_says(card: Seq<char>, p: models::ProductView, at: int) -> bool {
    let image = pattern::captured("src=\"(//ae-pic[^\"]+)\""@, card, 1);
    let price = pattern::captured("R\\$([\\d.,]+)"@, card, 1);
    &&& of_aliexpress(p, at)
    &&& p.price.currency == Currency::BRL
    &&& pattern::captured("item/(\\d+)\\.html"@, card, 1) == Some(p.platform_id)
    &&& p.url == "https://pt.aliexpress.com/item/"@ + p.platform_id + ".html"@
    &&& pattern::captured("alt=\"([^\"]{15,200})\""@, card, 1) is Some ==> pattern::captured(
        "alt=\"([^\"]{15,200})\""@,
        card,
        1,
    ) == Some(p.title)
    &&& text::byte_len(p.title) >= 10
    &&& price is Some
    &&& p.price.listed_price == ali_amount(price->0)
    &&& image is Some ==> p.image_url == Some("https:"@ + image->0)
    &&& image is None ==> p.image_url is None
    &&& p.rating is None
}

/// The offers of the cards of a page are at most as many as asked for, each what a card says,
/// which ends where the next one starts and after 4000 bytes at the latest; no two are of one
/// number.
pub proof fn ali_offers_are_what_cards_say(page: Seq<char>, max: nat, at: int)
    requires
        rendered_offers(page, max, at) is Some,
    ensures
        ({
            let m = pattern::regex_matches("card-out-wrapper"@, page);
            let v = rendered_offers(page, max, at)->0;
            &&& v.len() <= max
            &&& forall|i: int|
                0 <= i < v.len() ==> exists|k: int, end: int|
                    0 <= k < m.len() && end <= m[k].start + 4000 && (k + 1 < m.len() ==> end
                        <= m[k + 1].start) && (end == m[k].start + 4000 || k + 1 < m.len() && end
                        == m[k + 1].start) && ali_card_says(
                        #[trigger] text::byte_slice(page, m[k].start, end),
                        #[trigger] v[i],
                        at,
                    )
            &&& forall|i: int, j: int|
                0 <= i < j < v.len() ==> (#[trigger] v[i]).platform_id != (
                #[trigger] v[j]).platform_id
        }),
{
    let m = pattern::regex_matches("card-out-wrapper"@, page);
    let v = rendered_offers(page, max, at)->0;
    lemma_ali_cards(page, m, m.len() as int, v, max, at);
    assert forall|i: int| 0 <= i < v.len() implies exists|k: int, end: int|
        0 <= k < m.len() && end <= m[k].start + 4000 && (k + 1 < m.len() ==> end <= m[k + 1].start)
            && (end == m[k].start + 4000 || k + 1 < m.len() && end == m[k + 1].start)
            && ali_card_says(
            #[trigger] text::byte_slice(page, m[k].start, end),
            #[trigger] v[i],
            at,
        ) by {
        let k = choose|k: int|
            0 <= k < m.len() && ali_card_says(#[trigger] card_at(page, m, k), v[i], at);
        assert(ali_card_says(text::byte_slice(page, m[k].start, card_end(m, k)), v[i], at));
    }
}

proof fn lemma_ali_cards(
    page: Seq<char>,
    m: Seq<pattern::FoundView>,
    k: int,
    v: Seq<models::ProductView>,
    max: nat,
    at: int,
)
    requires
        k <= m.len(),
        card_offers(page, m, k, max, at) == Some(v),
    ensures
        v.len() <= max,
        forall|i: int|
            0 <= i < v.len() ==> exists|n: int|
                0 <= n < k && ali_card_says(#[trigger] card_at(page, m, n), #[trigger] v[i], at),
        forall|i: int, j: int|
            0 <= i < j < v.len() ==> (#[trigger] v[i]).platform_id != (#[trigger] v[j]).platform_id,
    decreases k,
{
    if k > 0 {
        let before = card_offers(page, m, k - 1, max, at)->0;
        lemma_ali_cards(page, m, k - 1, before, max, at);
        decimal::lemma_dec(0, 0);
        if v.len() > before.len() {
            assert(ali_card_says(card_at(page, m, k - 1), v.last(), at));
        }
        assert forall|i: int| 0 <= i < v.len() implies exists|n: int|
            0 <= n < k && ali_card_says(#[trigger] card_at(page, m, n), #[trigger] v[i], at) by {
            if i < before.len() {
                assert(v[i] == before[i]);
                let n = choose|n: int|
                    0 <= n < k - 1 && ali_card_says(#[trigger] card_at(page, m, n), before[i], at);
                assert(ali_card_says(card_at(page, m, n), v[i], at));
            } else {
                assert(ali_card_says(card_at(page, m, k - 1), v[i], at));
            }
        }
        assert forall|i: int, j: int| 0 <= i < j < v.len() implies (#[trigger] v[i]).platform_id
            != (#[trigger] v[j]).platform_id by {
            assert(v[i] == before[i]);
            if j < before.len() {
                assert(v[j] == before[j]);
            } else {
                let n = choose|n: int|
                    0 <= n < k - 1 && ali_card_says(#[trigger] card_at(page, m, n), before[i], at);
                assert(card_number(card_at(page, m, n)) == Some(before[i].platform_id));
            }
        }
    }
}

/// A page with offers in its data has those: they are of the first module of it that has any,
/// which lists them under its fields.
pub proof fn data_goes_before_cards(page: Seq<char>, max: nat, at: int)
    ensures
        dida_offers(page, at).len() > 0 ==> ali_offers(page, max, at) == Ok::<
            Seq<models::ProductView>,
            ProviderErrorView,
        >(dida_offers(page, at)),
        dida_offers(page, at).len() > 0 ==> ({
            let object = providers::assigned_object(page, "window._dida_config_"@);
            let config = json::json_from_text(object->0);
            let modules = json::fields_of(
                json::member(
                    json::member(json::member(config->Ok_0, "_init_data_"@), "data"@),
                    "data"@,
                ),
            );
            &&& object is Some
            &&& config is Ok
            &&& modules is Some
            &&& exists|i: int| #[trigger]
                first_module(modules->0, i, at) && listed_in(modules->0[i].value) is Some
                    && dida_offers(page, at) == ali_items(listed_in(modules->0[i].value)->0, at)
        }),
        dida_offers(page, at).len() == 0 ==> match rendered_offers(page, max, at) {
            Some(v) => ali_offers(page, max, at) == Ok::<
                Seq<models::ProductView>,
                ProviderErrorView,
            >(v),
            None => ali_offers(page, max, at) is Err,
        },
{
    if dida_offers(page, at).len() > 0 {
        let object = providers::assigned_object(page, "window._dida_config_"@);
        let config = json::json_from_text(object->0);
        let modules = json::fields_of(
            json::member(
                json::member(json::member(config->Ok_0, "_init_data_"@), "data"@),
                "data"@,
            ),
        );
        lemma_module_offers(modules->0, 0, at);
    }
}

/// The items that a module lists.
pub open spec fn listed_in(module: json::JsonView) -> Option<Seq<json::JsonView>> {
    json::list_of(
        json::member(
            json::member(
                json::member(json::member(module, "fields"@), "mods"@),
                "itemList"@,
            ),
            "content"@,
        ),
    )
}

/// Whether a module is the first that has an offer.
pub open spec fn first_module(f: Seq<json::FieldView>, i: int, at: int) -> bool {
    &&& 0 <= i < f.len()
    &&& forall|j: int|
        0 <= j < i && listed_in((#[trigger] f[j]).value) is Some ==> ali_items(
            listed_in(f[j].value)->0,
            at,
        ).len() == 0
}

proof fn lemma_module_offers(f: Seq<json::FieldView>, k: int, at: int)
    requires
        0 <= k,
        module_offers(f, k, at).len() > 0,
        forall|j: int|
            0 <= j < k && listed_in((#[trigger] f[j]).value) is Some ==> ali_items(
                listed_in(f[j].value)->0,
                at,
            ).len() == 0,
    ensures
        exists|i: int| #[trigger]
            first_module(f, i, at) && listed_in(f[i].value) is Some && module_offers(f, k, at)
                == ali_items(listed_in(f[i].value)->0, at),
    decreases f.len() - k,
{
    if k < f.len() {
        let none = Seq::<json::JsonView>::empty();
        if ali_items(module_items(f[k].value), at).len() > 0 {
            if listed_in(f[k].value) is None {
                providers::lemma_gathered_few(
                    providers::first_of(none, 50),
                    |j: json::JsonView| ali_offer(j, at),
                );
                assert(ali_items(none, at).len() == 0);
            }
            assert(first_module(f, k, at));
        } else {
            lemma_module_offers(f, k + 1, at);
        }
    }
}

} // verus!
