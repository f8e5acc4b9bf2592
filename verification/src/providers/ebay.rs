//! eBay.

use vstd::prelude::*;

use crate::decimal;
use crate::decimal::Decimal;
use crate::error::{ProviderError, ProviderErrorView};
use crate::html;
use crate::html::Card;
use crate::json;
use crate::models;
use crate::models::{Currency, PriceInfo, Product, ProductCondition, TaxInfo, TaxRegime};
use crate::pattern;
use crate::providers;
use crate::providers::{Provider, ProviderId};
use crate::text;

verus! {

/// eBay.
pub struct Ebay;

impl Ebay {
    pub fn new() -> (r: Ebay)
        ensures
            r == Ebay,
    {
        Ebay
    }
}

/// The cards on a page of results: links and images; and the spoken name, the
/// title, the address, the source and the late source of each element.
pub open spec fn ebay_cards(page: Seq<char>) -> Seq<html::CardView> {
    html::page_cards(
        page,
        ".s-card, .s-item, li[data-viewport]"@,
        seq![
            "a[href*='/itm/'], a[href*='ebay.com/itm']"@,
            "img[src*='ebayimg'], img[data-src*='ebayimg']"@,
        ],
        seq!["aria-label"@, "title"@, "href"@, "src"@, "data-src"@],
    )
}

/// The cards on a page of results.
pub fn select_ebay_cards(page: &str) -> (r: Vec<Card>)
    ensures
        html::card_views(r@) == ebay_cards(page@),
{
    let parts: [&str; 2] = [
        "a[href*='/itm/'], a[href*='ebay.com/itm']",
        "img[src*='ebayimg'], img[data-src*='ebayimg']",
    ];
    let attrs: [&str; 5] = ["aria-label", "title", "href", "src", "data-src"];
    proof {
        assert(html::slices(parts@) =~= seq![
            "a[href*='/itm/'], a[href*='ebay.com/itm']"@,
            "img[src*='ebayimg'], img[data-src*='ebayimg']"@,
        ]);
        assert(html::slices(attrs@) =~= seq![
            "aria-label"@,
            "title"@,
            "href"@,
            "src"@,
            "data-src"@,
        ]);
    }
    html::select(page, ".s-card, .s-item, li[data-viewport]", &parts, &attrs)
}

/// The amounts that stand in the text of a card: its price in dollars and in reais,
/// and its shipping in reais and in dollars.
pub struct Amounts {
    pub usd: Option<String>,
    pub brl: Option<String>,
    pub ship_brl: Option<String>,
    pub ship_usd: Option<String>,
}

/// The amounts that stand in the text of a card.
pub struct AmountsView {
    pub usd: Option<Seq<char>>,
    pub brl: Option<Seq<char>>,
    pub ship_brl: Option<Seq<char>>,
    pub ship_usd: Option<Seq<char>>,
}

impl View for Amounts {
    type V = AmountsView;

    open spec fn view(&self) -> AmountsView {
        AmountsView {
            usd: text::text_view(self.usd),
            brl: text::text_view(self.brl),
            ship_brl: text::text_view(self.ship_brl),
            ship_usd: text::text_view(self.ship_usd),
        }
    }
}

/// The amounts that stand in a text.
pub open spec fn amounts_in(s: Seq<char>) -> AmountsView {
    AmountsView {
        usd: pattern::captured("US\\s*\\$\\s*([\\d,]+\\.?\\d*)"@, s, 1),
        brl: pattern::captured("R\\$\\s*([\\d.]+,\\d{2})"@, s, 1),
        ship_brl: pattern::captured(
            "\\+\\s*R\\$\\s*([\\d.]+,\\d{2})\\s*(?:de\\s+)?(?:entrega|frete|envio)"@,
            s,
            1,
        ),
        ship_usd: pattern::captured(
            "\\+\\s*US\\s*\\$\\s*([\\d,]+\\.?\\d*)\\s*(?:de\\s+)?(?:shipping|entrega|frete)"@,
            s,
            1,
        ),
    }
}

/// The amounts that stand in a text.
pub fn find_amounts(s: &str) -> (r: Amounts)
    ensures
        r@ == amounts_in(s@),
{
    Amounts {
        usd: pattern::capture("US\\s*\\$\\s*([\\d,]+\\.?\\d*)", s, 1),
        brl: pattern::capture("R\\$\\s*([\\d.]+,\\d{2})", s, 1),
        ship_brl: pattern::capture(
            "\\+\\s*R\\$\\s*([\\d.]+,\\d{2})\\s*(?:de\\s+)?(?:entrega|frete|envio)",
            s,
            1,
        ),
        ship_usd: pattern::capture(
            "\\+\\s*US\\s*\\$\\s*([\\d,]+\\.?\\d*)\\s*(?:de\\s+)?(?:shipping|entrega|frete)",
            s,
            1,
        ),
    }
}

/// The amount that a text in American notation stands for.
pub open spec fn usd_amount(s: Seq<char>) -> Option<Decimal> {
    providers::amount(text::dropped(s, ','))
}

/// The amount that a text in American notation stands for.
pub fn parse_usd(s: &str) -> (r: Option<Decimal>)
    ensures
        r == usd_amount(s@),
{
    let plain = text::drop_char(s, ',');
    Decimal::parse(plain.as_str())
}

/// The amount that a text in Brazilian notation stands for.
pub open spec fn real_amount(s: Seq<char>) -> Option<Decimal> {
    providers::amount(providers::plain_notation(s))
}

/// The amount that a text in Brazilian notation stands for.
pub fn parse_real(s: &str) -> (r: Option<Decimal>)
    ensures
        r == real_amount(s@),
{
    let plain = providers::to_plain_notation(s);
    Decimal::parse(plain.as_str())
}

/// Whether a line of a card can be its title.
pub open spec fn title_line(s: Seq<char>) -> bool {
    text::byte_len(s) > 15 && !"R$"@.is_prefix_of(s) && !"US"@.is_prefix_of(s)
}

/// The first of some lines, from the `i`-th on, that can be a title.
pub open spec fn first_title_line(lines: Seq<Seq<char>>, i: int) -> Seq<char>
    decreases lines.len() - i,
{
    if i < 0 || i >= lines.len() {
        Seq::empty()
    } else if title_line(text::trimmed(lines[i])) {
        text::trimmed(lines[i])
    } else {
        first_title_line(lines, i + 1)
    }
}

/// The title of a card: what its link says of itself, or the first line of its text
/// that can be one.
pub open spec fn ebay_title(c: html::CardView) -> Seq<char> {
    match json::either(
        html::attr_in(html::first_part(c, 0), 0),
        html::attr_in(html::first_part(c, 0), 1),
    ) {
        Some(s) => text::trimmed(s),
        None => first_title_line(text::pieces(c.element.text, '\n'), 0),
    }
}

/// The title of a card.
pub fn find_ebay_title(c: &Card) -> (r: String)
    ensures
        r@ == ebay_title(c@),
{
    match json::first_text(html::part_attr(c, 0, 0), html::part_attr(c, 0, 1)) {
        Some(s) => text::trim(s.as_str()),
        None => {
            let lines = text::split_char(c.element.text.as_str(), '\n');
            let ghost all = text::pieces(c@.element.text, '\n');
            assert(text::texts(lines@) == all);
            let mut i: usize = 0;
            while i < lines.len()
                invariant
                    i <= lines@.len(),
                    text::texts(lines@) == all,
                    ebay_title(c@) == first_title_line(all, i as int),
                decreases lines@.len() - i,
            {
                assert(all[i as int] == lines@[i as int]@);
                let line = text::trim(lines[i].as_str());
                if text::text_bytes(line.as_str()) > 15 && !text::starts_with(line.as_str(), "R$")
                    && !text::starts_with(line.as_str(), "US") {
                    return line;
                }
                i = i + 1;
            }
            let none = String::new();
            assert(none@ =~= first_title_line(all, i as int));
            none
        },
    }
}

/// The condition that a text in lower case speaks of.
pub open spec fn condition_in(s: Seq<char>) -> ProductCondition {
    if text::has(s, "refurbished"@) || text::has(s, "recondicionado"@) {
        ProductCondition::Refurbished
    } else if text::has(s, "pre-owned"@) || text::has(s, "usado"@) || text::has(s, "seminovo"@) {
        ProductCondition::Used
    } else if text::has(s, "brand new"@) || text::has(s, "novo em folha"@) || text::has(
        s,
        "novo"@,
    ) {
        ProductCondition::New
    } else {
        ProductCondition::Unknown
    }
}

/// The condition that a text in lower case speaks of.
pub fn find_condition(s: &str) -> (r: ProductCondition)
    ensures
        r == condition_in(s@),
{
    if text::contains(s, "refurbished") || text::contains(s, "recondicionado") {
        ProductCondition::Refurbished
    } else if text::contains(s, "pre-owned") || text::contains(s, "usado") || text::contains(
        s,
        "seminovo",
    ) {
        ProductCondition::Used
    } else if text::contains(s, "brand new") || text::contains(s, "novo em folha")
        || text::contains(s, "novo") {
        ProductCondition::New
    } else {
        ProductCondition::Unknown
    }
}

/// What shipping costs: nothing where a text in lower case says that it is free, or
/// the amount that the card gives.
pub open spec fn ebay_shipping(lower: Seq<char>, a: AmountsView) -> Option<Decimal> {
    if text::has(lower, "frete grátis"@) || text::has(lower, "free shipping"@) {
        Some(decimal::dec(0, 0))
    } else if a.ship_brl is Some {
        real_amount(a.ship_brl->0)
    } else if a.ship_usd is Some {
        usd_amount(a.ship_usd->0)
    } else {
        None
    }
}

/// The currency that shipping is given in: dollars where the card gives it in dollars
/// alone and it is not free.
pub open spec fn ebay_shipping_currency(lower: Seq<char>, a: AmountsView) -> Currency {
    if !text::has(lower, "frete grátis"@) && !text::has(lower, "free shipping"@)
        && a.ship_brl is None && a.ship_usd is Some {
        Currency::USD
    } else {
        Currency::BRL
    }
}

/// The number of a product in its address: what stands behind the first "/itm/", up
/// to the next one or a question mark.
pub open spec fn ebay_number(url: Seq<char>) -> Seq<char> {
    match text::after(url, "/itm/"@) {
        Some(rest) => match text::before(rest, "/itm/"@) {
            Some(part) => text::up_to(part, '?'),
            None => text::up_to(rest, '?'),
        },
        None => Seq::empty(),
    }
}

/// The number of a product in its address.
pub fn find_ebay_number(url: &str) -> (r: String)
    ensures
        r@ == ebay_number(url@),
{
    match text::after_text(url, "/itm/") {
        Some(rest) => match text::before_text(rest.as_str(), "/itm/") {
            Some(part) => text::before_char(part.as_str(), '?'),
            None => text::before_char(rest.as_str(), '?'),
        },
        None => String::new(),
    }
}

/// What a card is: no offer, an offer, or one whose price and shipping together are
/// too large to be held.
pub enum CardReading {
    Nothing,
    Offer(Product),
    TooLarge,
}

/// What a card is.
pub enum CardReadingView {
    Nothing,
    Offer(models::ProductView),
    TooLarge,
}

impl View for CardReading {
    type V = CardReadingView;

    open spec fn view(&self) -> CardReadingView {
        match *self {
            CardReading::Nothing => CardReadingView::Nothing,
            CardReading::Offer(p) => CardReadingView::Offer(p@),
            CardReading::TooLarge => CardReadingView::TooLarge,
        }
    }
}

/// The price of a card and its currency: in dollars where it has one, in reais
/// otherwise.
pub open spec fn ebay_price(a: AmountsView) -> Option<(Decimal, Currency)> {
    if a.usd is Some {
        Some((providers::or_nothing(usd_amount(a.usd->0)), Currency::USD))
    } else if a.brl is Some {
        Some((providers::or_nothing(real_amount(a.brl->0)), Currency::BRL))
    } else {
        None
    }
}

/// Whether a card is one of a product: with enough text, and neither a heading nor a
/// range of prices.
pub open spec fn product_card(s: Seq<char>) -> bool {
    text::byte_len(s) >= 30 && !text::has(s, "Shop on eBay"@) && !text::has(s, "Resultados"@)
        && !text::has(s, " a R$"@) && !text::has(s, " to "@)
}

/// What a card with these amounts is: no offer without a title of ten bytes, a price
/// of two or an address. Everything is shipped from abroad.
pub open spec fn ebay_reading(c: html::CardView, a: AmountsView, at: int) -> CardReadingView {
    let s = c.element.text;
    let title = ebay_title(c);
    let url = text::or_empty(html::attr_in(html::first_part(c, 0), 2));
    let lower = text::lowered(s);
    let shipping = ebay_shipping(lower, a);
    match ebay_price(a) {
        Some((price, currency)) => if !product_card(s) || text::byte_len(title) < 10
            || decimal::below(price, decimal::dec(2, 0)) || url.len() == 0 {
            CardReadingView::Nothing
        } else {
            match decimal::sum(price, providers::or_nothing(shipping)) {
                Some(total) => CardReadingView::Offer(
                    models::ProductView {
                        image_url: json::either(
                            html::attr_in(html::first_part(c, 1), 3),
                            html::attr_in(html::first_part(c, 1), 4),
                        ),
                        condition: condition_in(lower),
                        domestic: false,
                        ..models::offer(
                            ProviderId::Ebay,
                            ebay_number(url),
                            title,
                            url,
                            PriceInfo {
                                shipping_cost: shipping,
                                shipping_currency: ebay_shipping_currency(lower, a),
                                total_cost: total,
                                ..models::listed(
                                    price,
                                    currency,
                                    models::untaxed(false, false, TaxRegime::Unknown),
                                )
                            },
                            at,
                        )
                    },
                ),
                None => CardReadingView::TooLarge,
            }
        },
        None => CardReadingView::Nothing,
    }
}

/// What a card with these amounts is.
pub fn read_ebay_card(c: &Card, a: &Amounts, at: i128) -> (r: CardReading)
    ensures
        r@ == ebay_reading(c@, a@, at as int),
{
    let s = c.element.text.as_str();
    if text::text_bytes(s) < 30 || text::contains(s, "Shop on eBay") || text::contains(
        s,
        "Resultados",
    ) || text::contains(s, " a R$") || text::contains(s, " to ") {
        return CardReading::Nothing;
    }
    let title = find_ebay_title(c);
    if text::text_bytes(title.as_str()) < 10 {
        return CardReading::Nothing;
    }
    let (price, currency) = match &a.usd {
        Some(t) => (providers::else_nothing(parse_usd(t.as_str())), Currency::USD),
        None => match &a.brl {
            Some(t) => (providers::else_nothing(parse_real(t.as_str())), Currency::BRL),
            None => {
                return CardReading::Nothing;
            },
        },
    };
    if price.lt(&Decimal::new(2, 0)) {
        return CardReading::Nothing;
    }
    let url = text::else_empty(html::part_attr(c, 0, 2));
    if url.as_str().is_empty() {
        return CardReading::Nothing;
    }
    let image_url = json::first_text(html::part_attr(c, 1, 3), html::part_attr(c, 1, 4));
    let lower = text::lowercase(s);
    let condition = find_condition(lower.as_str());
    let (shipping, shipping_currency) = if text::contains(lower.as_str(), "frete grátis") || text::contains(
        lower.as_str(),
        "free shipping",
    ) {
        (Some(Decimal::zero()), Currency::BRL)
    } else {
        match &a.ship_brl {
            Some(t) => (parse_real(t.as_str()), Currency::BRL),
            None => match &a.ship_usd {
                Some(t) => (parse_usd(t.as_str()), Currency::USD),
                None => (None, Currency::BRL),
            },
        }
    };
    let total = match price.checked_add(&providers::else_nothing(shipping)) {
        Some(t) => t,
        None => {
            return CardReading::TooLarge;
        },
    };
    let number = find_ebay_number(url.as_str());
    let listed = PriceInfo::listed(
        price,
        currency,
        TaxInfo::untaxed(false, false, TaxRegime::Unknown),
    );
    let base = Product::offer(
        ProviderId::Ebay,
        number,
        title,
        url,
        PriceInfo { shipping_cost: shipping, shipping_currency, total_cost: total, ..listed },
        at,
    );
    CardReading::Offer(Product { image_url, condition, domestic: false, ..base })
}

/// The offers on some cards, at most `max` of them, or `None` where a price on the
/// way is too large to be held.
pub open spec fn ebay_card_offers(cards: Seq<html::CardView>, max: nat, at: int) -> Option<
    Seq<models::ProductView>,
>
    decreases cards.len(),
{
    if cards.len() == 0 {
        Some(Seq::empty())
    } else {
        match ebay_card_offers(cards.drop_last(), max, at) {
            Some(before) => if before.len() >= max {
                Some(before)
            } else {
                match ebay_reading(cards.last(), amounts_in(cards.last().element.text), at) {
                    CardReadingView::Nothing => Some(before),
                    CardReadingView::Offer(p) => Some(before.push(p)),
                    CardReadingView::TooLarge => None,
                }
            },
            None => None,
        }
    }
}

proof fn lemma_too_large(cards: Seq<html::CardView>, max: nat, at: int, i: int)
    requires
        0 <= i <= cards.len(),
        ebay_card_offers(cards.take(i), max, at) is None,
    ensures
        ebay_card_offers(cards, max, at) is None,
    decreases cards.len() - i,
{
    if i < cards.len() {
        assert(cards.take(i + 1).drop_last() =~= cards.take(i));
        lemma_too_large(cards, max, at, i + 1);
    } else {
        assert(cards.take(i) =~= cards);
    }
}

/// The offers on the first `max_results + 10` cards, at most `max_results` of them,
/// or `None` where a price on the way is too large to be held.
pub fn read_ebay_cards(cards: &Vec<Card>, max_results: usize, at: i128) -> (r: Option<
    Vec<Product>,
>)
    ensures
        match r {
            Some(v) => ebay_card_offers(
                providers::first_of(html::card_views(cards@), max_results as nat + 10),
                max_results as nat,
                at as int,
            ) == Some(models::product_views(v@)),
            None => ebay_card_offers(
                providers::first_of(html::card_views(cards@), max_results as nat + 10),
                max_results as nat,
                at as int,
            ) is None,
        },
{
    let ghost all = providers::first_of(html::card_views(cards@), max_results as nat + 10);
    let limit: usize = if cards.len() < 10 || cards.len() - 10 <= max_results {
        cards.len()
    } else {
        max_results + 10
    };
    let mut out: Vec<Product> = Vec::new();
    let mut i: usize = 0;
    assert(models::product_views(out@) =~= Seq::empty());
    while i < limit
        invariant
            i <= limit <= cards@.len(),
            all == providers::first_of(html::card_views(cards@), max_results as nat + 10),
            all.len() == limit,
            forall|k: int| 0 <= k < limit ==> #[trigger] all[k] == cards@[k]@,
            ebay_card_offers(all.take(i as int), max_results as nat, at as int) == Some(
                models::product_views(out@),
            ),
        decreases limit - i,
    {
        assert(all.take(i + 1).drop_last() =~= all.take(i as int));
        assert(all[i as int] == cards@[i as int]@);
        let ghost so_far = out@;
        assert(models::product_views(out@).len() == out@.len());
        if out.len() < max_results {
            let amounts = find_amounts(cards[i].element.text.as_str());
            match read_ebay_card(&cards[i], &amounts, at) {
                CardReading::Nothing => {},
                CardReading::Offer(p) => {
                    out.push(p);
                    proof {
                        providers::lemma_product_push(so_far, p);
                    }
                },
                CardReading::TooLarge => {
                    proof {
                        lemma_too_large(all, max_results as nat, at as int, i + 1);
                    }
                    return None;
                },
            }
        }
        i = i + 1;
    }
    assert(all.take(i as int) =~= all);
    Some(out)
}

/// The offers on a page, or the reason why there are none.
pub open spec fn ebay_offers(page: Seq<char>, max_results: nat, at: int) -> Result<
    Seq<models::ProductView>,
    ProviderErrorView,
> {
    match ebay_card_offers(
        providers::first_of(ebay_cards(page), max_results + 10),
        max_results,
        at,
    ) {
        Some(v) => Ok(v),
        None => Err(ProviderErrorView::Parse("eBay price out of range"@)),
    }
}

impl Provider for Ebay {
    open spec fn identity(&self) -> ProviderId {
        ProviderId::Ebay
    }

    open spec fn offers(&self, page: Seq<char>, max_results: nat, at: int) -> Result<
        Seq<models::ProductView>,
        ProviderErrorView,
    > {
        ebay_offers(page, max_results, at)
    }

    fn name(&self) -> (r: &'static str) {
        "eBay"
    }

    fn id(&self) -> (r: ProviderId) {
        ProviderId::Ebay
    }

    fn is_available(&self) -> (r: bool) {
        true
    }

    fn parse_html(&self, html: &str, max_results: usize, at: i128) -> (r: Result<
        Vec<Product>,
        ProviderError,
    >) {
        let cards = select_ebay_cards(html);
        match read_ebay_cards(&cards, max_results, at) {
            Some(v) => Ok(v),
            None => Err(ProviderError::Parse("eBay price out of range".to_string())),
        }
    }
}

/// Whether an offer is what a card on eBay says: the price in dollars where there is one and
/// in reais otherwise, at least two of either; what the delivery costs beside it, nothing
/// where it is free; the condition that its words tell; from abroad, outside the Remessa
/// Conforme programme, with taxes that are not known yet.
pub open spec fn ebay_card_says(c: html::CardView, p: models::ProductView, at: int) -> bool {
    let s = c.element.text;
    let lower = text::lowered(s);
    let usd = pattern::captured("US\\s*\\$\\s*([\\d,]+\\.?\\d*)"@, s, 1);
    let brl = pattern::captured("R\\$\\s*([\\d.]+,\\d{2})"@, s, 1);
    let ship_brl = pattern::captured(
        "\\+\\s*R\\$\\s*([\\d.]+,\\d{2})\\s*(?:de\\s+)?(?:entrega|frete|envio)"@,
        s,
        1,
    );
    let ship_usd = pattern::captured(
        "\\+\\s*US\\s*\\$\\s*([\\d,]+\\.?\\d*)\\s*(?:de\\s+)?(?:shipping|entrega|frete)"@,
        s,
        1,
    );
    let free = text::has(lower, "frete grátis"@) || text::has(lower, "free shipping"@);
    let label = html::attr_in(html::first_part(c, 0), 0);
    let tip = html::attr_in(html::first_part(c, 0), 1);
    let image = html::attr_in(html::first_part(c, 1), 3);
    &&& p.provider == ProviderId::Ebay
    &&& text::byte_len(s) >= 30
    &&& !text::has(s, "Shop on eBay"@)
    &&& !text::has(s, "Resultados"@)
    &&& !text::has(s, " a R$"@)
    &&& !text::has(s, " to "@)
    &&& text::byte_len(p.title) >= 10
    &&& label is Some ==> p.title == text::trimmed(label->0)
    &&& label is None && tip is Some ==> p.title == text::trimmed(tip->0)
    &&& html::attr_in(html::first_part(c, 0), 2) == Some(p.url)
    &&& p.url.len() > 0
    &&& p.image_url == (if image is Some {
        image
    } else {
        html::attr_in(html::first_part(c, 1), 4)
    })
    &&& usd is Some || brl is Some
    &&& usd is Some ==> p.price.currency == Currency::USD && decimal::of_opt(
        decimal::decimal_from_text(text::dropped(usd->0, ',')),
    ) == Some(p.price.listed_price)
    &&& usd is None ==> p.price.currency == Currency::BRL && decimal::of_opt(
        decimal::decimal_from_text(text::swapped(text::dropped(brl->0, '.'), ',', '.')),
    ) == Some(p.price.listed_price)
    &&& decimal::at_most(decimal::dec(2, 0), p.price.listed_price)
    &&& free ==> p.price.shipping_cost == Some(decimal::dec(0, 0))
    &&& !free && ship_brl is Some ==> p.price.shipping_currency == Currency::BRL
        && p.price.shipping_cost == decimal::of_opt(
        decimal::decimal_from_text(text::swapped(text::dropped(ship_brl->0, '.'), ',', '.')),
    )
    &&& !free && ship_brl is None && ship_usd is Some ==> p.price.shipping_currency == Currency::USD
        && p.price.shipping_cost == decimal::of_opt(
        decimal::decimal_from_text(text::dropped(ship_usd->0, ',')),
    )
    &&& !free && ship_brl is None && ship_usd is None ==> p.price.shipping_cost is None
    &&& p.price.shipping_cost is None ==> decimal::sum(p.price.listed_price, decimal::dec(0, 0))
        == Some(p.price.total_cost)
    &&& p.price.shipping_cost is Some ==> decimal::sum(
        p.price.listed_price,
        p.price.shipping_cost->0,
    ) == Some(p.price.total_cost)
    &&& text::has(lower, "refurbished"@) || text::has(lower, "recondicionado"@) ==> p.condition
        == ProductCondition::Refurbished
    &&& p.condition == ProductCondition::Used ==> text::has(lower, "pre-owned"@) || text::has(
        lower,
        "usado"@,
    ) || text::has(lower, "seminovo"@)
    &&& p.condition == ProductCondition::New ==> text::has(lower, "brand new"@) || text::has(
        lower,
        "novo"@,
    ) || text::has(lower, "novo em folha"@)
    &&& p.condition == ProductCondition::New || p.condition == ProductCondition::Unknown
        ==> !text::has(lower, "refurbished"@) && !text::has(lower, "recondicionado"@) && !text::has(
        lower,
        "pre-owned"@,
    ) && !text::has(lower, "usado"@) && !text::has(lower, "seminovo"@)
    &&& p.condition == ProductCondition::Refurbished ==> text::has(lower, "refurbished"@)
        || text::has(lower, "recondicionado"@)
    &&& p.condition == ProductCondition::Unknown ==> !text::has(lower, "brand new"@) && !text::has(
        lower,
        "novo"@,
    )
    &&& !p.price.tax.taxes_included
    &&& !p.price.tax.remessa_conforme
    &&& p.price.tax.tax_regime == TaxRegime::Unknown
    &&& !p.domestic
    &&& p.fetched_at == at
    &&& p.normalized_title is None
    &&& p.keepa.len() == 0
    &&& p.price.tax.import_tax is None
    &&& p.price.tax.icms is None
    &&& p.review_count is None
    &&& p.sold_count is None
    &&& p.seller is None
    &&& p.rating is None
    &&& p.price.original_price is None
    &&& p.price.installments is None
    &&& p.price.price_brl == p.price.listed_price
    &&& p.price.tax.total_tax == decimal::dec(0, 0)
    &&& text::after(p.url, "/itm/"@) is None ==> p.platform_id.len() == 0
    &&& text::after(p.url, "/itm/"@) is Some && !text::has(
        text::after(p.url, "/itm/"@)->0,
        "/itm/"@,
    ) ==> p.platform_id == text::up_to(text::after(p.url, "/itm/"@)->0, '?')
    &&& label is None && tip is None ==> exists|k: int|
        0 <= k < text::pieces(s, '\n').len() && p.title == text::trimmed(
            #[trigger] text::pieces(s, '\n')[k],
        ) && text::byte_len(p.title) > 15 && !"R$"@.is_prefix_of(p.title) && !"US"@.is_prefix_of(
            p.title,
        )
}

/// An offer of a card is what it says.
proof fn lemma_ebay_card(c: html::CardView, at: int)
    ensures
        ebay_reading(c, amounts_in(c.element.text), at) is Offer ==> ebay_card_says(
            c,
            ebay_reading(c, amounts_in(c.element.text), at)->Offer_0,
            at,
        ),
{
    decimal::lemma_dec(0, 0);
    decimal::lemma_dec(2, 0);
    decimal::lemma_pow10_positive(0);
    let p = ebay_reading(c, amounts_in(c.element.text), at)->Offer_0;
    let lines = text::pieces(c.element.text, '\n');
    if first_title_line(lines, 0).len() > 0 {
        lemma_title_line(lines, 0);
    }
    assert(text::byte_len(Seq::<char>::empty()) == 0) by {
        reveal_with_fuel(vstd::utf8::encode_utf8, 2);
    }
    let price = p.price.listed_price;
    if ebay_reading(c, amounts_in(c.element.text), at) is Offer {
        assert(!decimal::below(price, decimal::dec(2, 0)));
        lemma_two_is_more();
    }
}

/// The offers on a page of eBay are at most as many as asked for, and what its first cards
/// say, ten more of them than offers are asked for; with fewer offers than that, each card
/// that gives an offer has given it.
pub proof fn ebay_offers_are_what_cards_say(page: Seq<char>, max: nat, at: int)
    requires
        Ebay.offers(page, max, at) is Ok,
    ensures
        ebay_cards(page) == html::page_cards(
            page,
            ".s-card, .s-item, li[data-viewport]"@,
            seq![
                "a[href*='/itm/'], a[href*='ebay.com/itm']"@,
                "img[src*='ebayimg'], img[data-src*='ebayimg']"@,
            ],
            seq!["aria-label"@, "title"@, "href"@, "src"@, "data-src"@],
        ),
        Ebay.offers(page, max, at)->Ok_0.len() <= max,
        ({
            let cards = ebay_cards(page);
            let v = Ebay.offers(page, max, at)->Ok_0;
            forall|i: int|
                0 <= i < v.len() ==> exists|k: int|
                    0 <= k < cards.len() && k < max + 10 && ebay_card_says(
                        #[trigger] cards[k],
                        #[trigger] v[i],
                        at,
                    )
        }),
        ({
            let cards = ebay_cards(page);
            let v = Ebay.offers(page, max, at)->Ok_0;
            v.len() < max ==> forall|k: int|
                0 <= k < cards.len() && k < max + 10 && ebay_reading(
                    #[trigger] cards[k],
                    amounts_in(cards[k].element.text),
                    at,
                ) is Offer ==> exists|i: int|
                    0 <= i < v.len() && ebay_card_says(cards[k], #[trigger] v[i], at)
        }),
{
    let cards = ebay_cards(page);
    let first = providers::first_of(cards, max + 10);
    let v = Ebay.offers(page, max, at)->Ok_0;
    assert(ebay_card_offers(first, max, at) == Some(v));
    lemma_ebay_card_offers(first, v, max, at);
    assert(forall|k: int| 0 <= k < first.len() ==> #[trigger] first[k] == cards[k]);
    assert forall|i: int| 0 <= i < v.len() implies exists|k: int|
        0 <= k < cards.len() && k < max + 10 && ebay_card_says(
            #[trigger] cards[k],
            #[trigger] v[i],
            at,
        ) by {
        let k = choose|k: int| 0 <= k < first.len() && ebay_card_says(#[trigger] first[k], v[i], at);
        assert(ebay_card_says(cards[k], v[i], at));
    }
    if v.len() < max {
        assert forall|k: int|
            0 <= k < cards.len() && k < max + 10 && ebay_reading(
                #[trigger] cards[k],
                amounts_in(cards[k].element.text),
                at,
            ) is Offer implies exists|i: int|
            0 <= i < v.len() && ebay_card_says(cards[k], #[trigger] v[i], at) by {
            assert(first[k] == cards[k]);
        }
    }
}

proof fn lemma_ebay_card_offers(
    cards: Seq<html::CardView>,
    v: Seq<models::ProductView>,
    max: nat,
    at: int,
)
    requires
        ebay_card_offers(cards, max, at) == Some(v),
    ensures
        v.len() <= max,
        forall|i: int|
            0 <= i < v.len() ==> exists|k: int|
                0 <= k < cards.len() && ebay_card_says(#[trigger] cards[k], #[trigger] v[i], at),
        v.len() < max ==> forall|k: int|
            0 <= k < cards.len() && ebay_reading(
                #[trigger] cards[k],
                amounts_in(cards[k].element.text),
                at,
            ) is Offer ==> exists|i: int|
                0 <= i < v.len() && ebay_card_says(cards[k], #[trigger] v[i], at),
    decreases cards.len(),
{
    if cards.len() > 0 {
        let t = cards.drop_last();
        let before = ebay_card_offers(t, max, at)->0;
        lemma_ebay_card_offers(t, before, max, at);
        lemma_ebay_card(cards.last(), at);
        assert(forall|k: int| 0 <= k < t.len() ==> #[trigger] t[k] == cards[k]);
        assert forall|i: int| 0 <= i < v.len() implies exists|k: int|
            0 <= k < cards.len() && ebay_card_says(#[trigger] cards[k], #[trigger] v[i], at) by {
            if i < before.len() {
                assert(v[i] == before[i]);
                let k = choose|k: int|
                    0 <= k < t.len() && ebay_card_says(#[trigger] t[k], before[i], at);
                assert(ebay_card_says(cards[k], v[i], at));
            } else {
                assert(ebay_card_says(cards[cards.len() - 1], v[i], at));
            }
        }
        if v.len() < max {
            assert forall|k: int|
                0 <= k < cards.len() && ebay_reading(
                    #[trigger] cards[k],
                    amounts_in(cards[k].element.text),
                    at,
                ) is Offer implies exists|i: int|
                0 <= i < v.len() && ebay_card_says(cards[k], #[trigger] v[i], at) by {
                if k < t.len() {
                    assert(t[k] == cards[k]);
                    let i = choose|i: int|
                        0 <= i < before.len() && ebay_card_says(t[k], #[trigger] before[i], at);
                    assert(v[i] == before[i]);
                } else {
                    assert(ebay_card_says(cards[k], v[v.len() - 1], at));
                }
            }
        }
    }
}

/// Offers come in the order of their cards: one more card adds its own offer at the end, or
/// nothing.
pub proof fn ebay_offers_keep_the_order(cards: Seq<html::CardView>, max: nat, at: int)
    requires
        cards.len() > 0,
        ebay_card_offers(cards, max, at) is Some,
    ensures
        ({
            let before = ebay_card_offers(cards.drop_last(), max, at);
            let v = ebay_card_offers(cards, max, at)->0;
            &&& before is Some
            &&& v == before->0 || before->0.len() < max && v.len() == before->0.len() + 1
                && v.drop_last() == before->0 && ebay_card_says(cards.last(), v.last(), at)
        }),
{
    lemma_ebay_card(cards.last(), at);
    let before = ebay_card_offers(cards.drop_last(), max, at)->0;
    let v = ebay_card_offers(cards, max, at)->0;
    if v.len() > before.len() {
        assert(v.drop_last() =~= before);
    }
}

/// The title among the lines of a card is the first that could be one.
proof fn lemma_title_line(lines: Seq<Seq<char>>, i: int)
    requires
        0 <= i,
        first_title_line(lines, i).len() > 0,
    ensures
        exists|k: int|
            i <= k < lines.len() && first_title_line(lines, i) == text::trimmed(
                #[trigger] lines[k],
            ) && text::byte_len(first_title_line(lines, i)) > 15 && !"R$"@.is_prefix_of(
                first_title_line(lines, i),
            ) && !"US"@.is_prefix_of(first_title_line(lines, i)),
    decreases lines.len() - i,
{
    if i < lines.len() && !title_line(text::trimmed(lines[i])) {
        lemma_title_line(lines, i + 1);
    } else {
        assert(first_title_line(lines, i) == text::trimmed(lines[i]));
    }
}

/// Two is more than nothing.
proof fn lemma_two_is_more()
    ensures
        !decimal::at_most(decimal::dec(2, 0), decimal::dec(0, 0)),
{
    decimal::lemma_dec(0, 0);
    decimal::lemma_dec(2, 0);
    let (two, none) = (decimal::dec(2, 0), decimal::dec(0, 0));
    assert(two@.mantissa == 2 && two@.scale == 0);
    assert(none@.mantissa == 0 && none@.scale == 0);
    assert(decimal::pow10(0) == 1);
    assert(two@.mantissa * decimal::pow10(none@.scale) == 2 * 1);
    assert(none@.mantissa * decimal::pow10(two@.scale) == 0 * 1);
}

} // verus!
