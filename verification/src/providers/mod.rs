//! The stores that can be searched.

pub mod aliexpress;
pub mod amazon;
pub mod amazon_us;
pub mod ebay;
pub mod google_shopping;
pub mod kabum;
pub mod magalu;
pub mod mercadolivre;
pub mod olx;
pub mod shopee;

use vstd::prelude::*;

use crate::decimal;
use crate::decimal::Decimal;
use crate::error;
use crate::error::ProviderError;
use crate::json;
use crate::json::Json;
use crate::models;
use crate::models::{Currency, PriceInfo, Product, TaxInfo, TaxRegime};
use crate::text;

verus! {

/// A store.
#[derive(Clone, Copy, Debug, PartialEq, Eq, Hash, Structural)]
pub enum ProviderId {
    MercadoLivre,
    AliExpress,
    Shopee,
    Amazon,
    AmazonUS,
    Kabum,
    MagazineLuiza,
    Olx,
    GoogleShopping,
    Ebay,
}

/// The name of a store.
pub open spec fn provider_label(p: ProviderId) -> Seq<char> {
    match p {
        ProviderId::MercadoLivre => "Mercado Livre"@,
        ProviderId::AliExpress => "AliExpress"@,
        ProviderId::Shopee => "Shopee"@,
        ProviderId::Amazon => "Amazon BR"@,
        ProviderId::AmazonUS => "Amazon US"@,
        ProviderId::Kabum => "Kabum"@,
        ProviderId::MagazineLuiza => "Magazine Luiza"@,
        ProviderId::Olx => "OLX"@,
        ProviderId::GoogleShopping => "Google Shopping"@,
        ProviderId::Ebay => "eBay"@,
    }
}

/// The store that a name in lower case stands for.
pub open spec fn provider_named(s: Seq<char>) -> Option<ProviderId> {
    if s == "ml"@ || s == "mercadolivre"@ || s == "mercado_livre"@ {
        Some(ProviderId::MercadoLivre)
    } else if s == "ali"@ || s == "aliexpress"@ {
        Some(ProviderId::AliExpress)
    } else if s == "shopee"@ {
        Some(ProviderId::Shopee)
    } else if s == "amazon"@ || s == "amz"@ || s == "amazon_br"@ {
        Some(ProviderId::Amazon)
    } else if s == "amazon_us"@ || s == "amz_us"@ || s == "amazonus"@ {
        Some(ProviderId::AmazonUS)
    } else if s == "kabum"@ {
        Some(ProviderId::Kabum)
    } else if s == "magalu"@ || s == "magazineluiza"@ || s == "magazine_luiza"@ {
        Some(ProviderId::MagazineLuiza)
    } else if s == "olx"@ {
        Some(ProviderId::Olx)
    } else if s == "google"@ || s == "google_shopping"@ || s == "googleshopping"@ {
        Some(ProviderId::GoogleShopping)
    } else if s == "ebay"@ {
        Some(ProviderId::Ebay)
    } else {
        None
    }
}

/// Every store, each of them once.
pub open spec fn all_providers() -> Seq<ProviderId> {
    seq![
        ProviderId::MercadoLivre,
        ProviderId::AliExpress,
        ProviderId::Shopee,
        ProviderId::Amazon,
        ProviderId::AmazonUS,
        ProviderId::Kabum,
        ProviderId::MagazineLuiza,
        ProviderId::Olx,
        ProviderId::GoogleShopping,
        ProviderId::Ebay,
    ]
}

impl ProviderId {
    /// Every store.
    pub fn all() -> (r: Vec<ProviderId>)
        ensures
            r@ == all_providers(),
    {
        vec![
            ProviderId::MercadoLivre,
            ProviderId::AliExpress,
            ProviderId::Shopee,
            ProviderId::Amazon,
            ProviderId::AmazonUS,
            ProviderId::Kabum,
            ProviderId::MagazineLuiza,
            ProviderId::Olx,
            ProviderId::GoogleShopping,
            ProviderId::Ebay,
        ]
    }

    /// The name of a store.
    pub fn label(&self) -> (r: &'static str)
        ensures
            r@ == provider_label(*self),
    {
        match self {
            ProviderId::MercadoLivre => "Mercado Livre",
            ProviderId::AliExpress => "AliExpress",
            ProviderId::Shopee => "Shopee",
            ProviderId::Amazon => "Amazon BR",
            ProviderId::AmazonUS => "Amazon US",
            ProviderId::Kabum => "Kabum",
            ProviderId::MagazineLuiza => "Magazine Luiza",
            ProviderId::Olx => "OLX",
            ProviderId::GoogleShopping => "Google Shopping",
            ProviderId::Ebay => "eBay",
        }
    }

    /// The store that a name stands for, whatever its case, or a complaint.
    pub fn parse(s: &str) -> (r: Result<ProviderId, String>)
        ensures
            match r {
                Ok(p) => provider_named(text::lowered(s@)) == Some(p),
                Err(e) => provider_named(text::lowered(s@)) is None && e@ == "unknown provider: "@
                    + s@,
            },
    {
        let lower = text::lowercase(s);
        match Self::named(lower.as_str()) {
            Some(p) => Ok(p),
            None => Err(text::join2("unknown provider: ", s)),
        }
    }

    /// The store that a name in lower case stands for.
    pub fn named(s: &str) -> (r: Option<ProviderId>)
        ensures
            r == provider_named(s@),
    {
        if text::same_text(s, "ml") || text::same_text(s, "mercadolivre") || text::same_text(
            s,
            "mercado_livre",
        ) {
            Some(ProviderId::MercadoLivre)
        } else if text::same_text(s, "ali") || text::same_text(s, "aliexpress") {
            Some(ProviderId::AliExpress)
        } else if text::same_text(s, "shopee") {
            Some(ProviderId::Shopee)
        } else if text::same_text(s, "amazon") || text::same_text(s, "amz") || text::same_text(
            s,
            "amazon_br",
        ) {
            Some(ProviderId::Amazon)
        } else if text::same_text(s, "amazon_us") || text::same_text(s, "amz_us")
            || text::same_text(s, "amazonus") {
            Some(ProviderId::AmazonUS)
        } else if text::same_text(s, "kabum") {
            Some(ProviderId::Kabum)
        } else if text::same_text(s, "magalu") || text::same_text(s, "magazineluiza")
            || text::same_text(s, "magazine_luiza") {
            Some(ProviderId::MagazineLuiza)
        } else if text::same_text(s, "olx") {
            Some(ProviderId::Olx)
        } else if text::same_text(s, "google") || text::same_text(s, "google_shopping")
            || text::same_text(s, "googleshopping") {
            Some(ProviderId::GoogleShopping)
        } else if text::same_text(s, "ebay") {
            Some(ProviderId::Ebay)
        } else {
            None
        }
    }
}

/// Whether a list of stores holds one.
pub fn holds(v: &Vec<ProviderId>, p: ProviderId) -> (r: bool)
    ensures
        r == v@.contains(p),
{
    let mut i: usize = 0;
    while i < v.len()
        invariant
            i <= v@.len(),
            forall|k: int| 0 <= k < i ==> v@[k] != p,
        decreases v@.len() - i,
    {
        if v[i] == p {
            return true;
        }
        i = i + 1;
    }
    false
}

/// Every store is among all of them, and none is there twice.
pub proof fn all_providers_complete(p: ProviderId)
    ensures
        all_providers().contains(p),
        all_providers().no_duplicates(),
{
    let v = all_providers();
    match p {
        ProviderId::MercadoLivre => assert(v[0] == p),
        ProviderId::AliExpress => assert(v[1] == p),
        ProviderId::Shopee => assert(v[2] == p),
        ProviderId::Amazon => assert(v[3] == p),
        ProviderId::AmazonUS => assert(v[4] == p),
        ProviderId::Kabum => assert(v[5] == p),
        ProviderId::MagazineLuiza => assert(v[6] == p),
        ProviderId::Olx => assert(v[7] == p),
        ProviderId::GoogleShopping => assert(v[8] == p),
        ProviderId::Ebay => assert(v[9] == p),
    }
}

// ---- Reading pages ----

/// The offers on a page, or the reason why there are none.
pub open spec fn outcome_view(r: Result<Vec<Product>, ProviderError>) -> Result<
    Seq<models::ProductView>,
    error::ProviderErrorView,
> {
    match r {
        Ok(v) => Ok(models::product_views(v@)),
        Err(e) => Err(e@),
    }
}

/// A store that can be searched.
pub trait Provider {
    /// Which store it is.
    spec fn identity(&self) -> ProviderId;

    /// The offers on a page of results, read at a time.
    spec fn offers(&self, page: Seq<char>, max_results: nat, at: int) -> Result<
        Seq<models::ProductView>,
        error::ProviderErrorView,
    >;

    /// The name of the store.
    fn name(&self) -> (r: &'static str)
        ensures
            r@ == provider_label(self.identity()),
    ;

    /// Which store it is.
    fn id(&self) -> (r: ProviderId)
        ensures
            r == self.identity(),
    ;

    /// Whether it can be searched.
    fn is_available(&self) -> (r: bool)
        ensures
            r,
    ;

    /// The offers on a page of results, read at a time.
    fn parse_html(&self, html: &str, max_results: usize, at: i128) -> (r: Result<
        Vec<Product>,
        ProviderError,
    >)
        ensures
            outcome_view(r) == self.offers(html@, max_results as nat, at as int),
    ;
}

/// The amount that a text stands for.
pub open spec fn amount(s: Seq<char>) -> Option<Decimal> {
    decimal::of_opt(decimal::decimal_from_text(s))
}

/// An amount, and nothing where there is none.
pub open spec fn or_nothing(a: Option<Decimal>) -> Decimal {
    match a {
        Some(d) => d,
        None => decimal::dec(0, 0),
    }
}

/// An amount, and nothing where there is none.
pub fn else_nothing(a: Option<Decimal>) -> (r: Decimal)
    ensures
        r == or_nothing(a),
{
    match a {
        Some(d) => d,
        None => Decimal::zero(),
    }
}

/// A price in reais from within Brazil, which holds its taxes.
pub open spec fn domestic_price(price: Decimal) -> PriceInfo {
    models::listed(price, Currency::BRL, models::untaxed(false, true, TaxRegime::Domestic))
}

/// A price in reais from within Brazil, which holds its taxes.
pub fn price_at_home(price: Decimal) -> (r: PriceInfo)
    ensures
        r == domestic_price(price),
{
    PriceInfo::listed(price, Currency::BRL, TaxInfo::untaxed(false, true, TaxRegime::Domestic))
}

/// The text of an amount in Brazilian notation in plain notation: points taken
/// out, and a point for the comma.
pub open spec fn plain_notation(s: Seq<char>) -> Seq<char> {
    text::swapped(text::dropped(s, '.'), ',', '.')
}

/// The text of an amount in Brazilian notation in plain notation.
pub fn to_plain_notation(s: &str) -> (r: String)
    ensures
        r@ == plain_notation(s@),
{
    let whole = text::drop_char(s, '.');
    text::swap_char(whole.as_str(), ',', '.')
}

/// The amount that a text in Brazilian notation stands for, and nothing where it
/// stands for none.
pub open spec fn brl_amount(s: Seq<char>) -> Decimal {
    or_nothing(amount(text::trimmed(plain_notation(s))))
}

/// The amount that a text in Brazilian notation stands for.
pub fn parse_brl(s: &str) -> (r: Decimal)
    ensures
        r == brl_amount(s@),
{
    let plain = to_plain_notation(s);
    let bare = text::trim(plain.as_str());
    else_nothing(Decimal::parse(bare.as_str()))
}

/// An address, made whole where it is one within a site.
pub open spec fn absolute(base: Seq<char>, href: Seq<char>) -> Seq<char> {
    if "/"@.is_prefix_of(href) {
        base + href
    } else {
        href
    }
}

/// An address, made whole where it is one within a site.
pub fn to_absolute(base: &str, href: &str) -> (r: String)
    ensures
        r@ == absolute(base@, href@),
{
    if text::starts_with(href, "/") {
        text::join2(base, href)
    } else {
        href.to_string()
    }
}

/// The elements of `s` for which there is an offer, with it, in order.
pub open spec fn gathered<A>(
    s: Seq<A>,
    item: spec_fn(A) -> Option<models::ProductView>,
) -> Seq<models::ProductView>
    decreases s.len(),
{
    if s.len() == 0 {
        Seq::empty()
    } else {
        match item(s.last()) {
            Some(p) => gathered(s.drop_last(), item).push(p),
            None => gathered(s.drop_last(), item),
        }
    }
}

/// Whether something is an offer of a store that was seen at a time, with nothing known of
/// what it costs elsewhere.
pub open spec fn fresh_offer(p: models::ProductView, id: ProviderId, at: int) -> bool {
    p.provider == id && p.fetched_at == at && p.keepa.len() == 0
}

/// Whether all of some are offers of a store that were seen at a time.
pub open spec fn fresh_offers(v: Seq<models::ProductView>, id: ProviderId, at: int) -> bool {
    forall|i: int| 0 <= i < v.len() ==> fresh_offer(#[trigger] v[i], id, at)
}

/// The offers of some elements are of a store where each of them is.
pub proof fn lemma_gathered_fresh<A>(
    s: Seq<A>,
    item: spec_fn(A) -> Option<models::ProductView>,
    id: ProviderId,
    at: int,
)
    requires
        forall|a: A| (#[trigger] item(a)) is Some ==> fresh_offer(item(a)->0, id, at),
    ensures
        fresh_offers(gathered(s, item), id, at),
    decreases s.len(),
{
    if s.len() > 0 {
        lemma_gathered_fresh(s.drop_last(), item, id, at);
        assert(item(s.last()) is Some ==> fresh_offer(item(s.last())->0, id, at));
    }
}

/// The first `n` elements, or all where there are fewer.
pub open spec fn first_of<A>(s: Seq<A>, n: nat) -> Seq<A> {
    if s.len() <= n {
        s
    } else {
        s.take(n as int)
    }
}

/// What stands in the script of a page that holds its data, from the script's start
/// on.
pub open spec fn data_start(page: Seq<char>) -> Option<Seq<char>> {
    text::after(page, "<script id=\"__NEXT_DATA__\" type=\"application/json\">"@)
}

/// What stands in the script of a page that holds its data.
pub open spec fn page_data(page: Seq<char>) -> Option<Seq<char>> {
    match data_start(page) {
        Some(rest) => text::before(rest, "</script>"@),
        None => None,
    }
}

/// Whether a page has a script that holds its data, and what stands in it.
pub fn find_page_data(page: &str) -> (r: (bool, Option<String>))
    ensures
        r.0 == (data_start(page@) is Some),
        text::text_view(r.1) == page_data(page@),
{
    match text::after_text(page, "<script id=\"__NEXT_DATA__\" type=\"application/json\">") {
        Some(rest) => (true, text::before_text(rest.as_str(), "</script>")),
        None => (false, None),
    }
}

/// The length of the object in braces that a text begins with, from an index and a
/// depth on.
pub open spec fn object_end(s: Seq<char>, i: int, depth: int) -> Option<int>
    decreases s.len() - i,
{
    if i < 0 || i >= s.len() {
        None
    } else if s[i] == '{' {
        object_end(s, i + 1, depth + 1)
    } else if s[i] == '}' {
        if depth == 1 {
            Some(i + 1)
        } else {
            object_end(s, i + 1, depth - 1)
        }
    } else {
        object_end(s, i + 1, depth)
    }
}

/// What stands behind the first equals sign behind a marker, without white space
/// before it.
pub open spec fn assigned(page: Seq<char>, marker: Seq<char>) -> Option<Seq<char>> {
    match text::position(page, marker, 0) {
        Some(i) => match text::after(page.skip(i), "="@) {
            Some(rest) => Some(text::trimmed_start(rest)),
            None => None,
        },
        None => None,
    }
}

/// The object in braces that is assigned behind a marker.
pub open spec fn assigned_object(page: Seq<char>, marker: Seq<char>) -> Option<Seq<char>> {
    match assigned(page, marker) {
        Some(rest) => if rest.len() > 0 && rest[0] == '{' {
            match object_end(rest, 0, 0) {
                Some(end) => Some(rest.take(end)),
                None => None,
            }
        } else {
            None
        },
        None => None,
    }
}

/// Where something is assigned behind a marker, and the object in braces that is.
pub struct Assignment {
    pub marked: bool,
    pub assigned: bool,
    pub object: Option<String>,
}

/// Where something is assigned behind a marker, and the object in braces that is.
pub fn find_object(page: &str, marker: &str) -> (r: Assignment)
    ensures
        r.marked == text::has(page@, marker@),
        r.assigned == (assigned(page@, marker@) is Some),
        text::text_view(r.object) == assigned_object(page@, marker@),
{
    let v = text::chars_of(page);
    let m = text::chars_of(marker);
    let start: usize = match text::find(v.as_slice(), m.as_slice(), 0) {
        Some(i) => i,
        None => {
            return Assignment { marked: false, assigned: false, object: None };
        },
    };
    let size: usize = v.len();
    let rest = text::part(v.as_slice(), start, size);
    assert(rest@ =~= v@.skip(start as int));
    let value = match text::after_text(rest.as_str(), "=") {
        Some(s) => s,
        None => {
            return Assignment { marked: true, assigned: false, object: None };
        },
    };
    let w = text::chars_of(value.as_str());
    let from: usize = text::skip_space(w.as_slice(), 0);
    assert(w@.skip(0) =~= w@);
    let ghost t = text::trimmed_start(value@);
    assert(t =~= w@.skip(from as int));
    if from >= w.len() || w[from] != '{' {
        return Assignment { marked: true, assigned: true, object: None };
    }
    let mut depth: usize = 0;
    let mut i: usize = from;
    while i < w.len()
        invariant
            from <= i <= w@.len(),
            from < w@.len(),
            w@[from as int] == '{',
            t == w@.skip(from as int),
            depth <= i - from,
            i > from ==> depth >= 1,
            object_end(t, 0, 0) == object_end(t, i - from, depth as int),
            assigned(page@, marker@) == Some(t),
            text::has(page@, marker@),
            t.len() > 0 && t[0] == '{',
        decreases w@.len() - i,
    {
        let c: char = w[i];
        assert(t[i - from] == c);
        if c == '{' {
            depth = depth + 1;
        } else if c == '}' {
            depth = depth - 1;
            if depth == 0 {
                let object = text::part(w.as_slice(), from, i + 1);
                assert(object@ =~= t.take(i + 1 - from));
                return Assignment { marked: true, assigned: true, object: Some(object) };
            }
        }
        i = i + 1;
    }
    Assignment { marked: true, assigned: true, object: None }
}

/// A member of a member of a value.
pub open spec fn member2(j: json::JsonView, a: Seq<char>, b: Seq<char>) -> json::JsonView {
    json::member(json::member(j, a), b)
}

/// A member of a member of a value.
pub fn get2<'a>(j: Option<&'a Json>, a: &str, b: &str) -> (r: Option<&'a Json>)
    ensures
        json::seen(r) == member2(json::seen(j), a@, b@),
{
    json::get(json::get(j, a), b)
}

/// The amount that a text value stands for.
pub open spec fn amount_in(j: json::JsonView) -> Option<Decimal> {
    match json::text_of(j) {
        Some(s) => amount(s),
        None => None,
    }
}

/// The amount that a text value stands for.
pub fn read_amount(j: Option<&Json>) -> (r: Option<Decimal>)
    ensures
        r == amount_in(json::seen(j)),
{
    match json::as_text(j) {
        Some(s) => Decimal::parse(s.as_str()),
        None => None,
    }
}

/// The first of two amounts that there is.
pub open spec fn either_amount(a: Option<Decimal>, b: Option<Decimal>) -> Option<Decimal> {
    if a is Some {
        a
    } else {
        b
    }
}

/// An amount where it is more than nothing.
pub open spec fn if_positive(a: Option<Decimal>) -> Option<Decimal> {
    match a {
        Some(d) => if d@.mantissa > 0 {
            Some(d)
        } else {
            None
        },
        None => None,
    }
}

/// An amount where it is more than nothing.
pub fn only_positive(a: Option<Decimal>) -> (r: Option<Decimal>)
    ensures
        r == if_positive(a),
{
    match a {
        Some(d) => if d.is_positive() {
            Some(d)
        } else {
            None
        },
        None => None,
    }
}

/// The first element of a value that is a list.
pub open spec fn first_element(j: json::JsonView) -> json::JsonView {
    match json::list_of(j) {
        Some(v) => if v.len() > 0 {
            v[0]
        } else {
            json::JsonView::Null
        },
        None => json::JsonView::Null,
    }
}

/// The first element of a value that is a list.
pub fn get_first<'a>(j: Option<&'a Json>) -> (r: Option<&'a Json>)
    ensures
        json::seen(r) == first_element(json::seen(j)),
{
    match json::as_list(j) {
        Some(v) => {
            assert(json::json_views(v@).len() == v@.len());
            if v.len() > 0 {
                assert(json::json_views(v@)[0] == v@[0]@);
                Some(&v[0])
            } else {
                None
            }
        },
        None => None,
    }
}

/// An offer that may be missing.
pub open spec fn offer_view(p: Option<Product>) -> Option<models::ProductView> {
    match p {
        Some(p) => Some(p@),
        None => None,
    }
}

/// Adding an offer to some adds it to what they are.
pub proof fn lemma_product_push(v: Seq<Product>, p: Product)
    ensures
        models::product_views(v.push(p)) == models::product_views(v).push(p@),
{
    assert(models::product_views(v.push(p)) =~= models::product_views(v).push(p@));
}

/// Each offer that is gathered is that of one of the elements.
pub proof fn lemma_gathered_from<A>(
    s: Seq<A>,
    item: spec_fn(A) -> Option<models::ProductView>,
    i: int,
)
    requires
        0 <= i < gathered(s, item).len(),
    ensures
        exists|k: int| 0 <= k < s.len() && item(#[trigger] s[k]) == Some(gathered(s, item)[i]),
    decreases s.len(),
{
    let t = s.drop_last();
    if i < gathered(t, item).len() {
        lemma_gathered_from(t, item, i);
        let k = choose|k: int|
            0 <= k < t.len() && item(#[trigger] t[k]) == Some(gathered(t, item)[i]);
        assert(s[k] == t[k]);
    } else {
        assert(item(s[s.len() - 1]) == Some(gathered(s, item)[i]));
    }
}

/// Each element that there is an offer for has it gathered.
pub proof fn lemma_gathered_all<A>(
    s: Seq<A>,
    item: spec_fn(A) -> Option<models::ProductView>,
    k: int,
)
    requires
        0 <= k < s.len(),
        item(s[k]) is Some,
    ensures
        exists|i: int|
            0 <= i < gathered(s, item).len() && #[trigger] gathered(s, item)[i] == item(s[k])->0,
    decreases s.len(),
{
    let t = s.drop_last();
    let g = gathered(s, item);
    if k < s.len() - 1 {
        lemma_gathered_all(t, item, k);
        assert(t[k] == s[k]);
        let i = choose|i: int|
            0 <= i < gathered(t, item).len() && #[trigger] gathered(t, item)[i] == item(t[k])->0;
        assert(g[i] == gathered(t, item)[i]);
    } else {
        assert(g[g.len() - 1] == item(s[k])->0);
    }
}

/// No more offers are gathered than there are elements.
pub proof fn lemma_gathered_few<A>(s: Seq<A>, item: spec_fn(A) -> Option<models::ProductView>)
    ensures
        gathered(s, item).len() <= s.len(),
    decreases s.len(),
{
    if s.len() > 0 {
        lemma_gathered_few(s.drop_last(), item);
    }
}

/// A price in Brazilian notation is read with its points left out and a point for its
/// comma, and as nothing where that is no amount; one from within Brazil is in reais, holds
/// its taxes and has none to add.
pub proof fn brazilian_prices_are_read(s: Seq<char>)
    ensures
        ({
            let bare = text::trimmed(
                text::dropped(s, '.').map_values(
                    |c: char|
                        if c == ',' {
                            '.'
                        } else {
                            c
                        },
                ),
            );
            &&& decimal::decimal_from_text(bare) is Some ==> brl_amount(s) == decimal::of_view(
                decimal::decimal_from_text(bare)->0,
            )
            &&& decimal::decimal_from_text(bare) is None ==> brl_amount(s) == decimal::dec(0, 0)
        }),
        ({
            let p = domestic_price(brl_amount(s));
            &&& p.listed_price == brl_amount(s)
            &&& p.price_brl == brl_amount(s)
            &&& p.total_cost == brl_amount(s)
            &&& p.currency == Currency::BRL
            &&& p.shipping_cost is None
            &&& p.tax.taxes_included
            &&& !p.tax.remessa_conforme
            &&& p.tax.tax_regime == TaxRegime::Domestic
            &&& p.tax.total_tax == decimal::dec(0, 0)
        }),
{
    assert(text::swapped(text::dropped(s, '.'), ',', '.') =~= text::dropped(s, '.').map_values(
        |c: char|
            if c == ',' {
                '.'
            } else {
                c
            },
    ));
}

/// An address within a site is made whole with the site's, and a whole one stays.
pub proof fn addresses_are_made_whole(base: Seq<char>, href: Seq<char>)
    ensures
        href.len() > 0 && href[0] == '/' ==> absolute(base, href) == base + href,
        href.len() == 0 || href[0] != '/' ==> absolute(base, href) == href,
{
    reveal_strlit("/");
    if href.len() > 0 && href[0] == '/' {
        assert("/"@ =~= href.take(1));
        assert("/"@.is_prefix_of(href));
    } else if "/"@.is_prefix_of(href) {
        assert(href.subrange(0, 1)[0] == '/');
    }
}

/// The stores have their names and ids, and each id names one store only.
pub proof fn stores_have_their_names(a: ProviderId, b: ProviderId)
    ensures
        provider_label(a) == provider_label(b) ==> a == b,
        provider_label(ProviderId::MercadoLivre) == "Mercado Livre"@,
        provider_label(ProviderId::AliExpress) == "AliExpress"@,
        provider_label(ProviderId::Shopee) == "Shopee"@,
        provider_label(ProviderId::Amazon) == "Amazon BR"@,
        provider_label(ProviderId::AmazonUS) == "Amazon US"@,
        provider_label(ProviderId::Kabum) == "Kabum"@,
        provider_label(ProviderId::MagazineLuiza) == "Magazine Luiza"@,
        provider_label(ProviderId::Olx) == "OLX"@,
        provider_label(ProviderId::GoogleShopping) == "Google Shopping"@,
        provider_label(ProviderId::Ebay) == "eBay"@,
{
    reveal_strlit("Mercado Livre");
    reveal_strlit("AliExpress");
    reveal_strlit("Shopee");
    reveal_strlit("Amazon BR");
    reveal_strlit("Amazon US");
    reveal_strlit("Kabum");
    reveal_strlit("Magazine Luiza");
    reveal_strlit("OLX");
    reveal_strlit("Google Shopping");
    reveal_strlit("eBay");
    assert(provider_label(a).len() == provider_label(b).len() ==> a == b || provider_label(a)[0]
        != provider_label(b)[0] || provider_label(a).last() != provider_label(b).last());
}

/// Stores are named by their names and short names, and by nothing else.
pub proof fn stores_go_by_their_names(s: Seq<char>)
    ensures
        s == "ml"@ || s == "mercadolivre"@ || s == "mercado_livre"@ ==> provider_named(s) == Some(
            ProviderId::MercadoLivre,
        ),
        provider_named(s) == Some(ProviderId::MercadoLivre) ==> s == "ml"@ || s == "mercadolivre"@
            || s == "mercado_livre"@,
        s == "ali"@ || s == "aliexpress"@ ==> provider_named(s) == Some(ProviderId::AliExpress),
        provider_named(s) == Some(ProviderId::AliExpress) ==> s == "ali"@ || s == "aliexpress"@,
        provider_named(s) == Some(ProviderId::Shopee) ==> s == "shopee"@,
        provider_named(s) == Some(ProviderId::Amazon) ==> s == "amazon"@ || s == "amz"@ || s
            == "amazon_br"@,
        provider_named(s) == Some(ProviderId::AmazonUS) ==> s == "amazon_us"@ || s == "amz_us"@ || s
            == "amazonus"@,
        provider_named(s) == Some(ProviderId::Kabum) ==> s == "kabum"@,
        provider_named(s) == Some(ProviderId::MagazineLuiza) ==> s == "magalu"@ || s
            == "magazineluiza"@ || s == "magazine_luiza"@,
        provider_named(s) == Some(ProviderId::Olx) ==> s == "olx"@,
        provider_named(s) == Some(ProviderId::GoogleShopping) ==> s == "google"@ || s
            == "google_shopping"@ || s == "googleshopping"@,
        provider_named(s) == Some(ProviderId::Ebay) ==> s == "ebay"@,
        s == "shopee"@ || s == "amazon"@ || s == "amz"@ || s == "amazon_br"@ || s == "amazon_us"@
            || s == "amz_us"@ || s == "amazonus"@ || s == "kabum"@ || s == "magalu"@ || s
            == "magazineluiza"@ || s == "magazine_luiza"@ || s == "olx"@ || s == "google"@ || s
            == "google_shopping"@ || s == "googleshopping"@ || s == "ebay"@ ==> provider_named(
            s,
        ) is Some,
{
    reveal_strlit("ml");
    reveal_strlit("mercadolivre");
    reveal_strlit("mercado_livre");
    reveal_strlit("ali");
    reveal_strlit("aliexpress");
    assert("ali"@[0] == 'a');
    assert("aliexpress"@[0] == 'a');
    assert("ml"@[0] == 'm');
    assert("mercadolivre"@[0] == 'm');
    assert("mercado_livre"@[0] == 'm');
}

/// An object ends at the first brace that closes as many as were opened.
pub proof fn objects_end_where_braces_match(s: Seq<char>)
    requires
        s.len() > 0,
        s[0] == '{',
    ensures
        match object_end(s, 0, 0) {
            Some(end) => {
                &&& 2 <= end <= s.len()
                &&& s[end - 1] == '}'
                &&& nesting(s, end) == 0
                &&& forall|i: int| 0 < i < end ==> #[trigger] nesting(s, i) > 0
            },
            None => forall|i: int| 0 < i <= s.len() ==> #[trigger] nesting(s, i) > 0,
        },
{
    reveal(Seq::filter);
    assert(s.take(0) =~= Seq::empty());
    assert(nesting(s, 0) == 0);
    lemma_nesting(s, 0);
    assert(object_end(s, 0, 0) == object_end(s, 1, 1));
    lemma_object_end(s, 1, 1);
}

/// How many braces more are opened than closed in the first characters of a text.
pub open spec fn nesting(s: Seq<char>, i: int) -> int {
    s.take(i).filter(|c: char| c == '{').len() - s.take(i).filter(|c: char| c == '}').len()
}

proof fn lemma_nesting(s: Seq<char>, i: int)
    requires
        0 <= i < s.len(),
    ensures
        nesting(s, i + 1) == nesting(s, i) + (if s[i] == '{' {
            1int
        } else if s[i] == '}' {
            -1
        } else {
            0
        }),
{
    reveal(Seq::filter);
    assert(s.take(i + 1).drop_last() =~= s.take(i));
    assert(s.take(i + 1).last() == s[i]);
}

proof fn lemma_object_end(s: Seq<char>, i: int, depth: int)
    requires
        1 <= i <= s.len(),
        depth == nesting(s, i),
        forall|j: int| 0 < j <= i ==> #[trigger] nesting(s, j) > 0,
    ensures
        match object_end(s, i, depth) {
            Some(end) => {
                &&& i < end <= s.len()
                &&& s[end - 1] == '}'
                &&& nesting(s, end) == 0
                &&& forall|j: int| 0 < j < end ==> #[trigger] nesting(s, j) > 0
            },
            None => forall|j: int| 0 < j <= s.len() ==> #[trigger] nesting(s, j) > 0,
        },
    decreases s.len() - i,
{
    if i < s.len() {
        lemma_nesting(s, i);
        assert(nesting(s, i) > 0);
        if !(s[i] == '}' && depth == 1) {
            let next = nesting(s, i + 1);
            assert forall|j: int| 0 < j <= i + 1 implies #[trigger] nesting(s, j) > 0 by {}
            lemma_object_end(s, i + 1, next);
        }
    }
}

/// Offers are gathered one by one and in order: those of two lists after one another are
/// those of the first and then those of the second.
pub proof fn offers_are_gathered_in_order<A>(
    s: Seq<A>,
    t: Seq<A>,
    item: spec_fn(A) -> Option<models::ProductView>,
    a: A,
)
    ensures
        gathered(s + t, item) == gathered(s, item) + gathered(t, item),
        item(a) is Some ==> gathered(seq![a], item) == seq![item(a)->0],
        item(a) is None ==> gathered(seq![a], item).len() == 0,
        gathered(Seq::<A>::empty(), item).len() == 0,
    decreases t.len(),
{
    reveal_with_fuel(gathered, 2);
    assert(seq![a].drop_last() =~= Seq::<A>::empty());
    assert(seq![a].last() == a);
    if item(a) is Some {
        assert(gathered(seq![a], item) =~= seq![item(a)->0]);
    }
    if t.len() == 0 {
        assert(s + t =~= s);
        assert(gathered(s, item) + gathered(t, item) =~= gathered(s, item));
    } else {
        offers_are_gathered_in_order(s, t.drop_last(), item, a);
        assert((s + t).drop_last() =~= s + t.drop_last());
        assert((s + t).last() == t.last());
        assert(gathered(s + t, item) =~= gathered(s, item) + gathered(t, item));
    }
}

/// The first of some are as many as asked for, or all of them, from the start on.
pub proof fn first_ones_are_at_the_start<A>(s: Seq<A>, n: nat)
    ensures
        s.len() <= n ==> first_of(s, n) == s,
        s.len() > n ==> first_of(s, n) == s.take(n as int),
{
}

} // verus!
