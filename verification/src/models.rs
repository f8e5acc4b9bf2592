//! Products, prices and searches.

use vstd::prelude::*;

use crate::decimal;
use crate::decimal::Decimal;
use crate::error::ProviderError;
use crate::keepa;
use crate::keepa::KeepaInsight;
use crate::providers::ProviderId;
use crate::text;

verus! {

/// How a purchase is taxed.
#[derive(Clone, Copy, Debug, PartialEq, Eq, Structural)]
pub enum TaxRegime {
    Domestic,
    RemessaConformeUnder50,
    RemessaConformeOver50,
    InternationalStandard,
    Unknown,
}

/// The name of a tax regime.
pub open spec fn regime_label(r: TaxRegime) -> Seq<char> {
    match r {
        TaxRegime::Domestic => "Domestic"@,
        TaxRegime::RemessaConformeUnder50 => "RC <$50"@,
        TaxRegime::RemessaConformeOver50 => "RC >$50"@,
        TaxRegime::InternationalStandard => "International"@,
        TaxRegime::Unknown => "Unknown"@,
    }
}

impl TaxRegime {
    /// The name of a tax regime.
    pub fn label(&self) -> (r: &'static str)
        ensures
            r@ == regime_label(*self),
    {
        match self {
            TaxRegime::Domestic => "Domestic",
            TaxRegime::RemessaConformeUnder50 => "RC <$50",
            TaxRegime::RemessaConformeOver50 => "RC >$50",
            TaxRegime::InternationalStandard => "International",
            TaxRegime::Unknown => "Unknown",
        }
    }
}

/// The taxes on a purchase.
#[derive(Clone, Copy, Debug)]
pub struct TaxInfo {
    pub remessa_conforme: bool,
    pub taxes_included: bool,
    pub import_tax: Option<Decimal>,
    pub icms: Option<Decimal>,
    pub total_tax: Decimal,
    pub tax_regime: TaxRegime,
}

/// Taxes of which nothing is known yet but these three things.
pub open spec fn untaxed(remessa_conforme: bool, taxes_included: bool, regime: TaxRegime) -> TaxInfo {
    TaxInfo {
        remessa_conforme,
        taxes_included,
        import_tax: None,
        icms: None,
        total_tax: decimal::dec(0, 0),
        tax_regime: regime,
    }
}

impl TaxInfo {
    /// Taxes of which nothing is known yet but these three things.
    pub fn untaxed(remessa_conforme: bool, taxes_included: bool, regime: TaxRegime) -> (r: TaxInfo)
        ensures
            r == untaxed(remessa_conforme, taxes_included, regime),
    {
        TaxInfo {
            remessa_conforme,
            taxes_included,
            import_tax: None,
            icms: None,
            total_tax: Decimal::zero(),
            tax_regime: regime,
        }
    }
}

impl Default for TaxInfo {
    fn default() -> (r: TaxInfo)
        ensures
            r == untaxed(false, false, TaxRegime::Unknown),
    {
        TaxInfo::untaxed(false, false, TaxRegime::Unknown)
    }
}

/// A purchase paid in parts.
#[derive(Clone, Copy, Debug)]
pub struct InstallmentInfo {
    pub count: u8,
    pub amount_per: Decimal,
    pub interest_free: bool,
}

/// A purchase paid in parts, in words.
pub open spec fn installment_label(i: InstallmentInfo) -> Seq<char> {
    text::number_text(i.count as nat) + "x R$"@ + decimal::amount_text(i.amount_per@) + (
    if i.interest_free {
        " sem juros"@
    } else {
        ""@
    })
}

impl InstallmentInfo {
    /// A purchase paid in parts, in words.
    pub fn label(&self) -> (r: String)
        ensures
            r@ == installment_label(*self),
    {
        let mut out = text::show_number(self.count as u64);
        out.append("x R$");
        let amount = self.amount_per.show();
        out.append(amount.as_str());
        out.append(if self.interest_free { " sem juros" } else { "" });
        out
    }
}

/// Who sells a product.
pub struct SellerInfo {
    pub name: String,
    pub reputation: Option<Decimal>,
    pub official_store: bool,
}

/// Who sells a product.
pub struct SellerView {
    pub name: Seq<char>,
    pub reputation: Option<Decimal>,
    pub official_store: bool,
}

impl View for SellerInfo {
    type V = SellerView;

    open spec fn view(&self) -> SellerView {
        SellerView {
            name: self.name@,
            reputation: self.reputation,
            official_store: self.official_store,
        }
    }
}

impl Clone for SellerInfo {
    fn clone(&self) -> (r: SellerInfo)
        ensures
            r@ == self@,
    {
        SellerInfo {
            name: self.name.clone(),
            reputation: self.reputation,
            official_store: self.official_store,
        }
    }
}

/// A seller that may be missing.
pub open spec fn seller_view(s: Option<SellerInfo>) -> Option<SellerView> {
    match s {
        Some(s) => Some(s@),
        None => None,
    }
}

/// The state that a product is in.
#[derive(Clone, Copy, Debug, PartialEq, Eq, Structural)]
pub enum ProductCondition {
    New,
    Used,
    Refurbished,
    Unknown,
}

/// The name of a condition, empty where it is unknown.
pub open spec fn condition_label(c: ProductCondition) -> Seq<char> {
    match c {
        ProductCondition::New => "New"@,
        ProductCondition::Used => "Used"@,
        ProductCondition::Refurbished => "Refurbished"@,
        ProductCondition::Unknown => ""@,
    }
}

impl ProductCondition {
    /// The name of a condition, empty where it is unknown.
    pub fn label(&self) -> (r: &'static str)
        ensures
            r@ == condition_label(*self),
    {
        match self {
            ProductCondition::New => "New",
            ProductCondition::Used => "Used",
            ProductCondition::Refurbished => "Refurbished",
            ProductCondition::Unknown => "",
        }
    }
}

/// A currency.
#[derive(Clone, Copy, Debug, PartialEq, Eq, Structural)]
pub enum Currency {
    BRL,
    USD,
}

/// The sign of a currency.
pub open spec fn currency_label(c: Currency) -> Seq<char> {
    match c {
        Currency::BRL => "R$"@,
        Currency::USD => "US$"@,
    }
}

impl Currency {
    /// The sign of a currency.
    pub fn label(&self) -> (r: &'static str)
        ensures
            r@ == currency_label(*self),
    {
        match self {
            Currency::BRL => "R$",
            Currency::USD => "US$",
        }
    }
}

/// What a product costs. Shipping can be in another currency than the price that is
/// listed.
#[derive(Clone, Copy, Debug)]
pub struct PriceInfo {
    pub listed_price: Decimal,
    pub currency: Currency,
    pub price_brl: Decimal,
    pub shipping_cost: Option<Decimal>,
    pub shipping_currency: Currency,
    pub tax: TaxInfo,
    pub total_cost: Decimal,
    pub original_price: Option<Decimal>,
    pub installments: Option<InstallmentInfo>,
}

/// A price of which nothing is known but the amount, the currency and the taxes.
pub open spec fn listed(price: Decimal, currency: Currency, tax: TaxInfo) -> PriceInfo {
    PriceInfo {
        listed_price: price,
        currency,
        price_brl: price,
        shipping_cost: None,
        shipping_currency: Currency::BRL,
        tax,
        total_cost: price,
        original_price: None,
        installments: None,
    }
}

impl PriceInfo {
    /// A price of which nothing is known but the amount, the currency and the
    /// taxes.
    pub fn listed(price: Decimal, currency: Currency, tax: TaxInfo) -> (r: PriceInfo)
        ensures
            r == listed(price, currency, tax),
    {
        PriceInfo {
            listed_price: price,
            currency,
            price_brl: price,
            shipping_cost: None,
            shipping_currency: Currency::BRL,
            tax,
            total_cost: price,
            original_price: None,
            installments: None,
        }
    }
}

/// A product on offer in a store. The time at which it was seen is in nanoseconds
/// since the start of 1970. The insights are what is known of its price on the
/// Amazon sites, its own site first.
pub struct Product {
    pub provider: ProviderId,
    pub platform_id: String,
    pub title: String,
    pub normalized_title: Option<String>,
    pub url: String,
    pub image_url: Option<String>,
    pub price: PriceInfo,
    pub seller: Option<SellerInfo>,
    pub condition: ProductCondition,
    pub rating: Option<Decimal>,
    pub review_count: Option<u32>,
    pub sold_count: Option<u32>,
    pub domestic: bool,
    pub fetched_at: i128,
    pub keepa: Vec<KeepaInsight>,
}

/// A product on offer in a store.
pub struct ProductView {
    pub provider: ProviderId,
    pub platform_id: Seq<char>,
    pub title: Seq<char>,
    pub normalized_title: Option<Seq<char>>,
    pub url: Seq<char>,
    pub image_url: Option<Seq<char>>,
    pub price: PriceInfo,
    pub seller: Option<SellerView>,
    pub condition: ProductCondition,
    pub rating: Option<Decimal>,
    pub review_count: Option<u32>,
    pub sold_count: Option<u32>,
    pub domestic: bool,
    pub fetched_at: int,
    pub keepa: Seq<keepa::KeepaView>,
}

impl View for Product {
    type V = ProductView;

    open spec fn view(&self) -> ProductView {
        ProductView {
            provider: self.provider,
            platform_id: self.platform_id@,
            title: self.title@,
            normalized_title: text::text_view(self.normalized_title),
            url: self.url@,
            image_url: text::text_view(self.image_url),
            price: self.price,
            seller: seller_view(self.seller),
            condition: self.condition,
            rating: self.rating,
            review_count: self.review_count,
            sold_count: self.sold_count,
            domestic: self.domestic,
            fetched_at: self.fetched_at as int,
            keepa: keepa::insight_views(self.keepa@),
        }
    }
}

/// Some products.
pub open spec fn product_views(v: Seq<Product>) -> Seq<ProductView> {
    Seq::new(v.len(), |i: int| v[i]@)
}

/// A product of which nothing is known but the store, the name, the page, the
/// price and when it was seen.
pub open spec fn offer(
    provider: ProviderId,
    platform_id: Seq<char>,
    title: Seq<char>,
    url: Seq<char>,
    price: PriceInfo,
    at: int,
) -> ProductView {
    ProductView {
        provider,
        platform_id,
        title,
        normalized_title: None,
        url,
        image_url: None,
        price,
        seller: None,
        condition: ProductCondition::New,
        rating: None,
        review_count: None,
        sold_count: None,
        domestic: true,
        fetched_at: at,
        keepa: Seq::empty(),
    }
}

impl Product {
    /// A product of which nothing is known but the store, the name, the page, the
    /// price and when it was seen.
    pub fn offer(
        provider: ProviderId,
        platform_id: String,
        title: String,
        url: String,
        price: PriceInfo,
        at: i128,
    ) -> (r: Product)
        ensures
            r@ == offer(provider, platform_id@, title@, url@, price, at as int),
    {
        let r = Product {
            provider,
            platform_id,
            title,
            normalized_title: None,
            url,
            image_url: None,
            price,
            seller: None,
            condition: ProductCondition::New,
            rating: None,
            review_count: None,
            sold_count: None,
            domestic: true,
            fetched_at: at,
            keepa: Vec::new(),
        };
        assert(r@.keepa =~= Seq::empty());
        r
    }
}

/// A copy of a text that may be missing.
pub fn copy_text(s: &Option<String>) -> (r: Option<String>)
    ensures
        text::text_view(r) == text::text_view(*s),
{
    match s {
        Some(s) => Some(s.clone()),
        None => None,
    }
}

impl Clone for Product {
    fn clone(&self) -> (r: Product)
        ensures
            r@ == self@,
    {
        Product {
            provider: self.provider,
            platform_id: self.platform_id.clone(),
            title: self.title.clone(),
            normalized_title: copy_text(&self.normalized_title),
            url: self.url.clone(),
            image_url: copy_text(&self.image_url),
            price: self.price,
            seller: match &self.seller {
                Some(s) => Some(s.clone()),
                None => None,
            },
            condition: self.condition,
            rating: self.rating,
            review_count: self.review_count,
            sold_count: self.sold_count,
            domestic: self.domestic,
            fetched_at: self.fetched_at,
            keepa: keepa::copy_insights(&self.keepa),
        }
    }
}

/// How results are ordered.
#[derive(Clone, Copy, Debug, PartialEq, Eq, Structural)]
pub enum SortOrder {
    PriceAsc,
    PriceDesc,
    Rating,
    Relevance,
    TotalCost,
}

impl Default for SortOrder {
    fn default() -> (r: SortOrder)
        ensures
            r == SortOrder::TotalCost,
    {
        SortOrder::TotalCost
    }
}

/// The order that a name stands for.
pub open spec fn order_named(s: Seq<char>) -> Option<SortOrder> {
    if s == "price"@ || s == "price-asc"@ {
        Some(SortOrder::PriceAsc)
    } else if s == "price-desc"@ {
        Some(SortOrder::PriceDesc)
    } else if s == "rating"@ {
        Some(SortOrder::Rating)
    } else if s == "relevance"@ {
        Some(SortOrder::Relevance)
    } else if s == "total-cost"@ || s == "total_cost"@ {
        Some(SortOrder::TotalCost)
    } else {
        None
    }
}

impl SortOrder {
    /// The order that a name stands for, or a complaint.
    pub fn parse(s: &str) -> (r: Result<SortOrder, String>)
        ensures
            match r {
                Ok(o) => order_named(s@) == Some(o),
                Err(e) => order_named(s@) is None && e@ == "unknown sort order: "@ + s@,
            },
    {
        if text::same_text(s, "price") || text::same_text(s, "price-asc") {
            Ok(SortOrder::PriceAsc)
        } else if text::same_text(s, "price-desc") {
            Ok(SortOrder::PriceDesc)
        } else if text::same_text(s, "rating") {
            Ok(SortOrder::Rating)
        } else if text::same_text(s, "relevance") {
            Ok(SortOrder::Relevance)
        } else if text::same_text(s, "total-cost") || text::same_text(s, "total_cost") {
            Ok(SortOrder::TotalCost)
        } else {
            Err(text::join2("unknown sort order: ", s))
        }
    }
}

/// What is searched for.
pub struct SearchQuery {
    pub query: String,
    pub max_results: usize,
    pub min_price: Option<Decimal>,
    pub max_price: Option<Decimal>,
    pub condition: Option<ProductCondition>,
    pub sort: SortOrder,
    pub platforms: Vec<ProviderId>,
}

/// What is searched for.
pub struct QueryView {
    pub query: Seq<char>,
    pub max_results: nat,
    pub min_price: Option<Decimal>,
    pub max_price: Option<Decimal>,
    pub condition: Option<ProductCondition>,
    pub sort: SortOrder,
    pub platforms: Seq<ProviderId>,
}

impl View for SearchQuery {
    type V = QueryView;

    open spec fn view(&self) -> QueryView {
        QueryView {
            query: self.query@,
            max_results: self.max_results as nat,
            min_price: self.min_price,
            max_price: self.max_price,
            condition: self.condition,
            sort: self.sort,
            platforms: self.platforms@,
        }
    }
}

impl Clone for SearchQuery {
    fn clone(&self) -> (r: SearchQuery)
        ensures
            r@ == self@,
    {
        let platforms = self.platforms.clone();
        assert(platforms@ =~= self.platforms@);
        SearchQuery {
            query: self.query.clone(),
            max_results: self.max_results,
            min_price: self.min_price,
            max_price: self.max_price,
            condition: self.condition,
            sort: self.sort,
            platforms,
        }
    }
}

impl SearchQuery {
    /// A search for a text in every store, the cheapest five of each first.
    pub fn simple(query: &str) -> (r: SearchQuery)
        ensures
            r@ == (QueryView {
                query: query@,
                max_results: 5,
                min_price: None,
                max_price: None,
                condition: None,
                sort: SortOrder::TotalCost,
                platforms: Seq::empty(),
            }),
    {
        let r = SearchQuery {
            query: query.to_string(),
            max_results: 5,
            min_price: None,
            max_price: None,
            condition: None,
            sort: SortOrder::TotalCost,
            platforms: Vec::new(),
        };
        assert(r@.platforms =~= Seq::empty());
        r
    }
}

/// What a search found, which stores failed and why, and the time that it took,
/// in nanoseconds.
pub struct SearchResults {
    pub products: Vec<Product>,
    pub errors: Vec<(ProviderId, ProviderError)>,
    pub query_time: u64,
}

/// Orders go by their names.
pub proof fn orders_go_by_their_names(s: Seq<char>)
    ensures
        order_named(s) == Some(SortOrder::PriceAsc) <==> s == "price"@ || s == "price-asc"@,
        order_named(s) == Some(SortOrder::PriceDesc) <==> s == "price-desc"@,
        order_named(s) == Some(SortOrder::Rating) <==> s == "rating"@,
        order_named(s) == Some(SortOrder::Relevance) <==> s == "relevance"@,
        order_named(s) == Some(SortOrder::TotalCost) <==> s == "total-cost"@ || s == "total_cost"@,
{
    reveal_strlit("price");
    reveal_strlit("price-asc");
    reveal_strlit("price-desc");
    reveal_strlit("rating");
    reveal_strlit("relevance");
    reveal_strlit("total-cost");
    reveal_strlit("total_cost");
    assert("price-asc"@[6] == 'a');
    assert("price-desc"@[6] == 'd');
    assert("price"@.len() == 5);
    assert("price-desc"@.len() == 10);
    assert("price"@[0] == 'p');
    assert("price-asc"@[0] == 'p');
    assert("price-desc"@[0] == 'p');
    assert("rating"@[0] == 'r');
    assert("rating"@[1] == 'a');
    assert("relevance"@[0] == 'r');
    assert("relevance"@[1] == 'e');
    assert("total-cost"@[0] == 't');
    assert("total_cost"@[0] == 't');
}

/// An offer of which nothing more is known is a new product from within Brazil, at the price
/// that is given.
pub proof fn offers_start_plain(
    provider: ProviderId,
    platform_id: Seq<char>,
    title: Seq<char>,
    url: Seq<char>,
    amount: Decimal,
    currency: Currency,
    remessa_conforme: bool,
    taxes_included: bool,
    regime: TaxRegime,
    at: int,
)
    ensures
        ({
            let p = offer(
                provider,
                platform_id,
                title,
                url,
                listed(amount, currency, untaxed(remessa_conforme, taxes_included, regime)),
                at,
            );
            &&& p.provider == provider
            &&& p.platform_id == platform_id
            &&& p.title == title
            &&& p.url == url
            &&& p.condition == ProductCondition::New
            &&& p.domestic
            &&& p.fetched_at == at
            &&& p.image_url is None
            &&& p.seller is None
            &&& p.rating is None
            &&& p.review_count is None
            &&& p.sold_count is None
            &&& p.keepa.len() == 0
            &&& p.price.listed_price == amount
            &&& p.price.price_brl == amount
            &&& p.price.total_cost == amount
            &&& p.price.currency == currency
            &&& p.price.shipping_cost is None
            &&& p.price.shipping_currency == Currency::BRL
            &&& p.price.original_price is None
            &&& p.price.installments is None
            &&& p.price.tax.remessa_conforme == remessa_conforme
            &&& p.price.tax.taxes_included == taxes_included
            &&& p.price.tax.tax_regime == regime
            &&& p.price.tax.import_tax is None
            &&& p.price.tax.icms is None
            &&& p.price.tax.total_tax == decimal::dec(0, 0)
        }),
{
}

/// Installments, conditions, currencies and regimes are told in their own words.
pub proof fn things_are_told_in_their_words(i: InstallmentInfo)
    ensures
        i.interest_free ==> installment_label(i) == text::number_text(i.count as nat) + "x R$"@
            + decimal::amount_text(i.amount_per@) + " sem juros"@,
        !i.interest_free ==> installment_label(i) == text::number_text(i.count as nat) + "x R$"@
            + decimal::amount_text(i.amount_per@),
        condition_label(ProductCondition::New) == "New"@,
        condition_label(ProductCondition::Used) == "Used"@,
        condition_label(ProductCondition::Refurbished) == "Refurbished"@,
        condition_label(ProductCondition::Unknown).len() == 0,
        currency_label(Currency::BRL) == "R$"@,
        currency_label(Currency::USD) == "US$"@,
        regime_label(TaxRegime::Domestic) == "Domestic"@,
        regime_label(TaxRegime::RemessaConformeUnder50) == "RC <$50"@,
        regime_label(TaxRegime::RemessaConformeOver50) == "RC >$50"@,
        regime_label(TaxRegime::InternationalStandard) == "International"@,
        regime_label(TaxRegime::Unknown) == "Unknown"@,
{
    reveal_strlit("");
    let plain = text::number_text(i.count as nat) + "x R$"@ + decimal::amount_text(i.amount_per@);
    assert(plain + ""@ =~= plain);
}

} // verus!
