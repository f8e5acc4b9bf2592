//! Asking a store for its pages without a browser, and reading them.

use vstd::prelude::*;

use crate::codec;
use crate::error;
use crate::error::ProviderError;
use crate::html;
use crate::json;
use crate::models;
use crate::models::Product;
use crate::pattern;
use crate::providers;
use crate::providers::aliexpress;
use crate::providers::amazon;
use crate::providers::amazon_us;
use crate::providers::ebay;
use crate::providers::google_shopping;
use crate::providers::kabum;
use crate::providers::magalu;
use crate::providers::mercadolivre;
use crate::providers::olx;
use crate::providers::shopee;
use crate::providers::{Provider, ProviderId};
use crate::text;

verus! {

/// The browser that requests come from, as they say.
#[must_use]
pub fn random_user_agent() -> (r: &'static str)
    ensures
        r@
            == "Mozilla/5.0 (Macintosh; Intel Mac OS X 10_15_7) AppleWebKit/537.36 (KHTML, like Gecko) Chrome/131.0.0.0 Safari/537.36"@,
{
    "Mozilla/5.0 (Macintosh; Intel Mac OS X 10_15_7) AppleWebKit/537.36 (KHTML, like Gecko) Chrome/131.0.0.0 Safari/537.36"
}

/// The host that a store is at.
pub open spec fn host(provider: ProviderId) -> Seq<char> {
    match provider {
        ProviderId::MercadoLivre => "www.mercadolivre.com.br"@,
        ProviderId::AliExpress => "pt.aliexpress.com"@,
        ProviderId::Shopee => "shopee.com.br"@,
        ProviderId::Amazon => "www.amazon.com.br"@,
        ProviderId::AmazonUS => "www.amazon.com"@,
        ProviderId::Kabum => "www.kabum.com.br"@,
        ProviderId::MagazineLuiza => "www.magazineluiza.com.br"@,
        ProviderId::Olx => "www.olx.com.br"@,
        ProviderId::GoogleShopping => "www.google.com.br"@,
        ProviderId::Ebay => "www.ebay.com"@,
    }
}

/// The host that a store is at.
#[must_use]
pub fn provider_domain(provider: ProviderId) -> (r: &'static str)
    ensures
        r@ == host(provider),
{
    match provider {
        ProviderId::MercadoLivre => "www.mercadolivre.com.br",
        ProviderId::AliExpress => "pt.aliexpress.com",
        ProviderId::Shopee => "shopee.com.br",
        ProviderId::Amazon => "www.amazon.com.br",
        ProviderId::AmazonUS => "www.amazon.com",
        ProviderId::Kabum => "www.kabum.com.br",
        ProviderId::MagazineLuiza => "www.magazineluiza.com.br",
        ProviderId::Olx => "www.olx.com.br",
        ProviderId::GoogleShopping => "www.google.com.br",
        ProviderId::Ebay => "www.ebay.com",
    }
}

// ---- Requests ----

/// How a page of results is asked for: from the store itself, with some headers, or
/// through the browser at a port.
pub enum PageRequest {
    Http { url: String, accept_language: &'static str, accept: &'static str, accept_encoding: Option<&'static str> },
    Browser { url: String, port: u16 },
}

/// How a page of results is asked for.
pub enum PageRequestView {
    Http { url: Seq<char>, accept_language: Seq<char>, accept: Seq<char>, accept_encoding: Option<Seq<char>> },
    Browser { url: Seq<char>, port: u16 },
}

impl View for PageRequest {
    type V = PageRequestView;

    open spec fn view(&self) -> PageRequestView {
        match *self {
            PageRequest::Http { url, accept_language, accept, accept_encoding } =>
                PageRequestView::Http {
                url: url@,
                accept_language: accept_language@,
                accept: accept@,
                accept_encoding: match accept_encoding {
                    Some(e) => Some(e@),
                    None => None,
                },
            },
            PageRequest::Browser { url, port } => PageRequestView::Browser { url: url@, port },
        }
    }
}

/// A request, or the reason why there is none.
pub open spec fn request_view(r: Result<PageRequest, ProviderError>) -> Result<
    PageRequestView,
    error::ProviderErrorView,
> {
    match r {
        Ok(p) => Ok(p@),
        Err(e) => Err(e@),
    }
}

/// A text as a part of an address.
pub open spec fn encoded(s: Seq<char>) -> Seq<char> {
    codec::percent_encoded(text::bytes_of(s))
}

/// A request to a store itself.
pub open spec fn http_request(
    url: Seq<char>,
    accept_language: Seq<char>,
    accept: Seq<char>,
    accept_encoding: Option<Seq<char>>,
) -> Result<PageRequestView, error::ProviderErrorView> {
    Ok(PageRequestView::Http { url, accept_language, accept, accept_encoding })
}

/// A request through a browser, which needs the port of one.
pub open spec fn browser_request(url: Seq<char>, port: Option<u16>, refusal: Seq<char>) -> Result<
    PageRequestView,
    error::ProviderErrorView,
> {
    match port {
        Some(port) => Ok(PageRequestView::Browser { url, port }),
        None => Err(error::ProviderErrorView::Browser(refusal)),
    }
}

/// How the page of a store with the results of a search is asked for.
pub open spec fn store_request(provider: ProviderId, query: Seq<char>, port: Option<u16>) -> Result<
    PageRequestView,
    error::ProviderErrorView,
> {
    let any = "text/html,application/xhtml+xml,application/xml;q=0.9,*/*;q=0.8"@;
    let page = "text/html,application/xhtml+xml"@;
    match provider {
        ProviderId::MercadoLivre => http_request(
            "https://lista.mercadolivre.com.br/"@ + text::swapped(query, ' ', '-'),
            "pt-BR,pt;q=0.9,en;q=0.8"@,
            any,
            Some("gzip, deflate, br"@),
        ),
        ProviderId::AliExpress => browser_request(
            "https://pt.aliexpress.com/w/wholesale-"@ + encoded(text::swapped(query, ' ', '+'))
                + ".html"@,
            port,
            "AliExpress requires CDP connection to your real browser. Set cdp_port = 9222 in config and launch: chromium --remote-debugging-port=9222"@,
        ),
        ProviderId::Shopee => browser_request(
            "https://shopee.com.br/search?keyword="@ + encoded(query),
            port,
            "Shopee requires CDP connection to your real browser. Set cdp_port = 9222 in config and launch: chromium --remote-debugging-port=9222"@,
        ),
        ProviderId::Amazon => http_request(
            "https://www.amazon.com.br/s?k="@ + encoded(query),
            "pt-BR,pt;q=0.9,en;q=0.8"@,
            any,
            None,
        ),
        ProviderId::AmazonUS => http_request(
            "https://www.amazon.com/s?k="@ + encoded(query),
            "en-US,en;q=0.9,pt-BR;q=0.8"@,
            any,
            None,
        ),
        ProviderId::Kabum => http_request(
            "https://www.kabum.com.br/busca/"@ + text::swapped(query, ' ', '-'),
            "pt-BR,pt;q=0.9"@,
            page,
            None,
        ),
        ProviderId::MagazineLuiza => http_request(
            "https://www.magazineluiza.com.br/busca/"@ + encoded(query) + "/"@,
            "pt-BR,pt;q=0.9"@,
            page,
            None,
        ),
        ProviderId::Olx => http_request(
            "https://www.olx.com.br/brasil?q="@ + encoded(query),
            "pt-BR,pt;q=0.9"@,
            page,
            None,
        ),
        ProviderId::GoogleShopping => Err(
            error::ProviderErrorView::Browser(
                "Google Shopping requires CDP. Launch browser with --remote-debugging-port=9222"@,
            ),
        ),
        ProviderId::Ebay => http_request(
            "https://www.ebay.com/sch/i.html?_nkw="@ + encoded(query)
                + "&_sacat=0&LH_PrefLoc=3&_sop=15"@,
            "en-US,en;q=0.9"@,
            any,
            None,
        ),
    }
}

fn ask(
    url: String,
    accept_language: &'static str,
    accept: &'static str,
    accept_encoding: Option<&'static str>,
) -> (r: Result<PageRequest, ProviderError>)
    ensures
        request_view(r) == http_request(
            url@,
            accept_language@,
            accept@,
            match accept_encoding {
                Some(e) => Some(e@),
                None => None,
            },
        ),
{
    Ok(PageRequest::Http { url, accept_language, accept, accept_encoding })
}

fn ask_browser(url: String, port: Option<u16>, refusal: &str) -> (r: Result<
    PageRequest,
    ProviderError,
>)
    ensures
        request_view(r) == browser_request(url@, port, refusal@),
{
    match port {
        Some(port) => Ok(PageRequest::Browser { url, port }),
        None => Err(ProviderError::Browser(refusal.to_string())),
    }
}

/// How the page of a store with the results of a search is asked for. AliExpress and
/// Shopee need the port of a browser, and Google Shopping cannot be asked at all.
pub fn page_request(provider: ProviderId, query: &str, port: Option<u16>) -> (r: Result<
    PageRequest,
    ProviderError,
>)
    ensures
        request_view(r) == store_request(provider, query@, port),
{
    let any = "text/html,application/xhtml+xml,application/xml;q=0.9,*/*;q=0.8";
    let page = "text/html,application/xhtml+xml";
    let q = codec::url_encode(query);
    match provider {
        ProviderId::MercadoLivre => {
            let term = text::swap_char(query, ' ', '-');
            ask(
                text::join2("https://lista.mercadolivre.com.br/", term.as_str()),
                "pt-BR,pt;q=0.9,en;q=0.8",
                any,
                Some("gzip, deflate, br"),
            )
        },
        ProviderId::AliExpress => {
            let term = text::swap_char(query, ' ', '+');
            let term = codec::url_encode(term.as_str());
            ask_browser(
                text::join3("https://pt.aliexpress.com/w/wholesale-", term.as_str(), ".html"),
                port,
                "AliExpress requires CDP connection to your real browser. Set cdp_port = 9222 in config and launch: chromium --remote-debugging-port=9222",
            )
        },
        ProviderId::Shopee => ask_browser(
            text::join2("https://shopee.com.br/search?keyword=", q.as_str()),
            port,
            "Shopee requires CDP connection to your real browser. Set cdp_port = 9222 in config and launch: chromium --remote-debugging-port=9222",
        ),
        ProviderId::Amazon => ask(
            text::join2("https://www.amazon.com.br/s?k=", q.as_str()),
            "pt-BR,pt;q=0.9,en;q=0.8",
            any,
            None,
        ),
        ProviderId::AmazonUS => ask(
            text::join2("https://www.amazon.com/s?k=", q.as_str()),
            "en-US,en;q=0.9,pt-BR;q=0.8",
            any,
            None,
        ),
        ProviderId::Kabum => {
            let term = text::swap_char(query, ' ', '-');
            ask(
                text::join2("https://www.kabum.com.br/busca/", term.as_str()),
                "pt-BR,pt;q=0.9",
                page,
                None,
            )
        },
        ProviderId::MagazineLuiza => ask(
            text::join3("https://www.magazineluiza.com.br/busca/", q.as_str(), "/"),
            "pt-BR,pt;q=0.9",
            page,
            None,
        ),
        ProviderId::Olx => ask(
            text::join2("https://www.olx.com.br/brasil?q=", q.as_str()),
            "pt-BR,pt;q=0.9",
            page,
            None,
        ),
        ProviderId::GoogleShopping => Err(
            ProviderError::Browser(
                "Google Shopping requires CDP. Launch browser with --remote-debugging-port=9222".to_string(),
            ),
        ),
        ProviderId::Ebay => ask(
            text::join3(
                "https://www.ebay.com/sch/i.html?_nkw=",
                q.as_str(),
                "&_sacat=0&LH_PrefLoc=3&_sop=15",
            ),
            "en-US,en;q=0.9",
            any,
            None,
        ),
    }
}

// ---- Answers ----

/// What the two Amazon stores are said to have answered when they take a request for one
/// of a robot.
pub open spec fn robot_answer(provider: ProviderId, status: u16) -> Option<Seq<char>> {
    let line = if status == 503 {
        Some("503 Service Unavailable"@)
    } else if status == 429 {
        Some("429 Too Many Requests"@)
    } else {
        None
    };
    match line {
        Some(line) => if provider == ProviderId::Amazon {
            Some("Amazon returned "@ + line)
        } else if provider == ProviderId::AmazonUS {
            Some("Amazon US returned "@ + line)
        } else {
            None
        },
        None => None,
    }
}

/// The error where one of the two Amazon stores takes a request for one of a robot, told
/// by the status of its answer.
pub fn refusal(provider: ProviderId, status: u16) -> (r: Option<ProviderError>)
    ensures
        match r {
            Some(e) => robot_answer(provider, status) is Some && e@
                == error::ProviderErrorView::Scraping(robot_answer(provider, status)->0),
            None => robot_answer(provider, status) is None,
        },
{
    let line = if status == 503 {
        "503 Service Unavailable"
    } else if status == 429 {
        "429 Too Many Requests"
    } else {
        return None;
    };
    if provider == ProviderId::Amazon {
        Some(ProviderError::Scraping(text::join2("Amazon returned ", line)))
    } else if provider == ProviderId::AmazonUS {
        Some(ProviderError::Scraping(text::join2("Amazon US returned ", line)))
    } else {
        None
    }
}

/// The offers on a page of a store.
pub open spec fn page_offers(provider: ProviderId, page: Seq<char>, max_results: nat, at: int) -> Result<
    Seq<models::ProductView>,
    error::ProviderErrorView,
> {
    match provider {
        ProviderId::MercadoLivre => Ok(
            mercadolivre::ml_offers(mercadolivre::ml_cards(page), at),
        ),
        ProviderId::AliExpress => aliexpress::ali_offers(page, max_results, at),
        ProviderId::Shopee => Ok(shopee::shopee_offers(page, max_results, at)),
        ProviderId::Amazon => Ok(amazon::amazon_offers(amazon::amazon_cards(page), at)),
        ProviderId::AmazonUS => Ok(
            amazon_us::us_offers(amazon::amazon_cards(page), max_results, at),
        ),
        ProviderId::Kabum => kabum::kabum_offers(page, at),
        ProviderId::MagazineLuiza => magalu::magalu_offers(page, max_results, at),
        ProviderId::Olx => olx::olx_offers(page, at),
        ProviderId::GoogleShopping => Ok(google_shopping::gs_offers(page, max_results, at)),
        ProviderId::Ebay => ebay::ebay_offers(page, max_results, at),
    }
}

/// The offers on a page of a store, read at a time.
pub fn parse_page(provider: ProviderId, page: &str, max_results: usize, at: i128) -> (r: Result<
    Vec<Product>,
    ProviderError,
>)
    ensures
        providers::outcome_view(r) == page_offers(provider, page@, max_results as nat, at as int),
{
    match provider {
        ProviderId::MercadoLivre => mercadolivre::MercadoLivre::new().parse_html(
            page,
            max_results,
            at,
        ),
        ProviderId::AliExpress => aliexpress::AliExpress::new(None).parse_html(
            page,
            max_results,
            at,
        ),
        ProviderId::Shopee => shopee::Shopee::new(None).parse_html(page, max_results, at),
        ProviderId::Amazon => amazon::Amazon::new().parse_html(page, max_results, at),
        ProviderId::AmazonUS => amazon_us::AmazonUS::new().parse_html(page, max_results, at),
        ProviderId::Kabum => kabum::Kabum::new().parse_html(page, max_results, at),
        ProviderId::MagazineLuiza => magalu::MagazineLuiza::new().parse_html(
            page,
            max_results,
            at,
        ),
        ProviderId::Olx => olx::Olx::new().parse_html(page, max_results, at),
        ProviderId::GoogleShopping => google_shopping::GoogleShopping::new().parse_html(
            page,
            max_results,
            at,
        ),
        ProviderId::Ebay => ebay::Ebay::new().parse_html(page, max_results, at),
    }
}

/// What a store demands of its visitors on a page that holds no results.
pub open spec fn demand(provider: ProviderId, page: Seq<char>) -> Option<Seq<char>> {
    if provider == ProviderId::AliExpress && (text::has(page, "unusual traffic"@) || text::has(
        page,
        "captcha"@,
    )) {
        Some("AliExpress captcha detected. Run `pechincha login ali` first."@)
    } else if provider == ProviderId::Shopee && (text::has(page, "buyer/login"@) || text::has(
        page,
        "verify/captcha"@,
    )) {
        Some("Shopee requires login. Run `pechincha login shopee` first."@)
    } else {
        None
    }
}

/// The offers on a page that a store answered a request with.
pub open spec fn answer_offers(
    provider: ProviderId,
    page: Seq<char>,
    max_results: nat,
    at: int,
) -> Result<Seq<models::ProductView>, error::ProviderErrorView> {
    match demand(provider, page) {
        Some(s) => Err(error::ProviderErrorView::Auth(s)),
        None => page_offers(provider, page, max_results, at),
    }
}

/// The offers on a page that a store answered a request with, read at a time, unless it
/// asks for a login or for proof of a human.
pub fn read_answer(provider: ProviderId, page: &str, max_results: usize, at: i128) -> (r: Result<
    Vec<Product>,
    ProviderError,
>)
    ensures
        providers::outcome_view(r) == answer_offers(
            provider,
            page@,
            max_results as nat,
            at as int,
        ),
{
    if provider == ProviderId::AliExpress && (text::contains(page, "unusual traffic")
        || text::contains(page, "captcha")) {
        return Err(
            ProviderError::Auth(
                "AliExpress captcha detected. Run `pechincha login ali` first.".to_string(),
            ),
        );
    }
    if provider == ProviderId::Shopee && (text::contains(page, "buyer/login") || text::contains(
        page,
        "verify/captcha",
    )) {
        return Err(
            ProviderError::Auth(
                "Shopee requires login. Run `pechincha login shopee` first.".to_string(),
            ),
        );
    }
    parse_page(provider, page, max_results, at)
}

// ---- Laws ----

proof fn lemma_module_offers_fresh(f: Seq<json::FieldView>, i: int, at: int)
    ensures
        providers::fresh_offers(aliexpress::module_offers(f, i, at), ProviderId::AliExpress, at),
    decreases f.len() - i,
{
    if 0 <= i < f.len() {
        let items = aliexpress::module_items(f[i].value);
        providers::lemma_gathered_fresh(
            providers::first_of(items, 50),
            |j: json::JsonView| aliexpress::ali_offer(j, at),
            ProviderId::AliExpress,
            at,
        );
        lemma_module_offers_fresh(f, i + 1, at);
    }
}

proof fn lemma_ali_cards_fresh(
    page: Seq<char>,
    m: Seq<pattern::FoundView>,
    k: int,
    max: nat,
    at: int,
)
    ensures
        match aliexpress::card_offers(page, m, k, max, at) {
            Some(v) => providers::fresh_offers(v, ProviderId::AliExpress, at),
            None => true,
        },
    decreases k,
{
    if k > 0 {
        lemma_ali_cards_fresh(page, m, k - 1, max, at);
    }
}

proof fn lemma_ali_fresh(page: Seq<char>, max: nat, at: int)
    ensures
        match aliexpress::ali_offers(page, max, at) {
            Ok(v) => providers::fresh_offers(v, ProviderId::AliExpress, at),
            Err(_) => true,
        },
{
    let m = pattern::regex_matches("card-out-wrapper"@, page);
    lemma_ali_cards_fresh(page, m, m.len() as int, max, at);
    match providers::assigned_object(page, "window._dida_config_"@) {
        Some(object) => {
            match json::json_from_text(object) {
                Ok(config) => {
                    let f = json::fields_of(
                        json::member(providers::member2(config, "_init_data_"@, "data"@), "data"@),
                    );
                    if f is Some {
                        lemma_module_offers_fresh(f->0, 0, at);
                    }
                },
                Err(_) => {},
            }
        },
        None => {},
    }
}

proof fn lemma_shopee_links_fresh(
    page: Seq<char>,
    m: Seq<pattern::FoundView>,
    k: int,
    max: nat,
    at: int,
)
    ensures
        providers::fresh_offers(
            shopee::link_offers(page, m, k, max, at),
            ProviderId::Shopee,
            at,
        ),
    decreases k,
{
    if k > 0 {
        lemma_shopee_links_fresh(page, m, k - 1, max, at);
    }
}

proof fn lemma_shopee_items_fresh(items: Seq<json::JsonView>, at: int)
    ensures
        providers::fresh_offers(shopee::item_offers(items, at), ProviderId::Shopee, at),
{
    providers::lemma_gathered_fresh(
        providers::first_of(items, 50),
        |j: json::JsonView| shopee::item_offer(j, at),
        ProviderId::Shopee,
        at,
    );
}

proof fn lemma_shopee_data_fresh(object: Option<Result<json::JsonView, Seq<char>>>, at: int)
    ensures
        match shopee::data_offers(object, at) {
            Some(v) => providers::fresh_offers(v, ProviderId::Shopee, at),
            None => true,
        },
{
    match object {
        Some(Ok(data)) => {
            if shopee::items_in(data) is Some {
                lemma_shopee_items_fresh(shopee::items_in(data)->0, at);
            }
        },
        _ => {},
    }
}

proof fn lemma_shopee_fresh(page: Seq<char>, max: nat, at: int)
    ensures
        providers::fresh_offers(shopee::shopee_offers(page, max, at), ProviderId::Shopee, at),
{
    let m = pattern::regex_matches("href=\"(/[^\"]*-i\\.(\\d+)\\.(\\d+)[^\"]*)"@, page);
    lemma_shopee_links_fresh(page, m, m.len() as int, max, at);
    lemma_shopee_data_fresh(shopee::marked_data(page, "window.__INITIAL_STATE__"@), at);
    lemma_shopee_data_fresh(shopee::marked_data(page, "window.__data__"@), at);
}

proof fn lemma_magalu_cards_fresh(cards: Seq<html::CardView>, max: nat, at: int)
    ensures
        providers::fresh_offers(
            magalu::magalu_card_offers(cards, max, at),
            ProviderId::MagazineLuiza,
            at,
        ),
    decreases cards.len(),
{
    if cards.len() > 0 {
        lemma_magalu_cards_fresh(cards.drop_last(), max, at);
    }
}

proof fn lemma_ebay_cards_fresh(cards: Seq<html::CardView>, max: nat, at: int)
    ensures
        match ebay::ebay_card_offers(cards, max, at) {
            Some(v) => providers::fresh_offers(v, ProviderId::Ebay, at),
            None => true,
        },
    decreases cards.len(),
{
    if cards.len() > 0 {
        lemma_ebay_cards_fresh(cards.drop_last(), max, at);
    }
}

proof fn lemma_headings_fresh(v: Seq<html::NestedView>, k: int, max: nat, at: int)
    ensures
        providers::fresh_offers(
            google_shopping::heading_offers(v, k, max, at),
            ProviderId::GoogleShopping,
            at,
        ),
    decreases k,
{
    if k > 0 {
        lemma_headings_fresh(v, k - 1, max, at);
    }
}

proof fn lemma_matches_fresh(
    page: Seq<char>,
    v: Seq<pattern::FoundView>,
    k: int,
    max: nat,
    at: int,
)
    ensures
        providers::fresh_offers(
            google_shopping::match_offers(page, v, k, max, at),
            ProviderId::GoogleShopping,
            at,
        ),
    decreases k,
{
    if k > 0 {
        lemma_matches_fresh(page, v, k - 1, max, at);
    }
}

proof fn lemma_kabum_fresh(page: Seq<char>, at: int)
    ensures
        match kabum::kabum_offers(page, at) {
            Ok(v) => providers::fresh_offers(v, ProviderId::Kabum, at),
            Err(_) => true,
        },
{
    match providers::page_data(page) {
        Some(data) => match json::json_from_text(data) {
            Ok(data) => {
                if kabum::kabum_catalog(data) is Some {
                    providers::lemma_gathered_fresh(
                        providers::first_of(kabum::kabum_catalog(data)->0, 50),
                        |j: json::JsonView| kabum::kabum_offer(j, at),
                        ProviderId::Kabum,
                        at,
                    );
                }
            },
            Err(_) => {},
        },
        None => {},
    }
}

proof fn lemma_olx_fresh(page: Seq<char>, at: int)
    ensures
        match olx::olx_offers(page, at) {
            Ok(v) => providers::fresh_offers(v, ProviderId::Olx, at),
            Err(_) => true,
        },
{
    match providers::page_data(page) {
        Some(data) => match json::json_from_text(data) {
            Ok(data) => {
                if olx::olx_list(data) is Some {
                    providers::lemma_gathered_fresh(
                        providers::first_of(olx::olx_list(data)->0, 50),
                        |j: json::JsonView| olx::olx_offer(j, at),
                        ProviderId::Olx,
                        at,
                    );
                }
            },
            Err(_) => {},
        },
        None => {},
    }
}

proof fn lemma_magalu_fresh(page: Seq<char>, max: nat, at: int)
    ensures
        match magalu::magalu_offers(page, max, at) {
            Ok(v) => providers::fresh_offers(v, ProviderId::MagazineLuiza, at),
            Err(_) => true,
        },
{
    lemma_magalu_cards_fresh(providers::first_of(magalu::magalu_cards(page), 3 * max), max, at);
    match providers::page_data(page) {
        Some(data) => match json::json_from_text(data) {
            Ok(data) => {
                if magalu::magalu_list(data) is Some {
                    providers::lemma_gathered_fresh(
                        providers::first_of(magalu::magalu_list(data)->0, 50),
                        |j: json::JsonView| magalu::magalu_offer(j, at),
                        ProviderId::MagazineLuiza,
                        at,
                    );
                }
            },
            Err(_) => {},
        },
        None => {},
    }
}

/// What is read off a page of a store are offers of that store, seen at the time of
/// reading.
pub proof fn offers_are_of_their_store(
    provider: ProviderId,
    page: Seq<char>,
    max_results: nat,
    at: int,
)
    ensures
        match page_offers(provider, page, max_results, at) {
            Ok(v) => providers::fresh_offers(v, provider, at),
            Err(_) => true,
        },
        match answer_offers(provider, page, max_results, at) {
            Ok(v) => providers::fresh_offers(v, provider, at),
            Err(_) => true,
        },
{
    match provider {
        ProviderId::MercadoLivre => {
            providers::lemma_gathered_fresh(
                providers::first_of(mercadolivre::ml_cards(page), 50),
                |c: html::CardView| mercadolivre::ml_offer(c, at),
                provider,
                at,
            );
        },
        ProviderId::AliExpress => {
            lemma_ali_fresh(page, max_results, at);
        },
        ProviderId::Shopee => {
            lemma_shopee_fresh(page, max_results, at);
        },
        ProviderId::Amazon => {
            providers::lemma_gathered_fresh(
                providers::first_of(amazon::amazon_cards(page), 50),
                |c: html::CardView| amazon::amazon_offer(c, at),
                provider,
                at,
            );
        },
        ProviderId::AmazonUS => {
            providers::lemma_gathered_fresh(
                providers::first_of(amazon::amazon_cards(page), max_results),
                |c: html::CardView| amazon_us::us_offer(c, at),
                provider,
                at,
            );
        },
        ProviderId::Kabum => {
            lemma_kabum_fresh(page, at);
        },
        ProviderId::MagazineLuiza => {
            lemma_magalu_fresh(page, max_results, at);
        },
        ProviderId::Olx => {
            lemma_olx_fresh(page, at);
        },
        ProviderId::GoogleShopping => {
            let v = html::page_nested(page, "h3"@, 5);
            lemma_headings_fresh(v, v.len() as int, max_results, at);
            let m = pattern::regex_matches("<h3[^>]*>([^<]{15,200})</h3>"@, page);
            lemma_matches_fresh(page, m, m.len() as int, max_results, at);
        },
        ProviderId::Ebay => {
            lemma_ebay_cards_fresh(
                providers::first_of(ebay::ebay_cards(page), max_results + 10),
                max_results,
                at,
            );
        },
    }
}

/// A page is asked for at the address of its store with what is searched for; AliExpress and
/// Shopee only through a browser at a port that is known, and Google Shopping not at all.
pub proof fn pages_are_asked_for_at_their_store(
    provider: ProviderId,
    query: Seq<char>,
    port: Option<u16>,
)
    ensures
        ({
            let q = codec::percent_encoded(text::bytes_of(query));
            let r = store_request(provider, query, port);
            let url = match provider {
                ProviderId::MercadoLivre => "https://lista.mercadolivre.com.br/"@ + text::swapped(
                    query,
                    ' ',
                    '-',
                ),
                ProviderId::AliExpress => "https://pt.aliexpress.com/w/wholesale-"@
                    + codec::percent_encoded(text::bytes_of(text::swapped(query, ' ', '+')))
                    + ".html"@,
                ProviderId::Shopee => "https://shopee.com.br/search?keyword="@ + q,
                ProviderId::Amazon => "https://www.amazon.com.br/s?k="@ + q,
                ProviderId::AmazonUS => "https://www.amazon.com/s?k="@ + q,
                ProviderId::Kabum => "https://www.kabum.com.br/busca/"@ + text::swapped(
                    query,
                    ' ',
                    '-',
                ),
                ProviderId::MagazineLuiza => "https://www.magazineluiza.com.br/busca/"@ + q + "/"@,
                ProviderId::Olx => "https://www.olx.com.br/brasil?q="@ + q,
                ProviderId::GoogleShopping => ""@,
                ProviderId::Ebay => "https://www.ebay.com/sch/i.html?_nkw="@ + q
                    + "&_sacat=0&LH_PrefLoc=3&_sop=15"@,
            };
            if provider == ProviderId::GoogleShopping {
                r is Err
            } else if provider == ProviderId::AliExpress || provider == ProviderId::Shopee {
                &&& port is None ==> r is Err && r->Err_0 is Browser
                &&& port is Some ==> r == Ok::<PageRequestView, error::ProviderErrorView>(
                    PageRequestView::Browser { url, port: port->0 },
                )
            } else {
                r is Ok && r->Ok_0 is Http && r->Ok_0->Http_url == url
            }
        }),
{
}

/// Stores are asked in Portuguese, and those abroad in English first.
pub proof fn stores_are_asked_in_their_language(
    provider: ProviderId,
    query: Seq<char>,
    port: Option<u16>,
)
    requires
        store_request(provider, query, port) is Ok,
        store_request(provider, query, port)->Ok_0 is Http,
    ensures
        ({
            let l = store_request(provider, query, port)->Ok_0->Http_accept_language;
            &&& provider == ProviderId::AmazonUS ==> l == "en-US,en;q=0.9,pt-BR;q=0.8"@
            &&& provider == ProviderId::Ebay ==> l == "en-US,en;q=0.9"@
            &&& provider == ProviderId::MercadoLivre || provider == ProviderId::Amazon ==> l
                == "pt-BR,pt;q=0.9,en;q=0.8"@
            &&& provider == ProviderId::Kabum || provider == ProviderId::MagazineLuiza || provider
                == ProviderId::Olx ==> l == "pt-BR,pt;q=0.9"@
        }),
{
}

/// Only the two Amazon sites refuse robots by status, with 503 and 429.
pub proof fn robots_are_refused_by_amazon(provider: ProviderId, status: u16)
    ensures
        robot_answer(provider, status) is Some <==> (provider == ProviderId::Amazon || provider
            == ProviderId::AmazonUS) && (status == 503 || status == 429),
        status == 503 && provider == ProviderId::Amazon ==> robot_answer(provider, status) == Some(
            "Amazon returned "@ + "503 Service Unavailable"@,
        ),
        status == 429 && provider == ProviderId::Amazon ==> robot_answer(provider, status) == Some(
            "Amazon returned "@ + "429 Too Many Requests"@,
        ),
        status == 503 && provider == ProviderId::AmazonUS ==> robot_answer(provider, status)
            == Some("Amazon US returned "@ + "503 Service Unavailable"@),
        status == 429 && provider == ProviderId::AmazonUS ==> robot_answer(provider, status)
            == Some("Amazon US returned "@ + "429 Too Many Requests"@),
{
}

/// A page that demands something of its visitor is answered with an error that says so, and
/// any other with its offers: AliExpress for a riddle or unusual traffic, Shopee for a login
/// or a riddle.
pub proof fn demands_are_told(provider: ProviderId, page: Seq<char>, max_results: nat, at: int)
    ensures
        ({
            let r = answer_offers(provider, page, max_results, at);
            let ali = provider == ProviderId::AliExpress && (text::has(page, "unusual traffic"@)
                || text::has(page, "captcha"@));
            let login = provider == ProviderId::Shopee && (text::has(page, "buyer/login"@)
                || text::has(page, "verify/captcha"@));
            &&& ali || login ==> r is Err && r->Err_0 is Auth
            &&& !ali && !login ==> r == page_offers(provider, page, max_results, at)
        }),
{
}

/// A page is read as one of its own store.
pub proof fn pages_are_read_by_their_store(
    provider: ProviderId,
    page: Seq<char>,
    max_results: nat,
    at: int,
)
    ensures
        ({
            let r = page_offers(provider, page, max_results, at);
            match provider {
                ProviderId::Kabum => r == kabum::Kabum.offers(page, max_results, at),
                ProviderId::Olx => r == olx::Olx.offers(page, max_results, at),
                ProviderId::Amazon => r == amazon::Amazon.offers(page, max_results, at),
                ProviderId::AmazonUS => r == amazon_us::AmazonUS.offers(page, max_results, at),
                ProviderId::MagazineLuiza => r == magalu::MagazineLuiza.offers(
                    page,
                    max_results,
                    at,
                ),
                ProviderId::Ebay => r == ebay::Ebay.offers(page, max_results, at),
                ProviderId::MercadoLivre => r == mercadolivre::MercadoLivre.offers(
                    page,
                    max_results,
                    at,
                ),
                ProviderId::AliExpress => r == aliexpress::ali_offers(page, max_results, at),
                ProviderId::Shopee => r is Ok && r->Ok_0 == shopee::shopee_offers(
                    page,
                    max_results,
                    at,
                ),
                ProviderId::GoogleShopping => r is Ok && r->Ok_0 == google_shopping::gs_offers(
                    page,
                    max_results,
                    at,
                ),
            }
        }),
{
}

} // verus!
