use pechincha::decimal::Decimal;
use pechincha::error::ProviderError;
use pechincha::models::{Currency, Product, ProductCondition, TaxRegime};
use pechincha::providers::aliexpress::AliExpress;
use pechincha::providers::amazon::Amazon;
use pechincha::providers::amazon_us::AmazonUS;
use pechincha::providers::ebay::Ebay;
use pechincha::providers::google_shopping::GoogleShopping;
use pechincha::providers::kabum::Kabum;
use pechincha::providers::magalu::MagazineLuiza;
use pechincha::providers::mercadolivre::MercadoLivre;
use pechincha::providers::olx::Olx;
use pechincha::providers::shopee::Shopee;
use pechincha::providers::{Provider, ProviderId};
use pechincha::scraping::{page_request, parse_page, read_answer, refusal, PageRequest};
use pechincha::search::apply_costs;

fn reais(whole: i64) -> Decimal {
    Decimal::new(whole, 0)
}

fn offers(r: Result<Vec<Product>, ProviderError>) -> Vec<Product> {
    match r {
        Ok(v) => v,
        Err(e) => panic!("{}", e.message()),
    }
}

fn complaint(r: Result<Vec<Product>, ProviderError>) -> String {
    match r {
        Ok(v) => panic!("{} offers", v.len()),
        Err(e) => e.message(),
    }
}

fn next_data(json: &str) -> String {
    format!(
        "<html><script id=\"__NEXT_DATA__\" type=\"application/json\">{json}</script></html>"
    )
}

#[test]
fn store_names_are_parsed() {
    assert_eq!(ProviderId::parse("ML").ok(), Some(ProviderId::MercadoLivre));
    assert_eq!(ProviderId::parse("amz_us").ok(), Some(ProviderId::AmazonUS));
    assert_eq!(ProviderId::parse("Google").ok(), Some(ProviderId::GoogleShopping));
    assert_eq!(ProviderId::parse("eBay").ok(), Some(ProviderId::Ebay));
    assert_eq!(
        ProviderId::parse("Submarino").err().unwrap(),
        "unknown provider: Submarino"
    );
}

#[test]
fn all_stores_are_listed_once() {
    let all = ProviderId::all();
    assert_eq!(all.len(), 10);
    for (i, p) in all.iter().enumerate() {
        assert!(!all[..i].contains(p));
        assert_eq!(ProviderId::parse(p.label()).is_ok(), !p.label().contains(' '));
    }
}

const AMAZON_CARDS: &str = "<html><body>
<div data-component-type='s-search-result' data-asin='B000000001'>
  <h2><a class='a-link-normal' href='/dp/B000000001/ref'><span> Sennheiser HD 600 Open Back </span></a></h2>
  <img class='s-image' src='https://img/1.jpg' alt='x'>
  <span class='a-price-whole'>2.499,</span><span class='a-price-fraction'>90</span>
  <span class='a-icon-alt'>4,7 de 5 estrelas</span>
  <a href='/x#customerReviews'><span class='a-size-base'>1.234</span></a>
</div>
<div data-component-type='s-search-result' data-asin='B000000002'>
  <h2><span>ASUS</span></h2>
  <img class='s-image' src='https://img/2.jpg' alt='ASUS ROG Strix Laptop'>
</div>
<div data-component-type='s-search-result' data-asin='B000000003'><p>no title</p></div>
</body></html>";

#[test]
fn amazon_cards_are_read() {
    let v = offers(Amazon::new().parse_html(AMAZON_CARDS, 10, 7));
    assert_eq!(v.len(), 2);
    let p = &v[0];
    assert_eq!(p.provider, ProviderId::Amazon);
    assert_eq!(p.platform_id, "B000000001");
    assert_eq!(p.title, "Sennheiser HD 600 Open Back");
    assert_eq!(p.url, "https://www.amazon.com.br/dp/B000000001/ref");
    assert_eq!(p.image_url.as_deref(), Some("https://img/1.jpg"));
    assert_eq!(p.price.listed_price, Decimal::new(249990, 2));
    assert_eq!(p.price.currency, Currency::BRL);
    assert_eq!(p.price.tax.tax_regime, TaxRegime::Domestic);
    assert_eq!(p.rating.unwrap(), Decimal::new(47, 1));
    assert_eq!(p.review_count, Some(1234));
    assert_eq!(p.fetched_at, 7);
    // A short title gives way to what the picture says, and a missing link to the number.
    let q = &v[1];
    assert_eq!(q.title, "ASUS ROG Strix Laptop");
    assert_eq!(q.url, "https://www.amazon.com.br/dp/B000000002");
    assert!(q.price.listed_price.is_zero());
}

#[test]
fn american_amazon_cards_are_read() {
    let page = "<html><body>
<div data-component-type='s-search-result' data-asin='B000000009'>
  <span>Sponsored</span><h2><span>An advertisement for something</span></h2>
</div>
<div data-component-type='s-search-result' data-asin='B000000001'>
  <h2><a class='a-link-normal' href='#'><span>Sennheiser HD 600 Open Back</span></a></h2>
  <span class='a-price-whole'>1,299.</span><span class='a-price-fraction'>95</span>
  <span class='a-icon-alt'>4.6 out of 5 stars</span>
</div>
<div data-component-type='s-search-result' data-asin=''><h2><span>Without any number at all</span></h2></div>
</body></html>";
    let v = offers(AmazonUS::new().parse_html(page, 10, 0));
    assert_eq!(v.len(), 1);
    assert_eq!(v[0].provider, ProviderId::AmazonUS);
    assert_eq!(v[0].url, "https://www.amazon.com/dp/B000000001");
    assert_eq!(v[0].price.listed_price, Decimal::new(129995, 2));
    assert_eq!(v[0].price.currency, Currency::USD);
    assert_eq!(v[0].rating.unwrap(), Decimal::new(46, 1));
    assert!(!v[0].domestic);
    assert!(!v[0].price.tax.taxes_included);
    // The limit counts cards, not offers.
    assert_eq!(offers(AmazonUS::new().parse_html(page, 1, 0)).len(), 0);
}

#[test]
fn mercado_livre_cards_are_read() {
    let page = "<ul>
<li class='ui-search-layout__item'>
  <a class='poly-component__title' href='https://ml/1'>Fone Sennheiser HD 600</a>
  <div class='poly-price__current'><span class='andes-money-amount__fraction'>2.199</span></div>
  <img class='poly-component__picture' data-src='https://img/ml.jpg'>
  <div class='poly-component__shipping'>Frete GRÁTIS</div>
</li>
<li class='ui-search-layout__item'>
  <a class='poly-component__title' href='https://ml/2'>Fone importado HD 600</a>
  <div class='poly-price__current'><span class='andes-money-amount__fraction'>999</span></div>
  <span class='poly-component__cbt'>x</span>
</li>
<li class='ui-search-layout__item'>
  <a class='poly-component__title' href='https://ml/3'>Sem pre&ccedil;o</a>
</li></ul>";
    let v = offers(MercadoLivre::new().parse_html(page, 10, 0));
    assert_eq!(v.len(), 2);
    assert_eq!(v[0].title, "Fone Sennheiser HD 600");
    assert_eq!(v[0].price.listed_price, reais(2199));
    assert_eq!(v[0].price.shipping_cost.unwrap(), reais(0));
    assert_eq!(v[0].image_url.as_deref(), Some("https://img/ml.jpg"));
    assert!(v[0].domestic);
    assert_eq!(v[0].condition, ProductCondition::Unknown);
    assert!(!v[1].domestic);
    assert!(v[1].price.tax.remessa_conforme);
    assert!(!v[1].price.tax.taxes_included);
    assert_eq!(v[1].price.tax.tax_regime, TaxRegime::Unknown);
    assert!(v[1].price.shipping_cost.is_none());
}

#[test]
fn ebay_cards_are_read() {
    let page = "<ul>
<li class='s-card'><a href='https://www.ebay.com/itm/123456?hash=1' aria-label='Sennheiser HD 600 Headphones'></a>
<img src='https://i.ebayimg.com/1.jpg'>
Sennheiser HD 600 Headphones Pre-Owned US $1,249.50 +US $85.69 shipping</li>
<li class='s-card'><a href='https://www.ebay.com/itm/9?x' title='Sennheiser HD 600 em reais'></a>
Sennheiser HD 600 Brand New R$ 1.564,49 Frete gr&aacute;tis hoje mesmo</li>
<li class='s-card'><a href='https://www.ebay.com/itm/8'></a>Shop on eBay and many more words here US $20.00</li>
<li class='s-card'><a href='https://www.ebay.com/itm/7' title='Sennheiser HD 600 range'></a>
Several variants cost US $10.00 to US $20.00 in all colours</li>
</ul>";
    let v = offers(Ebay::new().parse_html(page, 10, 0));
    assert_eq!(v.len(), 2);
    assert_eq!(v[0].platform_id, "123456");
    assert_eq!(v[0].title, "Sennheiser HD 600 Headphones");
    assert_eq!(v[0].price.currency, Currency::USD);
    assert_eq!(v[0].price.listed_price, Decimal::new(124950, 2));
    assert_eq!(v[0].price.shipping_cost.unwrap(), Decimal::new(8569, 2));
    assert_eq!(v[0].price.total_cost, Decimal::new(133519, 2));
    assert_eq!(v[0].condition, ProductCondition::Used);
    assert_eq!(v[0].image_url.as_deref(), Some("https://i.ebayimg.com/1.jpg"));
    assert_eq!(v[1].price.currency, Currency::BRL);
    assert_eq!(v[1].price.listed_price, Decimal::new(156449, 2));
    assert_eq!(v[1].price.shipping_cost.unwrap(), reais(0));
    assert_eq!(v[1].condition, ProductCondition::New);
    assert!(!v[1].domestic);
}

#[test]
fn kabum_data_is_read() {
    let page = next_data(
        "{\"props\":{\"pageProps\":{\"data\":{\"catalogServer\":{\"data\":[
{\"name\":\"Fone HD 600\",\"priceWithDiscount\":1999.9,\"price\":2199.0,\"oldPrice\":2499.5,\"code\":987,
 \"friendlyName\":\"fone-hd-600\",\"images\":[\"https://img/k.jpg\"],\"averageScore\":4.5,
 \"maxInstallment\":\"10x de R$ 1.249,90\",\"manufacturer\":{\"name\":\"Sennheiser\"}},
{\"name\":\"\",\"price\":1.0},{\"name\":\"De gra\u{e7}a\",\"price\":0}]}}}}}",
    );
    let v = offers(Kabum::new().parse_html(&page, 10, 0));
    assert_eq!(v.len(), 1);
    let p = &v[0];
    assert_eq!(p.platform_id, "987");
    assert_eq!(p.url, "https://www.kabum.com.br/produto/987/fone-hd-600");
    assert_eq!(p.price.listed_price, Decimal::new(19999, 1));
    assert_eq!(p.price.original_price.unwrap(), Decimal::new(24995, 1));
    let i = p.price.installments.unwrap();
    assert_eq!(i.count, 10);
    assert_eq!(i.amount_per, Decimal::new(124990, 2));
    assert_eq!(i.label(), "10x R$1249.90 sem juros");
    assert_eq!(p.seller.as_ref().unwrap().name, "Sennheiser");
    assert_eq!(p.rating.unwrap(), Decimal::new(45, 1));
}

#[test]
fn pages_without_data_are_refused() {
    assert_eq!(
        complaint(Kabum::new().parse_html("<html></html>", 10, 0)),
        "Scraping failed — site structure may have changed: __NEXT_DATA__ not found"
    );
    let cut = "<script id=\"__NEXT_DATA__\" type=\"application/json\">{}";
    assert_eq!(
        complaint(Kabum::new().parse_html(cut, 10, 0)),
        "Scraping failed — site structure may have changed: __NEXT_DATA__ closing tag not found"
    );
    assert_eq!(
        complaint(Kabum::new().parse_html(&next_data("{}"), 10, 0)),
        "Scraping failed — site structure may have changed: Kabum catalog data not found in __NEXT_DATA__"
    );
    assert!(complaint(Olx::new().parse_html(&next_data("{"), 10, 0))
        .starts_with("Failed to parse response: OLX JSON parse error: EOF"));
    assert_eq!(
        complaint(MagazineLuiza::new().parse_html(&next_data("[]"), 10, 0)),
        "Scraping failed — site structure may have changed: Magalu product list not found"
    );
}

#[test]
fn magalu_data_is_read() {
    let page = next_data(
        "{\"props\":{\"pageProps\":{\"data\":{\"search\":{\"products\":[
{\"available\":false,\"title\":\"Esgotado\",\"price\":{\"bestPrice\":\"10.00\"}},
{\"title\":\"Fone HD 600!\",\"id\":\"abc\",\"price\":{\"bestPrice\":\"1899.90\",\"fullPrice\":\"2100.00\"},
 \"image\":\"https://img/{w}x{h}/m.jpg\",\"rating\":{\"score\":4.8,\"count\":12},
 \"seller\":{\"description\":\"Loja X\",\"category\":\"1p\"},
 \"installment\":{\"quantity\":5,\"amount\":\"379.98\",\"interest\":\"0.00\"}}]}}}}}",
    );
    let v = offers(MagazineLuiza::new().parse_html(&page, 10, 0));
    assert_eq!(v.len(), 1);
    let p = &v[0];
    assert_eq!(p.url, "https://www.magazineluiza.com.br/fone-hd-600-/s/p/abc/");
    assert_eq!(p.image_url.as_deref(), Some("https://img/300x300/m.jpg"));
    assert_eq!(p.price.listed_price, Decimal::new(189990, 2));
    assert_eq!(p.price.original_price.unwrap(), Decimal::new(210000, 2));
    assert_eq!(p.review_count, Some(12));
    let seller = p.seller.as_ref().unwrap();
    assert_eq!(seller.name, "Loja X");
    assert!(seller.official_store);
    assert_eq!(p.price.installments.unwrap().count, 5);
    assert!(p.price.installments.unwrap().interest_free);
}

#[test]
fn magalu_cards_are_read_without_data() {
    let page = "<div><a href='/fone/p/1/'><h2>Fone de ouvido HD 600</h2><p>R$ 1.899,90 no Pix</p></a>
<a href='/fone/p/1/'><h2>Fone de ouvido HD 600 de novo</h2><p>R$ 1.899,90 no Pix</p></a>
<a href='/fone/p/2/'><h2>Fone de ouvido sem valor nenhum</h2></a></div>";
    let v = offers(MagazineLuiza::new().parse_html(page, 10, 0));
    assert_eq!(v.len(), 1);
    assert_eq!(v[0].title, "Fone de ouvido HD 600");
    assert_eq!(v[0].url, "https://www.magazineluiza.com.br/fone/p/1/");
    assert_eq!(v[0].price.listed_price, Decimal::new(189990, 2));
}

#[test]
fn olx_ads_are_read() {
    let page = next_data(
        "{\"props\":{\"pageProps\":{\"ads\":[
{\"subject\":\"HD 600 LACRADO\",\"priceValue\":\"3500\",\"oldPrice\":\"4000\",\"friendlyUrl\":\"https://olx/1\",
 \"images\":[{\"originalWebp\":\"https://img/o.webp\"}],\"listId\":42,\"user\":{\"displayName\":\"Ana\"},\"professionalAd\":true},
{\"title\":\"HD 600\",\"price\":\"R$ 2.750\",\"url\":\"https://olx/2\"},
{\"title\":\"sem valor\"}]}}}",
    );
    let v = offers(Olx::new().parse_html(&page, 10, 0));
    assert_eq!(v.len(), 2);
    assert_eq!(v[0].condition, ProductCondition::New);
    assert_eq!(v[0].platform_id, "42");
    assert_eq!(v[0].price.original_price.unwrap(), reais(4000));
    assert_eq!(v[0].image_url.as_deref(), Some("https://img/o.webp"));
    assert!(v[0].seller.as_ref().unwrap().official_store);
    assert_eq!(v[1].condition, ProductCondition::Used);
    assert_eq!(v[1].price.listed_price, reais(2750));
    assert_eq!(v[1].url, "https://olx/2");
    assert_eq!(v[1].platform_id, "");
    assert_eq!(v[1].seller.as_ref().unwrap().name, "Particular");
}

#[test]
fn shopee_links_are_read() {
    let page = "<a class=\"c\" href=\"/Fone-de-Ouvido-i.111.222\"><img src=\"https://down-br.img.susercontent.com/f.jpg\">\
<div>Fone de Ouvido Sennheiser</div><span>R$</span><span>1.234,56</span><span>1.500 vendidos</span></a>\
<a href=\"/Fone-de-Ouvido-i.111.222\"><div>Fone de Ouvido repetido</div><span>R$9,99</span></a>";
    let v = offers(Shopee::new(None).parse_html(page, 10, 0));
    assert_eq!(v.len(), 1);
    assert_eq!(v[0].platform_id, "222");
    assert_eq!(v[0].title, "Fone de Ouvido Sennheiser");
    assert_eq!(v[0].price.listed_price, Decimal::new(123456, 2));
    assert_eq!(v[0].sold_count, Some(1500));
    assert_eq!(v[0].url, "https://shopee.com.br/Fone-de-Ouvido-i.111.222");
    assert_eq!(
        v[0].image_url.as_deref(),
        Some("https://down-br.img.susercontent.com/f.jpg")
    );
}

#[test]
fn shopee_data_is_read_without_links() {
    let page = "<script>window.__INITIAL_STATE__ = {\"a\":{\"items\":[{\"item_basic\":\
{\"name\":\"Fone\",\"price\":12345600000,\"itemid\":5,\"shopid\":6}},{\"name\":\"\"}]}};</script>";
    let v = offers(Shopee::new(Some(9222)).parse_html(page, 10, 0));
    assert_eq!(v.len(), 1);
    assert_eq!(v[0].price.listed_price, reais(123456));
    assert_eq!(v[0].url, "https://shopee.com.br/product/6/5");
    assert!(v[0].price.tax.remessa_conforme);
}

#[test]
fn aliexpress_data_is_read() {
    let page = "<script>window._dida_config_ = {\"_init_data_\":{\"data\":{\"data\":{\"root\":{\"fields\":{\"mods\":\
{\"itemList\":{\"content\":[{\"title\":{\"displayTitle\":\"Fone HD\"},\"prices\":{\"salePrice\":{\"formattedPrice\":\"R$1.853,99\"}},\
\"productId\":\"100500\",\"image\":{\"imgUrl\":\"//ae01/x.jpg\"},\"evaluation\":{\"starRating\":\"4.9\"}},\
{\"title\":{\"text\":\"Cabo\"},\"prices\":{\"salePrice\":{\"minPrice\":\"US$ 3.50\"}}},{\"prices\":{}}]}}}}}}}};</script>";
    let v = offers(AliExpress::new(None).parse_html(page, 10, 0));
    assert_eq!(v.len(), 2);
    assert_eq!(v[0].price.currency, Currency::BRL);
    assert_eq!(v[0].price.listed_price, Decimal::new(185399, 2));
    assert_eq!(v[0].url, "https://pt.aliexpress.com/item/100500.html");
    assert_eq!(v[0].image_url.as_deref(), Some("https://ae01/x.jpg"));
    assert_eq!(v[0].rating.unwrap(), Decimal::new(49, 1));
    assert_eq!(v[0].price.tax.tax_regime, TaxRegime::Unknown);
    assert_eq!(v[1].price.currency, Currency::USD);
    assert_eq!(v[1].price.listed_price, Decimal::new(35, 1));
    assert_eq!(v[1].url, "");
}

#[test]
fn aliexpress_cards_are_read_without_data() {
    let card = "<div class=\"card-out-wrapper\"><a href=\"//pt.aliexpress.com/item/777.html\">\
<img alt=\"Fone de ouvido HD 600 original\" src=\"//ae-pic-a1.aliexpress-media.com/k.jpg\"></a>R$1.911,33</div>";
    let page = format!("<html>{card}{card}{}</html>", " ".repeat(4000));
    let v = offers(AliExpress::new(None).parse_html(&page, 10, 0));
    assert_eq!(v.len(), 1);
    assert_eq!(v[0].platform_id, "777");
    assert_eq!(v[0].title, "Fone de ouvido HD 600 original");
    assert_eq!(v[0].price.listed_price, Decimal::new(191133, 2));
    assert_eq!(
        v[0].image_url.as_deref(),
        Some("https://ae-pic-a1.aliexpress-media.com/k.jpg")
    );
}

#[test]
fn google_shopping_cards_are_read() {
    let page = "<html><body><div><a href='https://www.google.com/url'>g</a><a href='https://www.kabum.com.br/p/1'>k</a>\
<h3>Fone Sennheiser HD 600 preto</h3><span>R$ 2.345,67</span> De Loja do Som </div>\
<div><h3>Resultado patrocinado aqui</h3><span>R$ 1,00</span></div></body></html>";
    let v = offers(GoogleShopping::new().parse_html(page, 10, 0));
    assert_eq!(v.len(), 1);
    assert_eq!(v[0].title, "Fone Sennheiser HD 600 preto");
    assert_eq!(v[0].price.listed_price, Decimal::new(234567, 2));
    assert_eq!(v[0].url, "https://www.kabum.com.br/p/1");
    assert_eq!(v[0].seller.as_ref().unwrap().name, "Loja do Som");
}

#[test]
fn every_store_reads_its_own_pages() {
    let v = offers(parse_page(ProviderId::Amazon, AMAZON_CARDS, 10, 3));
    assert_eq!(v.len(), 2);
    assert!(v.iter().all(|p| p.provider == ProviderId::Amazon));
    let v = offers(parse_page(ProviderId::AmazonUS, AMAZON_CARDS, 10, 3));
    assert!(v.iter().all(|p| p.provider == ProviderId::AmazonUS));
}

#[test]
fn stores_that_ask_for_a_login_are_reported() {
    match read_answer(ProviderId::Shopee, "<a href='/buyer/login'>", 5, 0) {
        Err(ProviderError::Auth(s)) => {
            assert_eq!(s, "Shopee requires login. Run `pechincha login shopee` first.")
        }
        _ => panic!("no demand"),
    }
    match read_answer(ProviderId::AliExpress, "unusual traffic", 5, 0) {
        Err(ProviderError::Auth(s)) => {
            assert_eq!(s, "AliExpress captcha detected. Run `pechincha login ali` first.")
        }
        _ => panic!("no demand"),
    }
    assert!(read_answer(ProviderId::Amazon, "captcha", 5, 0).is_ok());
}

#[test]
fn amazon_refuses_robots() {
    match refusal(ProviderId::Amazon, 503) {
        Some(ProviderError::Scraping(s)) => assert_eq!(s, "Amazon returned 503 Service Unavailable"),
        _ => panic!("no refusal"),
    }
    match refusal(ProviderId::AmazonUS, 429) {
        Some(ProviderError::Scraping(s)) => {
            assert_eq!(s, "Amazon US returned 429 Too Many Requests")
        }
        _ => panic!("no refusal"),
    }
    assert!(refusal(ProviderId::Kabum, 503).is_none());
    assert!(refusal(ProviderId::Amazon, 404).is_none());
}

#[test]
fn requests_are_built() {
    match page_request(ProviderId::Amazon, "hd 600 \u{e7}", None) {
        Ok(PageRequest::Http { url, accept_language, accept_encoding, .. }) => {
            assert_eq!(url, "https://www.amazon.com.br/s?k=hd%20600%20%C3%A7");
            assert_eq!(accept_language, "pt-BR,pt;q=0.9,en;q=0.8");
            assert!(accept_encoding.is_none());
        }
        _ => panic!("no request"),
    }
    match page_request(ProviderId::AliExpress, "hd 600", Some(9222)) {
        Ok(PageRequest::Browser { url, port }) => {
            assert_eq!(url, "https://pt.aliexpress.com/w/wholesale-hd%2B600.html");
            assert_eq!(port, 9222);
        }
        _ => panic!("no request"),
    }
    assert!(matches!(
        page_request(ProviderId::Shopee, "hd 600", None),
        Err(ProviderError::Browser(_))
    ));
    assert!(matches!(
        page_request(ProviderId::GoogleShopping, "hd 600", Some(9222)),
        Err(ProviderError::Browser(_))
    ));
}

#[test]
fn ebay_tells_the_currency_of_shipping() {
    let page = "<ul>
<li class='s-card'><a href='https://www.ebay.com/itm/1' title='Sennheiser HD 600 one'></a>
Sennheiser HD 600 one Brand New US $100.00 +US $10.00 shipping</li>
<li class='s-card'><a href='https://www.ebay.com/itm/2' title='Sennheiser HD 600 two'></a>
Sennheiser HD 600 two Brand New US $100.00 +R$ 443,91 de frete</li>
<li class='s-card'><a href='https://www.ebay.com/itm/3' title='Sennheiser HD 600 three'></a>
Sennheiser HD 600 three Brand New US $100.00 Free shipping</li>
</ul>";
    let v = offers(Ebay::new().parse_html(page, 10, 0));
    assert_eq!(v.len(), 3);
    assert_eq!(v[0].price.shipping_cost.unwrap(), reais(10));
    assert_eq!(v[0].price.shipping_currency, Currency::USD);
    assert_eq!(v[1].price.shipping_cost.unwrap(), Decimal::new(44391, 2));
    assert_eq!(v[1].price.shipping_currency, Currency::BRL);
    assert_eq!(v[2].price.shipping_cost.unwrap(), reais(0));
    assert_eq!(v[2].price.shipping_currency, Currency::BRL);
    let costed = apply_costs(&v, reais(5)).unwrap();
    assert_eq!(costed[0].price.price_brl, reais(500));
    assert_eq!(costed[0].price.shipping_cost.unwrap(), reais(50));
    assert_eq!(costed[0].price.shipping_currency, Currency::BRL);
    // 500 + 50 + 300 + (800 / 0.83 - 800)
    assert_eq!(costed[0].price.total_cost.show_fixed(4), "1013.8554");
    assert_eq!(costed[1].price.shipping_cost.unwrap(), Decimal::new(44391, 2));
    assert_eq!(costed[2].price.shipping_cost.unwrap(), reais(0));
}
