//! Cookies of the stores.

use vstd::prelude::*;

use crate::decimal::Decimal;
use crate::providers::ProviderId;
use crate::scraping;
use crate::text;

verus! {

/// A cookie that was saved. The time at which it expires is in seconds since the start of
/// 1970.
pub struct SavedCookie {
    pub name: String,
    pub value: String,
    pub domain: String,
    pub path: String,
    pub secure: bool,
    pub http_only: bool,
    pub expires: Option<Decimal>,
}

/// A cookie that was saved.
pub struct CookieView {
    pub name: Seq<char>,
    pub value: Seq<char>,
    pub domain: Seq<char>,
    pub path: Seq<char>,
    pub secure: bool,
    pub http_only: bool,
    pub expires: Option<Decimal>,
}

impl View for SavedCookie {
    type V = CookieView;

    open spec fn view(&self) -> CookieView {
        CookieView {
            name: self.name@,
            value: self.value@,
            domain: self.domain@,
            path: self.path@,
            secure: self.secure,
            http_only: self.http_only,
            expires: self.expires,
        }
    }
}

/// Some cookies.
pub open spec fn cookie_views(v: Seq<SavedCookie>) -> Seq<CookieView> {
    Seq::new(v.len(), |i: int| v[i]@)
}

// ---- Files ----

/// The name under which the cookies of a store are kept.
pub open spec fn cookie_name(provider: ProviderId) -> Seq<char> {
    match provider {
        ProviderId::MercadoLivre => "mercadolivre"@,
        ProviderId::AliExpress => "aliexpress"@,
        ProviderId::Shopee => "shopee"@,
        ProviderId::Amazon => "amazon_br"@,
        ProviderId::AmazonUS => "amazon_us"@,
        ProviderId::Kabum => "kabum"@,
        ProviderId::MagazineLuiza => "magalu"@,
        ProviderId::Olx => "olx"@,
        ProviderId::GoogleShopping => "google_shopping"@,
        ProviderId::Ebay => "ebay"@,
    }
}

fn name_for(provider: ProviderId) -> (r: &'static str)
    ensures
        r@ == cookie_name(provider),
{
    match provider {
        ProviderId::MercadoLivre => "mercadolivre",
        ProviderId::AliExpress => "aliexpress",
        ProviderId::Shopee => "shopee",
        ProviderId::Amazon => "amazon_br",
        ProviderId::AmazonUS => "amazon_us",
        ProviderId::Kabum => "kabum",
        ProviderId::MagazineLuiza => "magalu",
        ProviderId::Olx => "olx",
        ProviderId::GoogleShopping => "google_shopping",
        ProviderId::Ebay => "ebay",
    }
}

/// The file in a directory of settings in which the cookies of a store are kept.
pub open spec fn cookie_file(provider: ProviderId, config_dir: Seq<char>) -> Seq<char> {
    config_dir + "/pechincha/cookies/"@ + cookie_name(provider) + ".json"@
}

/// The file in a directory of settings in which the cookies of a store are kept.
pub fn cookie_path(provider: ProviderId, config_dir: &str) -> (r: String)
    ensures
        r@ == cookie_file(provider, config_dir@),
{
    let mut out = text::join3(config_dir, "/pechincha/cookies/", name_for(provider));
    out.append(".json");
    out
}

/// Whether the cookies of a store are kept: its file is one of those that there are.
pub fn has_cookies(provider: ProviderId, config_dir: &str, files: &Vec<String>) -> (r: bool)
    ensures
        r == text::texts(files@).contains(cookie_file(provider, config_dir@)),
{
    let path = cookie_path(provider, config_dir);
    let ghost all = text::texts(files@);
    let mut i: usize = 0;
    while i < files.len()
        invariant
            i <= files@.len(),
            all == text::texts(files@),
            path@ == cookie_file(provider, config_dir@),
            forall|k: int| 0 <= k < i ==> #[trigger] all[k] != path@,
        decreases files@.len() - i,
    {
        assert(all[i as int] == files@[i as int]@);
        if text::same_text(files[i].as_str(), path.as_str()) {
            assert(all[i as int] == path@);
            return true;
        }
        i = i + 1;
    }
    false
}

/// No two stores keep their cookies in one file.
pub proof fn stores_keep_cookies_apart(a: ProviderId, b: ProviderId, dir: Seq<char>)
    requires
        a != b,
    ensures
        cookie_file(a, dir) != cookie_file(b, dir),
{
    reveal_strlit("mercadolivre");
    reveal_strlit("aliexpress");
    reveal_strlit("shopee");
    reveal_strlit("amazon_br");
    reveal_strlit("amazon_us");
    reveal_strlit("kabum");
    reveal_strlit("magalu");
    reveal_strlit("olx");
    reveal_strlit("google_shopping");
    reveal_strlit("ebay");
    let (x, y) = (cookie_name(a), cookie_name(b));
    assert(x != y) by {
        assert(x.len() != y.len() || x[0] != y[0] || x[1] != y[1] || x[7] != y[7]);
    }
    let front = dir + "/pechincha/cookies/"@;
    if cookie_file(a, dir) == cookie_file(b, dir) {
        assert(cookie_file(a, dir).len() == cookie_file(b, dir).len());
        assert(x.len() == y.len());
        assert forall|i: int| 0 <= i < x.len() implies x[i] == y[i] by {
            assert(cookie_file(a, dir)[front.len() + i] == x[i]);
            assert(cookie_file(b, dir)[front.len() + i] == y[i]);
        }
        assert(x =~= y);
    }
}

// ---- Cookies in a command ----

/// The ways in which a command of curl tells its cookies, each up to the cookies, with
/// the quote that ends them.
pub open spec fn cookie_flags() -> Seq<(Seq<char>, Seq<char>)> {
    seq![
        ("-b '"@, "'"@),
        ("-b \""@, "\""@),
        ("--cookie '"@, "'"@),
        ("--cookie \""@, "\""@),
        ("-H 'cookie: "@, "'"@),
        ("-H \"cookie: "@, "\""@),
        ("-H 'Cookie: "@, "'"@),
        ("-H \"Cookie: "@, "\""@),
    ]
}

/// The cookies that a command tells in the first way, from the `i`-th on, that it tells
/// them in.
pub open spec fn told_cookies(s: Seq<char>, i: int) -> Option<Seq<char>>
    decreases cookie_flags().len() - i,
{
    if i < 0 || i >= cookie_flags().len() {
        None
    } else {
        match text::after(s, cookie_flags()[i].0) {
            Some(rest) => match text::before(rest, cookie_flags()[i].1) {
                Some(v) => Some(v),
                None => told_cookies(s, i + 1),
            },
            None => told_cookies(s, i + 1),
        }
    }
}

/// The cookie that a name and a value with an equals sign between them stand for, if the
/// name is not empty.
pub open spec fn cookie_pair(s: Seq<char>) -> Option<CookieView> {
    let pair = text::trimmed(s);
    match text::position(pair, "="@, 0) {
        Some(i) => {
            let name = text::trimmed(pair.take(i));
            if name.len() == 0 {
                None
            } else {
                Some(
                    CookieView {
                        name,
                        value: text::trimmed(pair.skip(i + "="@.len())),
                        domain: ""@,
                        path: "/"@,
                        secure: true,
                        http_only: false,
                        expires: None,
                    },
                )
            }
        },
        None => None,
    }
}

/// The cookies that the first `k` of some pairs stand for.
pub open spec fn cookie_pairs(v: Seq<Seq<char>>, k: int) -> Seq<CookieView>
    decreases k,
{
    if k <= 0 {
        Seq::empty()
    } else {
        match cookie_pair(v[k - 1]) {
            Some(c) => cookie_pairs(v, k - 1).push(c),
            None => cookie_pairs(v, k - 1),
        }
    }
}

/// The cookies in a command of curl.
pub open spec fn curl_cookies(s: Seq<char>) -> Seq<CookieView> {
    match told_cookies(s, 0) {
        Some(told) => {
            let pairs = text::pieces(told, ';');
            cookie_pairs(pairs, pairs.len() as int)
        },
        None => Seq::empty(),
    }
}

fn told_after(s: &str, flag: &str, quote: &str) -> (r: Option<String>)
    ensures
        text::text_view(r) == (match text::after(s@, flag@) {
            Some(rest) => text::before(rest, quote@),
            None => None,
        }),
{
    match text::after_text(s, flag) {
        Some(rest) => text::before_text(rest.as_str(), quote),
        None => None,
    }
}

fn find_told(s: &str) -> (r: Option<String>)
    ensures
        text::text_view(r) == told_cookies(s@, 0),
{
    proof {
        reveal_with_fuel(told_cookies, 9);
    }
    let found = told_after(s, "-b '", "'");
    if found.is_some() {
        return found;
    }
    let found = told_after(s, "-b \"", "\"");
    if found.is_some() {
        return found;
    }
    let found = told_after(s, "--cookie '", "'");
    if found.is_some() {
        return found;
    }
    let found = told_after(s, "--cookie \"", "\"");
    if found.is_some() {
        return found;
    }
    let found = told_after(s, "-H 'cookie: ", "'");
    if found.is_some() {
        return found;
    }
    let found = told_after(s, "-H \"cookie: ", "\"");
    if found.is_some() {
        return found;
    }
    let found = told_after(s, "-H 'Cookie: ", "'");
    if found.is_some() {
        return found;
    }
    told_after(s, "-H \"Cookie: ", "\"")
}

fn read_pair(s: &str) -> (r: Option<SavedCookie>)
    ensures
        match r {
            Some(c) => cookie_pair(s@) == Some(c@),
            None => cookie_pair(s@) is None,
        },
{
    let pair = text::trim(s);
    let front = text::before_text(pair.as_str(), "=");
    let back = text::after_text(pair.as_str(), "=");
    match (front, back) {
        (Some(front), Some(back)) => {
            let name = text::trim(front.as_str());
            if text::text_bytes(name.as_str()) == 0 {
                return None;
            }
            Some(
                SavedCookie {
                    name,
                    value: text::trim(back.as_str()),
                    domain: "".to_string(),
                    path: "/".to_string(),
                    secure: true,
                    http_only: false,
                    expires: None,
                },
            )
        },
        _ => None,
    }
}

/// The cookies in a command of curl, as a browser copies it: those of its `-b` or
/// `--cookie` flag, or of a `-H` flag with a `cookie` header.
pub fn parse_curl_cookies(curl_str: &str) -> (r: Vec<SavedCookie>)
    ensures
        cookie_views(r@) == curl_cookies(curl_str@),
{
    let mut out: Vec<SavedCookie> = Vec::new();
    assert(cookie_views(out@) =~= Seq::empty());
    let told = match find_told(curl_str) {
        Some(told) => told,
        None => {
            return out;
        },
    };
    let pairs = text::split_char(told.as_str(), ';');
    let ghost all = text::texts(pairs@);
    let mut i: usize = 0;
    while i < pairs.len()
        invariant
            i <= pairs@.len(),
            all == text::texts(pairs@),
            cookie_views(out@) == cookie_pairs(all, i as int),
        decreases pairs@.len() - i,
    {
        assert(all[i as int] == pairs@[i as int]@);
        let ghost so_far = out@;
        match read_pair(pairs[i].as_str()) {
            Some(c) => {
                out.push(c);
                assert(cookie_views(out@) =~= cookie_views(so_far).push(c@));
            },
            None => {},
        }
        i = i + 1;
    }
    assert(all.len() == pairs@.len());
    out
}

// ---- Cookies from a browser ----

/// A browser that cookies can be taken from.
#[derive(Clone, Copy, Debug, PartialEq, Eq, Structural)]
pub enum CookieBrowser {
    Chrome,
    Brave,
    Firefox,
    Safari,
    Edge,
    Chromium,
    Opera,
}

/// The browser of a name, whatever its case.
pub open spec fn browser_named(name: Seq<char>) -> Option<CookieBrowser> {
    let s = text::lowered(name);
    if s == "chrome"@ {
        Some(CookieBrowser::Chrome)
    } else if s == "brave"@ {
        Some(CookieBrowser::Brave)
    } else if s == "firefox"@ {
        Some(CookieBrowser::Firefox)
    } else if s == "safari"@ {
        Some(CookieBrowser::Safari)
    } else if s == "edge"@ {
        Some(CookieBrowser::Edge)
    } else if s == "chromium"@ {
        Some(CookieBrowser::Chromium)
    } else if s == "opera"@ {
        Some(CookieBrowser::Opera)
    } else {
        None
    }
}

/// The browser of a name, whatever its case, or the reason why there is none.
pub fn find_browser(name: &str) -> (r: Result<CookieBrowser, String>)
    ensures
        match r {
            Ok(b) => browser_named(name@) == Some(b),
            Err(e) => browser_named(name@) is None && e@ == "Unsupported browser: "@ + name@
                + ". Use: chrome, brave, firefox, safari, edge, chromium, opera"@,
        },
{
    let lower = text::lowercase(name);
    let s = lower.as_str();
    if text::same_text(s, "chrome") {
        Ok(CookieBrowser::Chrome)
    } else if text::same_text(s, "brave") {
        Ok(CookieBrowser::Brave)
    } else if text::same_text(s, "firefox") {
        Ok(CookieBrowser::Firefox)
    } else if text::same_text(s, "safari") {
        Ok(CookieBrowser::Safari)
    } else if text::same_text(s, "edge") {
        Ok(CookieBrowser::Edge)
    } else if text::same_text(s, "chromium") {
        Ok(CookieBrowser::Chromium)
    } else if text::same_text(s, "opera") {
        Ok(CookieBrowser::Opera)
    } else {
        Err(
            text::join3(
                "Unsupported browser: ",
                name,
                ". Use: chrome, brave, firefox, safari, edge, chromium, opera",
            ),
        )
    }
}

/// The host of a store without a leading `www.`.
pub open spec fn bare_host(provider: ProviderId) -> Seq<char> {
    let h = scraping::host(provider);
    if "www."@.is_prefix_of(h) {
        h.skip("www."@.len() as int)
    } else {
        h
    }
}

/// The first `k` cookies, those of a store's own hosts.
pub open spec fn own_cookies(v: Seq<CookieView>, provider: ProviderId, k: int) -> Seq<CookieView>
    decreases k,
{
    if k <= 0 {
        Seq::empty()
    } else if text::has(v[k - 1].domain, bare_host(provider)) {
        own_cookies(v, provider, k - 1).push(v[k - 1])
    } else {
        own_cookies(v, provider, k - 1)
    }
}

impl Clone for SavedCookie {
    fn clone(&self) -> (r: SavedCookie)
        ensures
            r@ == self@,
    {
        SavedCookie {
            name: self.name.clone(),
            value: self.value.clone(),
            domain: self.domain.clone(),
            path: self.path.clone(),
            secure: self.secure,
            http_only: self.http_only,
            expires: self.expires,
        }
    }
}

/// Those of some cookies that are of a store's own hosts.
pub fn captured_cookies(provider: ProviderId, cookies: &Vec<SavedCookie>) -> (r: Vec<SavedCookie>)
    ensures
        cookie_views(r@) == own_cookies(cookie_views(cookies@), provider, cookies@.len() as int),
{
    let full = scraping::provider_domain(provider);
    let chars = text::chars_of(full);
    let host = if text::starts_with(full, "www.") {
        let prefix = text::chars_of("www.");
        let size: usize = chars.len();
        assert(chars@.subrange(prefix@.len() as int, size as int) =~= chars@.skip(
            prefix@.len() as int,
        ));
        text::part(&chars, prefix.len(), size)
    } else {
        full.to_string()
    };
    let ghost all = cookie_views(cookies@);
    let mut out: Vec<SavedCookie> = Vec::new();
    assert(cookie_views(out@) =~= Seq::empty());
    let mut i: usize = 0;
    while i < cookies.len()
        invariant
            i <= cookies@.len(),
            all == cookie_views(cookies@),
            host@ == bare_host(provider),
            cookie_views(out@) == own_cookies(all, provider, i as int),
        decreases cookies@.len() - i,
    {
        assert(all[i as int] == cookies@[i as int]@);
        if text::contains(cookies[i].domain.as_str(), host.as_str()) {
            let ghost so_far = out@;
            let c = cookies[i].clone();
            out.push(c);
            assert(cookie_views(out@) =~= cookie_views(so_far).push(c@));
        }
        i = i + 1;
    }
    out
}

/// The statement that sets a cookie in a page of a store. A cookie without a domain is
/// one of the store's host.
pub open spec fn statement(c: CookieView, provider: ProviderId) -> Seq<char> {
    "document.cookie = '"@ + c.name + "="@ + c.value + "; domain="@ + (if c.domain.len() == 0 {
        scraping::host(provider)
    } else {
        c.domain
    }) + "; path=/; secure'"@
}

/// The statement that sets a cookie in a page of a store.
pub fn cookie_statement(c: &SavedCookie, provider: ProviderId) -> (r: String)
    ensures
        r@ == statement(c@, provider),
{
    let mut out = text::join3("document.cookie = '", c.name.as_str(), "=");
    out.append(c.value.as_str());
    out.append("; domain=");
    if text::text_bytes(c.domain.as_str()) == 0 {
        out.append(scraping::provider_domain(provider));
    } else {
        out.append(c.domain.as_str());
    }
    out.append("; path=/; secure'");
    out
}

/// A cookie is what stands round the first equals sign of a pair, without the spaces round
/// it; it is for the whole site and for secure connections alone.
pub proof fn cookies_are_pairs(s: Seq<char>)
    ensures
        ({
            let pair = text::trimmed(s);
            match (text::before(pair, "="@), text::after(pair, "="@)) {
                (Some(name), Some(value)) => {
                    &&& text::trimmed(name).len() == 0 ==> cookie_pair(s) is None
                    &&& text::trimmed(name).len() > 0 ==> {
                        &&& cookie_pair(s) is Some
                        &&& cookie_pair(s)->0.name == text::trimmed(name)
                        &&& cookie_pair(s)->0.value == text::trimmed(value)
                        &&& cookie_pair(s)->0.domain.len() == 0
                        &&& cookie_pair(s)->0.path == "/"@
                        &&& cookie_pair(s)->0.secure
                        &&& !cookie_pair(s)->0.http_only
                        &&& cookie_pair(s)->0.expires is None
                    }
                },
                _ => cookie_pair(s) is None,
            }
        }),
{
    reveal_strlit("");
}

/// The cookies of a store are those for its host, and all of them.
pub proof fn own_cookies_are_for_the_host(
    v: Seq<CookieView>,
    provider: ProviderId,
    k: int,
    c: CookieView,
)
    requires
        0 <= k <= v.len(),
    ensures
        own_cookies(v, provider, k).contains(c) <==> v.take(k).contains(c) && text::has(
            c.domain,
            bare_host(provider),
        ),
    decreases k,
{
    if k > 0 {
        own_cookies_are_for_the_host(v, provider, k - 1, c);
        let before = own_cookies(v, provider, k - 1);
        let (a, b) = (v.take(k - 1), v.take(k));
        assert(b =~= a.push(v[k - 1]));
        lemma_cookie_pushed(a, v[k - 1], c);
        lemma_cookie_pushed(before, v[k - 1], c);
    }
}

proof fn lemma_cookie_pushed(v: Seq<CookieView>, x: CookieView, c: CookieView)
    ensures
        v.push(x).contains(c) <==> v.contains(c) || c == x,
{
    let p = v.push(x);
    if v.contains(c) {
        let i = choose|i: int| 0 <= i < v.len() && v[i] == c;
        assert(p[i] == c);
    }
    assert(p[v.len() as int] == x);
    if p.contains(c) && c != x {
        let i = choose|i: int| 0 <= i < p.len() && p[i] == c;
        assert(v[i] == c);
    }
}

/// The host that the cookies of a store are for is its own, without `www.`.
pub proof fn cookies_are_for_the_bare_host(provider: ProviderId)
    ensures
        ({
            let h = scraping::host(provider);
            &&& "www."@.is_prefix_of(h) ==> h == "www."@ + bare_host(provider)
            &&& !"www."@.is_prefix_of(h) ==> bare_host(provider) == h
        }),
{
    let h = scraping::host(provider);
    if "www."@.is_prefix_of(h) {
        assert(h =~= "www."@ + h.skip("www."@.len() as int));
    }
}

/// The pairs of a command of curl become cookies in their order, those without a name left
/// out.
pub proof fn pairs_become_cookies(v: Seq<Seq<char>>, k: int, c: CookieView)
    requires
        0 <= k <= v.len(),
    ensures
        cookie_pairs(v, k).contains(c) <==> exists|i: int|
            0 <= i < k && cookie_pair(#[trigger] v[i]) == Some(c),
    decreases k,
{
    if k > 0 {
        pairs_become_cookies(v, k - 1, c);
        let before = cookie_pairs(v, k - 1);
        if cookie_pair(v[k - 1]) is Some {
            lemma_cookie_pushed(before, cookie_pair(v[k - 1])->0, c);
        }
    }
}

/// Browsers go by their names, whatever the case.
pub proof fn browsers_go_by_their_names(name: Seq<char>)
    ensures
        ({
            let s = text::lowered(name);
            &&& browser_named(name) == Some(CookieBrowser::Chrome) <==> s == "chrome"@
            &&& browser_named(name) == Some(CookieBrowser::Brave) <==> s == "brave"@
            &&& browser_named(name) == Some(CookieBrowser::Firefox) <==> s == "firefox"@
            &&& browser_named(name) == Some(CookieBrowser::Safari) <==> s == "safari"@
            &&& browser_named(name) == Some(CookieBrowser::Edge) <==> s == "edge"@
            &&& browser_named(name) == Some(CookieBrowser::Chromium) <==> s == "chromium"@
            &&& browser_named(name) == Some(CookieBrowser::Opera) <==> s == "opera"@
        }),
{
    reveal_strlit("chrome");
    reveal_strlit("brave");
    reveal_strlit("firefox");
    reveal_strlit("safari");
    reveal_strlit("edge");
    reveal_strlit("chromium");
    reveal_strlit("opera");
    assert("chrome"@.len() == 6 && "chrome"@[0] == 'c');
    assert("chromium"@.len() == 8 && "chromium"@[0] == 'c');
    assert("brave"@[0] == 'b');
    assert("firefox"@[0] == 'f');
    assert("safari"@[0] == 's');
    assert("edge"@[0] == 'e');
    assert("opera"@[0] == 'o');
}

/// The cookies of a command of curl stand in quotes behind one of its flags for them, and are
/// parted by semicolons.
pub proof fn curl_cookies_stand_behind_flags(s: Seq<char>)
    ensures
        ({
            let found = |flag: Seq<char>, quote: Seq<char>, told: Seq<char>|
                text::after(s, flag) is Some && text::before(text::after(s, flag)->0, quote)
                    == Some(told);
            match told_cookies(s, 0) {
                Some(told) => {
                    &&& curl_cookies(s) == cookie_pairs(
                        text::pieces(told, ';'),
                        text::pieces(told, ';').len() as int,
                    )
                    &&& found("-b '"@, "'"@, told) || found("-b \""@, "\""@, told) || found(
                        "--cookie '"@,
                        "'"@,
                        told,
                    ) || found("--cookie \""@, "\""@, told) || found("-H 'cookie: "@, "'"@, told)
                        || found("-H \"cookie: "@, "\""@, told) || found(
                        "-H 'Cookie: "@,
                        "'"@,
                        told,
                    ) || found("-H \"Cookie: "@, "\""@, told)
                },
                None => curl_cookies(s).len() == 0,
            }
        }),
        text::after(s, "-b '"@) is Some && text::before(text::after(s, "-b '"@)->0, "'"@) is Some
            ==> told_cookies(s, 0) == text::before(text::after(s, "-b '"@)->0, "'"@),
{
    reveal_with_fuel(told_cookies, 10);
}

/// A cookie is set for its own domain, or for the host of its store where it has none, on the
/// whole site and securely.
pub proof fn cookies_are_set_for_their_domain(c: CookieView, provider: ProviderId)
    ensures
        c.domain.len() > 0 ==> statement(c, provider) == "document.cookie = '"@ + c.name + "="@
            + c.value + "; domain="@ + c.domain + "; path=/; secure'"@,
        c.domain.len() == 0 ==> statement(c, provider) == "document.cookie = '"@ + c.name + "="@
            + c.value + "; domain="@ + scraping::host(provider) + "; path=/; secure'"@,
{
}

} // verus!
