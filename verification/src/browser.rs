//! Logging in to the stores.

use vstd::prelude::*;

use crate::providers::ProviderId;
use crate::text;

verus! {

/// The address of the page on which one logs in to a store, or of its first page where it
/// has none.
pub open spec fn login_page(provider: ProviderId) -> Seq<char> {
    match provider {
        ProviderId::MercadoLivre => "https://www.mercadolivre.com.br/gz/home"@,
        ProviderId::AliExpress => "https://login.aliexpress.com/"@,
        ProviderId::Shopee => "https://shopee.com.br/buyer/login?next=https%3A%2F%2Fshopee.com.br%2F"@,
        ProviderId::Amazon => "https://www.amazon.com.br/ap/signin?openid.pape.max_auth_age=0&openid.return_to=https%3A%2F%2Fwww.amazon.com.br%2F%3Fref_%3Dnav_ya_signin&openid.identity=http%3A%2F%2Fspecs.openid.net%2Fauth%2F2.0%2Fidentifier_select&openid.assoc_handle=brflex&openid.mode=checkid_setup&openid.claimed_id=http%3A%2F%2Fspecs.openid.net%2Fauth%2F2.0%2Fidentifier_select&openid.ns=http%3A%2F%2Fspecs.openid.net%2Fauth%2F2.0"@,
        ProviderId::AmazonUS => "https://www.amazon.com/ap/signin?openid.pape.max_auth_age=0&openid.return_to=https%3A%2F%2Fwww.amazon.com%2F%3Fref_%3Dnav_ya_signin&openid.identity=http%3A%2F%2Fspecs.openid.net%2Fauth%2F2.0%2Fidentifier_select&openid.assoc_handle=usflex&openid.mode=checkid_setup&openid.claimed_id=http%3A%2F%2Fspecs.openid.net%2Fauth%2F2.0%2Fidentifier_select&openid.ns=http%3A%2F%2Fspecs.openid.net%2Fauth%2F2.0"@,
        ProviderId::Kabum => "https://www.kabum.com.br/login"@,
        ProviderId::MagazineLuiza => "https://sacola.magazineluiza.com.br/v2/login"@,
        ProviderId::Olx => "https://auth2.olx.com.br/login"@,
        ProviderId::GoogleShopping => "https://www.google.com.br/"@,
        ProviderId::Ebay => "https://www.ebay.com/"@,
    }
}

/// The address of the page on which one logs in to a store, or of its first page where it
/// has none.
pub fn login_url(provider: ProviderId) -> (r: &'static str)
    ensures
        r@ == login_page(provider),
{
    match provider {
        ProviderId::MercadoLivre => "https://www.mercadolivre.com.br/gz/home",
        ProviderId::AliExpress => "https://login.aliexpress.com/",
        ProviderId::Shopee => "https://shopee.com.br/buyer/login?next=https%3A%2F%2Fshopee.com.br%2F",
        ProviderId::Amazon => "https://www.amazon.com.br/ap/signin?openid.pape.max_auth_age=0&openid.return_to=https%3A%2F%2Fwww.amazon.com.br%2F%3Fref_%3Dnav_ya_signin&openid.identity=http%3A%2F%2Fspecs.openid.net%2Fauth%2F2.0%2Fidentifier_select&openid.assoc_handle=brflex&openid.mode=checkid_setup&openid.claimed_id=http%3A%2F%2Fspecs.openid.net%2Fauth%2F2.0%2Fidentifier_select&openid.ns=http%3A%2F%2Fspecs.openid.net%2Fauth%2F2.0",
        ProviderId::AmazonUS => "https://www.amazon.com/ap/signin?openid.pape.max_auth_age=0&openid.return_to=https%3A%2F%2Fwww.amazon.com%2F%3Fref_%3Dnav_ya_signin&openid.identity=http%3A%2F%2Fspecs.openid.net%2Fauth%2F2.0%2Fidentifier_select&openid.assoc_handle=usflex&openid.mode=checkid_setup&openid.claimed_id=http%3A%2F%2Fspecs.openid.net%2Fauth%2F2.0%2Fidentifier_select&openid.ns=http%3A%2F%2Fspecs.openid.net%2Fauth%2F2.0",
        ProviderId::Kabum => "https://www.kabum.com.br/login",
        ProviderId::MagazineLuiza => "https://sacola.magazineluiza.com.br/v2/login",
        ProviderId::Olx => "https://auth2.olx.com.br/login",
        ProviderId::GoogleShopping => "https://www.google.com.br/",
        ProviderId::Ebay => "https://www.ebay.com/",
    }
}

/// What a line typed while one logs in means: that one is done, that a reminder is in
/// order, or nothing.
#[derive(Clone, Copy, Debug, PartialEq, Eq, Structural)]
pub enum LoginReply {
    Done,
    Remind,
    Wait,
}

/// What a line typed while one logs in means.
pub open spec fn login_reply_of(line: Seq<char>) -> LoginReply {
    let s = text::lowered(text::trimmed(line));
    if s == "done"@ || s == "d"@ {
        LoginReply::Done
    } else if s.len() == 0 {
        LoginReply::Remind
    } else {
        LoginReply::Wait
    }
}

/// What a line typed while one logs in means.
pub fn login_reply(line: &str) -> (r: LoginReply)
    ensures
        r == login_reply_of(line@),
{
    let plain = text::trim(line);
    let s = text::lowercase(plain.as_str());
    if text::same_text(s.as_str(), "done") || text::same_text(s.as_str(), "d") {
        LoginReply::Done
    } else if text::text_bytes(s.as_str()) == 0 {
        LoginReply::Remind
    } else {
        LoginReply::Wait
    }
}

/// A login is over where one says so, whatever the case and the spaces; an empty line asks to
/// be reminded, and any other is passed over.
pub proof fn logins_end_when_one_says_so(line: Seq<char>)
    ensures
        ({
            let s = text::lowered(text::trimmed(line));
            &&& login_reply_of(line) == LoginReply::Done <==> s == "done"@ || s == "d"@
            &&& login_reply_of(line) == LoginReply::Remind <==> s.len() == 0
            &&& login_reply_of(line) == LoginReply::Wait <==> s != "done"@ && s != "d"@ && s.len()
                > 0
        }),
{
    reveal_strlit("done");
    reveal_strlit("d");
}

/// One logs in on a page of the store itself.
pub proof fn logins_are_at_their_store(provider: ProviderId)
    ensures
        ({
            let u = login_page(provider);
            &&& provider == ProviderId::MercadoLivre ==> u
                == "https://www.mercadolivre.com.br/gz/home"@
            &&& provider == ProviderId::AliExpress ==> u == "https://login.aliexpress.com/"@
            &&& provider == ProviderId::Shopee ==> u
                == "https://shopee.com.br/buyer/login?next=https%3A%2F%2Fshopee.com.br%2F"@
            &&& provider == ProviderId::Kabum ==> u == "https://www.kabum.com.br/login"@
            &&& provider == ProviderId::MagazineLuiza ==> u
                == "https://sacola.magazineluiza.com.br/v2/login"@
            &&& provider == ProviderId::Olx ==> u == "https://auth2.olx.com.br/login"@
            &&& provider == ProviderId::GoogleShopping ==> u == "https://www.google.com.br/"@
            &&& provider == ProviderId::Ebay ==> u == "https://www.ebay.com/"@
        }),
{
}

} // verus!
