//! What a dollar costs.

use vstd::prelude::*;

use crate::clock;
use crate::decimal;
use crate::decimal::Decimal;
use crate::json;
use crate::json::Json;
use crate::text;

verus! {

/// The seconds for which a rate is used again.
pub const CACHE_TTL_SECS: i64 = 3600;

/// The most days that are gone back for a rate.
pub const MAX_DAYS_BACK: u32 = 4;

/// The reais that a dollar is taken to cost where its price cannot be found.
pub open spec fn fallback() -> Decimal {
    decimal::dec(550, 2)
}

/// The reais that a dollar is taken to cost where its price cannot be found.
pub fn fallback_rate() -> (r: Decimal)
    ensures
        r == fallback(),
{
    Decimal::new(550, 2)
}

/// A rate and the time at which it was found, in nanoseconds since the start of 1970.
#[derive(Clone, Copy, Debug)]
pub struct CachedRate {
    pub rate: Decimal,
    pub fetched_at: i128,
}

/// Whether a rate can be used again: it is less than an hour old.
pub open spec fn fresh(fetched_at: int, now: int) -> bool {
    now - fetched_at < CACHE_TTL_SECS * clock::SECOND
}

/// The reais that a dollar costs, as far as it is known for the last hour.
#[derive(Clone, Copy, Debug)]
pub struct ExchangeRateService {
    pub cache: Option<CachedRate>,
}

/// What to do for the price of a dollar: use a rate, or ask for that of so many days ago.
pub enum RateStep {
    Use(Decimal),
    Ask(u32),
}

/// The rate that the first entry of a reply tells. It is `Err` where that is no amount.
pub open spec fn told_rate(body: json::JsonView) -> Result<Option<Decimal>, ()> {
    match json::list_of(json::member(body, "value"@)) {
        Some(v) => if v.len() == 0 {
            Ok(None)
        } else {
            match json::number_of(json::member(v[0], "cotacaoVenda"@)) {
                Some(n) => match n.decimal {
                    Some(d) => Ok(Some(d)),
                    None => Err(()),
                },
                None => Ok(None),
            }
        },
        None => Ok(None),
    }
}

/// What a reply is: one that is no success, one that is not understood, or some data.
pub enum Reply {
    Refused,
    Broken,
    Data(Json),
}

/// What a reply is.
pub enum ReplyView {
    Refused,
    Broken,
    Data(json::JsonView),
}

impl View for Reply {
    type V = ReplyView;

    open spec fn view(&self) -> ReplyView {
        match *self {
            Reply::Refused => ReplyView::Refused,
            Reply::Broken => ReplyView::Broken,
            Reply::Data(j) => ReplyView::Data(j@),
        }
    }
}

/// What a reply with some bytes as its body is: data where they are JSON.
pub open spec fn reply_from(body: Seq<u8>) -> ReplyView {
    match json::json_from_bytes(body) {
        Ok(j) => ReplyView::Data(j),
        Err(_) => ReplyView::Broken,
    }
}

/// What a reply with some bytes as its body is: data where they are JSON.
pub fn read_reply(body: &[u8]) -> (r: Reply)
    ensures
        r@ == reply_from(body@),
{
    match json::parse_bytes(body) {
        Ok(j) => Reply::Data(j),
        Err(_) => Reply::Broken,
    }
}

/// What a reply about the rate of so many days ago tells: a rate; that the day before is
/// to be asked for; or nothing more, so that the rate is not found.
pub open spec fn after_reply(days_back: int, reply: ReplyView) -> RateStep {
    let next = if days_back < MAX_DAYS_BACK {
        RateStep::Ask((days_back + 1) as u32)
    } else {
        RateStep::Use(fallback())
    };
    match reply {
        ReplyView::Refused => next,
        ReplyView::Broken => RateStep::Use(fallback()),
        ReplyView::Data(body) => match told_rate(body) {
            Ok(Some(rate)) => RateStep::Use(rate),
            Ok(None) => next,
            Err(_) => RateStep::Use(fallback()),
        },
    }
}

/// Whether a reply tells a rate.
pub open spec fn tells_rate(reply: ReplyView) -> bool {
    match reply {
        ReplyView::Data(body) => match told_rate(body) {
            Ok(r) => r is Some,
            Err(_) => false,
        },
        _ => false,
    }
}

/// The rate that the first entry of a reply tells. It is `Err` where that is no amount.
pub fn read_rate(body: &Json) -> (r: Result<Option<Decimal>, ()>)
    ensures
        r == told_rate(body@),
{
    match json::as_list(json::get(Some(body), "value")) {
        Some(v) => {
            if v.len() == 0 {
                return Ok(None);
            }
            assert(json::json_views(v@)[0] == v@[0]@);
            match json::as_number(json::get(Some(&v[0]), "cotacaoVenda")) {
                Some(n) => match n.decimal {
                    Some(d) => Ok(Some(d)),
                    None => Err(()),
                },
                None => Ok(None),
            }
        },
        None => Ok(None),
    }
}

impl ExchangeRateService {
    /// Nothing known yet.
    #[must_use]
    pub fn new() -> (r: ExchangeRateService)
        ensures
            r.cache is None,
    {
        ExchangeRateService { cache: None }
    }

    /// What to do for the price of a dollar at a time: use the rate that is known, or ask
    /// for that of today.
    pub fn get_usd_brl(&self, now: i128) -> (r: RateStep)
        ensures
            match self.cache {
                Some(c) => if fresh(c.fetched_at as int, now as int) {
                    r == RateStep::Use(c.rate)
                } else {
                    r == RateStep::Ask(0)
                },
                None => r == RateStep::Ask(0),
            },
    {
        match self.cache {
            Some(c) => {
                let young = match now.checked_sub(c.fetched_at) {
                    Some(age) => age < 3_600_000_000_000,
                    None => now < c.fetched_at,
                };
                if young {
                    RateStep::Use(c.rate)
                } else {
                    RateStep::Ask(0)
                }
            },
            None => RateStep::Ask(0),
        }
    }

    /// What a reply about the rate of so many days ago tells. A rate that it tells is
    /// kept from its time on.
    pub fn receive(&mut self, days_back: u32, reply: &Reply, now: i128) -> (r: RateStep)
        ensures
            r == after_reply(days_back as int, reply@),
            final(self).cache == if tells_rate(reply@) {
                Some(CachedRate { rate: r->Use_0, fetched_at: now })
            } else {
                old(self).cache
            },
    {
        let told = match reply {
            Reply::Refused => Ok(None),
            Reply::Broken => Err(()),
            Reply::Data(body) => read_rate(body),
        };
        match told {
            Ok(Some(rate)) => {
                self.cache = Some(CachedRate { rate, fetched_at: now });
                RateStep::Use(rate)
            },
            Ok(None) => {
                if days_back < MAX_DAYS_BACK {
                    RateStep::Ask(days_back + 1)
                } else {
                    RateStep::Use(fallback_rate())
                }
            },
            Err(_) => RateStep::Use(fallback_rate()),
        }
    }
}

/// The address at which the rate of so many days before a time is asked for.
pub open spec fn rate_url(now: int, days_back: int) -> Option<Seq<char>> {
    match clock::date_text(now, days_back) {
        Some(date) => Some(
            "https://olinda.bcb.gov.br/olinda/servico/PTAX/versao/v1/odata/CotacaoDolarDia(dataCotacao=@dataCotacao)?@dataCotacao='"@
                + date + "'&$format=json&$top=1&$orderby=dataHoraCotacao%20desc"@,
        ),
        None => None,
    }
}

/// The address at which the rate of so many days before a time is asked for, or `None`
/// where no date is that far off.
pub fn ptax_url(now: i128, days_back: u32) -> (r: Option<String>)
    ensures
        text::text_view(r) == rate_url(now as int, days_back as int),
{
    match clock::show_date(now, days_back) {
        Some(date) => Some(
            text::join3(
                "https://olinda.bcb.gov.br/olinda/servico/PTAX/versao/v1/odata/CotacaoDolarDia(dataCotacao=@dataCotacao)?@dataCotacao='",
                date.as_str(),
                "'&$format=json&$top=1&$orderby=dataHoraCotacao%20desc",
            ),
        ),
        None => None,
    }
}

// ---- What holds of rates ----

/// A rate that was found is used for an hour, and not after it.
pub proof fn rates_last_an_hour(fetched_at: int, now: int)
    ensures
        now - fetched_at < 3600 * clock::SECOND ==> fresh(fetched_at, now),
        now - fetched_at >= 3600 * clock::SECOND ==> !fresh(fetched_at, now),
{
}

/// The price of a dollar is always settled: each reply gives one or goes one day further
/// back, and none goes further back than four days.
pub proof fn rates_are_settled(days_back: int, reply: ReplyView)
    requires
        0 <= days_back <= MAX_DAYS_BACK,
    ensures
        match after_reply(days_back, reply) {
            RateStep::Use(_) => true,
            RateStep::Ask(d) => d == days_back + 1 && d <= MAX_DAYS_BACK,
        },
{
}

/// A reply that tells a rate settles it: the first entry's selling rate; one that has no
/// entry, or was refused, sends one day further back, up to four; and after that, or where
/// the reply cannot be read, a dollar is taken for 5.50 reais.
pub proof fn rates_are_what_replies_tell(days_back: int, reply: ReplyView)
    requires
        0 <= days_back <= 4,
    ensures
        ({
            let fixed = decimal::dec(550, 2);
            let next = after_reply(days_back, reply);
            let further = if days_back < 4 {
                next == RateStep::Ask((days_back + 1) as u32)
            } else {
                next == RateStep::Use(fixed)
            };
            match reply {
                ReplyView::Refused => further,
                ReplyView::Broken => next == RateStep::Use(fixed),
                ReplyView::Data(body) => {
                    let entries = json::list_of(json::member(body, "value"@));
                    let sold = json::number_of(json::member(entries->0[0], "cotacaoVenda"@));
                    if entries is None || entries->0.len() == 0 || sold is None {
                        further
                    } else if sold->0.decimal is None {
                        next == RateStep::Use(fixed)
                    } else {
                        next == RateStep::Use(sold->0.decimal->0)
                    }
                },
            }
        }),
{
}

/// A rate is kept for 3600 seconds of a billion nanoseconds each.
pub proof fn rates_are_kept_for_an_hour(fetched_at: int, now: int)
    ensures
        fresh(fetched_at, now) <==> now - fetched_at < 3_600_000_000_000,
{
}

/// The rate of a day is asked for by its date, which is so many days of 86400 seconds back.
pub proof fn rates_are_asked_for_by_date(now: int, days_back: int)
    requires
        0 <= days_back <= 4,
        0 <= now < 1_000_000_000_000_000_000_000,
    ensures
        ({
            let date = clock::time_text(
                now / 1_000_000_000 - 86_400 * days_back,
                "%m-%d-%Y"@,
            );
            let url = rate_url(now, days_back);
            &&& date is None <==> url is None
            &&& date is Some ==> url->0
                == "https://olinda.bcb.gov.br/olinda/servico/PTAX/versao/v1/odata/CotacaoDolarDia(dataCotacao=@dataCotacao)?@dataCotacao='"@
                + date->0 + "'&$format=json&$top=1&$orderby=dataHoraCotacao%20desc"@
        }),
{
    assert(days_back * 86_400 == 86_400 * days_back);
}

} // verus!
