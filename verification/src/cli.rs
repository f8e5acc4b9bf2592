//! What the command line asks for.

use vstd::prelude::*;

use crate::config;
use crate::config::PechinchaConfig;
use crate::daemon;
use crate::display;
use crate::models;
use crate::models::SortOrder;
use crate::providers;
use crate::providers::ProviderId;
use crate::text;

verus! {

/// What is logged, the more the oftener one asks for it.
pub open spec fn filter_of(verbose: u8) -> Seq<char> {
    if verbose == 0 {
        "pechincha=warn"@
    } else if verbose == 1 {
        "pechincha=info"@
    } else if verbose == 2 {
        "pechincha=debug"@
    } else {
        "pechincha=trace"@
    }
}

/// What is logged, the more the oftener one asks for it.
pub fn log_filter(verbose: u8) -> (r: &'static str)
    ensures
        r@ == filter_of(verbose),
{
    if verbose == 0 {
        "pechincha=warn"
    } else if verbose == 1 {
        "pechincha=info"
    } else if verbose == 2 {
        "pechincha=debug"
    } else {
        "pechincha=trace"
    }
}

/// The port at which a browser is used: the one asked for, else the one in the settings,
/// else the usual one where a browser listens at it.
pub open spec fn port_of(asked: Option<u16>, set: Option<u16>, listening: bool) -> Option<u16> {
    if asked is Some {
        asked
    } else if set is Some {
        set
    } else if listening {
        Some(daemon::DEFAULT_CDP_PORT)
    } else {
        None
    }
}

/// The port at which a browser is used.
pub fn browser_port(asked: Option<u16>, set: Option<u16>, listening: bool) -> (r: Option<u16>)
    ensures
        r == port_of(asked, set, listening),
{
    if asked.is_some() {
        asked
    } else if set.is_some() {
        set
    } else if listening {
        Some(daemon::DEFAULT_CDP_PORT)
    } else {
        None
    }
}

/// The stores that the first `k` of some names stand for. Names that stand for none count
/// for nothing.
pub open spec fn stores_named(names: Seq<Seq<char>>, k: int) -> Seq<ProviderId>
    decreases k,
{
    if k <= 0 {
        Seq::empty()
    } else {
        match providers::provider_named(text::lowered(names[k - 1])) {
            Some(p) => stores_named(names, k - 1).push(p),
            None => stores_named(names, k - 1),
        }
    }
}

/// The stores that some names stand for.
pub fn chosen_stores(names: &Vec<String>) -> (r: Vec<ProviderId>)
    ensures
        r@ == stores_named(text::texts(names@), names@.len() as int),
{
    let ghost all = text::texts(names@);
    let mut out: Vec<ProviderId> = Vec::new();
    let mut i: usize = 0;
    while i < names.len()
        invariant
            i <= names@.len(),
            all == text::texts(names@),
            out@ == stores_named(all, i as int),
        decreases names@.len() - i,
    {
        assert(all[i as int] == names@[i as int]@);
        match ProviderId::parse(names[i].as_str()) {
            Ok(p) => {
                out.push(p);
            },
            Err(_) => {},
        }
        i = i + 1;
    }
    out
}

/// The order that a name stands for, and that of what products cost in all where it
/// stands for none.
pub fn chosen_order(name: &str) -> (r: SortOrder)
    ensures
        r == match models::order_named(name@) {
            Some(o) => o,
            None => SortOrder::TotalCost,
        },
{
    match SortOrder::parse(name) {
        Ok(o) => o,
        Err(_) => SortOrder::default(),
    }
}

/// The line that tells whether a store is enabled.
pub open spec fn store_line(c: PechinchaConfig, id: ProviderId) -> Seq<char> {
    "  "@ + display::left_aligned(providers::provider_label(id), 16) + " "@ + (if config::enabled(
        c,
        id,
    ) {
        "enabled"@
    } else {
        "disabled"@
    })
}

/// The lines that tell which of all stores are enabled.
pub open spec fn store_lines(c: PechinchaConfig) -> Seq<Seq<char>> {
    Seq::new(
        providers::all_providers().len(),
        |i: int| store_line(c, providers::all_providers()[i]),
    )
}

/// The lines that tell which of all stores are enabled.
pub fn provider_lines(config: &PechinchaConfig) -> (r: Vec<String>)
    ensures
        text::texts(r@) == store_lines(*config),
{
    let ids = ProviderId::all();
    let ghost goal = store_lines(*config);
    let mut out: Vec<String> = Vec::new();
    let mut i: usize = 0;
    while i < ids.len()
        invariant
            i <= ids@.len(),
            ids@ == providers::all_providers(),
            goal == store_lines(*config),
            text::texts(out@) == goal.take(i as int),
        decreases ids@.len() - i,
    {
        let ghost so_far = out@;
        let name = display::pad_right(ids[i].label().to_string(), 16);
        let status = if config::provider_enabled(config, ids[i]) {
            "enabled"
        } else {
            "disabled"
        };
        let mut line = text::join3("  ", name.as_str(), " ");
        line.append(status);
        out.push(line);
        proof {
            assert(goal[i as int] == line@);
            assert(text::texts(out@) =~= text::texts(so_far).push(line@));
            assert(goal.take(i + 1) =~= goal.take(i as int).push(goal[i as int]));
        }
        i = i + 1;
    }
    assert(goal.take(i as int) =~= goal);
    out
}

/// The port that is asked for goes before the one that is set, and that before the usual one,
/// which is taken where a browser listens at it.
pub proof fn asked_ports_go_first(asked: Option<u16>, set: Option<u16>, listening: bool)
    ensures
        asked is Some ==> port_of(asked, set, listening) == asked,
        asked is None && set is Some ==> port_of(asked, set, listening) == set,
        asked is None && set is None && listening ==> port_of(asked, set, listening) == Some(
            9222u16,
        ),
        asked is None && set is None && !listening ==> port_of(asked, set, listening) is None,
{
}

/// The stores that are named are searched in the order in which they are named, whatever the
/// case of their names; names that stand for none are passed over.
pub proof fn stores_are_searched_as_named(names: Seq<Seq<char>>, k: int, p: ProviderId)
    requires
        0 <= k <= names.len(),
    ensures
        stores_named(names, k).contains(p) <==> exists|i: int|
            0 <= i < k && providers::provider_named(text::lowered(#[trigger] names[i])) == Some(p),
        stores_named(names, k).len() <= k,
    decreases k,
{
    if k > 0 {
        stores_are_searched_as_named(names, k - 1, p);
        let before = stores_named(names, k - 1);
        let after = stores_named(names, k);
        if before.contains(p) {
            let i = choose|i: int| 0 <= i < before.len() && before[i] == p;
            assert(after[i] == p);
        }
        if after.len() > before.len() {
            assert(after[before.len() as int] == after.last());
            assert(providers::provider_named(text::lowered(names[k - 1])) == Some(after.last()));
        }
        if after.contains(p) && !before.contains(p) {
            let i = choose|i: int| 0 <= i < after.len() && after[i] == p;
            if i < before.len() {
                assert(before[i] == p);
            }
        }
    }
}

/// The oftener one asks, the more is logged.
pub proof fn asking_again_logs_more(verbose: u8)
    ensures
        verbose == 0 ==> filter_of(verbose) == "pechincha=warn"@,
        verbose == 1 ==> filter_of(verbose) == "pechincha=info"@,
        verbose == 2 ==> filter_of(verbose) == "pechincha=debug"@,
        verbose > 2 ==> filter_of(verbose) == "pechincha=trace"@,
{
}

/// There is a line for every store, which tells whether the settings enable it.
pub proof fn lines_tell_which_stores_are_enabled(c: PechinchaConfig, i: int)
    requires
        0 <= i < providers::all_providers().len(),
    ensures
        store_lines(c).len() == providers::all_providers().len(),
        ({
            let id = providers::all_providers()[i];
            let on = match id {
                ProviderId::MercadoLivre => c.providers.mercadolivre.enabled,
                ProviderId::AliExpress => c.providers.aliexpress.enabled,
                ProviderId::Shopee => c.providers.shopee.enabled,
                ProviderId::Amazon => c.providers.amazon.enabled,
                ProviderId::AmazonUS => c.providers.amazon_us.enabled,
                ProviderId::Kabum => c.providers.kabum.enabled,
                ProviderId::MagazineLuiza => c.providers.magalu.enabled,
                ProviderId::Olx => c.providers.olx.enabled,
                ProviderId::GoogleShopping => c.providers.google_shopping.enabled,
                ProviderId::Ebay => c.providers.ebay.enabled,
            };
            let start = "  "@ + display::left_aligned(providers::provider_label(id), 16) + " "@;
            &&& on ==> store_lines(c)[i] == start + "enabled"@
            &&& !on ==> store_lines(c)[i] == start + "disabled"@
        }),
{
}

} // verus!
