//! Prices over time.

use vstd::prelude::*;

use crate::decimal;
use crate::decimal::Decimal;
use crate::models;
use crate::models::Product;
use crate::providers;
use crate::providers::ProviderId;
use crate::text;

verus! {

/// The nanoseconds in a day.
pub const DAY: i128 = 86_400_000_000_000;

/// What a product cost at a time, in nanoseconds since the start of 1970.
#[derive(Clone, Copy, Debug)]
pub struct PriceEntry {
    pub timestamp: i128,
    pub total_cost: Decimal,
    pub listed_price: Decimal,
    pub provider: ProviderId,
}

/// How a price has changed, in per cent, since some days ago.
#[derive(Clone, Copy, Debug)]
pub struct PriceChange {
    pub previous: Decimal,
    pub current: Decimal,
    pub pct_change: Decimal,
    pub days_ago: u32,
}

/// Where prices are kept.
pub struct PriceTracker {
    pub data_dir: String,
}

/// The day that a time falls on, counted from the start of 1970.
pub open spec fn day_of(at: int) -> int {
    at / DAY as int
}

/// The day that a time falls on, counted from the start of 1970.
pub fn find_day(at: i128) -> (r: i128)
    ensures
        r == day_of(at as int),
{
    if at >= 0 {
        at / DAY
    } else {
        let below: i128 = -(at + 1);
        assert(-(below / DAY) - 1 == at as int / DAY as int) by (nonlinear_arith)
            requires
                at < 0,
                below == -(at + 1),
                DAY == 86_400_000_000_000,
        ;
        -(below / DAY) - 1
    }
}

/// The later of two entries that may be missing, the second where they are of one time.
pub open spec fn later(a: Option<PriceEntry>, b: PriceEntry) -> PriceEntry {
    match a {
        Some(a) => if a.timestamp > b.timestamp {
            a
        } else {
            b
        },
        None => b,
    }
}

/// The last of the first `k` entries that is of a day before a time.
pub open spec fn previous_entry(v: Seq<PriceEntry>, k: int, now: int) -> Option<PriceEntry>
    decreases k,
{
    if k <= 0 {
        None
    } else {
        let before = previous_entry(v, k - 1, now);
        if day_of(v[k - 1].timestamp as int) < day_of(now) {
            Some(later(before, v[k - 1]))
        } else {
            before
        }
    }
}

/// By how many per cent an amount differs from another.
pub open spec fn percent_over(value: Decimal, base: Decimal) -> Option<Decimal> {
    decimal::quotients(
        decimal::products(decimal::difference(value, base), Some(decimal::dec(100, 0))),
        Some(base),
    )
}

/// By how many per cent an amount differs from another, or `None` where that cannot be
/// held or the other is nothing.
pub fn find_percent_over(value: Decimal, base: Decimal) -> (r: Option<Decimal>)
    ensures
        r == percent_over(value, base),
{
    let gap = value.checked_sub(&base);
    let hundredfold = decimal::times(gap, Some(Decimal::new(100, 0)));
    decimal::over(hundredfold, Some(base))
}

/// The whole days between two times, at least one.
pub open spec fn days_between(from: int, to: int) -> int {
    let days = if to >= from {
        (to - from) / DAY as int
    } else {
        0
    };
    if days < 1 {
        1
    } else {
        days
    }
}

/// How a price has changed since the last entry of a day before a time. There is no
/// change without such an entry, or where that price was nothing.
pub open spec fn change_since(v: Seq<PriceEntry>, current: Decimal, now: int) -> Option<PriceChange> {
    match previous_entry(v, v.len() as int, now) {
        Some(e) => if e.total_cost@.mantissa == 0 {
            None
        } else {
            match percent_over(current, e.total_cost) {
                Some(percent) => Some(
                    PriceChange {
                        previous: e.total_cost,
                        current,
                        pct_change: decimal::in_double(percent),
                        days_ago: if days_between(e.timestamp as int, now) <= u32::MAX {
                            days_between(e.timestamp as int, now) as u32
                        } else {
                            0
                        },
                    },
                ),
                None => None,
            }
        },
        None => None,
    }
}

fn whole_days(from: i128, to: i128) -> (r: u32)
    ensures
        r == if days_between(from as int, to as int) <= u32::MAX {
            days_between(from as int, to as int)
        } else {
            0
        },
{
    match to.checked_sub(from) {
        Some(gap) => {
            if gap < DAY {
                1
            } else {
                let days: i128 = gap / DAY;
                if days <= 4_294_967_295 {
                    days as u32
                } else {
                    0
                }
            }
        },
        None => {
            if to < from {
                1
            } else {
                0
            }
        },
    }
}

/// The name under which the prices of a product are kept: of its store and its number
/// there, or of a digest of its store and its title where it has no number.
pub open spec fn key_of(p: models::ProductView, digest: Seq<char>) -> Seq<char> {
    if p.platform_id.len() == 0 {
        digest
    } else {
        providers::provider_label(p.provider) + "_"@ + p.platform_id
    }
}

/// What a product without a number is told apart by: its store, and its title in lower
/// case.
pub fn digest_parts(product: &Product) -> (r: Vec<String>)
    ensures
        text::texts(r@) == seq![
            providers::provider_label(product@.provider),
            text::lowered(product@.title),
        ],
{
    let mut out: Vec<String> = Vec::new();
    out.push(product.provider.label().to_string());
    out.push(text::lowercase(product.title.as_str()));
    assert(text::texts(out@) =~= seq![
        providers::provider_label(product@.provider),
        text::lowered(product@.title),
    ]);
    out
}

/// The name under which the prices of a product are kept.
pub fn product_key(product: &Product, digest: &str) -> (r: String)
    ensures
        r@ == key_of(product@, digest@),
{
    if text::text_bytes(product.platform_id.as_str()) == 0 {
        digest.to_string()
    } else {
        text::join3(product.provider.label(), "_", product.platform_id.as_str())
    }
}

impl PriceTracker {
    /// Prices kept in a directory of a user's data.
    #[must_use]
    pub fn new(data_dir: &str) -> (r: PriceTracker)
        ensures
            r.data_dir@ == data_dir@ + "/pechincha/history"@,
    {
        PriceTracker { data_dir: text::join2(data_dir, "/pechincha/history") }
    }

    /// The file in which the prices of a product are kept.
    pub fn history_path(&self, product: &Product, digest: &str) -> (r: String)
        ensures
            r@ == file_of(self.data_dir@, product@, digest@),
    {
        let key = product_key(product, digest);
        let name = text::join2(key.as_str(), ".jsonl");
        text::join3(self.data_dir.as_str(), "/", name.as_str())
    }

    /// The last entry that is of a day before a time.
    pub fn get_previous(&self, entries: &Vec<PriceEntry>, now: i128) -> (r: Option<PriceEntry>)
        ensures
            r == previous_entry(entries@, entries@.len() as int, now as int),
    {
        let today: i128 = find_day(now);
        let mut found: Option<PriceEntry> = None;
        let mut i: usize = 0;
        while i < entries.len()
            invariant
                i <= entries@.len(),
                today == day_of(now as int),
                found == previous_entry(entries@, i as int, now as int),
            decreases entries@.len() - i,
        {
            let e = entries[i];
            if find_day(e.timestamp) < today {
                found = match found {
                    Some(f) => Some(
                        if f.timestamp > e.timestamp {
                            f
                        } else {
                            e
                        },
                    ),
                    None => Some(e),
                };
            }
            i = i + 1;
        }
        found
    }

    /// How the price of a product has changed since the last entry of a day before a time.
    pub fn price_change(&self, entries: &Vec<PriceEntry>, product: &Product, now: i128) -> (r: Option<
        PriceChange,
    >)
        ensures
            r == change_since(entries@, product@.price.total_cost, now as int),
    {
        let e = match self.get_previous(entries, now) {
            Some(e) => e,
            None => {
                return None;
            },
        };
        if e.total_cost.is_zero() {
            return None;
        }
        let current = product.price.total_cost;
        let pct_change = match find_percent_over(current, e.total_cost) {
            Some(p) => p.nearest_double(),
            None => {
                return None;
            },
        };
        let days_ago: u32 = whole_days(e.timestamp, now);
        Some(PriceChange { previous: e.total_cost, current, pct_change, days_ago })
    }

    /// What is to be kept of the price of a product at a time, and in which file: nothing
    /// where it costs nothing.
    pub fn record(&self, product: &Product, digest: &str, now: i128) -> (r: Option<
        (String, PriceEntry),
    >)
        ensures
            record_view(r) == recorded(self.data_dir@, product@, digest@, now),
    {
        if product.price.total_cost.is_zero() {
            return None;
        }
        let entry = PriceEntry {
            timestamp: now,
            total_cost: product.price.total_cost,
            listed_price: product.price.listed_price,
            provider: product.provider,
        };
        Some((self.history_path(product, digest), entry))
    }

    /// What is to be kept of the prices of some products at a time, and in which files.
    /// Each product comes with the digest of its store and its title.
    pub fn record_all(&self, products: &Vec<Product>, digests: &Vec<String>, now: i128) -> (r: Vec<
        (String, PriceEntry),
    >)
        requires
            digests@.len() == products@.len(),
        ensures
            records(r@) == all_recorded(
                self.data_dir@,
                models::product_views(products@),
                text::texts(digests@),
                now,
                products@.len() as int,
            ),
    {
        let ghost all = models::product_views(products@);
        let ghost d = text::texts(digests@);
        let mut out: Vec<(String, PriceEntry)> = Vec::new();
        let mut i: usize = 0;
        assert(records(out@) =~= Seq::empty());
        while i < products.len()
            invariant
                i <= products@.len(),
                digests@.len() == products@.len(),
                all == models::product_views(products@),
                d == text::texts(digests@),
                records(out@) == all_recorded(self.data_dir@, all, d, now, i as int),
            decreases products@.len() - i,
        {
            assert(all[i as int] == products@[i as int]@);
            assert(d[i as int] == digests@[i as int]@);
            let ghost so_far = out@;
            match self.record(&products[i], digests[i].as_str(), now) {
                Some(x) => {
                    out.push(x);
                    assert(records(out@) =~= records(so_far).push((x.0@, x.1)));
                },
                None => {},
            }
            i = i + 1;
        }
        out
    }
}

/// What is to be kept and in which file, if anything is.
pub open spec fn record_view(r: Option<(String, PriceEntry)>) -> Option<(Seq<char>, PriceEntry)> {
    match r {
        Some(x) => Some((x.0@, x.1)),
        None => None,
    }
}

/// What is to be kept and in which files.
pub open spec fn records(v: Seq<(String, PriceEntry)>) -> Seq<(Seq<char>, PriceEntry)> {
    Seq::new(v.len(), |i: int| (v[i].0@, v[i].1))
}

/// What is to be kept of the price of a product at a time, and in which file: nothing
/// where it costs nothing.
pub open spec fn recorded(
    dir: Seq<char>,
    p: models::ProductView,
    digest: Seq<char>,
    now: i128,
) -> Option<(Seq<char>, PriceEntry)> {
    if p.price.total_cost@.mantissa == 0 {
        None
    } else {
        Some(
            (
                file_of(dir, p, digest),
                PriceEntry {
                    timestamp: now,
                    total_cost: p.price.total_cost,
                    listed_price: p.price.listed_price,
                    provider: p.provider,
                },
            ),
        )
    }
}

/// What is to be kept of the prices of the first `k` products, and in which files.
pub open spec fn all_recorded(
    dir: Seq<char>,
    v: Seq<models::ProductView>,
    digests: Seq<Seq<char>>,
    now: i128,
    k: int,
) -> Seq<(Seq<char>, PriceEntry)>
    decreases k,
{
    if k <= 0 {
        Seq::empty()
    } else {
        let before = all_recorded(dir, v, digests, now, k - 1);
        match recorded(dir, v[k - 1], digests[k - 1], now) {
            Some(x) => before.push(x),
            None => before,
        }
    }
}

/// The file in which the prices of a product are kept.
pub open spec fn file_of(dir: Seq<char>, p: models::ProductView, digest: Seq<char>) -> Seq<char> {
    dir + "/"@ + (key_of(p, digest) + ".jsonl"@)
}

// ---- What holds of prices over time ----

/// An entry of the same day as a time, or of a later one, does not count as a previous
/// price.
pub proof fn previous_prices_are_of_earlier_days(v: Seq<PriceEntry>, k: int, now: int)
    requires
        0 <= k <= v.len(),
    ensures
        match previous_entry(v, k, now) {
            Some(e) => day_of(e.timestamp as int) < day_of(now) && forall|i: int|
                0 <= i < k && day_of((#[trigger] v[i]).timestamp as int) < day_of(now)
                    ==> v[i].timestamp <= e.timestamp,
            None => forall|i: int|
                0 <= i < k ==> day_of((#[trigger] v[i]).timestamp as int) >= day_of(now),
        },
    decreases k,
{
    if k > 0 {
        previous_prices_are_of_earlier_days(v, k - 1, now);
    }
}

/// A change is told as at least one day old.
pub proof fn changes_are_a_day_old(v: Seq<PriceEntry>, current: Decimal, now: int)
    requires
        forall|i: int| 0 <= i < v.len() ==> now - (#[trigger] v[i]).timestamp <= u32::MAX * DAY,
    ensures
        match change_since(v, current, now) {
            Some(c) => c.days_ago >= 1 && c.current == current,
            None => true,
        },
{
    previous_prices_are_of_earlier_days(v, v.len() as int, now);
    lemma_previous_is_one(v, v.len() as int, now);
    match previous_entry(v, v.len() as int, now) {
        Some(e) => {
            let i = choose|i: int| 0 <= i < v.len() && #[trigger] v[i] == e;
            assert(now - v[i].timestamp <= u32::MAX * DAY);
        },
        None => {},
    }
}

proof fn lemma_previous_is_one(v: Seq<PriceEntry>, k: int, now: int)
    requires
        0 <= k <= v.len(),
    ensures
        match previous_entry(v, k, now) {
            Some(e) => exists|i: int| 0 <= i < k && #[trigger] v[i] == e,
            None => true,
        },
    decreases k,
{
    if k > 0 {
        lemma_previous_is_one(v, k - 1, now);
        assert(v[k - 1] == v[k - 1]);
    }
}

/// A price that is recorded last is the previous price of its product from the next day
/// on: it is kept in the product's file, and found there.
pub proof fn recorded_prices_are_found_again(
    dir: Seq<char>,
    p: models::ProductView,
    digest: Seq<char>,
    v: Seq<PriceEntry>,
    at: i128,
    now: int,
)
    requires
        p.price.total_cost@.mantissa != 0,
        forall|i: int| 0 <= i < v.len() ==> (#[trigger] v[i]).timestamp <= at,
        day_of(at as int) < day_of(now),
    ensures
        match recorded(dir, p, digest, at) {
            Some((file, e)) => file == file_of(dir, p, digest) && e.total_cost
                == p.price.total_cost && previous_entry(v.push(e), v.len() as int + 1, now)
                == Some(e),
            None => false,
        },
{
    let kept = recorded(dir, p, digest, at)->0;
    let e = kept.1;
    let w = v.push(e);
    lemma_same_previous(v, w, v.len() as int, now);
    lemma_previous_is_one(v, v.len() as int, now);
    match previous_entry(v, v.len() as int, now) {
        Some(b) => {
            let i = choose|i: int| 0 <= i < v.len() && #[trigger] v[i] == b;
            assert(v[i].timestamp <= at);
        },
        None => {},
    }
}

proof fn lemma_same_previous(v: Seq<PriceEntry>, w: Seq<PriceEntry>, k: int, now: int)
    requires
        forall|i: int| 0 <= i < k ==> #[trigger] v[i] == w[i],
    ensures
        previous_entry(v, k, now) == previous_entry(w, k, now),
    decreases k,
{
    if k > 0 {
        lemma_same_previous(v, w, k - 1, now);
        assert(v[k - 1] == w[k - 1]);
    }
}

/// A change is told against the newest entry of an earlier day, and as old as that entry
/// is: in whole days of 24 hours where it is a day old or more, and as one day where it
/// is less. An age of more days than can be counted is told as none.
pub proof fn changes_tell_whole_days(v: Seq<PriceEntry>, current: Decimal, now: int)
    ensures
        match change_since(v, current, now) {
            Some(c) => exists|i: int|
                {
                    let day = 86_400_000_000_000int;
                    &&& 0 <= i < v.len()
                    &&& (#[trigger] v[i]).timestamp as int / day < now / day
                    &&& c.previous == v[i].total_cost
                    &&& c.previous@.mantissa != 0
                    &&& c.current == current
                    &&& forall|j: int|
                        0 <= j < v.len() && (#[trigger] v[j]).timestamp as int / day < now / day
                            ==> v[j].timestamp <= v[i].timestamp
                    &&& now - v[i].timestamp < day ==> c.days_ago == 1
                    &&& day <= now - v[i].timestamp < 0x1_0000_0000 * day ==> c.days_ago * day
                        <= now - v[i].timestamp < (c.days_ago + 1) * day
                    &&& 0x1_0000_0000 * day <= now - v[i].timestamp ==> c.days_ago == 0
                },
            None => true,
        },
{
    previous_prices_are_of_earlier_days(v, v.len() as int, now);
    lemma_previous_is_one(v, v.len() as int, now);
    match change_since(v, current, now) {
        Some(c) => {
            let e = previous_entry(v, v.len() as int, now)->0;
            let i = choose|i: int| 0 <= i < v.len() && #[trigger] v[i] == e;
            assert(v[i] == e);
            assert forall|j: int|
                0 <= j < v.len() && (#[trigger] v[j]).timestamp as int / 86_400_000_000_000int < now
                    / 86_400_000_000_000int implies v[j].timestamp <= v[i].timestamp by {
                assert(day_of(v[j].timestamp as int) < day_of(now));
            }
        },
        None => {},
    }
}

/// There is a change to tell wherever there is an entry of an earlier day, unless the
/// newest such one costs nothing or the percentage cannot be held; and none otherwise.
pub proof fn changes_need_an_earlier_day(v: Seq<PriceEntry>, current: Decimal, now: int)
    ensures
        (forall|i: int|
            0 <= i < v.len() ==> (#[trigger] v[i]).timestamp as int / 86_400_000_000_000int >= now
                / 86_400_000_000_000int) ==> change_since(v, current, now) is None,
        forall|i: int|
            0 <= i < v.len() && (#[trigger] v[i]).timestamp as int / 86_400_000_000_000int < now
                / 86_400_000_000_000int ==> ({
                let old = previous_entry(v, v.len() as int, now);
                &&& old is Some
                &&& old->0.timestamp >= v[i].timestamp
                &&& change_since(v, current, now) is None ==> old->0.total_cost@.mantissa == 0
                    || decimal::quotients(
                    decimal::products(
                        decimal::difference(current, old->0.total_cost),
                        Some(decimal::dec(100, 0)),
                    ),
                    Some(old->0.total_cost),
                ) is None
            }),
{
    previous_prices_are_of_earlier_days(v, v.len() as int, now);
    lemma_previous_is_one(v, v.len() as int, now);
    assert forall|i: int|
        0 <= i < v.len() && (#[trigger] v[i]).timestamp as int / 86_400_000_000_000int < now
            / 86_400_000_000_000int implies ({
        let old = previous_entry(v, v.len() as int, now);
        &&& old is Some
        &&& old->0.timestamp >= v[i].timestamp
        &&& change_since(v, current, now) is None ==> old->0.total_cost@.mantissa == 0
            || decimal::quotients(
            decimal::products(
                decimal::difference(current, old->0.total_cost),
                Some(decimal::dec(100, 0)),
            ),
            Some(old->0.total_cost),
        ) is None
    }) by {
        assert(day_of(v[i].timestamp as int) < day_of(now));
    }
}

/// A change is the difference from the previous price in per cent of that price, as the
/// nearest double.
pub proof fn changes_are_in_per_cent(v: Seq<PriceEntry>, current: Decimal, now: int)
    ensures
        match change_since(v, current, now) {
            Some(c) => exists|gap: Decimal, hundredfold: Decimal, percent: Decimal|
                #![trigger decimal::quotient(hundredfold, c.previous), decimal::product(gap, decimal::dec(100, 0)), decimal::in_double(percent)]
                {
                    &&& decimal::difference(current, c.previous) == Some(gap)
                    &&& decimal::product(gap, decimal::dec(100, 0)) == Some(hundredfold)
                    &&& decimal::quotient(hundredfold, c.previous) == Some(percent)
                    &&& c.pct_change == decimal::in_double(percent)
                },
            None => true,
        },
{
    match change_since(v, current, now) {
        Some(c) => {
            let gap = decimal::difference(current, c.previous)->0;
            let hundredfold = decimal::product(gap, decimal::dec(100, 0))->0;
            let percent = decimal::quotient(hundredfold, c.previous)->0;
            assert(c.pct_change == decimal::in_double(percent));
        },
        None => {},
    }
}

/// What is kept of a price are the time, the price and the store, in a file of its own
/// for each number in a store; and nothing is kept of a product that costs nothing.
pub proof fn prices_are_kept_as_they_are(
    dir: Seq<char>,
    p: models::ProductView,
    digest: Seq<char>,
    now: i128,
)
    ensures
        match recorded(dir, p, digest, now) {
            Some((file, e)) => {
                &&& p.price.total_cost@.mantissa != 0
                &&& e.timestamp == now
                &&& e.total_cost == p.price.total_cost
                &&& e.listed_price == p.price.listed_price
                &&& e.provider == p.provider
                &&& p.platform_id.len() > 0 ==> file == dir + "/"@ + (providers::provider_label(
                    p.provider,
                ) + "_"@ + p.platform_id + ".jsonl"@)
                &&& p.platform_id.len() == 0 ==> file == dir + "/"@ + (digest + ".jsonl"@)
            },
            None => p.price.total_cost@.mantissa == 0,
        },
{
}

/// Prices of some products are kept in their order, each that costs something once, and
/// each in its own file.
pub proof fn all_prices_are_kept(
    dir: Seq<char>,
    v: Seq<models::ProductView>,
    digests: Seq<Seq<char>>,
    now: i128,
    k: int,
)
    requires
        0 <= k <= v.len(),
        digests.len() == v.len(),
    ensures
        forall|i: int|
            0 <= i < k && (#[trigger] v[i]).price.total_cost@.mantissa != 0 ==> exists|j: int|
                0 <= j < all_recorded(dir, v, digests, now, k).len() && (
                #[trigger] all_recorded(dir, v, digests, now, k)[j]) == (
                    file_of(dir, v[i], digests[i]),
                    PriceEntry {
                        timestamp: now,
                        total_cost: v[i].price.total_cost,
                        listed_price: v[i].price.listed_price,
                        provider: v[i].provider,
                    },
                ),
        all_recorded(dir, v, digests, now, k).len() <= k,
    decreases k,
{
    if k > 0 {
        all_prices_are_kept(dir, v, digests, now, k - 1);
        let before = all_recorded(dir, v, digests, now, k - 1);
        let after = all_recorded(dir, v, digests, now, k);
        assert forall|i: int|
            0 <= i < k && (#[trigger] v[i]).price.total_cost@.mantissa != 0 implies exists|j: int|
            0 <= j < after.len() && (#[trigger] after[j]) == (
                file_of(dir, v[i], digests[i]),
                PriceEntry {
                    timestamp: now,
                    total_cost: v[i].price.total_cost,
                    listed_price: v[i].price.listed_price,
                    provider: v[i].provider,
                },
            ) by {
            if i < k - 1 {
                let j = choose|j: int|
                    0 <= j < before.len() && (#[trigger] before[j]) == (
                        file_of(dir, v[i], digests[i]),
                        PriceEntry {
                            timestamp: now,
                            total_cost: v[i].price.total_cost,
                            listed_price: v[i].price.listed_price,
                            provider: v[i].provider,
                        },
                    );
                assert(after[j] == before[j]);
            } else {
                assert(after[after.len() - 1] == recorded(dir, v[i], digests[i], now)->0);
            }
        }
    }
}

} // verus!
