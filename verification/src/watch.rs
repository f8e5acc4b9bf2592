//! Watches for prices that fall.

use vstd::prelude::*;

use crate::clock;
use crate::decimal;
use crate::decimal::Decimal;
use crate::display;
use crate::models;
use crate::models::{Product, SearchQuery, SortOrder};
use crate::order;
use crate::providers;
use crate::providers::ProviderId;
use crate::search;
use crate::text;

verus! {

/// A watch for a price of at most so many reais. Times are in nanoseconds since the start
/// of 1970.
pub struct Watch {
    pub id: u32,
    pub query: String,
    pub max_price: Decimal,
    pub platforms: Vec<ProviderId>,
    pub created_at: i128,
    pub last_checked: Option<i128>,
    pub last_best_price: Option<Decimal>,
}

/// A watch for a price.
pub struct WatchView {
    pub id: u32,
    pub query: Seq<char>,
    pub max_price: Decimal,
    pub platforms: Seq<ProviderId>,
    pub created_at: int,
    pub last_checked: Option<i128>,
    pub last_best_price: Option<Decimal>,
}

impl View for Watch {
    type V = WatchView;

    open spec fn view(&self) -> WatchView {
        WatchView {
            id: self.id,
            query: self.query@,
            max_price: self.max_price,
            platforms: self.platforms@,
            created_at: self.created_at as int,
            last_checked: self.last_checked,
            last_best_price: self.last_best_price,
        }
    }
}

/// Some watches.
pub open spec fn watch_views(v: Seq<Watch>) -> Seq<WatchView> {
    Seq::new(v.len(), |i: int| v[i]@)
}

/// The watches that there are, and the last number that was given to one.
pub struct WatchStore {
    pub watches: Vec<Watch>,
    pub next_id: u32,
}

/// The watches that there are.
pub struct StoreView {
    pub watches: Seq<WatchView>,
    pub next_id: u32,
}

impl View for WatchStore {
    type V = StoreView;

    open spec fn view(&self) -> StoreView {
        StoreView { watches: watch_views(self.watches@), next_id: self.next_id }
    }
}

/// Whether no two watches have one number, and none a number that is yet to be given.
pub open spec fn sound(s: StoreView) -> bool {
    &&& forall|i: int| 0 <= i < s.watches.len() ==> (#[trigger] s.watches[i]).id <= s.next_id
    &&& forall|i: int, j: int|
        0 <= i < j < s.watches.len() ==> (#[trigger] s.watches[i]).id != (#[trigger] s.watches[j]).id
}

/// The watches with one more, made at a time.
pub open spec fn added(
    s: StoreView,
    query: Seq<char>,
    max_price: Decimal,
    platforms: Seq<ProviderId>,
    now: int,
) -> StoreView {
    let id = (s.next_id + 1) as u32;
    StoreView {
        watches: s.watches.push(
            WatchView {
                id,
                query,
                max_price,
                platforms,
                created_at: now,
                last_checked: None,
                last_best_price: None,
            },
        ),
        next_id: id,
    }
}

/// The first `k` watches but those with a number.
pub open spec fn without(v: Seq<WatchView>, id: u32, k: int) -> Seq<WatchView>
    decreases k,
{
    if k <= 0 {
        Seq::empty()
    } else if v[k - 1].id != id {
        without(v, id, k - 1).push(v[k - 1])
    } else {
        without(v, id, k - 1)
    }
}

/// The watches but those with a number.
pub open spec fn removed(s: StoreView, id: u32) -> StoreView {
    StoreView { watches: without(s.watches, id, s.watches.len() as int), ..s }
}

/// Whether a watch has a number.
pub open spec fn has_watch(v: Seq<WatchView>, id: u32, k: int) -> bool {
    exists|i: int| 0 <= i < k && (#[trigger] v[i]).id == id
}

proof fn lemma_without(v: Seq<WatchView>, id: u32, k: int)
    requires
        0 <= k <= v.len(),
    ensures
        without(v, id, k).len() <= k,
        without(v, id, k).len() < k <==> has_watch(v, id, k),
    decreases k,
{
    if k > 0 {
        lemma_without(v, id, k - 1);
        if v[k - 1].id == id {
            assert(has_watch(v, id, k));
        } else if has_watch(v, id, k) {
            let i = choose|i: int| 0 <= i < k && (#[trigger] v[i]).id == id;
            assert(has_watch(v, id, k - 1));
        } else {
            if has_watch(v, id, k - 1) {
                let i = choose|i: int| 0 <= i < k - 1 && (#[trigger] v[i]).id == id;
                assert(v[i].id == id);
                assert(has_watch(v, id, k));
            }
        }
    }
}

impl Clone for Watch {
    fn clone(&self) -> (r: Watch)
        ensures
            r@ == self@,
    {
        let platforms = self.platforms.clone();
        assert(platforms@ =~= self.platforms@);
        Watch {
            id: self.id,
            query: self.query.clone(),
            max_price: self.max_price,
            platforms,
            created_at: self.created_at,
            last_checked: self.last_checked,
            last_best_price: self.last_best_price,
        }
    }
}

impl Default for WatchStore {
    fn default() -> (r: WatchStore)
        ensures
            r@ == (StoreView { watches: Seq::empty(), next_id: 0 }),
    {
        let r = WatchStore { watches: Vec::new(), next_id: 0 };
        assert(r@.watches =~= Seq::empty());
        r
    }
}

impl WatchStore {
    /// Adds a watch, made at a time, and hands out its number.
    pub fn add(&mut self, query: String, max_price: Decimal, platforms: Vec<ProviderId>, now: i128) -> (r:
        u32)
        requires
            old(self).next_id < u32::MAX,
        ensures
            final(self)@ == added(old(self)@, query@, max_price, platforms@, now as int),
            r == old(self).next_id + 1,
    {
        let id: u32 = self.next_id + 1;
        self.next_id = id;
        let ghost so_far = self.watches@;
        let w = Watch {
            id,
            query,
            max_price,
            platforms,
            created_at: now,
            last_checked: None,
            last_best_price: None,
        };
        self.watches.push(w);
        assert(watch_views(self.watches@) =~= watch_views(so_far).push(w@));
        id
    }

    /// Removes the watches with a number, and tells whether there were any.
    pub fn remove(&mut self, id: u32) -> (r: bool)
        ensures
            final(self)@ == removed(old(self)@, id),
            r == has_watch(old(self)@.watches, id, old(self)@.watches.len() as int),
    {
        let ghost all = watch_views(self.watches@);
        let before: usize = self.watches.len();
        let mut kept: Vec<Watch> = Vec::new();
        let mut i: usize = 0;
        assert(watch_views(kept@) =~= Seq::empty());
        while i < self.watches.len()
            invariant
                i <= self.watches@.len(),
                all == watch_views(self.watches@),
                watch_views(kept@) == without(all, id, i as int),
                self.next_id == old(self).next_id,
            decreases self.watches@.len() - i,
        {
            assert(all[i as int] == self.watches@[i as int]@);
            if self.watches[i].id != id {
                let ghost so_far = kept@;
                let w = self.watches[i].clone();
                kept.push(w);
                assert(watch_views(kept@) =~= watch_views(so_far).push(w@));
            }
            i = i + 1;
        }
        proof {
            lemma_without(all, id, all.len() as int);
            assert(watch_views(kept@).len() == kept@.len());
        }
        let found = kept.len() < before;
        self.watches = kept;
        found
    }

    /// The lines that tell of the watches.
    pub fn list(&self) -> (r: Vec<String>)
        ensures
            text::texts(r@) == list_of(self@.watches),
    {
        let ghost all = self@.watches;
        let ghost goal = list_of(all);
        let mut out: Vec<String> = Vec::new();
        if self.watches.len() == 0 {
            out.push("  No active watches.".to_string());
            assert(text::texts(out@) =~= goal);
            return out;
        }
        let mut i: usize = 0;
        while i < self.watches.len()
            invariant
                i <= self.watches@.len(),
                all == watch_views(self.watches@),
                goal == Seq::new(all.len(), |i: int| line_of(all[i])),
                text::texts(out@) == goal.take(i as int),
            decreases self.watches@.len() - i,
        {
            assert(all[i as int] == self.watches@[i as int]@);
            let ghost so_far = out@;
            let line = show_watch(&self.watches[i]);
            out.push(line);
            proof {
                assert(text::texts(out@) =~= text::texts(so_far).push(line@));
                assert(goal.take(i + 1) =~= goal.take(i as int).push(goal[i as int]));
            }
            i = i + 1;
        }
        assert(goal.take(i as int) =~= goal);
        out
    }
}

// ---- Lines ----

/// When a watch was last checked, if it ever was. A time that no date is as far off as
/// is not shown.
pub open spec fn checked_text(w: WatchView) -> Seq<char> {
    match w.last_checked {
        Some(at) => text::or_empty(clock::minute_text(at as int)),
        None => "never"@,
    }
}

/// The best price that a watch found, if it found any.
pub open spec fn best_text(w: WatchView) -> Seq<char> {
    match w.last_best_price {
        Some(p) => "R$ "@ + decimal::amount_text(p@),
        None => "-"@,
    }
}

/// The line that tells of a watch.
pub open spec fn line_of(w: WatchView) -> Seq<char> {
    "  #"@ + display::left_aligned(text::number_text(w.id as nat), 3) + " "@
        + display::left_aligned(w.query, 30) + " below R$ "@ + display::left_aligned(
        decimal::amount_text(w.max_price@),
        10,
    ) + " last: "@ + checked_text(w) + " best: "@ + best_text(w)
}

/// The lines that tell of some watches.
pub open spec fn list_of(v: Seq<WatchView>) -> Seq<Seq<char>> {
    if v.len() == 0 {
        seq!["  No active watches."@]
    } else {
        Seq::new(v.len(), |i: int| line_of(v[i]))
    }
}

fn show_watch(w: &Watch) -> (r: String)
    ensures
        r@ == line_of(w@),
{
    let id = display::pad_right(text::show_number(w.id as u64), 3);
    let query = display::pad_right(w.query.clone(), 30);
    let price = display::pad_right(w.max_price.show(), 10);
    let last = match w.last_checked {
        Some(at) => text::else_empty(clock::show_minute(at)),
        None => "never".to_string(),
    };
    let best = match w.last_best_price {
        Some(p) => {
            let amount = p.show();
            text::join2("R$ ", amount.as_str())
        },
        None => "-".to_string(),
    };
    let mut out = text::join3("  #", id.as_str(), " ");
    out.append(query.as_str());
    out.append(" below R$ ");
    out.append(price.as_str());
    out.append(" last: ");
    out.append(last.as_str());
    out.append(" best: ");
    out.append(best.as_str());
    out
}

// ---- Checks ----

/// The search that a watch makes.
pub open spec fn query_of(w: WatchView) -> models::QueryView {
    models::QueryView {
        query: w.query,
        max_results: 5,
        min_price: None,
        max_price: None,
        condition: None,
        sort: SortOrder::TotalCost,
        platforms: w.platforms,
    }
}

/// The search that a watch makes.
pub fn watch_query(w: &Watch) -> (r: SearchQuery)
    ensures
        r@ == query_of(w@),
{
    let platforms = w.platforms.clone();
    assert(platforms@ =~= w.platforms@);
    SearchQuery {
        query: w.query.clone(),
        max_results: 5,
        min_price: None,
        max_price: None,
        condition: None,
        sort: SortOrder::TotalCost,
        platforms,
    }
}

/// What a check comes to: a notification of a price that is low enough, a line about one
/// that is not, or a line where nothing was found.
pub enum CheckOutcome {
    Alert { title: String, body: String },
    Line(String),
}

/// What a check comes to.
pub enum OutcomeView {
    Alert { title: Seq<char>, body: Seq<char> },
    Line(Seq<char>),
}

impl View for CheckOutcome {
    type V = OutcomeView;

    open spec fn view(&self) -> OutcomeView {
        match *self {
            CheckOutcome::Alert { title, body } => OutcomeView::Alert { title: title@, body: body@ },
            CheckOutcome::Line(s) => OutcomeView::Line(s@),
        }
    }
}

/// A price, the store that asks it, and the price that is watched for.
pub open spec fn price_text(p: models::ProductView, target: Decimal) -> Seq<char> {
    "R$ "@ + decimal::amount_text(p.price.total_cost@) + " at "@ + providers::provider_label(
        p.provider,
    ) + " (target: R$ "@ + decimal::amount_text(target@) + ")"@
}

/// What a check comes to, given the results.
pub open spec fn outcome_of(w: WatchView, v: Seq<models::ProductView>) -> OutcomeView {
    if v.len() == 0 {
        OutcomeView::Line("  No results found."@)
    } else if decimal::at_most(v[0].price.total_cost, w.max_price) {
        OutcomeView::Alert {
            title: "Pechincha: "@ + w.query,
            body: price_text(v[0], w.max_price),
        }
    } else {
        OutcomeView::Line("  Best: "@ + price_text(v[0], w.max_price))
    }
}

/// A watch after a check at a time, given the results.
pub open spec fn checked(w: WatchView, v: Seq<models::ProductView>, now: i128) -> WatchView {
    WatchView {
        last_checked: Some(now),
        last_best_price: if v.len() == 0 {
            w.last_best_price
        } else {
            Some(v[0].price.total_cost)
        },
        ..w
    }
}

fn show_price(p: &Product, target: &Decimal) -> (r: String)
    ensures
        r@ == price_text(p@, *target),
{
    let price = p.price.total_cost.show();
    let goal = target.show();
    let mut out = text::join3("R$ ", price.as_str(), " at ");
    out.append(p.provider.label());
    out.append(" (target: R$ ");
    out.append(goal.as_str());
    out.append(")");
    out
}

impl Watch {
    /// The line that tells that a watch is being checked.
    pub fn checking_line(&self) -> (r: String)
        ensures
            r@ == "  Checking: "@ + self@.query + " (below R$ "@ + decimal::amount_text(
                self@.max_price@,
            ) + ")"@,
    {
        let price = self.max_price.show();
        let mut out = text::join3("  Checking: ", self.query.as_str(), " (below R$ ");
        out.append(price.as_str());
        out.append(")");
        out
    }

    /// Takes in the results of a check at a time, and tells what it comes to. The first
    /// result is the cheapest.
    pub fn check(&mut self, results: &Vec<Product>, now: i128) -> (r: CheckOutcome)
        ensures
            final(self)@ == checked(old(self)@, models::product_views(results@), now),
            r@ == outcome_of(old(self)@, models::product_views(results@)),
    {
        assert(models::product_views(results@).len() == results@.len());
        self.last_checked = Some(now);
        if results.len() == 0 {
            return CheckOutcome::Line("  No results found.".to_string());
        }
        assert(models::product_views(results@)[0] == results@[0]@);
        let best = &results[0];
        self.last_best_price = Some(best.price.total_cost);
        let price = show_price(best, &self.max_price);
        if best.price.total_cost.le(&self.max_price) {
            CheckOutcome::Alert {
                title: text::join2("Pechincha: ", self.query.as_str()),
                body: price,
            }
        } else {
            CheckOutcome::Line(text::join2("  Best: ", price.as_str()))
        }
    }
}

// ---- What holds of watches ----

/// A watch that is added has a number that no other has, and the watches stay sound.
pub proof fn added_watches_are_new(
    s: StoreView,
    query: Seq<char>,
    max_price: Decimal,
    platforms: Seq<ProviderId>,
    now: int,
)
    requires
        sound(s),
        s.next_id < u32::MAX,
    ensures
        sound(added(s, query, max_price, platforms, now)),
        !has_watch(s.watches, (s.next_id + 1) as u32, s.watches.len() as int),
{
    let t = added(s, query, max_price, platforms, now);
    assert forall|i: int| 0 <= i < t.watches.len() implies (#[trigger] t.watches[i]).id
        <= t.next_id by {
        if i < s.watches.len() {
            assert(t.watches[i] == s.watches[i]);
        }
    }
    assert forall|i: int, j: int| 0 <= i < j < t.watches.len() implies (#[trigger] t.watches[i]).id
        != (#[trigger] t.watches[j]).id by {
        assert(t.watches[i] == s.watches[i]);
        if j < s.watches.len() {
            assert(t.watches[j] == s.watches[j]);
        }
    }
}

proof fn lemma_without_members(v: Seq<WatchView>, id: u32, k: int)
    requires
        0 <= k <= v.len(),
    ensures
        forall|i: int|
            0 <= i < without(v, id, k).len() ==> (#[trigger] without(v, id, k)[i]).id != id,
        forall|i: int|
            0 <= i < without(v, id, k).len() ==> from_first(v, k, #[trigger] without(v, id, k)[i]),
    decreases k,
{
    if k > 0 {
        lemma_without_members(v, id, k - 1);
        let before = without(v, id, k - 1);
        let after = without(v, id, k);
        assert forall|i: int| 0 <= i < after.len() implies from_first(v, k, #[trigger] after[i]) by {
            if i < before.len() {
                assert(after[i] == before[i]);
                assert(from_first(v, k - 1, before[i]));
                let j = choose|j: int| 0 <= j < k - 1 && #[trigger] v[j] == before[i];
                assert(v[j] == after[i]);
            } else {
                assert(v[k - 1] == after[i]);
            }
        }
    }
}

/// Whether a watch is one of the first `k`.
pub open spec fn from_first(v: Seq<WatchView>, k: int, w: WatchView) -> bool {
    exists|j: int| 0 <= j < k && #[trigger] v[j] == w
}

proof fn lemma_without_apart(v: Seq<WatchView>, id: u32, k: int)
    requires
        0 <= k <= v.len(),
        forall|i: int, j: int| 0 <= i < j < v.len() ==> (#[trigger] v[i]).id != (#[trigger] v[j]).id,
    ensures
        forall|i: int, j: int|
            0 <= i < j < without(v, id, k).len() ==> (#[trigger] without(v, id, k)[i]).id != (
            #[trigger] without(v, id, k)[j]).id,
    decreases k,
{
    if k > 0 {
        lemma_without_apart(v, id, k - 1);
        lemma_without_members(v, id, k - 1);
        let before = without(v, id, k - 1);
        let after = without(v, id, k);
        assert forall|i: int, j: int| 0 <= i < j < after.len() implies (#[trigger] after[i]).id != (
        #[trigger] after[j]).id by {
            assert(after[i] == before[i]);
            if j < before.len() {
                assert(after[j] == before[j]);
            } else {
                assert(from_first(v, k - 1, before[i]));
                let a = choose|a: int| 0 <= a < k - 1 && #[trigger] v[a] == before[i];
                assert(v[a].id != v[k - 1].id);
            }
        }
    }
}

/// A watch that is removed is gone, and the watches stay sound. Its number is not given
/// again.
pub proof fn removed_watches_are_gone(s: StoreView, id: u32)
    requires
        sound(s),
    ensures
        sound(removed(s, id)),
        !has_watch(removed(s, id).watches, id, removed(s, id).watches.len() as int),
        removed(s, id).next_id == s.next_id,
{
    let k = s.watches.len() as int;
    lemma_without_members(s.watches, id, k);
    lemma_without_apart(s.watches, id, k);
    let t = removed(s, id);
    assert forall|i: int| 0 <= i < t.watches.len() implies (#[trigger] t.watches[i]).id
        <= t.next_id by {
        assert(from_first(s.watches, k, t.watches[i]));
        let j = choose|j: int| 0 <= j < k && #[trigger] s.watches[j] == t.watches[i];
        assert(s.watches[j].id <= s.next_id);
    }
}

proof fn lemma_without_none(v: Seq<WatchView>, id: u32, k: int)
    requires
        0 <= k <= v.len(),
        forall|i: int| 0 <= i < k ==> (#[trigger] v[i]).id != id,
    ensures
        without(v, id, k) == v.take(k),
    decreases k,
{
    if k > 0 {
        lemma_without_none(v, id, k - 1);
        assert(v[k - 1].id != id);
        assert(v.take(k) =~= v.take(k - 1).push(v[k - 1]));
    } else {
        assert(v.take(k) =~= Seq::empty());
    }
}

/// Removing a watch that was just added leaves the watches that there were.
pub proof fn removing_undoes_adding(
    s: StoreView,
    query: Seq<char>,
    max_price: Decimal,
    platforms: Seq<ProviderId>,
    now: int,
)
    requires
        sound(s),
        s.next_id < u32::MAX,
    ensures
        removed(added(s, query, max_price, platforms, now), (s.next_id + 1) as u32).watches
            == s.watches,
{
    let id = (s.next_id + 1) as u32;
    let t = added(s, query, max_price, platforms, now);
    let k = s.watches.len() as int;
    assert forall|i: int| 0 <= i < k implies (#[trigger] t.watches[i]).id != id by {
        assert(t.watches[i] == s.watches[i]);
    }
    lemma_without_none(t.watches, id, k);
    assert(t.watches.take(k) =~= s.watches);
}

/// A check of results from the cheapest on alerts exactly where one of them costs no more
/// than is watched for.
pub proof fn alerts_miss_no_low_price(w: WatchView, v: Seq<models::ProductView>)
    requires
        order::ordered(v, search::product_order(SortOrder::TotalCost)),
    ensures
        outcome_of(w, v) is Alert <==> exists|i: int|
            0 <= i < v.len() && decimal::at_most(
                (#[trigger] v[i]).price.total_cost,
                w.max_price,
            ),
{
    let le = search::product_order(SortOrder::TotalCost);
    if exists|i: int|
        0 <= i < v.len() && decimal::at_most((#[trigger] v[i]).price.total_cost, w.max_price) {
        let i = choose|i: int|
            0 <= i < v.len() && decimal::at_most((#[trigger] v[i]).price.total_cost, w.max_price);
        assert(le(v[0], v[i]));
        decimal::amounts_are_ordered(
            v[0].price.total_cost,
            v[i].price.total_cost,
            w.max_price,
        );
    }
    if outcome_of(w, v) is Alert {
        assert(decimal::at_most(v[0].price.total_cost, w.max_price));
    }
}

/// A check alerts exactly where the cheapest result costs no more than is watched for.
pub proof fn alerts_are_for_low_prices(w: WatchView, v: Seq<models::ProductView>)
    ensures
        outcome_of(w, v) is Alert <==> v.len() > 0 && decimal::at_most(
            v[0].price.total_cost,
            w.max_price,
        ),
{
}

/// A watch that is added is the last one, holds what was asked for and was never checked; the
/// others stay, and the next number is its own.
pub proof fn added_watches_are_last(
    s: StoreView,
    query: Seq<char>,
    max_price: Decimal,
    platforms: Seq<ProviderId>,
    now: int,
)
    requires
        s.next_id < u32::MAX,
    ensures
        ({
            let r = added(s, query, max_price, platforms, now);
            let n = s.watches.len() as int;
            let w = r.watches[n];
            &&& r.watches.len() == n + 1
            &&& forall|i: int| 0 <= i < n ==> #[trigger] r.watches[i] == s.watches[i]
            &&& w.id == s.next_id + 1
            &&& r.next_id == s.next_id + 1
            &&& w.query == query
            &&& w.max_price == max_price
            &&& w.platforms == platforms
            &&& w.created_at == now
            &&& w.last_checked is None
            &&& w.last_best_price is None
        }),
{
}

/// Removing leaves every watch with another number, and no other.
pub proof fn other_watches_stay(s: StoreView, id: u32, w: WatchView)
    ensures
        removed(s, id).watches.contains(w) <==> s.watches.contains(w) && w.id != id,
{
    lemma_without_has(s.watches, id, s.watches.len() as int, w);
    assert(s.watches.take(s.watches.len() as int) =~= s.watches);
}

proof fn lemma_without_has(v: Seq<WatchView>, id: u32, k: int, w: WatchView)
    requires
        0 <= k <= v.len(),
    ensures
        without(v, id, k).contains(w) <==> v.take(k).contains(w) && w.id != id,
    decreases k,
{
    if k > 0 {
        lemma_without_has(v, id, k - 1, w);
        let before = without(v, id, k - 1);
        let after = without(v, id, k);
        let (a, b) = (v.take(k - 1), v.take(k));
        assert(b =~= a.push(v[k - 1]));
        lemma_pushed(a, v[k - 1], w);
        lemma_pushed(before, v[k - 1], w);
    }
}

proof fn lemma_pushed(v: Seq<WatchView>, x: WatchView, w: WatchView)
    ensures
        v.push(x).contains(w) <==> v.contains(w) || w == x,
{
    let p = v.push(x);
    if v.contains(w) {
        let i = choose|i: int| 0 <= i < v.len() && v[i] == w;
        assert(p[i] == w);
    }
    assert(p[v.len() as int] == x);
    if p.contains(w) && w != x {
        let i = choose|i: int| 0 <= i < p.len() && p[i] == w;
        assert(v[i] == w);
    }
}

/// A check keeps when it was made and what the first result costs in all, or the last best
/// price where there is no result; nothing else of the watch changes.
pub proof fn checks_keep_the_best_price(w: WatchView, v: Seq<models::ProductView>, now: i128)
    ensures
        ({
            let r = checked(w, v, now);
            &&& r.id == w.id
            &&& r.query == w.query
            &&& r.max_price == w.max_price
            &&& r.platforms == w.platforms
            &&& r.created_at == w.created_at
            &&& r.last_checked == Some(now)
            &&& v.len() == 0 ==> r.last_best_price == w.last_best_price
            &&& v.len() > 0 ==> r.last_best_price == Some(v[0].price.total_cost)
        }),
{
}

/// A watch searches its own stores for its own words, for five results of each store from the
/// cheapest in all on, at any price and in any condition.
pub proof fn watches_search_for_the_cheapest(w: WatchView)
    ensures
        ({
            let q = query_of(w);
            &&& q.query == w.query
            &&& q.platforms == w.platforms
            &&& q.max_results == 5
            &&& q.sort == SortOrder::TotalCost
            &&& q.min_price is None
            &&& q.max_price is None
            &&& q.condition is None
        }),
{
}

/// An alert names what is watched for, the price, the store and the price that is watched
/// for; so does the line for a price that is too high.
pub proof fn alerts_name_the_price_and_the_store(w: WatchView, v: Seq<models::ProductView>)
    ensures
        ({
            let told = "R$ "@ + decimal::amount_text(v[0].price.total_cost@) + " at "@
                + providers::provider_label(v[0].provider) + " (target: R$ "@
                + decimal::amount_text(w.max_price@) + ")"@;
            let (a, b) = (v[0].price.total_cost@, w.max_price@);
            let low = a.mantissa * decimal::pow10(b.scale) <= b.mantissa * decimal::pow10(a.scale);
            match outcome_of(w, v) {
                OutcomeView::Alert { title, body } => v.len() > 0 && low && title
                    == "Pechincha: "@ + w.query && body == told,
                OutcomeView::Line(s) => if v.len() == 0 {
                    s == "  No results found."@
                } else {
                    !low && s == "  Best: "@ + told
                },
            }
        }),
{
}

/// A list of watches has a line for each, in their order.
pub proof fn lists_have_a_line_for_each_watch(v: Seq<WatchView>, i: int)
    requires
        0 <= i < v.len(),
    ensures
        list_of(v).len() == v.len(),
        ({
            let w = v[i];
            let best = if w.last_best_price is Some {
                "R$ "@ + decimal::amount_text(w.last_best_price->0@)
            } else {
                "-"@
            };
            let when = if w.last_checked is None {
                "never"@
            } else {
                text::or_empty(clock::minute_text(w.last_checked->0 as int))
            };
            list_of(v)[i] == "  #"@ + display::left_aligned(text::number_text(w.id as nat), 3)
                + " "@ + display::left_aligned(w.query, 30) + " below R$ "@ + display::left_aligned(
                decimal::amount_text(w.max_price@),
                10,
            ) + " last: "@ + when + " best: "@ + best
        }),
{
}

} // verus!
