//! One search, step by step: what is to be fetched next, and what comes of it.

use vstd::prelude::*;

use crate::cdp;
use crate::cdp::AmazonUsDetails;
use crate::decimal::Decimal;
use crate::enrich;
use crate::enrich::{Candidate, NextFetch};
use crate::error;
use crate::error::{PechinchaError, ProviderError};
use crate::keepa;
use crate::keepa::KeepaInsight;
use crate::models;
use crate::models::{Product, SearchQuery, SearchResults};
use crate::providers;
use crate::providers::ProviderId;
use crate::scraping;
use crate::search;
use crate::search::SearchOrchestrator;
use crate::text;

verus! {

// ---- Opening ----

/// What a search opens with: nothing where no store is searched, else the pages of the
/// stores in the browser at a port, or a request to each store.
pub enum Opening {
    Nothing,
    Browser { port: u16, pages: Vec<(ProviderId, String)> },
    Stores(Vec<ProviderId>),
}

/// The pages with the results of a search in some stores.
pub open spec fn result_pages(stores: Seq<ProviderId>, query: Seq<char>) -> Seq<
    (ProviderId, Seq<char>),
> {
    Seq::new(stores.len(), |i: int| (stores[i], cdp::results_url(stores[i], query)))
}

/// Some pages.
pub open spec fn page_views(v: Seq<(ProviderId, String)>) -> Seq<(ProviderId, Seq<char>)> {
    Seq::new(v.len(), |i: int| (v[i].0, v[i].1@))
}

fn list_pages(stores: &Vec<ProviderId>, query: &str) -> (r: Vec<(ProviderId, String)>)
    ensures
        page_views(r@) == result_pages(stores@, query@),
{
    let mut out: Vec<(ProviderId, String)> = Vec::new();
    let mut i: usize = 0;
    while i < stores.len()
        invariant
            i <= stores@.len(),
            page_views(out@) == result_pages(stores@, query@).take(i as int),
        decreases stores@.len() - i,
    {
        let ghost so_far = out@;
        let url = cdp::search_url(stores[i], query);
        out.push((stores[i], url));
        proof {
            let goal = result_pages(stores@, query@);
            assert(page_views(out@) =~= page_views(so_far).push(goal[i as int]));
            assert(goal.take(i + 1) =~= goal.take(i as int).push(goal[i as int]));
        }
        i = i + 1;
    }
    assert(result_pages(stores@, query@).take(i as int) =~= result_pages(stores@, query@));
    out
}

impl SearchOrchestrator {
    /// What a search opens with.
    pub fn open(&self, query: &SearchQuery) -> (r: Opening)
        ensures
            ({
                let stores = search::selected_stores(
                    self.providers@,
                    query@.platforms,
                    self.providers@.len() as int,
                );
                match r {
                    Opening::Nothing => stores.len() == 0,
                    Opening::Browser { port, pages } => stores.len() > 0 && self.cdp_port == Some(
                        port,
                    ) && page_views(pages@) == result_pages(stores, query@.query),
                    Opening::Stores(v) => stores.len() > 0 && self.cdp_port is None && v@
                        == stores,
                }
            }),
    {
        let stores = self.active(query);
        if stores.len() == 0 {
            return Opening::Nothing;
        }
        match self.cdp_port {
            Some(port) => Opening::Browser {
                port,
                pages: list_pages(&stores, query.query.as_str()),
            },
            None => Opening::Stores(stores),
        }
    }
}

// ---- Gathering ----

/// What the stores answered: their offers, and the reasons why some gave none.
pub struct Gathered {
    pub products: Vec<Product>,
    pub errors: Vec<(ProviderId, ProviderError)>,
}

/// What the stores answered.
pub struct GatheredView {
    pub products: Seq<models::ProductView>,
    pub errors: Seq<(ProviderId, error::ProviderErrorView)>,
}

impl View for Gathered {
    type V = GatheredView;

    open spec fn view(&self) -> GatheredView {
        GatheredView {
            products: models::product_views(self.products@),
            errors: error::failures(self.errors@),
        }
    }
}

/// What was gathered, with the offers of one more store or the reason why it gave none.
pub open spec fn with_outcome(
    g: GatheredView,
    id: ProviderId,
    outcome: Result<Seq<models::ProductView>, error::ProviderErrorView>,
) -> GatheredView {
    match outcome {
        Ok(v) => GatheredView { products: g.products + v, ..g },
        Err(e) => GatheredView { errors: g.errors.push((id, e)), ..g },
    }
}

/// A page that was fetched, or the reason why it was not.
pub open spec fn fetched(r: Result<String, ProviderError>) -> Result<
    Seq<char>,
    error::ProviderErrorView,
> {
    match r {
        Ok(s) => Ok(s@),
        Err(e) => Err(e@),
    }
}

/// What comes of the first `k` pages: the offers on those of searched stores, and the
/// reasons why pages were not fetched or not understood. Pages of other stores count for
/// nothing.
pub open spec fn gathered_pages(
    stores: Seq<ProviderId>,
    pages: Seq<(ProviderId, Result<String, ProviderError>)>,
    max_results: nat,
    at: int,
    k: int,
) -> GatheredView
    decreases k,
{
    if k <= 0 {
        GatheredView { products: Seq::empty(), errors: Seq::empty() }
    } else {
        let g = gathered_pages(stores, pages, max_results, at, k - 1);
        let id = pages[k - 1].0;
        match fetched(pages[k - 1].1) {
            Ok(page) => if stores.contains(id) {
                with_outcome(g, id, scraping::page_offers(id, page, max_results, at))
            } else {
                g
            },
            Err(e) => with_outcome(g, id, Err(e)),
        }
    }
}

/// What comes of the first `k` answers.
pub open spec fn gathered_answers(
    answers: Seq<(ProviderId, Result<Vec<Product>, ProviderError>)>,
    k: int,
) -> GatheredView
    decreases k,
{
    if k <= 0 {
        GatheredView { products: Seq::empty(), errors: Seq::empty() }
    } else {
        with_outcome(
            gathered_answers(answers, k - 1),
            answers[k - 1].0,
            providers::outcome_view(answers[k - 1].1),
        )
    }
}

impl Gathered {
    /// Nothing yet.
    pub fn new() -> (r: Gathered)
        ensures
            r@ == (GatheredView { products: Seq::empty(), errors: Seq::empty() }),
    {
        let r = Gathered { products: Vec::new(), errors: Vec::new() };
        assert(r@.products =~= Seq::empty());
        assert(r@.errors =~= Seq::empty());
        r
    }

    /// Adds the offers of one more store or the reason why it gave none.
    pub fn add_outcome(&mut self, id: ProviderId, outcome: Result<Vec<Product>, ProviderError>)
        ensures
            final(self)@ == with_outcome(old(self)@, id, providers::outcome_view(outcome)),
    {
        match outcome {
            Ok(v) => {
                let mut v = v;
                let ghost a = self.products@;
                let ghost b = v@;
                self.products.append(&mut v);
                assert(models::product_views(self.products@) =~= models::product_views(a)
                    + models::product_views(b));
            },
            Err(e) => {
                let ghost a = self.errors@;
                self.errors.push((id, e));
                assert(error::failures(self.errors@) =~= error::failures(a).push((id, e@)));
            },
        }
    }
}

/// What comes of pages that were fetched at a time from some stores.
pub fn gather_pages(
    stores: &Vec<ProviderId>,
    pages: Vec<(ProviderId, Result<String, ProviderError>)>,
    max_results: usize,
    at: i128,
) -> (r: Gathered)
    ensures
        r@ == gathered_pages(
            stores@,
            pages@,
            max_results as nat,
            at as int,
            pages@.len() as int,
        ),
{
    let ghost all = pages@;
    let mut rest = pages;
    let mut out = Gathered::new();
    let ghost mut k: int = 0;
    assert(all.skip(0) =~= all);
    while rest.len() > 0
        invariant
            0 <= k <= all.len(),
            rest@ == all.skip(k),
            out@ == gathered_pages(stores@, all, max_results as nat, at as int, k),
        decreases rest@.len(),
    {
        assert(rest@[0] == all[k]);
        let (id, page) = rest.remove(0);
        match page {
            Ok(html) => {
                if providers::holds(stores, id) {
                    out.add_outcome(
                        id,
                        scraping::parse_page(id, html.as_str(), max_results, at),
                    );
                }
            },
            Err(e) => {
                out.add_outcome(id, Err(e));
            },
        }
        proof {
            assert(all.skip(k).remove(0) =~= all.skip(k + 1));
            k = k + 1;
        }
    }
    out
}

/// What comes of the answers of some stores.
pub fn gather_answers(answers: Vec<(ProviderId, Result<Vec<Product>, ProviderError>)>) -> (r:
    Gathered)
    ensures
        r@ == gathered_answers(answers@, answers@.len() as int),
{
    let ghost all = answers@;
    let mut rest = answers;
    let mut out = Gathered::new();
    let ghost mut k: int = 0;
    assert(all.skip(0) =~= all);
    while rest.len() > 0
        invariant
            0 <= k <= all.len(),
            rest@ == all.skip(k),
            out@ == gathered_answers(all, k),
        decreases rest@.len(),
    {
        assert(rest@[0] == all[k]);
        let (id, answer) = rest.remove(0);
        out.add_outcome(id, answer);
        proof {
            assert(all.skip(k).remove(0) =~= all.skip(k + 1));
            k = k + 1;
        }
    }
    out
}

// ---- Stages ----

/// What a search waits for: the pages of single products, those named by their indices;
/// a comparison of the prices of the best candidate on the Amazon sites; a comparison for
/// another candidate, or what the American site alone tells, after a comparison that told
/// too little; or the page that may tell the price that the manufacturer asks. At the end
/// it has a list, or has failed because an amount was too large to be held.
pub enum Phase {
    UsPages(Vec<usize>),
    Pages { br: Vec<usize>, ali: Vec<usize> },
    Comparison(Vec<Candidate>),
    Fallback { candidates: Vec<Candidate>, insights: Vec<KeepaInsight>, other: usize },
    Single { candidates: Vec<Candidate>, insights: Vec<KeepaInsight> },
    Msrp { effective: String, best: String },
    Done,
    Failed,
}

/// What a search waits for.
pub enum PhaseView {
    UsPages(Seq<int>),
    Pages { br: Seq<int>, ali: Seq<int> },
    Comparison(Seq<enrich::CandidateView>),
    Fallback { candidates: Seq<enrich::CandidateView>, insights: Seq<keepa::KeepaView>, other: int },
    Single { candidates: Seq<enrich::CandidateView>, insights: Seq<keepa::KeepaView> },
    Msrp { effective: Seq<char>, best: Seq<char> },
    Done,
    Failed,
}

impl View for Phase {
    type V = PhaseView;

    open spec fn view(&self) -> PhaseView {
        match *self {
            Phase::UsPages(v) => PhaseView::UsPages(enrich::indices(v@)),
            Phase::Pages { br, ali } => PhaseView::Pages {
                br: enrich::indices(br@),
                ali: enrich::indices(ali@),
            },
            Phase::Comparison(c) => PhaseView::Comparison(enrich::candidate_views(c@)),
            Phase::Fallback { candidates, insights, other } => PhaseView::Fallback {
                candidates: enrich::candidate_views(candidates@),
                insights: keepa::insight_views(insights@),
                other: other as int,
            },
            Phase::Single { candidates, insights } => PhaseView::Single {
                candidates: enrich::candidate_views(candidates@),
                insights: keepa::insight_views(insights@),
            },
            Phase::Msrp { effective, best } => PhaseView::Msrp {
                effective: effective@,
                best: best@,
            },
            Phase::Done => PhaseView::Done,
            Phase::Failed => PhaseView::Failed,
        }
    }
}

/// A search under way: what is searched for, what a dollar costs in reais, the products
/// found so far, the stores that failed, and what it waits for.
pub struct SearchSession {
    query: SearchQuery,
    rate: Decimal,
    products: Vec<Product>,
    errors: Vec<(ProviderId, ProviderError)>,
    phase: Phase,
}

/// A search under way.
pub struct SessionView {
    pub query: models::QueryView,
    pub rate: Decimal,
    pub products: Seq<models::ProductView>,
    pub errors: Seq<(ProviderId, error::ProviderErrorView)>,
    pub phase: PhaseView,
}

impl View for SearchSession {
    type V = SessionView;

    closed spec fn view(&self) -> SessionView {
        SessionView {
            query: self.query@,
            rate: self.rate,
            products: models::product_views(self.products@),
            errors: error::failures(self.errors@),
            phase: self.phase@,
        }
    }
}

/// Whether some indices are of products.
pub open spec fn within(v: Seq<usize>, size: nat) -> bool {
    forall|i: int| 0 <= i < v.len() ==> #[trigger] v[i] < size
}

impl SearchSession {
    #[verifier::type_invariant]
    spec fn sound(self) -> bool {
        match self.phase {
            Phase::UsPages(v) => within(v@, self.products@.len()),
            Phase::Pages { br, ali } => within(br@, self.products@.len()) && within(
                ali@,
                self.products@.len(),
            ),
            Phase::Comparison(c) => c@.len() > 0,
            Phase::Fallback { candidates, insights, other } => other < candidates@.len(),
            Phase::Single { candidates, insights } => candidates@.len() > 0,
            _ => true,
        }
    }
}

/// What comes in: what the pages of single products tell, as far as they could be read;
/// what Keepa tells of a product on several sites or on one; or what one more page tells.
pub enum Event {
    UsDetails(Vec<Option<AmazonUsDetails>>),
    Details { prices: Vec<Option<Decimal>>, taxes: Vec<Option<Decimal>> },
    Insights(Vec<KeepaInsight>),
    Insight(Option<KeepaInsight>),
    Page(Option<AmazonUsDetails>),
}

/// What comes in.
pub enum EventView {
    UsDetails(Seq<Option<cdp::DetailsView>>),
    Details { prices: Seq<Option<Decimal>>, taxes: Seq<Option<Decimal>> },
    Insights(Seq<keepa::KeepaView>),
    Insight(Option<keepa::KeepaView>),
    Page(Option<cdp::DetailsView>),
}

/// What some pages tell, as far as they could be read.
pub open spec fn page_details(v: Seq<Option<AmazonUsDetails>>) -> Seq<Option<cdp::DetailsView>> {
    Seq::new(v.len(), |i: int| cdp::details_view(v[i]))
}

impl View for Event {
    type V = EventView;

    open spec fn view(&self) -> EventView {
        match *self {
            Event::UsDetails(v) => EventView::UsDetails(page_details(v@)),
            Event::Details { prices, taxes } => EventView::Details {
                prices: prices@,
                taxes: taxes@,
            },
            Event::Insights(v) => EventView::Insights(keepa::insight_views(v@)),
            Event::Insight(k) => EventView::Insight(enrich::insight_view(k)),
            Event::Page(d) => EventView::Page(cdp::details_view(d)),
        }
    }
}

/// The first `k` replies that there are, each with the index that it was asked for.
pub open spec fn paired<T>(targets: Seq<int>, replies: Seq<Option<T>>, k: int) -> Seq<(usize, T)>
    decreases k,
{
    if k <= 0 {
        Seq::empty()
    } else {
        match replies[k - 1] {
            Some(x) => paired(targets, replies, k - 1).push((targets[k - 1] as usize, x)),
            None => paired(targets, replies, k - 1),
        }
    }
}

/// The replies that there are, each with the index that it was asked for, as far as
/// there are both.
pub open spec fn matched_replies<T>(targets: Seq<int>, replies: Seq<Option<T>>) -> Seq<(usize, T)> {
    paired(
        targets,
        replies,
        if targets.len() <= replies.len() {
            targets.len() as int
        } else {
            replies.len() as int
        },
    )
}

fn match_details(targets: &Vec<usize>, replies: &Vec<Option<AmazonUsDetails>>, size: usize) -> (r:
    Vec<(usize, AmazonUsDetails)>)
    requires
        within(targets@, size as nat),
    ensures
        enrich::reply_views(r@) == matched_replies(
            enrich::indices(targets@),
            page_details(replies@),
        ),
        forall|i: int| 0 <= i < r@.len() ==> #[trigger] r@[i].0 < size,
{
    let ghost t = enrich::indices(targets@);
    let ghost d = page_details(replies@);
    let mut out: Vec<(usize, AmazonUsDetails)> = Vec::new();
    let mut i: usize = 0;
    assert(enrich::reply_views(out@) =~= Seq::empty());
    while i < targets.len() && i < replies.len()
        invariant
            i <= targets@.len(),
            i <= replies@.len(),
            within(targets@, size as nat),
            t == enrich::indices(targets@),
            d == page_details(replies@),
            enrich::reply_views(out@) == paired(t, d, i as int),
            forall|k: int| 0 <= k < out@.len() ==> #[trigger] out@[k].0 < size,
        decreases targets@.len() - i,
    {
        let ghost so_far = out@;
        let at: usize = targets[i];
        assert(targets@[i as int] < size);
        assert(t[i as int] == at);
        assert(d[i as int] == cdp::details_view(replies@[i as int]));
        match &replies[i] {
            Some(x) => {
                let y = x.clone();
                out.push((at, y));
                assert(enrich::reply_views(out@) =~= enrich::reply_views(so_far).push((at, y@)));
            },
            None => {},
        }
        i = i + 1;
    }
    out
}

fn match_amounts(targets: &Vec<usize>, replies: &Vec<Option<Decimal>>, size: usize) -> (r: Vec<
    (usize, Decimal),
>)
    requires
        within(targets@, size as nat),
    ensures
        r@ == matched_replies(enrich::indices(targets@), replies@),
        forall|i: int| 0 <= i < r@.len() ==> #[trigger] r@[i].0 < size,
{
    let ghost t = enrich::indices(targets@);
    let mut out: Vec<(usize, Decimal)> = Vec::new();
    let mut i: usize = 0;
    while i < targets.len() && i < replies.len()
        invariant
            i <= targets@.len(),
            i <= replies@.len(),
            within(targets@, size as nat),
            t == enrich::indices(targets@),
            out@ == paired(t, replies@, i as int),
            forall|k: int| 0 <= k < out@.len() ==> #[trigger] out@[k].0 < size,
        decreases targets@.len() - i,
    {
        let at: usize = targets[i];
        assert(targets@[i as int] < size);
        assert(t[i as int] == at);
        match replies[i] {
            Some(x) => {
                out.push((at, x));
            },
            None => {},
        }
        i = i + 1;
    }
    out
}

// ---- From stage to stage ----

/// A search that has failed, and so has no products.
pub open spec fn failed(s: SessionView) -> SessionView {
    SessionView { products: Seq::empty(), phase: PhaseView::Failed, ..s }
}

/// A search at its end: with the list made of its products.
pub open spec fn ended(s: SessionView) -> SessionView {
    match search::finished(s.products, s.query, s.rate) {
        Some(v) => SessionView { products: v, phase: PhaseView::Done, ..s },
        None => failed(s),
    }
}

/// A search after Keepa told of some sites for one of the two numbers: the products with
/// these are enriched, and where the price that the manufacturer asks is still unknown,
/// the product's page is waited for.
pub open spec fn informed(
    s: SessionView,
    insights: Seq<keepa::KeepaView>,
    effective: Seq<char>,
    best: Seq<char>,
) -> SessionView {
    if insights.len() == 0 {
        ended(s)
    } else {
        match enrich::msrp_of(insights, s.products, s.query.query, s.rate) {
            Some(msrp) => {
                let products = enrich::all_enriched(s.products, insights, msrp, effective, best);
                let s = SessionView { products, ..s };
                if enrich::msrp_known(products, effective, best) {
                    ended(s)
                } else {
                    SessionView { phase: PhaseView::Msrp { effective, best }, ..s }
                }
            },
            None => failed(s),
        }
    }
}

/// A search that turns to Keepa, if one of its products is good enough.
pub open spec fn asking(s: SessionView) -> SessionView {
    let c = enrich::ranked(s.products, s.query.query);
    if enrich::worth_asking(c) {
        SessionView { phase: PhaseView::Comparison(c), ..s }
    } else {
        ended(s)
    }
}

/// The products whose pages are opened for a search in a store.
pub open spec fn to_open(s: SessionView, store: ProviderId) -> Seq<int> {
    enrich::targets(s.products, s.query.query, store, s.products.len() as int)
}

/// A search that turns to the pages of the Brazilian Amazon and of AliExpress, if there
/// are any to open.
pub open spec fn looking_closer(s: SessionView) -> SessionView {
    let br = to_open(s, ProviderId::Amazon);
    let ali = to_open(s, ProviderId::AliExpress);
    if br.len() > 0 || ali.len() > 0 {
        SessionView { phase: PhaseView::Pages { br, ali }, ..s }
    } else {
        asking(s)
    }
}

/// A search that turns to the pages of the American Amazon, if there are any to open.
pub open spec fn looking_abroad(s: SessionView) -> SessionView {
    let us = to_open(s, ProviderId::AmazonUS);
    if us.len() > 0 {
        SessionView { phase: PhaseView::UsPages(us), ..s }
    } else {
        looking_closer(s)
    }
}

/// A search of what the stores answered. Single pages and Keepa are only turned to with
/// a browser.
pub open spec fn begun(g: GatheredView, query: models::QueryView, rate: Decimal, browser: bool) -> SessionView {
    let s = SessionView {
        query,
        rate,
        products: g.products,
        errors: g.errors,
        phase: PhaseView::Done,
    };
    if browser {
        looking_abroad(s)
    } else {
        ended(s)
    }
}

/// A search after the pages of the American Amazon were read.
pub open spec fn seen_abroad(
    s: SessionView,
    targets: Seq<int>,
    replies: Seq<Option<cdp::DetailsView>>,
) -> SessionView {
    match enrich::after_us_details(s.products, matched_replies(targets, replies), s.rate) {
        Some(products) => looking_closer(SessionView { products, ..s }),
        None => failed(s),
    }
}

/// A search after the pages of the Brazilian Amazon and of AliExpress were read.
pub open spec fn seen_closer(
    s: SessionView,
    br: Seq<int>,
    ali: Seq<int>,
    prices: Seq<Option<Decimal>>,
    taxes: Seq<Option<Decimal>>,
) -> SessionView {
    let told = matched_replies(br, prices);
    let repriced = enrich::all_repriced(s.products, told, told.len() as int);
    match enrich::after_taxes(repriced, matched_replies(ali, taxes)) {
        Some(products) => asking(SessionView { products, ..s }),
        None => failed(s),
    }
}

/// A search after something came in that it waits for. Anything else changes nothing.
pub open spec fn after_event(s: SessionView, e: EventView) -> SessionView {
    match (s.phase, e) {
        (PhaseView::UsPages(targets), EventView::UsDetails(replies)) => seen_abroad(
            s,
            targets,
            replies,
        ),
        (PhaseView::Pages { br, ali }, EventView::Details { prices, taxes }) => seen_closer(
            s,
            br,
            ali,
            prices,
            taxes,
        ),
        (PhaseView::Comparison(c), EventView::Insights(insights)) => if insights.len() > 1 {
            informed(s, insights, c[0].asin, c[0].asin)
        } else {
            match enrich::us_fallback(c, 0) {
                Some(other) => SessionView {
                    phase: PhaseView::Fallback { candidates: c, insights, other },
                    ..s
                },
                None => SessionView { phase: PhaseView::Single { candidates: c, insights }, ..s },
            }
        },
        (
            PhaseView::Fallback { candidates, insights, other },
            EventView::Insights(more),
        ) => if more.len() > insights.len() {
            informed(s, more, candidates[other].asin, candidates[0].asin)
        } else {
            informed(s, insights, candidates[0].asin, candidates[0].asin)
        },
        (PhaseView::Single { candidates, insights }, EventView::Insight(single)) => informed(
            s,
            enrich::with_single(insights, single),
            candidates[0].asin,
            candidates[0].asin,
        ),
        (PhaseView::Msrp { effective, best }, EventView::Page(page)) => match page {
            Some(d) => match d.msrp {
                Some(msrp) => ended(
                    SessionView {
                        products: enrich::all_with_msrp(s.products, msrp, effective, best),
                        ..s
                    },
                ),
                None => ended(s),
            },
            None => ended(s),
        },
        _ => s,
    }
}

impl SearchSession {
    fn fail(self) -> (r: SearchSession)
        ensures
            r@ == failed(self@),
    {
        let r = SearchSession { products: Vec::new(), phase: Phase::Failed, ..self };
        assert(r@.products =~= Seq::empty());
        r
    }

    fn end(self) -> (r: SearchSession)
        ensures
            r@ == ended(self@),
    {
        match search::finish_search(&self.products, &self.query, self.rate) {
            Some(products) => SearchSession { products, phase: Phase::Done, ..self },
            None => self.fail(),
        }
    }

    fn inform(self, insights: &Vec<KeepaInsight>, effective: String, best: String) -> (r:
        SearchSession)
        ensures
            r@ == informed(self@, keepa::insight_views(insights@), effective@, best@),
    {
        assert(keepa::insight_views(insights@).len() == insights@.len());
        if insights.len() == 0 {
            return self.end();
        }
        match enrich::find_msrp(insights, &self.products, self.query.query.as_str(), self.rate) {
            Some(msrp) => {
                let products = enrich::attach_insights(
                    &self.products,
                    insights,
                    msrp,
                    effective.as_str(),
                    best.as_str(),
                );
                let known = enrich::has_msrp(&products, effective.as_str(), best.as_str());
                if known {
                    let s = SearchSession { products, phase: Phase::Done, ..self };
                    s.end()
                } else {
                    SearchSession { products, phase: Phase::Msrp { effective, best }, ..self }
                }
            },
            None => self.fail(),
        }
    }

    fn ask(self) -> (r: SearchSession)
        ensures
            r@ == asking(self@),
    {
        let c = enrich::rank_candidates(&self.products, self.query.query.as_str());
        assert(enrich::candidate_views(c@).len() == c@.len());
        if enrich::has_target(&c) {
            SearchSession { phase: Phase::Comparison(c), ..self }
        } else {
            self.end()
        }
    }

    fn look_closer(self) -> (r: SearchSession)
        ensures
            r@ == looking_closer(self@),
    {
        let br = enrich::detail_targets(
            &self.products,
            self.query.query.as_str(),
            ProviderId::Amazon,
        );
        let ali = enrich::detail_targets(
            &self.products,
            self.query.query.as_str(),
            ProviderId::AliExpress,
        );
        assert(enrich::indices(br@).len() == br@.len());
        assert(enrich::indices(ali@).len() == ali@.len());
        assert(models::product_views(self.products@).len() == self.products@.len());
        if br.len() > 0 || ali.len() > 0 {
            SearchSession { phase: Phase::Pages { br, ali }, ..self }
        } else {
            self.ask()
        }
    }

    fn look_abroad(self) -> (r: SearchSession)
        ensures
            r@ == looking_abroad(self@),
    {
        let us = enrich::detail_targets(
            &self.products,
            self.query.query.as_str(),
            ProviderId::AmazonUS,
        );
        assert(enrich::indices(us@).len() == us@.len());
        assert(models::product_views(self.products@).len() == self.products@.len());
        if us.len() > 0 {
            SearchSession { phase: Phase::UsPages(us), ..self }
        } else {
            self.look_closer()
        }
    }

    /// A search of what the stores answered, at a price of a dollar in reais, with or
    /// without a browser.
    pub fn begin(gathered: Gathered, query: SearchQuery, rate: Decimal, browser: bool) -> (r:
        SearchSession)
        ensures
            r@ == begun(gathered@, query@, rate, browser),
    {
        let s = SearchSession {
            query,
            rate,
            products: gathered.products,
            errors: gathered.errors,
            phase: Phase::Done,
        };
        if browser {
            s.look_abroad()
        } else {
            s.end()
        }
    }
}

// ---- What to fetch next ----

/// What is to be fetched for a search: the pages of single products, each by its address;
/// the prices of a product on the Amazon sites, from one of them on, or on one of them
/// alone; or one more page.
pub enum Request {
    UsPages(Vec<String>),
    Pages { br: Vec<String>, ali: Vec<String> },
    Comparison { asin: String, domain: u8 },
    Single { asin: String, domain: u8 },
    Page(String),
    Nothing,
}

/// What is to be fetched for a search.
pub enum RequestView {
    UsPages(Seq<Seq<char>>),
    Pages { br: Seq<Seq<char>>, ali: Seq<Seq<char>> },
    Comparison { asin: Seq<char>, domain: u8 },
    Single { asin: Seq<char>, domain: u8 },
    Page(Seq<char>),
    Nothing,
}

impl View for Request {
    type V = RequestView;

    open spec fn view(&self) -> RequestView {
        match *self {
            Request::UsPages(v) => RequestView::UsPages(text::texts(v@)),
            Request::Pages { br, ali } => RequestView::Pages {
                br: text::texts(br@),
                ali: text::texts(ali@),
            },
            Request::Comparison { asin, domain } => RequestView::Comparison { asin: asin@, domain },
            Request::Single { asin, domain } => RequestView::Single { asin: asin@, domain },
            Request::Page(url) => RequestView::Page(url@),
            Request::Nothing => RequestView::Nothing,
        }
    }
}

/// The seconds after which what is to be fetched is given up, where it is.
pub open spec fn limit_of(r: RequestView) -> Option<u64> {
    match r {
        RequestView::Comparison { .. } => Some(35u64),
        RequestView::Single { .. } => Some(20u64),
        _ => None,
    }
}

impl Request {
    /// The seconds after which what is to be fetched is given up, where it is.
    pub fn limit_seconds(&self) -> (r: Option<u64>)
        ensures
            r == limit_of(self@),
    {
        match self {
            Request::Comparison { .. } => Some(35),
            Request::Single { .. } => Some(20),
            _ => None,
        }
    }
}

/// The addresses of the products at some indices.
pub open spec fn addresses(v: Seq<models::ProductView>, targets: Seq<int>) -> Seq<Seq<char>> {
    Seq::new(targets.len(), |i: int| v[targets[i]].url)
}

/// What is to be fetched for a search at its stage.
pub open spec fn request_of(s: SessionView) -> RequestView {
    match s.phase {
        PhaseView::UsPages(v) => RequestView::UsPages(addresses(s.products, v)),
        PhaseView::Pages { br, ali } => RequestView::Pages {
            br: addresses(s.products, br),
            ali: addresses(s.products, ali),
        },
        PhaseView::Comparison(c) => RequestView::Comparison {
            asin: c[0].asin,
            domain: c[0].domain,
        },
        PhaseView::Fallback { candidates, insights, other } => RequestView::Comparison {
            asin: candidates[other].asin,
            domain: keepa::DOMAIN_US,
        },
        PhaseView::Single { candidates, insights } => RequestView::Single {
            asin: candidates[0].asin,
            domain: keepa::DOMAIN_US,
        },
        PhaseView::Msrp { effective, best } => RequestView::Page(
            "https://www.amazon.com/dp/"@ + effective,
        ),
        PhaseView::Done => RequestView::Nothing,
        PhaseView::Failed => RequestView::Nothing,
    }
}

fn find_addresses(products: &Vec<Product>, targets: &Vec<usize>) -> (r: Vec<String>)
    requires
        within(targets@, products@.len()),
    ensures
        text::texts(r@) == addresses(
            models::product_views(products@),
            enrich::indices(targets@),
        ),
{
    let ghost goal = addresses(models::product_views(products@), enrich::indices(targets@));
    let mut out: Vec<String> = Vec::new();
    let mut i: usize = 0;
    while i < targets.len()
        invariant
            i <= targets@.len(),
            within(targets@, products@.len()),
            goal == addresses(models::product_views(products@), enrich::indices(targets@)),
            text::texts(out@) == goal.take(i as int),
        decreases targets@.len() - i,
    {
        assert(targets@[i as int] < products@.len());
        let ghost so_far = out@;
        let at: usize = targets[i];
        let url = products[at].url.clone();
        out.push(url);
        proof {
            assert(goal[i as int] == url@);
            assert(text::texts(out@) =~= text::texts(so_far).push(url@));
            assert(goal.take(i + 1) =~= goal.take(i as int).push(goal[i as int]));
        }
        i = i + 1;
    }
    assert(goal.take(i as int) =~= goal);
    out
}

impl SearchSession {
    /// What is to be fetched next.
    pub fn next_request(&self) -> (r: Request)
        ensures
            r@ == request_of(self@),
    {
        proof {
            use_type_invariant(self);
        }
        match &self.phase {
            Phase::UsPages(v) => Request::UsPages(find_addresses(&self.products, v)),
            Phase::Pages { br, ali } => Request::Pages {
                br: find_addresses(&self.products, br),
                ali: find_addresses(&self.products, ali),
            },
            Phase::Comparison(c) => {
                assert(enrich::candidate_views(c@)[0] == c@[0]@);
                Request::Comparison { asin: c[0].asin.clone(), domain: c[0].domain }
            },
            Phase::Fallback { candidates, insights, other } => {
                assert(enrich::candidate_views(candidates@)[*other as int]
                    == candidates@[*other as int]@);
                Request::Comparison {
                    asin: candidates[*other].asin.clone(),
                    domain: keepa::DOMAIN_US,
                }
            },
            Phase::Single { candidates, insights } => {
                assert(enrich::candidate_views(candidates@)[0] == candidates@[0]@);
                Request::Single { asin: candidates[0].asin.clone(), domain: keepa::DOMAIN_US }
            },
            Phase::Msrp { effective, best } => Request::Page(
                cdp::us_product_url(effective.as_str()),
            ),
            Phase::Done => Request::Nothing,
            Phase::Failed => Request::Nothing,
        }
    }

    fn on_us_details(self, targets: &Vec<usize>, replies: &Vec<Option<AmazonUsDetails>>) -> (r:
        SearchSession)
        requires
            within(targets@, self@.products.len()),
        ensures
            r@ == seen_abroad(self@, enrich::indices(targets@), page_details(replies@)),
    {
        assert(models::product_views(self.products@).len() == self.products@.len());
        let told = match_details(targets, replies, self.products.len());
        let SearchSession { query, rate, products, errors, phase } = self;
        match enrich::apply_us_details(products, &told, rate) {
            Some(products) => {
                let s = SearchSession { query, rate, products, errors, phase: Phase::Done };
                s.look_closer()
            },
            None => {
                let products: Vec<Product> = Vec::new();
                let s = SearchSession { query, rate, products, errors, phase: Phase::Done };
                s.fail()
            },
        }
    }

    fn on_details(
        self,
        br: &Vec<usize>,
        ali: &Vec<usize>,
        prices: &Vec<Option<Decimal>>,
        taxes: &Vec<Option<Decimal>>,
    ) -> (r: SearchSession)
        requires
            within(br@, self@.products.len()),
            within(ali@, self@.products.len()),
        ensures
            r@ == seen_closer(
                self@,
                enrich::indices(br@),
                enrich::indices(ali@),
                prices@,
                taxes@,
            ),
    {
        assert(models::product_views(self.products@).len() == self.products@.len());
        let told = match_amounts(br, prices, self.products.len());
        let paid = match_amounts(ali, taxes, self.products.len());
        let SearchSession { query, rate, products, errors, phase } = self;
        let repriced = enrich::apply_br_prices(products, &told);
        match enrich::apply_ali_taxes(repriced, &paid) {
            Some(products) => {
                let s = SearchSession { query, rate, products, errors, phase: Phase::Done };
                s.ask()
            },
            None => {
                let products: Vec<Product> = Vec::new();
                let s = SearchSession { query, rate, products, errors, phase: Phase::Done };
                s.fail()
            },
        }
    }

    /// A search after something came in. What it does not wait for changes nothing.
    pub fn receive(self, event: Event) -> (r: SearchSession)
        ensures
            r@ == after_event(self@, event@),
    {
        proof {
            use_type_invariant(&self);
        }
        assert(models::product_views(self.products@).len() == self.products@.len());
        let SearchSession { query, rate, products, errors, phase } = self;
        match (phase, event) {
            (Phase::UsPages(targets), Event::UsDetails(replies)) => {
                let s = SearchSession { query, rate, products, errors, phase: Phase::Done };
                s.on_us_details(&targets, &replies)
            },
            (Phase::Pages { br, ali }, Event::Details { prices, taxes }) => {
                let s = SearchSession { query, rate, products, errors, phase: Phase::Done };
                s.on_details(&br, &ali, &prices, &taxes)
            },
            (Phase::Comparison(candidates), Event::Insights(insights)) => {
                assert(keepa::insight_views(insights@).len() == insights@.len());
                assert(enrich::candidate_views(candidates@)[0] == candidates@[0]@);
                match enrich::next_fetch(&candidates, insights.len()) {
                    NextFetch::Enough => {
                        let best = candidates[0].asin.clone();
                        let effective = best.clone();
                        let s = SearchSession { query, rate, products, errors, phase: Phase::Done };
                        s.inform(&insights, effective, best)
                    },
                    NextFetch::Compare(other) => {
                        let phase = Phase::Fallback { candidates, insights, other };
                        SearchSession { query, rate, products, errors, phase }
                    },
                    NextFetch::Single => {
                        let phase = Phase::Single { candidates, insights };
                        SearchSession { query, rate, products, errors, phase }
                    },
                }
            },
            (Phase::Fallback { candidates, insights, other }, Event::Insights(more)) => {
                assert(keepa::insight_views(insights@).len() == insights@.len());
                assert(keepa::insight_views(more@).len() == more@.len());
                assert(enrich::candidate_views(candidates@)[0] == candidates@[0]@);
                assert(enrich::candidate_views(candidates@)[other as int]
                    == candidates@[other as int]@);
                let (taken, fuller) = enrich::fuller_insights(insights, more);
                let best = candidates[0].asin.clone();
                let effective = if taken {
                    candidates[other].asin.clone()
                } else {
                    best.clone()
                };
                let s = SearchSession { query, rate, products, errors, phase: Phase::Done };
                s.inform(&fuller, effective, best)
            },
            (Phase::Single { candidates, insights }, Event::Insight(single)) => {
                assert(enrich::candidate_views(candidates@)[0] == candidates@[0]@);
                let combined = enrich::add_single(insights, single);
                let best = candidates[0].asin.clone();
                let effective = best.clone();
                let s = SearchSession { query, rate, products, errors, phase: Phase::Done };
                s.inform(&combined, effective, best)
            },
            (Phase::Msrp { effective, best }, Event::Page(page)) => {
                let msrp = match page {
                    Some(d) => d.msrp,
                    None => None,
                };
                let products = match msrp {
                    Some(m) => enrich::set_msrp(&products, m, effective.as_str(), best.as_str()),
                    None => products,
                };
                let s = SearchSession { query, rate, products, errors, phase: Phase::Done };
                s.end()
            },
            (phase, _) => SearchSession { query, rate, products, errors, phase },
        }
    }
}

// ---- The end ----

impl SearchSession {
    /// What a search found in a time, in nanoseconds, once it is at its end.
    pub fn into_results(self, query_time: u64) -> (r: Option<SearchResults>)
        ensures
            r is Some <==> self@.phase is Done,
            r is Some ==> models::product_views(r->0.products@) == self@.products
                && error::failures(r->0.errors@) == self@.errors && r->0.query_time
                == query_time,
    {
        match self.phase {
            Phase::Done => Some(
                SearchResults { products: self.products, errors: self.errors, query_time },
            ),
            _ => None,
        }
    }
}

/// Whether a search of so many stores failed as a whole: it found nothing, and every
/// store failed.
pub open spec fn all_failed(products: nat, errors: nat, stores: nat) -> bool {
    products == 0 && errors > 0 && errors >= stores
}

/// What a search of so many stores found, or the error where it found nothing and every
/// store failed.
pub fn search_outcome(results: SearchResults, stores: usize) -> (r: Result<
    SearchResults,
    PechinchaError,
>)
    ensures
        match r {
            Ok(v) => v == results && !all_failed(
                results.products@.len(),
                results.errors@.len(),
                stores as nat,
            ),
            Err(e) => all_failed(
                results.products@.len(),
                results.errors@.len(),
                stores as nat,
            ) && e@ == error::PechinchaErrorView::AllProvidersFailed(
                error::failures(results.errors@),
            ),
        },
{
    if results.products.len() == 0 && results.errors.len() > 0 && results.errors.len() >= stores {
        Err(PechinchaError::AllProvidersFailed(results.errors))
    } else {
        Ok(results)
    }
}

// ---- What holds of every search ----

/// How many things a search waits for at most.
pub open spec fn steps_left(p: PhaseView) -> nat {
    match p {
        PhaseView::UsPages(_) => 5,
        PhaseView::Pages { br, ali } => 4,
        PhaseView::Comparison(_) => 3,
        PhaseView::Fallback { candidates, insights, other } => 2,
        PhaseView::Single { candidates, insights } => 2,
        PhaseView::Msrp { effective, best } => 1,
        PhaseView::Done => 0,
        PhaseView::Failed => 0,
    }
}

/// Whether something that came in is what a search waits for.
pub open spec fn awaited(p: PhaseView, e: EventView) -> bool {
    match p {
        PhaseView::UsPages(_) => e is UsDetails,
        PhaseView::Pages { br, ali } => e is Details,
        PhaseView::Comparison(_) => e is Insights,
        PhaseView::Fallback { candidates, insights, other } => e is Insights,
        PhaseView::Single { candidates, insights } => e is Insight,
        PhaseView::Msrp { effective, best } => e is Page,
        PhaseView::Done => false,
        PhaseView::Failed => false,
    }
}

proof fn lemma_steps(
    s: SessionView,
    insights: Seq<keepa::KeepaView>,
    effective: Seq<char>,
    best: Seq<char>,
)
    ensures
        steps_left(ended(s).phase) == 0,
        steps_left(informed(s, insights, effective, best).phase) <= 1,
        steps_left(asking(s).phase) <= 3,
        steps_left(looking_closer(s).phase) <= 4,
        steps_left(looking_abroad(s).phase) <= 5,
{
}

/// A search begins with at most five things to wait for.
pub proof fn every_search_begins(
    g: GatheredView,
    q: models::QueryView,
    rate: Decimal,
    browser: bool,
)
    ensures
        steps_left(begun(g, q, rate, browser).phase) <= 5,
{
    let s = SessionView {
        query: q,
        rate,
        products: g.products,
        errors: g.errors,
        phase: PhaseView::Done,
    };
    lemma_steps(s, Seq::empty(), Seq::empty(), Seq::empty());
}

/// A search comes to its end: each thing that it waits for leaves it with fewer to wait
/// for, and anything else changes nothing.
pub proof fn every_search_ends(s: SessionView, e: EventView)
    ensures
        awaited(s.phase, e) ==> steps_left(after_event(s, e).phase) < steps_left(s.phase),
        !awaited(s.phase, e) ==> after_event(s, e) == s,
{
    match (s.phase, e) {
        (PhaseView::UsPages(targets), EventView::UsDetails(replies)) => {
            match enrich::after_us_details(s.products, matched_replies(targets, replies), s.rate) {
                Some(products) => {
                    lemma_steps(
                        SessionView { products, ..s },
                        Seq::empty(),
                        Seq::empty(),
                        Seq::empty(),
                    );
                },
                None => {},
            }
        },
        (PhaseView::Pages { br, ali }, EventView::Details { prices, taxes }) => {
            let told = matched_replies(br, prices);
            let repriced = enrich::all_repriced(s.products, told, told.len() as int);
            match enrich::after_taxes(repriced, matched_replies(ali, taxes)) {
                Some(products) => {
                    lemma_steps(
                        SessionView { products, ..s },
                        Seq::empty(),
                        Seq::empty(),
                        Seq::empty(),
                    );
                },
                None => {},
            }
        },
        (PhaseView::Comparison(c), EventView::Insights(insights)) => {
            lemma_steps(s, insights, c[0].asin, c[0].asin);
        },
        (PhaseView::Fallback { candidates, insights, other }, EventView::Insights(more)) => {
            lemma_steps(s, more, candidates[other].asin, candidates[0].asin);
            lemma_steps(s, insights, candidates[0].asin, candidates[0].asin);
        },
        (PhaseView::Single { candidates, insights }, EventView::Insight(single)) => {
            lemma_steps(
                s,
                enrich::with_single(insights, single),
                candidates[0].asin,
                candidates[0].asin,
            );
        },
        (PhaseView::Msrp { effective, best }, EventView::Page(page)) => {
            lemma_steps(s, Seq::empty(), effective, best);
            match page {
                Some(d) => match d.msrp {
                    Some(msrp) => {
                        lemma_steps(
                            SessionView {
                                products: enrich::all_with_msrp(s.products, msrp, effective, best),
                                ..s
                            },
                            Seq::empty(),
                            effective,
                            best,
                        );
                    },
                    None => {},
                },
                None => {},
            }
        },
        _ => {},
    }
}

/// Whether a search that is at its end has a list that was made of offers.
pub open spec fn listed(s: SessionView) -> bool {
    s.phase is Done ==> exists|v: Seq<models::ProductView>| #[trigger]
        search::finished(v, s.query, s.rate) == Some(s.products)
}

proof fn lemma_ended_is_listed(s: SessionView)
    ensures
        listed(ended(s)),
{
    if search::finished(s.products, s.query, s.rate) is Some {
        assert(search::finished(s.products, s.query, s.rate) == Some(ended(s).products));
    }
}

proof fn lemma_asking_is_listed(s: SessionView)
    ensures
        listed(asking(s)),
        listed(looking_closer(s)),
        listed(looking_abroad(s)),
{
    lemma_ended_is_listed(s);
}

proof fn lemma_informed_is_listed(
    s: SessionView,
    insights: Seq<keepa::KeepaView>,
    effective: Seq<char>,
    best: Seq<char>,
)
    ensures
        listed(informed(s, insights, effective, best)),
{
    lemma_ended_is_listed(s);
    match enrich::msrp_of(insights, s.products, s.query.query, s.rate) {
        Some(msrp) => {
            let products = enrich::all_enriched(s.products, insights, msrp, effective, best);
            lemma_ended_is_listed(SessionView { products, ..s });
        },
        None => {},
    }
}

/// What a search has at its end is a list that was made of offers, whatever came in on
/// the way, so that all that holds of such lists holds of it.
pub proof fn every_end_is_a_list(
    g: GatheredView,
    q: models::QueryView,
    rate: Decimal,
    browser: bool,
    s: SessionView,
    e: EventView,
)
    requires
        listed(s),
    ensures
        listed(begun(g, q, rate, browser)),
        listed(after_event(s, e)),
{
    let start = SessionView {
        query: q,
        rate,
        products: g.products,
        errors: g.errors,
        phase: PhaseView::Done,
    };
    lemma_ended_is_listed(start);
    lemma_asking_is_listed(start);
    match (s.phase, e) {
        (PhaseView::UsPages(targets), EventView::UsDetails(replies)) => {
            match enrich::after_us_details(s.products, matched_replies(targets, replies), s.rate) {
                Some(products) => {
                    lemma_asking_is_listed(SessionView { products, ..s });
                },
                None => {},
            }
        },
        (PhaseView::Pages { br, ali }, EventView::Details { prices, taxes }) => {
            let told = matched_replies(br, prices);
            let repriced = enrich::all_repriced(s.products, told, told.len() as int);
            match enrich::after_taxes(repriced, matched_replies(ali, taxes)) {
                Some(products) => {
                    lemma_asking_is_listed(SessionView { products, ..s });
                },
                None => {},
            }
        },
        (PhaseView::Comparison(c), EventView::Insights(insights)) => {
            lemma_informed_is_listed(s, insights, c[0].asin, c[0].asin);
        },
        (PhaseView::Fallback { candidates, insights, other }, EventView::Insights(more)) => {
            lemma_informed_is_listed(s, more, candidates[other].asin, candidates[0].asin);
            lemma_informed_is_listed(s, insights, candidates[0].asin, candidates[0].asin);
        },
        (PhaseView::Single { candidates, insights }, EventView::Insight(single)) => {
            lemma_informed_is_listed(
                s,
                enrich::with_single(insights, single),
                candidates[0].asin,
                candidates[0].asin,
            );
        },
        (PhaseView::Msrp { effective, best }, EventView::Page(page)) => {
            lemma_ended_is_listed(s);
            match page {
                Some(d) => match d.msrp {
                    Some(msrp) => {
                        lemma_ended_is_listed(
                            SessionView {
                                products: enrich::all_with_msrp(s.products, msrp, effective, best),
                                ..s
                            },
                        );
                    },
                    None => {},
                },
                None => {},
            }
        },
        _ => {},
    }
}

/// What is searched for, the price of a dollar and the stores that failed stay as they
/// are, whatever comes in.
pub proof fn searches_keep_their_terms(s: SessionView, e: EventView)
    ensures
        after_event(s, e).query == s.query,
        after_event(s, e).rate == s.rate,
        after_event(s, e).errors == s.errors,
{
}

/// Whether some indices are of so many products.
pub open spec fn in_range(v: Seq<int>, size: nat) -> bool {
    forall|i: int| 0 <= i < v.len() ==> 0 <= #[trigger] v[i] < size
}

/// Whether a search waits only for pages of products that it has.
pub open spec fn waits_soundly(s: SessionView) -> bool {
    match s.phase {
        PhaseView::UsPages(v) => in_range(v, s.products.len()),
        PhaseView::Pages { br, ali } => in_range(br, s.products.len()) && in_range(
            ali,
            s.products.len(),
        ),
        _ => true,
    }
}

proof fn lemma_targets_in_range(
    v: Seq<models::ProductView>,
    query: Seq<char>,
    store: ProviderId,
    k: int,
)
    requires
        k <= v.len(),
    ensures
        in_range(enrich::targets(v, query, store, k), v.len()),
    decreases k,
{
    if k > 0 {
        lemma_targets_in_range(v, query, store, k - 1);
    }
}

proof fn lemma_paired_about<T>(targets: Seq<int>, replies: Seq<Option<T>>, k: int, size: nat)
    requires
        0 <= k <= targets.len(),
        k <= replies.len(),
        in_range(targets, size),
    ensures
        enrich::about(paired(targets, replies, k), size),
    decreases k,
{
    if k > 0 {
        lemma_paired_about(targets, replies, k - 1, size);
        assert(0 <= targets[k - 1] < size);
    }
}

proof fn lemma_matched_about<T>(targets: Seq<int>, replies: Seq<Option<T>>, size: nat)
    requires
        in_range(targets, size),
    ensures
        enrich::about(matched_replies(targets, replies), size),
{
    let k = if targets.len() <= replies.len() {
        targets.len() as int
    } else {
        replies.len() as int
    };
    lemma_paired_about(targets, replies, k, size);
}

proof fn lemma_same_offered(v: Seq<models::ProductView>, w: Seq<models::ProductView>)
    requires
        enrich::same_offers(v, w),
    ensures
        search::all_offered(v, w),
{
    assert forall|i: int| 0 <= i < v.len() implies search::offered(#[trigger] v[i], w) by {
        assert(search::same_offer(v[i], w[i]));
    }
}

proof fn lemma_ended_offers(s: SessionView)
    ensures
        search::all_offered(ended(s).products, s.products),
{
    search::results_are_offers(s.products, s.query, s.rate);
}

proof fn lemma_asking_offers(s: SessionView)
    ensures
        search::all_offered(asking(s).products, s.products),
        search::all_offered(looking_closer(s).products, s.products),
        search::all_offered(looking_abroad(s).products, s.products),
        waits_soundly(asking(s)),
        waits_soundly(looking_closer(s)),
        waits_soundly(looking_abroad(s)),
{
    lemma_ended_offers(s);
    lemma_same_offered(s.products, s.products);
    let k = s.products.len() as int;
    lemma_targets_in_range(s.products, s.query.query, ProviderId::AmazonUS, k);
    lemma_targets_in_range(s.products, s.query.query, ProviderId::Amazon, k);
    lemma_targets_in_range(s.products, s.query.query, ProviderId::AliExpress, k);
}

proof fn lemma_informed_offers(
    s: SessionView,
    insights: Seq<keepa::KeepaView>,
    effective: Seq<char>,
    best: Seq<char>,
)
    ensures
        search::all_offered(informed(s, insights, effective, best).products, s.products),
        waits_soundly(informed(s, insights, effective, best)),
{
    lemma_ended_offers(s);
    match enrich::msrp_of(insights, s.products, s.query.query, s.rate) {
        Some(msrp) => {
            let products = enrich::all_enriched(s.products, insights, msrp, effective, best);
            let t = SessionView { products, ..s };
            lemma_same_offered(products, s.products);
            lemma_ended_offers(t);
            search::lemma_offered_again(ended(t).products, products, s.products);
        },
        None => {},
    }
}

/// What a search has is always among what the stores offered: it begins with their offers,
/// and whatever comes in adds none. It waits only for pages of products that it has.
pub proof fn searches_keep_to_their_offers(
    g: GatheredView,
    q: models::QueryView,
    rate: Decimal,
    browser: bool,
    s: SessionView,
    e: EventView,
)
    requires
        waits_soundly(s),
    ensures
        search::all_offered(begun(g, q, rate, browser).products, g.products),
        waits_soundly(begun(g, q, rate, browser)),
        search::all_offered(after_event(s, e).products, s.products),
        waits_soundly(after_event(s, e)),
{
    let start = SessionView {
        query: q,
        rate,
        products: g.products,
        errors: g.errors,
        phase: PhaseView::Done,
    };
    lemma_ended_offers(start);
    lemma_asking_offers(start);
    lemma_same_offered(s.products, s.products);
    match (s.phase, e) {
        (PhaseView::UsPages(targets), EventView::UsDetails(replies)) => {
            let told = matched_replies(targets, replies);
            lemma_matched_about(targets, replies, s.products.len());
            enrich::us_details_keep_offers(s.products, told, s.rate);
            match enrich::after_us_details(s.products, told, s.rate) {
                Some(products) => {
                    let t = SessionView { products, ..s };
                    lemma_asking_offers(t);
                    search::lemma_offered_again(looking_closer(t).products, products, s.products);
                },
                None => {},
            }
        },
        (PhaseView::Pages { br, ali }, EventView::Details { prices, taxes }) => {
            let told = matched_replies(br, prices);
            let paid = matched_replies(ali, taxes);
            lemma_matched_about(br, prices, s.products.len());
            lemma_matched_about(ali, taxes, s.products.len());
            enrich::prices_keep_offers(s.products, told, told.len() as int);
            let repriced = enrich::all_repriced(s.products, told, told.len() as int);
            enrich::taxes_keep_offers(repriced, paid);
            match enrich::after_taxes(repriced, paid) {
                Some(products) => {
                    let t = SessionView { products, ..s };
                    lemma_same_offered(repriced, s.products);
                    lemma_same_offered(products, repriced);
                    search::lemma_offered_again(products, repriced, s.products);
                    lemma_asking_offers(t);
                    search::lemma_offered_again(asking(t).products, products, s.products);
                },
                None => {},
            }
        },
        (PhaseView::Comparison(c), EventView::Insights(insights)) => {
            lemma_informed_offers(s, insights, c[0].asin, c[0].asin);
        },
        (PhaseView::Fallback { candidates, insights, other }, EventView::Insights(more)) => {
            lemma_informed_offers(s, more, candidates[other].asin, candidates[0].asin);
            lemma_informed_offers(s, insights, candidates[0].asin, candidates[0].asin);
        },
        (PhaseView::Single { candidates, insights }, EventView::Insight(single)) => {
            lemma_informed_offers(
                s,
                enrich::with_single(insights, single),
                candidates[0].asin,
                candidates[0].asin,
            );
        },
        (PhaseView::Msrp { effective, best }, EventView::Page(page)) => {
            lemma_ended_offers(s);
            if page is Some && page->0.msrp is Some {
                let products = enrich::all_with_msrp(
                    s.products,
                    page->0.msrp->0,
                    effective,
                    best,
                );
                let t = SessionView { products, ..s };
                lemma_same_offered(products, s.products);
                lemma_ended_offers(t);
                search::lemma_offered_again(ended(t).products, products, s.products);
            }
        },
        _ => {},
    }
}

/// Whether every one of some products is of one of some stores.
pub open spec fn from_stores(v: Seq<models::ProductView>, stores: Seq<ProviderId>) -> bool {
    forall|i: int| 0 <= i < v.len() ==> stores.contains((#[trigger] v[i]).provider)
}

/// What is gathered of pages is of the stores that are searched, whatever pages came.
pub proof fn pages_are_of_searched_stores(
    stores: Seq<ProviderId>,
    pages: Seq<(ProviderId, Result<String, ProviderError>)>,
    max_results: nat,
    at: int,
    k: int,
)
    ensures
        from_stores(gathered_pages(stores, pages, max_results, at, k).products, stores),
    decreases k,
{
    if k > 0 {
        pages_are_of_searched_stores(stores, pages, max_results, at, k - 1);
        let id = pages[k - 1].0;
        match fetched(pages[k - 1].1) {
            Ok(page) => {
                scraping::offers_are_of_their_store(id, page, max_results, at);
                let before = gathered_pages(stores, pages, max_results, at, k - 1).products;
                let after = gathered_pages(stores, pages, max_results, at, k).products;
                assert forall|i: int| 0 <= i < after.len() implies stores.contains(
                    (#[trigger] after[i]).provider,
                ) by {
                    if i < before.len() {
                        assert(after[i] == before[i]);
                    } else {
                        let v = scraping::page_offers(id, page, max_results, at)->Ok_0;
                        assert(after[i] == v[i - before.len()]);
                    }
                }
            },
            Err(_) => {},
        }
    }
}

/// A search that has only offers of some stores never comes to have others.
pub proof fn searches_stay_with_their_stores(
    s: SessionView,
    e: EventView,
    stores: Seq<ProviderId>,
)
    requires
        waits_soundly(s),
        from_stores(s.products, stores),
    ensures
        from_stores(after_event(s, e).products, stores),
{
    let g = GatheredView { products: s.products, errors: s.errors };
    searches_keep_to_their_offers(g, s.query, s.rate, false, s, e);
    let r = after_event(s, e).products;
    assert forall|i: int| 0 <= i < r.len() implies stores.contains(
        (#[trigger] r[i]).provider,
    ) by {
        assert(search::offered(r[i], s.products));
        let j = choose|j: int|
            0 <= j < s.products.len() && search::same_offer(r[i], #[trigger] s.products[j]);
        assert(stores.contains(s.products[j].provider));
    }
}

/// The page of a store is asked for at the address of its results.
pub proof fn pages_are_those_of_results(stores: Seq<ProviderId>, query: Seq<char>, i: int)
    requires
        0 <= i < stores.len(),
    ensures
        result_pages(stores, query).len() == stores.len(),
        result_pages(stores, query)[i] == (stores[i], cdp::results_url(stores[i], query)),
{
}

/// Every page counts: the offers on one of a store that is searched are gathered, and the
/// reason why one was not fetched or read is kept with its store.
pub proof fn every_page_counts(
    stores: Seq<ProviderId>,
    pages: Seq<(ProviderId, Result<String, ProviderError>)>,
    max_results: nat,
    at: int,
    k: int,
    i: int,
)
    requires
        0 <= i < k <= pages.len(),
    ensures
        ({
            let g = gathered_pages(stores, pages, max_results, at, k);
            let (id, page) = pages[i];
            match page {
                Ok(s) => stores.contains(id) ==> match scraping::page_offers(
                    id,
                    s@,
                    max_results,
                    at,
                ) {
                    Ok(v) => exists|from: int|
                        0 <= from && from + v.len() <= g.products.len() && #[trigger] g.products.subrange(
                            from,
                            from + v.len(),
                        ) == v,
                    Err(e) => g.errors.contains((id, e)),
                },
                Err(e) => g.errors.contains((id, e@)),
            }
        }),
    decreases k,
{
    let before = gathered_pages(stores, pages, max_results, at, k - 1);
    let g = gathered_pages(stores, pages, max_results, at, k);
    let (id, page) = pages[i];
    assert(before.products.is_prefix_of(g.products));
    assert(before.errors.is_prefix_of(g.errors));
    if i < k - 1 {
        every_page_counts(stores, pages, max_results, at, k - 1, i);
        match page {
            Ok(s) => {
                if stores.contains(id) {
                    match scraping::page_offers(id, s@, max_results, at) {
                        Ok(v) => {
                            let from = choose|from: int|
                                0 <= from && from + v.len() <= before.products.len()
                                    && #[trigger] before.products.subrange(from, from + v.len())
                                    == v;
                            assert(g.products.subrange(from, from + v.len())
                                =~= before.products.subrange(from, from + v.len()));
                        },
                        Err(e) => {
                            lemma_prefix_has(before.errors, g.errors, (id, e));
                        },
                    }
                }
            },
            Err(e) => {
                lemma_prefix_has(before.errors, g.errors, (id, e@));
            },
        }
    } else {
        match page {
            Ok(s) => {
                if stores.contains(id) {
                    match scraping::page_offers(id, s@, max_results, at) {
                        Ok(v) => {
                            let from = before.products.len() as int;
                            assert(g.products.subrange(from, from + v.len()) =~= v);
                        },
                        Err(e) => {
                            assert(g.errors[before.errors.len() as int] == (id, e));
                        },
                    }
                }
            },
            Err(e) => {
                assert(g.errors[before.errors.len() as int] == (id, e@));
            },
        }
    }
}

proof fn lemma_prefix_has<A>(a: Seq<A>, b: Seq<A>, x: A)
    requires
        a.is_prefix_of(b),
        a.contains(x),
    ensures
        b.contains(x),
{
    let i = choose|i: int| 0 <= i < a.len() && a[i] == x;
    assert(b.take(a.len() as int)[i] == a[i]);
    assert(b[i] == x);
}

/// Each reply goes to the product that it was asked for, and none is made up.
pub proof fn replies_go_where_they_were_asked<T>(
    targets: Seq<int>,
    replies: Seq<Option<T>>,
    at: usize,
    x: T,
)
    requires
        forall|i: int| 0 <= i < targets.len() ==> 0 <= #[trigger] targets[i] <= usize::MAX,
    ensures
        matched_replies(targets, replies).contains((at, x)) <==> exists|i: int|
            0 <= i < targets.len() && i < replies.len() && #[trigger] targets[i] == at && replies[i]
                == Some(x),
{
    let n = if targets.len() <= replies.len() {
        targets.len() as int
    } else {
        replies.len() as int
    };
    lemma_paired_has(targets, replies, n, at, x);
}

proof fn lemma_paired_has<T>(
    targets: Seq<int>,
    replies: Seq<Option<T>>,
    k: int,
    at: usize,
    x: T,
)
    requires
        0 <= k <= targets.len(),
        k <= replies.len(),
        forall|i: int| 0 <= i < targets.len() ==> 0 <= #[trigger] targets[i] <= usize::MAX,
    ensures
        paired(targets, replies, k).contains((at, x)) <==> exists|i: int|
            0 <= i < k && #[trigger] targets[i] == at && replies[i] == Some(x),
    decreases k,
{
    if k > 0 {
        lemma_paired_has(targets, replies, k - 1, at, x);
        let before = paired(targets, replies, k - 1);
        let after = paired(targets, replies, k);
        if before.contains((at, x)) {
            lemma_prefix_has(before, after, (at, x));
        }
        if after.len() > before.len() {
            assert(after[before.len() as int] == (targets[k - 1] as usize, replies[k - 1]->0));
        }
        if after.contains((at, x)) && !before.contains((at, x)) {
            let i = choose|i: int| 0 <= i < after.len() && after[i] == (at, x);
            if i < before.len() {
                assert(before[i] == (at, x));
            }
            assert(targets[k - 1] == at);
        }
    }
}

/// A search without a browser is over at once, with the list of what was gathered.
pub proof fn searches_without_a_browser_are_over(
    g: GatheredView,
    query: models::QueryView,
    rate: Decimal,
)
    ensures
        ({
            let s = begun(g, query, rate, false);
            &&& s.query == query
            &&& s.rate == rate
            &&& s.errors == g.errors
            &&& match search::finished(g.products, query, rate) {
                Some(v) => s.phase == PhaseView::Done && s.products == v,
                None => s.phase == PhaseView::Failed && s.products.len() == 0,
            }
        }),
{
}

/// A search with a browser first opens the pages of the American Amazon, then those of the
/// Brazilian one and of AliExpress, and then compares the best candidate, each where there
/// is any.
pub proof fn pages_are_opened_in_turn(g: GatheredView, query: models::QueryView, rate: Decimal)
    ensures
        ({
            let n = g.products.len() as int;
            let us = enrich::targets(g.products, query.query, ProviderId::AmazonUS, n);
            let br = enrich::targets(g.products, query.query, ProviderId::Amazon, n);
            let ali = enrich::targets(g.products, query.query, ProviderId::AliExpress, n);
            let c = enrich::ranked(g.products, query.query);
            let s = begun(g, query, rate, true);
            &&& us.len() > 0 ==> s.phase == PhaseView::UsPages(us)
            &&& us.len() == 0 && (br.len() > 0 || ali.len() > 0) ==> s.phase == (
            PhaseView::Pages { br, ali })
            &&& us.len() == 0 && br.len() == 0 && ali.len() == 0 && c.len() > 0 && 2 * c[0].score
                >= 1_000_000_000_000_000_000int ==> s.phase == PhaseView::Comparison(c)
            &&& us.len() == 0 && br.len() == 0 && ali.len() == 0 && (c.len() == 0 || 2 * c[0].score
                < 1_000_000_000_000_000_000int) ==> s.phase is Done || s.phase is Failed
        }),
{
}

/// What is fetched is what is waited for: the pages of the products at the indices, the best
/// candidate on its own site, the fallback and a single insight on the American one, and the
/// page of the product whose price is still not known.
pub proof fn requests_name_what_is_waited_for(s: SessionView, i: int)
    ensures
        match s.phase {
            PhaseView::UsPages(v) => request_of(s) is UsPages && (0 <= i < v.len()
                ==> request_of(s)->UsPages_0.len() == v.len() && request_of(s)->UsPages_0[i]
                == s.products[v[i]].url),
            PhaseView::Pages { br, ali } => request_of(s) is Pages && (0 <= i < br.len()
                ==> request_of(s)->br[i] == s.products[br[i]].url) && (0 <= i < ali.len()
                ==> request_of(s)->ali[i] == s.products[ali[i]].url) && request_of(s)->br.len()
                == br.len() && request_of(s)->ali.len() == ali.len(),
            PhaseView::Comparison(c) => request_of(s) == (RequestView::Comparison {
                asin: c[0].asin,
                domain: c[0].domain,
            }),
            PhaseView::Fallback { candidates, insights, other } => request_of(s) == (
            RequestView::Comparison { asin: candidates[other].asin, domain: 1 }),
            PhaseView::Single { candidates, insights } => request_of(s) == (RequestView::Single {
                asin: candidates[0].asin,
                domain: 1,
            }),
            PhaseView::Msrp { effective, best } => request_of(s) == RequestView::Page(
                "https://www.amazon.com/dp/"@ + effective,
            ),
            _ => request_of(s) is Nothing,
        },
        request_of(s) is Comparison ==> limit_of(request_of(s)) == Some(35u64),
        request_of(s) is Single ==> limit_of(request_of(s)) == Some(20u64),
        !(request_of(s) is Comparison) && !(request_of(s) is Single) ==> limit_of(
            request_of(s),
        ) is None,
{
}

/// A comparison of more than one site is taken for what it says of the best candidate; with
/// less, the first other candidate of the American site is compared, and where there is none,
/// a single insight is asked for.
pub proof fn comparisons_need_two_sites(
    s: SessionView,
    c: Seq<enrich::CandidateView>,
    insights: Seq<keepa::KeepaView>,
)
    requires
        s.phase == PhaseView::Comparison(c),
    ensures
        ({
            let r = after_event(s, EventView::Insights(insights));
            let other = enrich::us_fallback(c, 0);
            &&& insights.len() > 1 ==> r == informed(s, insights, c[0].asin, c[0].asin)
            &&& insights.len() <= 1 && other is Some ==> r.phase == (PhaseView::Fallback {
                candidates: c,
                insights,
                other: other->0,
            }) && r.products == s.products
            &&& insights.len() <= 1 && other is None ==> r.phase == (PhaseView::Single {
                candidates: c,
                insights,
            }) && r.products == s.products
        }),
{
}

/// Of two comparisons the one of more sites counts, for the product that it is of as well as
/// for the best candidate.
pub proof fn larger_comparisons_count(
    s: SessionView,
    candidates: Seq<enrich::CandidateView>,
    insights: Seq<keepa::KeepaView>,
    other: int,
    more: Seq<keepa::KeepaView>,
)
    requires
        s.phase == (PhaseView::Fallback { candidates, insights, other }),
    ensures
        ({
            let r = after_event(s, EventView::Insights(more));
            &&& more.len() > insights.len() ==> r == informed(
                s,
                more,
                candidates[other].asin,
                candidates[0].asin,
            )
            &&& more.len() <= insights.len() ==> r == informed(
                s,
                insights,
                candidates[0].asin,
                candidates[0].asin,
            )
        }),
{
}

/// Without insights a search is over with what it has; with them they go to the products with
/// either number, and the page of the first is asked for where what the manufacturer asks is
/// still not known.
pub proof fn insights_end_the_search(
    s: SessionView,
    insights: Seq<keepa::KeepaView>,
    effective: Seq<char>,
    best: Seq<char>,
)
    ensures
        ({
            let r = informed(s, insights, effective, best);
            let msrp = enrich::msrp_of(insights, s.products, s.query.query, s.rate);
            let p = enrich::all_enriched(s.products, insights, msrp->0, effective, best);
            let known = exists|i: int|
                0 <= i < p.len() && ((#[trigger] p[i]).platform_id == effective || p[i].platform_id
                    == best) && p[i].price.original_price is Some;
            &&& insights.len() == 0 ==> r == ended(s)
            &&& insights.len() > 0 && msrp is None ==> r.phase is Failed
            &&& insights.len() > 0 && msrp is Some && known ==> r == ended(
                SessionView { products: p, ..s },
            )
            &&& insights.len() > 0 && msrp is Some && !known ==> r.phase == (PhaseView::Msrp {
                effective,
                best,
            }) && r.products == p
        }),
{
}

/// A page that tells what the manufacturer asks gives it to the products with either number
/// before the search is over.
pub proof fn pages_tell_what_is_asked(
    s: SessionView,
    effective: Seq<char>,
    best: Seq<char>,
    page: Option<cdp::DetailsView>,
)
    requires
        s.phase == (PhaseView::Msrp { effective, best }),
    ensures
        ({
            let r = after_event(s, EventView::Page(page));
            if page is Some && page->0.msrp is Some {
                r == ended(
                    SessionView {
                        products: enrich::all_with_msrp(
                            s.products,
                            page->0.msrp->0,
                            effective,
                            best,
                        ),
                        ..s
                    },
                )
            } else {
                r == ended(s)
            }
        }),
{
}

/// All failed where there is no product and at least one error, and as many as stores.
pub proof fn failures_are_of_every_store(products: nat, errors: nat, stores: nat)
    ensures
        all_failed(products, errors, stores) <==> products == 0 && errors >= 1 && stores <= errors,
{
}

/// Answers are gathered in their order, with the offers or the reason of each.
pub proof fn every_answer_counts(
    answers: Seq<(ProviderId, Result<Vec<Product>, ProviderError>)>,
    k: int,
)
    requires
        0 < k <= answers.len(),
    ensures
        ({
            let before = gathered_answers(answers, k - 1);
            let g = gathered_answers(answers, k);
            match answers[k - 1].1 {
                Ok(v) => g.products == before.products + models::product_views(v@) && g.errors
                    == before.errors,
                Err(e) => g.products == before.products && g.errors == before.errors.push(
                    (answers[k - 1].0, e@),
                ),
            }
        }),
        gathered_answers(answers, 0).products.len() == 0,
        gathered_answers(answers, 0).errors.len() == 0,
{
}

} // verus!
