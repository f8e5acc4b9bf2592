//! Results that are kept for a while.

use vstd::prelude::*;

use crate::models;
use crate::models::{Product, SearchQuery, SortOrder};
use crate::order;
use crate::providers;
use crate::text;

verus! {

/// Where results are kept, and for how many seconds they count.
pub struct SearchCache {
    pub ttl: u64,
    pub cache_dir: String,
}

/// Results and the time at which they were found, in seconds since the start of 1970.
pub struct CacheEntry {
    pub created_at: u64,
    pub products: Vec<Product>,
}

/// Whether results still count: they were found at most so many seconds ago, and not
/// later than now. With none to count for, they never do.
pub open spec fn counts(created_at: int, now: int, ttl: int) -> bool {
    ttl > 0 && created_at <= now && now - created_at <= ttl
}

// ---- Which results a search can use ----

/// The name of an order.
pub open spec fn order_name(s: SortOrder) -> Seq<char> {
    match s {
        SortOrder::PriceAsc => "PriceAsc"@,
        SortOrder::PriceDesc => "PriceDesc"@,
        SortOrder::Rating => "Rating"@,
        SortOrder::Relevance => "Relevance"@,
        SortOrder::TotalCost => "TotalCost"@,
    }
}

fn show_order(s: SortOrder) -> (r: &'static str)
    ensures
        r@ == order_name(s),
{
    match s {
        SortOrder::PriceAsc => "PriceAsc",
        SortOrder::PriceDesc => "PriceDesc",
        SortOrder::Rating => "Rating",
        SortOrder::Relevance => "Relevance",
        SortOrder::TotalCost => "TotalCost",
    }
}

/// Whether a text may stand before another in the alphabet of characters.
pub open spec fn alphabetical(a: Seq<char>, b: Seq<char>) -> bool
    decreases a.len(),
{
    if a.len() == 0 {
        true
    } else if b.len() == 0 {
        false
    } else if a[0] != b[0] {
        a[0] < b[0]
    } else {
        alphabetical(a.skip(1), b.skip(1))
    }
}

/// The order of texts in the alphabet of characters.
pub open spec fn text_order() -> spec_fn(Seq<char>, Seq<char>) -> bool {
    |a: Seq<char>, b: Seq<char>| alphabetical(a, b)
}

/// The names of some stores.
pub open spec fn store_names(v: Seq<providers::ProviderId>) -> Seq<Seq<char>> {
    Seq::new(v.len(), |i: int| providers::provider_label(v[i]))
}

/// What results of a search are kept under: the text in lower case without spaces round
/// it, the order, and the names of the stores in alphabetical order.
pub open spec fn key_parts_of(q: models::QueryView) -> Seq<Seq<char>> {
    seq![text::trimmed(text::lowered(q.query)), order_name(q.sort)] + order::sorted(
        store_names(q.platforms),
        text_order(),
    )
}

fn is_alphabetical(a: &[char], b: &[char]) -> (r: bool)
    ensures
        r == alphabetical(a@, b@),
{
    let mut i: usize = 0;
    assert(a@.skip(0) =~= a@);
    assert(b@.skip(0) =~= b@);
    while i < a.len()
        invariant
            i <= a@.len(),
            i <= b@.len(),
            alphabetical(a@, b@) == alphabetical(a@.skip(i as int), b@.skip(i as int)),
        decreases a@.len() - i,
    {
        if i >= b.len() {
            return false;
        }
        assert(a@.skip(i as int)[0] == a@[i as int]);
        assert(b@.skip(i as int)[0] == b@[i as int]);
        assert(a@.skip(i as int).skip(1) =~= a@.skip(i + 1));
        assert(b@.skip(i as int).skip(1) =~= b@.skip(i + 1));
        if a[i] != b[i] {
            return a[i] < b[i];
        }
        i = i + 1;
    }
    true
}

fn insert_name(v: &mut Vec<String>, x: String)
    ensures
        text::texts(final(v)@) == order::inserted(text::texts(old(v)@), x@, text_order()),
{
    let ghost placed = text::texts(v@);
    let ghost le = text_order();
    let chars = text::chars_of(x.as_str());
    let mut k: usize = v.len();
    while k > 0 && !is_alphabetical(&text::chars_of(v[k - 1].as_str()), &chars)
        invariant
            k <= v@.len(),
            placed == text::texts(v@),
            le == text_order(),
            chars@ == x@,
            forall|j: int| k <= j < v@.len() ==> !#[trigger] le(placed[j], x@),
        decreases k,
    {
        assert(placed[k - 1] == v@[k - 1]@);
        k = k - 1;
    }
    proof {
        if k > 0 {
            assert(placed[k - 1] == v@[k - 1]@);
            assert(le(placed[k - 1], x@));
        }
        order::lemma_inserted(placed, x@, le, k as int);
        assert(text::texts(v@.insert(k as int, x)) =~= placed.insert(k as int, x@));
    }
    v.insert(k, x);
}

fn sort_names(v: &Vec<providers::ProviderId>) -> (r: Vec<String>)
    ensures
        text::texts(r@) == order::sorted(store_names(v@), text_order()),
{
    let ghost all = store_names(v@);
    let mut out: Vec<String> = Vec::new();
    let mut i: usize = 0;
    assert(text::texts(out@) =~= Seq::empty());
    assert(all.take(0) =~= Seq::empty());
    while i < v.len()
        invariant
            i <= v@.len(),
            all == store_names(v@),
            text::texts(out@) == order::sorted(all.take(i as int), text_order()),
        decreases v@.len() - i,
    {
        assert(all.take(i + 1).drop_last() =~= all.take(i as int));
        insert_name(&mut out, v[i].label().to_string());
        i = i + 1;
    }
    assert(all.take(i as int) =~= all);
    out
}

/// What results of a search are kept under: the text in lower case without spaces round
/// it, the order, and the names of the stores in alphabetical order.
pub fn key_parts(query: &SearchQuery) -> (r: Vec<String>)
    ensures
        text::texts(r@) == key_parts_of(query@),
{
    let lower = text::lowercase(query.query.as_str());
    let mut out: Vec<String> = Vec::new();
    out.push(text::trim(lower.as_str()));
    out.push(show_order(query.sort).to_string());
    let ghost head = out@;
    let mut names = sort_names(&query.platforms);
    let ghost tail = names@;
    out.append(&mut names);
    proof {
        assert(text::texts(head) =~= seq![head[0]@, head[1]@]);
        assert(text::texts(out@) =~= text::texts(head) + text::texts(tail));
    }
    out
}

impl SearchCache {
    /// Results kept in a directory of a user's for so many minutes.
    #[must_use]
    pub fn new(ttl_minutes: u64, cache_dir: &str) -> (r: SearchCache)
        requires
            ttl_minutes * 60 <= u64::MAX,
        ensures
            r.ttl == ttl_minutes * 60,
            r.cache_dir@ == cache_dir@ + "/pechincha"@,
    {
        SearchCache { ttl: ttl_minutes * 60, cache_dir: text::join2(cache_dir, "/pechincha") }
    }

    /// The file for results that are kept under a digest.
    pub fn cache_path(&self, digest: &str) -> (r: String)
        ensures
            r@ == self.cache_dir@ + "/"@ + (digest@ + ".json"@),
    {
        let name = text::join2(digest, ".json");
        text::join3(self.cache_dir.as_str(), "/", name.as_str())
    }

    /// The results of an entry at a time, in seconds since the start of 1970, if they
    /// still count.
    pub fn get(&self, entry: CacheEntry, now: u64) -> (r: Option<Vec<Product>>)
        ensures
            r == if counts(entry.created_at as int, now as int, self.ttl as int) {
                Some(entry.products)
            } else {
                None
            },
    {
        if self.ttl > 0 && entry.created_at <= now && now - entry.created_at <= self.ttl {
            Some(entry.products)
        } else {
            None
        }
    }

    /// The entry for results found at a time, in seconds since the start of 1970: none
    /// where there are no results, or where they would never count.
    pub fn put(&self, products: Vec<Product>, now: u64) -> (r: Option<CacheEntry>)
        ensures
            r == if products@.len() > 0 && self.ttl > 0 {
                Some(CacheEntry { created_at: now, products })
            } else {
                None
            },
    {
        if products.len() == 0 || self.ttl == 0 {
            None
        } else {
            Some(CacheEntry { created_at: now, products })
        }
    }
}

// ---- What holds of kept results ----

/// Results that were kept are found again until their time is over, and not after it.
pub proof fn kept_results_last(created_at: int, now: int, ttl: int)
    requires
        ttl > 0,
        created_at <= now,
    ensures
        now - created_at <= ttl ==> counts(created_at, now, ttl),
        now - created_at > ttl ==> !counts(created_at, now, ttl),
{
}

proof fn lemma_alphabet(a: Seq<char>, b: Seq<char>, c: Seq<char>)
    ensures
        alphabetical(a, b) || alphabetical(b, a),
        alphabetical(a, b) && alphabetical(b, c) ==> alphabetical(a, c),
        alphabetical(a, b) && alphabetical(b, a) ==> a == b,
    decreases a.len(),
{
    if a.len() == 0 {
        if b.len() == 0 {
            assert(a =~= b);
        }
    } else if b.len() > 0 {
        if c.len() > 0 {
            lemma_alphabet(a.skip(1), b.skip(1), c.skip(1));
        } else {
            lemma_alphabet(a.skip(1), b.skip(1), c);
        }
        if a[0] == b[0] && a.skip(1) == b.skip(1) {
            assert forall|i: int| 0 <= i < a.len() implies a[i] == b[i] by {
                if i > 0 {
                    assert(a.skip(1)[i - 1] == a[i]);
                    assert(b.skip(1)[i - 1] == b[i]);
                }
            }
            assert(a.len() == b.len());
            assert(a =~= b);
        }
    }
}

/// Two lists in alphabetical order of the same texts are the same list.
proof fn lemma_one_alphabetical_list(a: Seq<Seq<char>>, b: Seq<Seq<char>>)
    requires
        order::ordered(a, text_order()),
        order::ordered(b, text_order()),
        a.to_multiset() == b.to_multiset(),
    ensures
        a == b,
    decreases a.len(),
{
    broadcast use vstd::seq_lib::group_to_multiset_ensures;

    let le = text_order();
    assert(a.len() == a.to_multiset().len());
    assert(b.len() == b.to_multiset().len());
    if a.len() > 0 {
        let x = a.last();
        let y = b.last();
        assert(a.to_multiset().count(x) > 0);
        assert(b.contains(x));
        assert(b.to_multiset().count(y) > 0);
        assert(a.contains(y));
        let i = choose|i: int| 0 <= i < b.len() && b[i] == x;
        let j = choose|j: int| 0 <= j < a.len() && a[j] == y;
        assert(le(b[i], b[b.len() - 1]));
        assert(le(a[j], a[a.len() - 1]));
        lemma_alphabet(x, y, x);
        assert(x == y);
        let c = a.drop_last();
        let d = b.drop_last();
        assert(a =~= c.push(x));
        assert(b =~= d.push(x));
        assert(c.to_multiset() =~= a.to_multiset().remove(x));
        assert(d.to_multiset() =~= b.to_multiset().remove(x));
        assert forall|i: int, j: int| 0 <= i <= j < c.len() implies #[trigger] le(c[i], c[j]) by {
            assert(le(a[i], a[j]));
        }
        assert forall|i: int, j: int| 0 <= i <= j < d.len() implies #[trigger] le(d[i], d[j]) by {
            assert(le(b[i], b[j]));
        }
        lemma_one_alphabetical_list(c, d);
    } else {
        assert(a =~= b);
    }
}

/// Searches that differ only in the order in which they name their stores use the same
/// results.
pub proof fn order_of_stores_does_not_matter(a: models::QueryView, b: models::QueryView)
    requires
        a.query == b.query,
        a.sort == b.sort,
        store_names(a.platforms).to_multiset() == store_names(b.platforms).to_multiset(),
    ensures
        key_parts_of(a) == key_parts_of(b),
{
    let le = text_order();
    assert forall|a: Seq<char>, b: Seq<char>| #[trigger] le(a, b) || le(b, a) by {
        lemma_alphabet(a, b, a);
    }
    assert forall|a: Seq<char>, b: Seq<char>, c: Seq<char>| #[trigger]
        le(a, b) && #[trigger] le(b, c) implies le(a, c) by {
        lemma_alphabet(a, b, c);
    }
    order::sorting_orders(store_names(a.platforms), le);
    order::sorting_orders(store_names(b.platforms), le);
    lemma_one_alphabetical_list(
        order::sorted(store_names(a.platforms), le),
        order::sorted(store_names(b.platforms), le),
    );
}

/// Results count for as long as they are to and not before they were kept.
pub proof fn results_count_for_their_time(created_at: int, now: int, ttl: int)
    ensures
        counts(created_at, now, ttl) <==> ttl > 0 && 0 <= now - created_at <= ttl,
{
}

/// Searches share kept results exactly where they are for one text, whatever its case and
/// the spaces round it, in one order, in the stores of the same names.
pub proof fn kept_results_are_of_one_search(a: models::QueryView, b: models::QueryView)
    ensures
        key_parts_of(a) == key_parts_of(b) ==> {
            &&& text::trimmed(text::lowered(a.query)) == text::trimmed(text::lowered(b.query))
            &&& a.sort == b.sort
            &&& store_names(a.platforms).to_multiset() == store_names(b.platforms).to_multiset()
        },
        text::trimmed(text::lowered(a.query)) == text::trimmed(text::lowered(b.query)) && a.sort
            == b.sort && a.platforms == b.platforms ==> key_parts_of(a) == key_parts_of(b),
{
    let (x, y) = (key_parts_of(a), key_parts_of(b));
    let (s, t) = (store_names(a.platforms), store_names(b.platforms));
    let le = text_order();
    assert forall|a: Seq<char>, b: Seq<char>| #[trigger] le(a, b) || le(b, a) by {
        lemma_alphabet(a, b, a);
    }
    assert forall|a: Seq<char>, b: Seq<char>, c: Seq<char>| #[trigger]
        le(a, b) && #[trigger] le(b, c) implies le(a, c) by {
        lemma_alphabet(a, b, c);
    }
    order::sorting_orders(s, text_order());
    order::sorting_orders(t, text_order());
    assert(x.skip(2) =~= order::sorted(s, text_order()));
    assert(y.skip(2) =~= order::sorted(t, text_order()));
    assert(x[0] == text::trimmed(text::lowered(a.query)));
    assert(y[0] == text::trimmed(text::lowered(b.query)));
    assert(x[1] == order_name(a.sort));
    assert(y[1] == order_name(b.sort));
    lemma_order_names(a.sort, b.sort);
}

/// No two orders have one name.
proof fn lemma_order_names(a: SortOrder, b: SortOrder)
    ensures
        order_name(a) == order_name(b) ==> a == b,
{
    reveal_strlit("PriceAsc");
    reveal_strlit("PriceDesc");
    reveal_strlit("Rating");
    reveal_strlit("Relevance");
    reveal_strlit("TotalCost");
    assert("PriceAsc"@[5] == 'A');
    assert("PriceDesc"@[5] == 'D');
    assert("Relevance"@[0] == 'R');
    assert("TotalCost"@[0] == 'T');
    assert("PriceDesc"@[0] == 'P');
    assert("PriceAsc"@[0] == 'P');
    assert("Rating"@[0] == 'R');
    assert("Rating"@[1] == 'a');
    assert("Relevance"@[1] == 'e');
}

} // verus!
