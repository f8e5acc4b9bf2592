//! Regular expressions.

use vstd::prelude::*;

use crate::text;

verus! {

/// One match of a pattern: the bytes that it covers, and the text of each group,
/// the whole match first.
pub struct Found {
    pub start: usize,
    pub end: usize,
    pub groups: Vec<Option<String>>,
}

/// One match of a pattern.
pub struct FoundView {
    pub start: int,
    pub end: int,
    pub groups: Seq<Option<Seq<char>>>,
}

impl View for Found {
    type V = FoundView;

    open spec fn view(&self) -> FoundView {
        FoundView {
            start: self.start as int,
            end: self.end as int,
            groups: Seq::new(self.groups@.len(), |i: int| text::text_view(self.groups@[i])),
        }
    }
}

/// Some matches.
pub open spec fn found_views(v: Seq<Found>) -> Seq<FoundView> {
    Seq::new(v.len(), |i: int| v[i]@)
}

/// The matches of a pattern in a text, from the left, none of which overlap.
pub uninterp spec fn regex_matches(pattern: Seq<char>, s: Seq<char>) -> Seq<FoundView>;

/// Calls `regex_lite::Regex::captures_iter`, with no match where the pattern is
/// not a regular expression. A match covers a stretch of whole characters of the
/// text. Left unsaid is which stretches match.
#[verifier::external_body]
pub(crate) fn find_all(pattern: &str, s: &str) -> (r: Vec<Found>)
    ensures
        found_views(r@) == regex_matches(pattern@, s@),
        forall|i: int|
            0 <= i < r@.len() ==> text::sliceable(
                s@,
                (#[trigger] r@[i]).start as int,
                r@[i].end as int,
            ),
{
    regex_lite::Regex::new(pattern).map_or(
        Vec::new(),
        |re|
            re.captures_iter(s).map(
                |c|
                    Found {
                        start: c.get(0).map_or(0, |m| m.start()),
                        end: c.get(0).map_or(0, |m| m.end()),
                        groups: c.iter().map(|g| g.map(|m| m.as_str().to_string())).collect(),
                    },
            ).collect(),
    )
}

/// The text of a group of a match, empty where the group took no part in it.
pub open spec fn group(f: FoundView, k: int) -> Seq<char> {
    if 0 <= k < f.groups.len() {
        match f.groups[k] {
            Some(s) => s,
            None => Seq::empty(),
        }
    } else {
        Seq::empty()
    }
}

/// The text of a group of the first match.
pub open spec fn first_group(m: Seq<FoundView>, k: int) -> Option<Seq<char>> {
    if m.len() > 0 {
        Some(group(m[0], k))
    } else {
        None
    }
}

/// The text of a group of the first match of a pattern in a text.
pub open spec fn captured(pattern: Seq<char>, s: Seq<char>, k: int) -> Option<Seq<char>> {
    first_group(regex_matches(pattern, s), k)
}

/// The text of a group of a match, empty where the group took no part in it.
pub fn group_text(f: &Found, k: usize) -> (r: String)
    ensures
        r@ == group(f@, k as int),
{
    if k < f.groups.len() {
        match &f.groups[k] {
            Some(s) => s.clone(),
            None => String::new(),
        }
    } else {
        String::new()
    }
}

/// The text of a group of the first match of a pattern in a text.
pub fn capture(pattern: &str, s: &str, k: usize) -> (r: Option<String>)
    ensures
        text::text_view(r) == captured(pattern@, s@, k as int),
{
    let found = find_all(pattern, s);
    assert(found_views(found@).len() == found@.len());
    if found.len() > 0 {
        assert(found_views(found@)[0] == found@[0]@);
        Some(group_text(&found[0], k))
    } else {
        None
    }
}

/// What is captured is a group of the first match, and nothing without a match.
pub proof fn first_matches_are_captured(pattern: Seq<char>, s: Seq<char>, k: int)
    ensures
        ({
            let m = regex_matches(pattern, s);
            &&& m.len() == 0 ==> captured(pattern, s, k) is None
            &&& m.len() > 0 && 0 <= k < m[0].groups.len() && m[0].groups[k] is Some ==> captured(
                pattern,
                s,
                k,
            ) == m[0].groups[k]
        }),
{
}

} // verus!
