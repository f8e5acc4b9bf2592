//! Text as sequences of characters.

use vstd::prelude::*;

verus! {

/// Calls `String::push`, which appends one character.
pub assume_specification[ String::push ](s: &mut String, c: char)
    ensures
        final(s)@ == old(s)@.push(c),
;

/// The number of bytes that a text takes in UTF-8.
pub open spec fn byte_len(s: Seq<char>) -> nat {
    vstd::utf8::encode_utf8(s).len()
}

/// The characters of a text.
pub fn chars_of(s: &str) -> (r: Vec<char>)
    ensures
        r@ == s@,
{
    let mut out: Vec<char> = Vec::new();
    for c in it: s.chars()
        invariant
            out@ == it.seq().take(it.index() as int),
            it.seq() == s@,
    {
        out.push(c);
    }
    out
}

/// The text made of some characters.
pub fn string_of(chars: &[char]) -> (r: String)
    ensures
        r@ == chars@,
{
    let mut out = String::new();
    let mut i: usize = 0;
    while i < chars.len()
        invariant
            i <= chars@.len(),
            out@ == chars@.take(i as int),
        decreases chars@.len() - i,
    {
        out.push(chars[i]);
        i = i + 1;
    }
    out
}

/// The number of bytes of a text.
pub fn text_bytes(s: &str) -> (r: usize)
    ensures
        r == byte_len(s@),
{
    s.as_bytes().len()
}

/// Whether two texts are the same.
pub fn same_text(a: &str, b: &str) -> (r: bool)
    ensures
        r == (a@ == b@),
{
    let x = a.as_bytes();
    let y = b.as_bytes();
    if x.len() != y.len() {
        return false;
    }
    let mut i: usize = 0;
    while i < x.len()
        invariant
            i <= x@.len(),
            x@.len() == y@.len(),
            x@ == vstd::utf8::encode_utf8(a@),
            y@ == vstd::utf8::encode_utf8(b@),
            forall|k: int| 0 <= k < i ==> x@[k] == y@[k],
        decreases x@.len() - i,
    {
        if x[i] != y[i] {
            return false;
        }
        i = i + 1;
    }
    proof {
        assert(x@ =~= y@);
        vstd::utf8::encode_utf8_decode_utf8(a@);
        vstd::utf8::encode_utf8_decode_utf8(b@);
    }
    true
}

/// Two texts, one after the other.
pub fn join2(a: &str, b: &str) -> (r: String)
    ensures
        r@ == a@ + b@,
{
    let mut out = a.to_string();
    out.append(b);
    out
}

/// Three texts, one after the other.
pub fn join3(a: &str, b: &str, c: &str) -> (r: String)
    ensures
        r@ == a@ + b@ + c@,
{
    let mut out = a.to_string();
    out.append(b);
    out.append(c);
    out
}

// ---- Searching ----

/// Whether `n` stands in `h` at index `i`.
pub open spec fn occurs_at(h: Seq<char>, n: Seq<char>, i: int) -> bool {
    0 <= i && i + n.len() <= h.len() && h.subrange(i, i + n.len()) == n
}

/// The first index at or after `from` at which `n` stands in `h`.
pub open spec fn position(h: Seq<char>, n: Seq<char>, from: int) -> Option<int>
    decreases h.len() + 1 - from,
{
    if from < 0 || from + n.len() > h.len() {
        None
    } else if occurs_at(h, n, from) {
        Some(from)
    } else {
        position(h, n, from + 1)
    }
}

/// The last index at or before `from` at which `n` stands in `h`.
pub open spec fn last_position(h: Seq<char>, n: Seq<char>, from: int) -> Option<int>
    decreases from + 1,
{
    if from < 0 {
        None
    } else if occurs_at(h, n, from) {
        Some(from)
    } else {
        last_position(h, n, from - 1)
    }
}

/// Whether `n` stands somewhere in `h`.
pub open spec fn has(h: Seq<char>, n: Seq<char>) -> bool {
    position(h, n, 0) is Some
}

/// An index as an integer.
pub open spec fn index_of(i: Option<usize>) -> Option<int> {
    match i {
        Some(i) => Some(i as int),
        None => None,
    }
}

/// `position` finds the first place, and finds one wherever there is one.
pub proof fn lemma_position(h: Seq<char>, n: Seq<char>, from: int)
    requires
        0 <= from,
    ensures
        match position(h, n, from) {
            Some(i) => from <= i && occurs_at(h, n, i) && forall|j: int|
                from <= j < i ==> !#[trigger] occurs_at(h, n, j),
            None => forall|j: int| from <= j ==> !#[trigger] occurs_at(h, n, j),
        },
    decreases h.len() + 1 - from,
{
    if from + n.len() <= h.len() && !occurs_at(h, n, from) {
        lemma_position(h, n, from + 1);
    }
}

fn stands_at(h: &[char], n: &[char], i: usize) -> (r: bool)
    requires
        i + n@.len() <= h@.len(),
    ensures
        r == occurs_at(h@, n@, i as int),
{
    let size: usize = h.len();
    let mut k: usize = 0;
    while k < n.len()
        invariant
            k <= n@.len(),
            i + n@.len() <= h@.len(),
            size == h@.len(),
            forall|j: int| 0 <= j < k ==> h@[i + j] == n@[j],
        decreases n@.len() - k,
    {
        if h[i + k] != n[k] {
            assert(h@.subrange(i as int, i + n@.len())[k as int] != n@[k as int]);
            return false;
        }
        k = k + 1;
    }
    assert(h@.subrange(i as int, i + n@.len()) =~= n@);
    true
}

/// The first index at or after `from` at which `n` stands in `h`.
pub fn find(h: &[char], n: &[char], from: usize) -> (r: Option<usize>)
    ensures
        index_of(r) == position(h@, n@, from as int),
        r is Some ==> from <= r->0 && r->0 + n@.len() <= h@.len(),
{
    if n.len() > h.len() || from > h.len() - n.len() {
        return None;
    }
    let mut i: usize = from;
    let last: usize = h.len() - n.len();
    loop
        invariant
            from <= i,
            last == h@.len() - n@.len(),
            i <= last,
            position(h@, n@, from as int) == position(h@, n@, i as int),
        decreases last - i,
    {
        if stands_at(h, n, i) {
            return Some(i);
        }
        if i == last {
            assert(position(h@, n@, i + 1) is None);
            return None;
        }
        i = i + 1;
    }
}

/// The last index at which `n` stands in `h`.
pub fn rfind(h: &[char], n: &[char]) -> (r: Option<usize>)
    ensures
        index_of(r) == last_position(h@, n@, h@.len() - n@.len()),
        r is Some ==> r->0 + n@.len() <= h@.len(),
{
    if n.len() > h.len() {
        return None;
    }
    let mut i: usize = h.len() - n.len();
    loop
        invariant
            i <= h@.len() - n@.len(),
            last_position(h@, n@, h@.len() - n@.len()) == last_position(h@, n@, i as int),
        decreases i,
    {
        if stands_at(h, n, i) {
            return Some(i);
        }
        if i == 0 {
            assert(last_position(h@, n@, -1) is None);
            return None;
        }
        i = i - 1;
    }
}

/// Whether `n` stands somewhere in `h`.
pub fn contains(h: &str, n: &str) -> (r: bool)
    ensures
        r == has(h@, n@),
{
    find(chars_of(h).as_slice(), chars_of(n).as_slice(), 0).is_some()
}

/// Whether `s` begins with `p`.
pub fn starts_with(s: &str, p: &str) -> (r: bool)
    ensures
        r == p@.is_prefix_of(s@),
{
    let a = chars_of(s);
    let b = chars_of(p);
    if b.len() > a.len() {
        return false;
    }
    stands_at(a.as_slice(), b.as_slice(), 0)
}

// ---- Replacing ----

/// `s` without the character `c`.
pub open spec fn dropped(s: Seq<char>, c: char) -> Seq<char>
    decreases s.len(),
{
    if s.len() == 0 {
        s
    } else if s.last() == c {
        dropped(s.drop_last(), c)
    } else {
        dropped(s.drop_last(), c).push(s.last())
    }
}

/// `s` with each `a` made a `b`.
pub open spec fn swapped(s: Seq<char>, a: char, b: char) -> Seq<char> {
    s.map_values(|c: char| if c == a { b } else { c })
}

/// `s` with each `n`, taken from the left, made a `by`.
pub open spec fn replaced(s: Seq<char>, n: Seq<char>, by: Seq<char>) -> Seq<char>
    decreases s.len(),
{
    if n.len() == 0 || s.len() < n.len() {
        s
    } else if occurs_at(s, n, 0) {
        by + replaced(s.skip(n.len() as int), n, by)
    } else {
        seq![s[0]] + replaced(s.skip(1), n, by)
    }
}

/// `s` without the character `c`.
pub fn drop_char(s: &str, c: char) -> (r: String)
    ensures
        r@ == dropped(s@, c),
{
    let v = chars_of(s);
    let mut out = String::new();
    let mut i: usize = 0;
    while i < v.len()
        invariant
            i <= v@.len(),
            out@ == dropped(v@.take(i as int), c),
        decreases v@.len() - i,
    {
        assert(v@.take(i + 1).drop_last() =~= v@.take(i as int));
        if v[i] != c {
            out.push(v[i]);
        }
        i = i + 1;
    }
    assert(v@.take(i as int) =~= v@);
    out
}

/// `s` with each `a` made a `b`.
pub fn swap_char(s: &str, a: char, b: char) -> (r: String)
    ensures
        r@ == swapped(s@, a, b),
{
    let v = chars_of(s);
    let mut out = String::new();
    let mut i: usize = 0;
    while i < v.len()
        invariant
            i <= v@.len(),
            out@ == swapped(v@, a, b).take(i as int),
        decreases v@.len() - i,
    {
        if v[i] == a {
            out.push(b);
        } else {
            out.push(v[i]);
        }
        assert(swapped(v@, a, b).take(i + 1) =~= swapped(v@, a, b).take(i as int).push(
            swapped(v@, a, b)[i as int],
        ));
        i = i + 1;
    }
    assert(swapped(v@, a, b).take(i as int) =~= swapped(v@, a, b));
    out
}

/// `s` with each `n`, taken from the left, made a `by`.
pub fn replace(s: &str, n: &str, by: &str) -> (r: String)
    ensures
        r@ == replaced(s@, n@, by@),
{
    let v = chars_of(s);
    let pat = chars_of(n);
    if pat.len() == 0 {
        return s.to_string();
    }
    let mut out = String::new();
    let mut i: usize = 0;
    proof {
        assert(v@.skip(0) =~= v@);
        assert(out@ + replaced(v@.skip(0), pat@, by@) =~= replaced(v@, pat@, by@));
    }
    while i < v.len() && pat.len() <= v.len() - i
        invariant
            i <= v@.len(),
            pat@.len() > 0,
            out@ + replaced(v@.skip(i as int), pat@, by@) == replaced(v@, pat@, by@),
        decreases v@.len() - i,
    {
        let ghost rest = v@.skip(i as int);
        if stands_at(v.as_slice(), pat.as_slice(), i) {
            proof {
                assert(rest.subrange(0, pat@.len() as int) =~= v@.subrange(
                    i as int,
                    i + pat@.len(),
                ));
                assert(rest.skip(pat@.len() as int) =~= v@.skip(i + pat@.len()));
                assert((out@ + by@) + replaced(v@.skip(i + pat@.len()), pat@, by@) =~= out@ + (by@
                    + replaced(v@.skip(i + pat@.len()), pat@, by@)));
            }
            out.append(by);
            i = i + pat.len();
        } else {
            proof {
                assert(rest.subrange(0, pat@.len() as int) =~= v@.subrange(
                    i as int,
                    i + pat@.len(),
                ));
                assert(rest.skip(1) =~= v@.skip(i + 1));
                assert(out@.push(v@[i as int]) + replaced(v@.skip(i + 1), pat@, by@) =~= out@ + (
                seq![rest[0]] + replaced(v@.skip(i + 1), pat@, by@)));
            }
            out.push(v[i]);
            i = i + 1;
        }
    }
    assert(replaced(v@.skip(i as int), pat@, by@) =~= v@.skip(i as int));
    while i < v.len()
        invariant
            i <= v@.len(),
            out@ + v@.skip(i as int) == replaced(v@, pat@, by@),
        decreases v@.len() - i,
    {
        assert(out@.push(v@[i as int]) + v@.skip(i + 1) =~= out@ + v@.skip(i as int));
        out.push(v[i]);
        i = i + 1;
    }
    assert(out@ + v@.skip(i as int) =~= out@);
    out
}

// ---- White space ----

/// Whether a character is white space.
pub open spec fn space(c: char) -> bool {
    ||| '\u{9}' <= c <= '\u{d}'
    ||| c == ' '
    ||| c == '\u{85}'
    ||| c == '\u{a0}'
    ||| c == '\u{1680}'
    ||| '\u{2000}' <= c <= '\u{200a}'
    ||| c == '\u{2028}'
    ||| c == '\u{2029}'
    ||| c == '\u{202f}'
    ||| c == '\u{205f}'
    ||| c == '\u{3000}'
}

fn is_space(c: char) -> (r: bool)
    ensures
        r == space(c),
{
    ('\u{9}' <= c && c <= '\u{d}') || c == ' ' || c == '\u{85}' || c == '\u{a0}' || c == '\u{1680}'
        || ('\u{2000}' <= c && c <= '\u{200a}') || c == '\u{2028}' || c == '\u{2029}' || c
        == '\u{202f}' || c == '\u{205f}' || c == '\u{3000}'
}

/// `s` without the white space it begins with.
pub open spec fn trimmed_start(s: Seq<char>) -> Seq<char>
    decreases s.len(),
{
    if s.len() > 0 && space(s[0]) {
        trimmed_start(s.skip(1))
    } else {
        s
    }
}

/// `s` without the white space it ends with.
pub open spec fn trimmed_end(s: Seq<char>) -> Seq<char>
    decreases s.len(),
{
    if s.len() > 0 && space(s.last()) {
        trimmed_end(s.drop_last())
    } else {
        s
    }
}

/// `s` without the white space around it.
pub open spec fn trimmed(s: Seq<char>) -> Seq<char> {
    trimmed_end(trimmed_start(s))
}

/// The index of the first character that is not white space.
pub fn skip_space(v: &[char], from: usize) -> (r: usize)
    requires
        from <= v@.len(),
    ensures
        from <= r <= v@.len(),
        v@.skip(r as int) == trimmed_start(v@.skip(from as int)),
{
    let mut i: usize = from;
    while i < v.len() && is_space(v[i])
        invariant
            from <= i <= v@.len(),
            trimmed_start(v@.skip(from as int)) == trimmed_start(v@.skip(i as int)),
        decreases v@.len() - i,
    {
        assert(v@.skip(i as int).skip(1) =~= v@.skip(i + 1));
        i = i + 1;
    }
    i
}

/// `s` without the white space around it.
pub fn trim(s: &str) -> (r: String)
    ensures
        r@ == trimmed(s@),
{
    let v = chars_of(s);
    let start: usize = skip_space(v.as_slice(), 0);
    assert(v@.skip(0) =~= v@);
    let mut end: usize = v.len();
    assert(v@.subrange(start as int, end as int) =~= v@.skip(start as int));
    while end > start && is_space(v[end - 1])
        invariant
            start <= end <= v@.len(),
            trimmed_end(v@.skip(start as int)) == trimmed_end(
                v@.subrange(start as int, end as int),
            ),
        decreases end,
    {
        assert(v@.subrange(start as int, end as int).drop_last() =~= v@.subrange(
            start as int,
            end - 1,
        ));
        end = end - 1;
    }
    part(v.as_slice(), start, end)
}

/// The characters from one index up to another, as a text.
pub fn part(v: &[char], from: usize, to: usize) -> (r: String)
    requires
        from <= to <= v@.len(),
    ensures
        r@ == v@.subrange(from as int, to as int),
{
    let mut out = String::new();
    let mut i: usize = from;
    while i < to
        invariant
            from <= i <= to <= v@.len(),
            out@ == v@.subrange(from as int, i as int),
        decreases to - i,
    {
        assert(v@.subrange(from as int, i + 1) =~= v@.subrange(from as int, i as int).push(
            v@[i as int],
        ));
        out.push(v[i]);
        i = i + 1;
    }
    out
}

// ---- Pieces ----

/// Some texts, and a text that is still growing.
pub struct Scan {
    pub done: Seq<Seq<char>>,
    pub open: Seq<char>,
}

/// The texts of a scan, the growing one among them where it is not empty.
pub open spec fn closed_words(w: Scan) -> Seq<Seq<char>> {
    if w.open.len() == 0 {
        w.done
    } else {
        w.done.push(w.open)
    }
}

/// The words of `s`, the last of them still open.
pub open spec fn word_scan(s: Seq<char>) -> Scan
    decreases s.len(),
{
    if s.len() == 0 {
        Scan { done: Seq::empty(), open: Seq::empty() }
    } else if space(s.last()) {
        Scan { done: closed_words(word_scan(s.drop_last())), open: Seq::empty() }
    } else {
        Scan {
            done: word_scan(s.drop_last()).done,
            open: word_scan(s.drop_last()).open.push(s.last()),
        }
    }
}

/// The parts of `s` between stretches of white space.
pub open spec fn words(s: Seq<char>) -> Seq<Seq<char>> {
    closed_words(word_scan(s))
}

/// The pieces of `s` between occurrences of `c`, the last of them still open.
pub open spec fn piece_scan(s: Seq<char>, c: char) -> Scan
    decreases s.len(),
{
    if s.len() == 0 {
        Scan { done: Seq::empty(), open: Seq::empty() }
    } else if s.last() == c {
        Scan {
            done: piece_scan(s.drop_last(), c).done.push(piece_scan(s.drop_last(), c).open),
            open: Seq::empty(),
        }
    } else {
        Scan {
            done: piece_scan(s.drop_last(), c).done,
            open: piece_scan(s.drop_last(), c).open.push(s.last()),
        }
    }
}

/// The pieces of `s` between occurrences of `c`.
pub open spec fn pieces(s: Seq<char>, c: char) -> Seq<Seq<char>> {
    piece_scan(s, c).done.push(piece_scan(s, c).open)
}

/// Some texts with `sep` between neighbours.
pub open spec fn joined(w: Seq<Seq<char>>, sep: Seq<char>) -> Seq<char>
    decreases w.len(),
{
    if w.len() == 0 {
        Seq::empty()
    } else if w.len() == 1 {
        w[0]
    } else {
        joined(w.drop_last(), sep) + sep + w.last()
    }
}

/// Two texts with a space between them.
pub open spec fn spaced(a: Seq<char>, b: Seq<char>) -> Seq<char> {
    a.push(' ') + b
}

/// Whether a text is a word: not empty, and without white space.
pub open spec fn is_word(w: Seq<char>) -> bool {
    w.len() > 0 && forall|i: int| 0 <= i < w.len() ==> !space(#[trigger] w[i])
}

/// Whether every character of `t` is one of `s`.
pub open spec fn made_of(t: Seq<char>, s: Seq<char>) -> bool {
    forall|i: int| 0 <= i < t.len() ==> s.contains(#[trigger] t[i])
}

proof fn lemma_made_of_more(t: Seq<char>, s: Seq<char>)
    requires
        s.len() > 0,
        made_of(t, s.drop_last()),
    ensures
        made_of(t, s),
{
    assert forall|i: int| 0 <= i < t.len() implies s.contains(#[trigger] t[i]) by {
        let k = choose|k: int| 0 <= k < s.drop_last().len() && s.drop_last()[k] == t[i];
        assert(s[k] == t[i]);
    }
}

proof fn lemma_word_scan(s: Seq<char>)
    ensures
        forall|i: int|
            0 <= i < word_scan(s).done.len() ==> is_word(#[trigger] word_scan(s).done[i]) && made_of(
                word_scan(s).done[i],
                s,
            ),
        word_scan(s).open.len() > 0 ==> is_word(word_scan(s).open),
        made_of(word_scan(s).open, s),
    decreases s.len(),
{
    if s.len() > 0 {
        let t = s.drop_last();
        lemma_word_scan(t);
        lemma_made_of_more(word_scan(t).open, s);
        assert forall|i: int| 0 <= i < word_scan(s).done.len() implies is_word(
            #[trigger] word_scan(s).done[i],
        ) && made_of(word_scan(s).done[i], s) by {
            if i < word_scan(t).done.len() {
                assert(word_scan(s).done[i] == word_scan(t).done[i]);
                lemma_made_of_more(word_scan(t).done[i], s);
            }
        }
        assert(s.contains(s.last()));
    }
}

/// The words of a text are words, and made of its characters.
pub proof fn lemma_words(s: Seq<char>)
    ensures
        forall|i: int|
            0 <= i < words(s).len() ==> is_word(#[trigger] words(s)[i]) && made_of(words(s)[i], s),
{
    lemma_word_scan(s);
    let scan = word_scan(s);
    assert forall|i: int| 0 <= i < words(s).len() implies is_word(#[trigger] words(s)[i])
        && made_of(words(s)[i], s) by {
        if i < scan.done.len() {
            assert(words(s)[i] == scan.done[i]);
        }
    }
}

/// What stands on either side of a space has its words to itself.
pub proof fn lemma_words_spaced(a: Seq<char>, b: Seq<char>)
    ensures
        words(spaced(a, b)) == words(a) + words(b),
        word_scan(spaced(a, b)).done == words(a) + word_scan(b).done,
        word_scan(spaced(a, b)).open == word_scan(b).open,
    decreases b.len(),
{
    let s = spaced(a, b);
    if b.len() == 0 {
        assert(s =~= a.push(' '));
        assert(s.drop_last() =~= a);
        assert(words(a) + word_scan(b).done =~= words(a));
    } else {
        lemma_words_spaced(a, b.drop_last());
        assert(s.drop_last() =~= spaced(a, b.drop_last()));
        assert(s.last() == b.last());
        assert(words(a) + words(b.drop_last()) =~= words(spaced(a, b.drop_last())));
        assert(word_scan(s).done =~= words(a) + word_scan(b).done);
    }
    assert(words(s) =~= words(a) + words(b));
}

proof fn lemma_one_word(w: Seq<char>)
    requires
        forall|i: int| 0 <= i < w.len() ==> !space(#[trigger] w[i]),
    ensures
        word_scan(w).done == Seq::<Seq<char>>::empty(),
        word_scan(w).open == w,
    decreases w.len(),
{
    if w.len() > 0 {
        lemma_one_word(w.drop_last());
        assert(w.drop_last().push(w.last()) =~= w);
    } else {
        assert(word_scan(w).open =~= w);
    }
}

/// The words of some words with a space between neighbours are those words.
pub proof fn lemma_words_joined(w: Seq<Seq<char>>)
    requires
        forall|i: int| 0 <= i < w.len() ==> is_word(#[trigger] w[i]),
    ensures
        words(joined(w, " "@)) == w,
    decreases w.len(),
{
    reveal_strlit(" ");
    assert(" "@ =~= seq![' ']);
    if w.len() == 0 {
        assert(words(joined(w, " "@)) =~= w);
    } else if w.len() == 1 {
        lemma_one_word(w[0]);
        assert(words(joined(w, " "@)) =~= w);
    } else {
        let before = w.drop_last();
        assert forall|i: int| 0 <= i < before.len() implies is_word(#[trigger] before[i]) by {
            assert(before[i] == w[i]);
        }
        lemma_words_joined(before);
        lemma_one_word(w.last());
        assert(joined(w, " "@) =~= spaced(joined(before, " "@), w.last()));
        lemma_words_spaced(joined(before, " "@), w.last());
        assert(words(w.last()) =~= seq![w.last()]);
        assert(before + seq![w.last()] =~= w);
    }
}

/// Some texts and some more, with a space between neighbours.
pub proof fn lemma_joined_spaced(a: Seq<Seq<char>>, b: Seq<Seq<char>>)
    ensures
        joined(a + b, " "@) == if a.len() == 0 {
            joined(b, " "@)
        } else if b.len() == 0 {
            joined(a, " "@)
        } else {
            spaced(joined(a, " "@), joined(b, " "@))
        },
    decreases b.len(),
{
    reveal_strlit(" ");
    assert(" "@ =~= seq![' ']);
    if a.len() == 0 {
        assert(a + b =~= b);
    } else if b.len() == 0 {
        assert(a + b =~= a);
    } else {
        lemma_joined_spaced(a, b.drop_last());
        assert((a + b).drop_last() =~= a + b.drop_last());
        assert((a + b).last() == b.last());
        let x = joined(a, " "@);
        if b.len() == 1 {
            assert(joined(a + b, " "@) =~= spaced(x, b[0]));
        } else {
            let y = joined(b.drop_last(), " "@);
            assert(joined(a + b, " "@) =~= spaced(x, y) + " "@ + b.last());
            assert(spaced(x, y) + " "@ + b.last() =~= spaced(x, y + " "@ + b.last()));
        }
    }
}

/// Whether a text neither starts nor ends with white space, and holds no white space but
/// single spaces.
pub open spec fn single_spaced(s: Seq<char>) -> bool {
    &&& s.len() > 0 ==> !space(s[0]) && !space(s.last())
    &&& forall|i: int| 0 <= i < s.len() && space(#[trigger] s[i]) ==> s[i] == ' '
    &&& forall|i: int, j: int|
        0 <= i < s.len() && j == i + 1 && j < s.len() ==> !(space(#[trigger] s[i]) && space(
            #[trigger] s[j],
        ))
}

/// Some words with a space between neighbours make a text with single spaces, made of
/// their characters and spaces.
pub proof fn lemma_single_spaced(w: Seq<Seq<char>>, s: Seq<char>)
    requires
        forall|i: int| 0 <= i < w.len() ==> is_word(#[trigger] w[i]) && made_of(w[i], s),
    ensures
        single_spaced(joined(w, " "@)),
        made_of(joined(w, " "@), s.push(' ')),
        w.len() > 0 ==> joined(w, " "@).len() > 0,
    decreases w.len(),
{
    reveal_strlit(" ");
    assert(" "@ =~= seq![' ']);
    let t = joined(w, " "@);
    let all = s.push(' ');
    if w.len() > 0 {
        let last = w.last();
        assert(last == w[w.len() - 1]);
        assert(made_of(last, all)) by {
            assert forall|i: int| 0 <= i < last.len() implies all.contains(#[trigger] last[i]) by {
                let k = choose|k: int| 0 <= k < s.len() && s[k] == last[i];
                assert(all[k] == last[i]);
            }
        }
        if w.len() > 1 {
            let before = w.drop_last();
            assert forall|i: int| 0 <= i < before.len() implies is_word(#[trigger] before[i])
                && made_of(before[i], s) by {
                assert(before[i] == w[i]);
            }
            lemma_single_spaced(before, s);
            let x = joined(before, " "@);
            assert(t =~= spaced(x, last));
            assert forall|i: int| 0 <= i < t.len() implies all.contains(#[trigger] t[i]) by {
                if i < x.len() {
                    assert(t[i] == x[i]);
                } else if i == x.len() {
                    assert(all[s.len() as int] == ' ');
                } else {
                    assert(t[i] == last[i - x.len() - 1]);
                }
            }
            assert forall|i: int| 0 <= i < t.len() && space(#[trigger] t[i]) implies t[i] == ' ' by {
                if i < x.len() {
                    assert(t[i] == x[i]);
                } else if i > x.len() {
                    assert(t[i] == last[i - x.len() - 1]);
                }
            }
            assert forall|i: int, j: int|
                0 <= i < t.len() && j == i + 1 && j < t.len() implies !(space(#[trigger] t[i])
                && space(#[trigger] t[j])) by {
                if j < x.len() {
                    assert(t[i] == x[i] && t[j] == x[j]);
                } else if j == x.len() {
                    assert(t[i] == x.last());
                } else {
                    assert(t[j] == last[j - x.len() - 1]);
                }
            }
            assert(t[0] == x[0]);
            assert(t.last() == last[last.len() - 1]);
        } else {
            assert(t == last);
        }
    }
}

/// What stands in a text stands in a longer one too.
pub proof fn lemma_has_more(h: Seq<char>, t: Seq<char>, n: Seq<char>)
    requires
        has(h, n),
    ensures
        has(h + t, n),
{
    lemma_position(h, n, 0);
    lemma_position(h + t, n, 0);
    let k = position(h, n, 0)->0;
    assert((h + t).subrange(k, k + n.len()) =~= h.subrange(k, k + n.len()));
    assert(occurs_at(h + t, n, k));
}

/// A character is taken out of each of two texts by itself.
pub proof fn lemma_dropped_more(h: Seq<char>, t: Seq<char>, c: char)
    ensures
        dropped(h + t, c) == dropped(h, c) + dropped(t, c),
    decreases t.len(),
{
    if t.len() == 0 {
        assert(h + t =~= h);
        assert(dropped(h, c) + dropped(t, c) =~= dropped(h, c));
    } else {
        lemma_dropped_more(h, t.drop_last(), c);
        assert((h + t).drop_last() =~= h + t.drop_last());
        assert(dropped(h + t, c) =~= dropped(h, c) + dropped(t, c));
    }
}

/// The characters of some texts.
pub open spec fn texts(v: Seq<String>) -> Seq<Seq<char>> {
    Seq::new(v.len(), |i: int| v[i]@)
}

/// The parts of `s` between stretches of white space.
pub fn split_words(s: &str) -> (r: Vec<String>)
    ensures
        texts(r@) == words(s@),
{
    let v = chars_of(s);
    let mut out: Vec<String> = Vec::new();
    let mut open = String::new();
    let mut i: usize = 0;
    while i < v.len()
        invariant
            i <= v@.len(),
            texts(out@) == word_scan(v@.take(i as int)).done,
            open@ == word_scan(v@.take(i as int)).open,
        decreases v@.len() - i,
    {
        let ghost before = out@;
        assert(v@.take(i + 1).drop_last() =~= v@.take(i as int));
        if is_space(v[i]) {
            if !open.as_str().is_empty() {
                out.push(open);
                assert(texts(out@) =~= texts(before).push(out@.last()@));
            }
            open = String::new();
        } else {
            open.push(v[i]);
        }
        i = i + 1;
    }
    assert(v@.take(i as int) =~= v@);
    if !open.as_str().is_empty() {
        let ghost before = out@;
        out.push(open);
        assert(texts(out@) =~= texts(before).push(out@.last()@));
    }
    out
}

/// The pieces of `s` between occurrences of `c`.
pub fn split_char(s: &str, c: char) -> (r: Vec<String>)
    ensures
        texts(r@) == pieces(s@, c),
{
    let v = chars_of(s);
    let mut out: Vec<String> = Vec::new();
    let mut open = String::new();
    let mut i: usize = 0;
    while i < v.len()
        invariant
            i <= v@.len(),
            texts(out@) == piece_scan(v@.take(i as int), c).done,
            open@ == piece_scan(v@.take(i as int), c).open,
        decreases v@.len() - i,
    {
        let ghost before = out@;
        assert(v@.take(i + 1).drop_last() =~= v@.take(i as int));
        if v[i] == c {
            out.push(open);
            assert(texts(out@) =~= texts(before).push(out@.last()@));
            open = String::new();
        } else {
            open.push(v[i]);
        }
        i = i + 1;
    }
    assert(v@.take(i as int) =~= v@);
    let ghost before = out@;
    out.push(open);
    assert(texts(out@) =~= texts(before).push(out@.last()@));
    out
}

/// Some texts with `sep` between neighbours.
pub fn join(w: &Vec<String>, sep: &str) -> (r: String)
    ensures
        r@ == joined(texts(w@), sep@),
{
    let mut out = String::new();
    let mut i: usize = 0;
    while i < w.len()
        invariant
            i <= w@.len(),
            out@ == joined(texts(w@).take(i as int), sep@),
        decreases w@.len() - i,
    {
        let ghost so_far = texts(w@).take(i as int);
        assert(texts(w@).take(i + 1).drop_last() =~= so_far);
        if i > 0 {
            out.append(sep);
        }
        out.append(w[i].as_str());
        assert(out@ =~= joined(texts(w@).take(i + 1), sep@));
        i = i + 1;
    }
    assert(texts(w@).take(i as int) =~= texts(w@));
    out
}

/// What stands before the first `c` in `s`, or all of `s`.
pub open spec fn up_to(s: Seq<char>, c: char) -> Seq<char>
    decreases s.len(),
{
    if s.len() == 0 || s[0] == c {
        Seq::empty()
    } else {
        seq![s[0]] + up_to(s.skip(1), c)
    }
}

/// What stands before the first `c` in `s`, or all of `s`.
pub fn before_char(s: &str, c: char) -> (r: String)
    ensures
        r@ == up_to(s@, c),
{
    let v = chars_of(s);
    let mut out = String::new();
    let mut i: usize = 0;
    assert(v@.skip(0) =~= v@);
    assert(out@ + up_to(v@.skip(0), c) =~= up_to(v@, c));
    while i < v.len() && v[i] != c
        invariant
            i <= v@.len(),
            out@ + up_to(v@.skip(i as int), c) == up_to(v@, c),
        decreases v@.len() - i,
    {
        assert(v@.skip(i as int).skip(1) =~= v@.skip(i + 1));
        assert(out@.push(v@[i as int]) + up_to(v@.skip(i + 1), c) =~= out@ + (seq![v@[i as int]]
            + up_to(v@.skip(i + 1), c)));
        out.push(v[i]);
        i = i + 1;
    }
    assert(out@ + up_to(v@.skip(i as int), c) =~= out@);
    out
}

/// What stands after the first `n` in `s`.
pub open spec fn after(s: Seq<char>, n: Seq<char>) -> Option<Seq<char>> {
    match position(s, n, 0) {
        Some(i) => Some(s.skip(i + n.len())),
        None => None,
    }
}

/// What stands before the first `n` in `s`.
pub open spec fn before(s: Seq<char>, n: Seq<char>) -> Option<Seq<char>> {
    match position(s, n, 0) {
        Some(i) => Some(s.take(i)),
        None => None,
    }
}

/// A text as its characters.
pub open spec fn text_view(s: Option<String>) -> Option<Seq<char>> {
    match s {
        Some(s) => Some(s@),
        None => None,
    }
}

/// A text, and the empty one where there is none.
pub open spec fn or_empty(s: Option<Seq<char>>) -> Seq<char> {
    match s {
        Some(s) => s,
        None => Seq::empty(),
    }
}

/// A text, and the empty one where there is none.
pub fn else_empty(s: Option<String>) -> (r: String)
    ensures
        r@ == or_empty(text_view(s)),
{
    match s {
        Some(s) => s,
        None => String::new(),
    }
}

/// What stands after the first `n` in `s`.
pub fn after_text(s: &str, n: &str) -> (r: Option<String>)
    ensures
        text_view(r) == after(s@, n@),
{
    let v = chars_of(s);
    let k = chars_of(n);
    let size: usize = v.len();
    match find(v.as_slice(), k.as_slice(), 0) {
        Some(i) => {
            assert(v@.subrange(i + k@.len(), v@.len() as int) =~= v@.skip(i + k@.len()));
            Some(part(v.as_slice(), i + k.len(), size))
        },
        None => None,
    }
}

/// What stands before the first `n` in `s`.
pub fn before_text(s: &str, n: &str) -> (r: Option<String>)
    ensures
        text_view(r) == before(s@, n@),
{
    let v = chars_of(s);
    let k = chars_of(n);
    match find(v.as_slice(), k.as_slice(), 0) {
        Some(i) => {
            assert(v@.subrange(0, i as int) =~= v@.take(i as int));
            Some(part(v.as_slice(), 0, i))
        },
        None => None,
    }
}

// ---- Numbers ----

/// The character for a digit.
pub open spec fn digit_char(d: nat) -> char {
    (d + 48) as char
}

/// Whether a character is one of the ten digits.
pub open spec fn digit(c: char) -> bool {
    '0' <= c <= '9'
}

/// A number in decimal notation.
pub open spec fn number_text(n: nat) -> Seq<char>
    decreases n,
{
    if n < 10 {
        seq![digit_char(n)]
    } else {
        number_text(n / 10).push(digit_char(n % 10))
    }
}

/// A whole number in decimal notation.
pub open spec fn integer_text(n: int) -> Seq<char> {
    if n < 0 {
        seq!['-'] + number_text((-n) as nat)
    } else {
        number_text(n as nat)
    }
}

/// Whether every character is a digit.
pub open spec fn all_digits(s: Seq<char>) -> bool {
    forall|i: int| 0 <= i < s.len() ==> digit(#[trigger] s[i])
}

/// The number that some digits stand for.
pub open spec fn number_value(s: Seq<char>) -> nat
    decreases s.len(),
{
    if s.len() == 0 {
        0
    } else {
        10 * number_value(s.drop_last()) + (s.last() as nat - 48) as nat
    }
}

/// `s` without one plus sign at its start.
pub open spec fn unsigned_digits(s: Seq<char>) -> Seq<char> {
    if s.len() > 1 && s[0] == '+' {
        s.skip(1)
    } else {
        s
    }
}

/// The number that a text stands for, where it is digits after an optional plus
/// sign and at most `max`.
pub open spec fn parsed_number(s: Seq<char>, max: nat) -> Option<nat> {
    let d = unsigned_digits(s);
    if d.len() > 0 && all_digits(d) && number_value(d) <= max {
        Some(number_value(d))
    } else {
        None
    }
}

proof fn lemma_number_value_prefix(s: Seq<char>, i: int)
    requires
        0 <= i <= s.len(),
        all_digits(s),
    ensures
        number_value(s.take(i)) <= number_value(s),
    decreases s.len(),
{
    if i == s.len() {
        assert(s.take(i) =~= s);
    } else {
        assert(s.drop_last().take(i) =~= s.take(i));
        lemma_number_value_prefix(s.drop_last(), i);
    }
}

/// The number that a text stands for, up to `max`.
pub fn parse_number(s: &str, max: u64) -> (r: Option<u64>)
    ensures
        match r {
            Some(n) => parsed_number(s@, max as nat) == Some(n as nat),
            None => parsed_number(s@, max as nat) is None,
        },
{
    let v = chars_of(s);
    let start: usize = if v.len() > 1 && v[0] == '+' {
        1
    } else {
        0
    };
    let ghost d = unsigned_digits(v@);
    assert(d =~= v@.skip(start as int));
    if start == v.len() {
        return None;
    }
    let mut n: u64 = 0;
    let mut i: usize = start;
    while i < v.len()
        invariant
            start <= i <= v@.len(),
            start < v@.len(),
            d == v@.skip(start as int),
            d == unsigned_digits(s@),
            n <= max,
            n == number_value(d.take(i - start)),
            forall|k: int| 0 <= k < i - start ==> digit(#[trigger] d[k]),
        decreases v@.len() - i,
    {
        let c: char = v[i];
        assert(d[i - start] == c);
        if !('0' <= c && c <= '9') {
            return None;
        }
        let value: u64 = (c as u32 - 48) as u64;
        assert(d.take(i - start + 1).drop_last() =~= d.take(i - start));
        assert(number_value(d.take(i - start + 1)) == 10 * n + value);
        if value > max || n > (max - value) / 10 {
            proof {
                if all_digits(d) {
                    lemma_number_value_prefix(d, i - start + 1);
                }
            }
            return None;
        }
        n = n * 10 + value;
        i = i + 1;
    }
    assert(d.take(i - start) =~= d);
    Some(n)
}

/// A number in decimal notation.
pub fn show_large(n: u128) -> (r: String)
    ensures
        r@ == number_text(n as nat),
    decreases n,
{
    let d: u8 = (n % 10) as u8;
    let c: char = (d + 48) as char;
    assert(c == digit_char((n % 10) as nat));
    let mut out = if n < 10 {
        String::new()
    } else {
        show_large(n / 10)
    };
    out.push(c);
    assert(n < 10 ==> out@ =~= number_text(n as nat));
    out
}

/// A number in decimal notation.
pub fn show_number(n: u64) -> (r: String)
    ensures
        r@ == number_text(n as nat),
{
    show_large(n as u128)
}

/// A whole number in decimal notation.
pub fn show_integer(n: i64) -> (r: String)
    ensures
        r@ == integer_text(n as int),
{
    if n < 0 {
        let size: u64 = if n == i64::MIN {
            9223372036854775808
        } else {
            (-n) as u64
        };
        let mut out = String::new();
        out.push('-');
        let digits = show_number(size);
        out.append(digits.as_str());
        assert(out@ =~= seq!['-'] + number_text(size as nat));
        out
    } else {
        show_number(n as u64)
    }
}

// ---- Letters ----

/// A text in lower case.
pub uninterp spec fn lowered(s: Seq<char>) -> Seq<char>;

/// An ASCII character in lower case.
pub open spec fn ascii_lower(c: char) -> char {
    if 'A' <= c <= 'Z' {
        (c as u32 + 32) as char
    } else {
        c
    }
}

/// Whether a character is an ASCII character that is no capital letter.
pub open spec fn small_ascii(c: char) -> bool {
    (c as u32) < 128 && !('A' <= c <= 'Z')
}

/// Whether every character of `t` is one of `s`, or an ASCII character that is no capital
/// letter.
pub open spec fn made_of_small(t: Seq<char>, s: Seq<char>) -> bool {
    forall|i: int| 0 <= i < t.len() ==> s.contains(#[trigger] t[i]) || small_ascii(t[i])
}

/// Calls `str::to_lowercase`. In a text of ASCII characters the letters from A
/// to Z become those from a to z, and the rest stays. No letter from A to Z is left in
/// any text. What is in lower case stays as it is: so does any text that is made of
/// characters of the result and of ASCII characters other than the letters from A to Z.
/// The parts of a text on either side of a space are put in lower case each by itself,
/// since only a sigma looks at its neighbours, and only within its word. Left unsaid is
/// what becomes of other characters.
#[verifier::external_body]
pub(crate) fn lowercase(s: &str) -> (r: String)
    ensures
        r@ == lowered(s@),
        vstd::utf8::is_ascii_chars(s@) ==> r@ == s@.map_values(|c: char| ascii_lower(c)),
        forall|i: int| 0 <= i < r@.len() ==> !('A' <= #[trigger] r@[i] <= 'Z'),
        forall|t: Seq<char>| made_of_small(t, r@) ==> #[trigger] lowered(t) == t,
        forall|a: Seq<char>, b: Seq<char>|
            s@ == #[trigger] spaced(a, b) ==> r@ == spaced(lowered(a), lowered(b)),
{
    s.to_lowercase()
}

/// Whether a character is a letter or a numeral.
pub uninterp spec fn alphanumeric(c: char) -> bool;

/// Calls `char::is_alphanumeric`. Among the ASCII characters these are the
/// letters and the digits. Left unsaid is which other characters are.
pub assume_specification[ char::is_alphanumeric ](c: char) -> (r: bool)
    ensures
        r == alphanumeric(c),
        (c as u32) < 128 ==> r == ('a' <= c <= 'z' || 'A' <= c <= 'Z' || '0' <= c <= '9'),
;

// ---- Bytes ----

/// The bytes of a text in UTF-8.
pub open spec fn bytes_of(s: Seq<char>) -> Seq<u8> {
    vstd::utf8::encode_utf8(s)
}

/// Whether the characters of `s` can be parted at byte `i`.
pub open spec fn cut_at(s: Seq<char>, i: int) -> bool {
    vstd::utf8::is_char_boundary(bytes_of(s), i)
}

/// The text in the bytes of `s` from one index up to another.
pub open spec fn byte_slice(s: Seq<char>, from: int, to: int) -> Seq<char> {
    vstd::utf8::decode_utf8(bytes_of(s).subrange(from, to))
}

/// Whether there is a text in the bytes of `s` from one index up to another.
pub open spec fn sliceable(s: Seq<char>, from: int, to: int) -> bool {
    0 <= from <= to <= byte_len(s) && cut_at(s, from) && cut_at(s, to)
}

proof fn lemma_cut_prefix(b: Seq<u8>, i: int, j: int)
    requires
        vstd::utf8::valid_utf8(b),
        0 <= i <= j <= b.len(),
        vstd::utf8::is_char_boundary(b, i),
        vstd::utf8::is_char_boundary(b, j),
    ensures
        vstd::utf8::valid_utf8(b.subrange(i, b.len() as int)),
        vstd::utf8::is_char_boundary(b.subrange(i, b.len() as int), j - i),
    decreases b.len(),
{
    vstd::utf8::valid_utf8_split(b, i);
    if i == 0 {
        assert(b.subrange(0, b.len() as int) =~= b);
    } else {
        let rest = vstd::utf8::pop_first_scalar(b);
        let n = vstd::utf8::length_of_first_scalar(b);
        assert(b.len() > 0);
        lemma_cut_prefix(rest, i - n, j - n);
        assert(rest.subrange(i - n, rest.len() as int) =~= b.subrange(i, b.len() as int));
    }
}

/// The text in the bytes of `s` from one index up to another, where there is one.
pub fn slice_bytes<'a>(s: &'a str, from: usize, to: usize) -> (r: Option<&'a str>)
    ensures
        r is Some <==> sliceable(s@, from as int, to as int),
        r is Some ==> r->0@ == byte_slice(s@, from as int, to as int),
{
    let size: usize = s.as_bytes().len();
    if from > to || to > size {
        return None;
    }
    if !s.is_char_boundary(from) || !s.is_char_boundary(to) {
        return None;
    }
    let rest = s.split_at(from).1;
    proof {
        vstd::utf8::encode_utf8_valid_utf8(s@);
        lemma_cut_prefix(bytes_of(s@), from as int, to as int);
    }
    let found = rest.split_at(to - from).0;
    proof {
        assert(bytes_of(found@) =~= bytes_of(s@).subrange(from as int, to as int));
        vstd::utf8::encode_utf8_decode_utf8(found@);
    }
    Some(found)
}

/// Taking a character out leaves all others in their order.
pub proof fn dropping_leaves_the_others(s: Seq<char>, c: char)
    ensures
        dropped(s, c) == s.filter(|x: char| x != c),
        !dropped(s, c).contains(c),
    decreases s.len(),
{
    reveal(Seq::filter);
    if s.len() > 0 {
        dropping_leaves_the_others(s.drop_last(), c);
        let t = dropped(s.drop_last(), c);
        if s.last() != c && dropped(s, c).contains(c) {
            let i = choose|i: int| 0 <= i < t.push(s.last()).len() && t.push(s.last())[i] == c;
            assert(t[i] == c);
            assert(t.contains(c));
        }
    }
}

/// Making a character another one changes it wherever it stands, and nothing else.
pub proof fn swapping_changes_one_character(s: Seq<char>, a: char, b: char, i: int)
    requires
        0 <= i < s.len(),
    ensures
        swapped(s, a, b).len() == s.len(),
        s[i] == a ==> swapped(s, a, b)[i] == b,
        s[i] != a ==> swapped(s, a, b)[i] == s[i],
{
}

/// A text without the white space around it is what is left of it between two stretches of
/// white space, and begins and ends with none.
pub proof fn trimming_takes_white_space_off(s: Seq<char>)
    ensures
        ({
            let t = trimmed(s);
            &&& exists|i: int|
                0 <= i && i + t.len() <= s.len() && #[trigger] s.subrange(i, i + t.len()) == t && (
                forall|j: int| 0 <= j < i ==> space(#[trigger] s[j])) && (forall|j: int|
                    i + t.len() <= j < s.len() ==> space(#[trigger] s[j]))
            &&& t.len() > 0 ==> !space(t[0]) && !space(t.last())
        }),
{
    let h = trimmed_start(s);
    let t = trimmed(s);
    lemma_trimmed_start(s);
    lemma_trimmed_end(h);
    let i = s.len() - h.len();
    assert(s.subrange(i, i + t.len()) =~= t);
    assert forall|j: int| i + t.len() <= j < s.len() implies space(#[trigger] s[j]) by {
        assert(h[j - i] == s[j]);
    }
    if t.len() > 0 {
        assert(t[0] == h[0]);
    }
}

proof fn lemma_trimmed_start(s: Seq<char>)
    ensures
        ({
            let h = trimmed_start(s);
            &&& h.len() <= s.len()
            &&& h == s.skip(s.len() - h.len())
            &&& forall|j: int| 0 <= j < s.len() - h.len() ==> space(#[trigger] s[j])
            &&& h.len() > 0 ==> !space(h[0])
        }),
    decreases s.len(),
{
    let h = trimmed_start(s);
    if s.len() > 0 && space(s[0]) {
        let t = s.skip(1);
        lemma_trimmed_start(t);
        assert(h =~= s.skip(s.len() - h.len()));
        assert forall|j: int| 0 <= j < s.len() - h.len() implies space(#[trigger] s[j]) by {
            if j > 0 {
                assert(t[j - 1] == s[j]);
            }
        }
    } else {
        assert(h =~= s.skip(0));
    }
}

proof fn lemma_trimmed_end(s: Seq<char>)
    ensures
        ({
            let h = trimmed_end(s);
            &&& h.len() <= s.len()
            &&& h == s.take(h.len() as int)
            &&& forall|j: int| h.len() <= j < s.len() ==> space(#[trigger] s[j])
            &&& h.len() > 0 ==> !space(h.last())
        }),
    decreases s.len(),
{
    let h = trimmed_end(s);
    if s.len() > 0 && space(s.last()) {
        let t = s.drop_last();
        lemma_trimmed_end(t);
        assert(h =~= s.take(h.len() as int));
        assert forall|j: int| h.len() <= j < s.len() implies space(#[trigger] s[j]) by {
            if j < t.len() {
                assert(t[j] == s[j]);
            }
        }
    } else {
        assert(h =~= s.take(s.len() as int));
    }
}

/// Of the characters of ASCII, those for white space are the space and the five from the tab
/// to the carriage return.
pub proof fn white_space_of_ascii(c: char)
    requires
        c <= '\u{7f}',
    ensures
        space(c) <==> c == ' ' || c == '\t' || c == '\n' || c == '\u{b}' || c == '\u{c}' || c
            == '\r',
{
}

/// What stands before the first of a character holds none of it and is followed by it.
pub proof fn heads_end_at_the_first(s: Seq<char>, c: char)
    ensures
        up_to(s, c).is_prefix_of(s),
        !up_to(s, c).contains(c),
        up_to(s, c).len() < s.len() ==> s[up_to(s, c).len() as int] == c,
    decreases s.len(),
{
    let h = up_to(s, c);
    if s.len() > 0 && s[0] != c {
        let t = s.skip(1);
        heads_end_at_the_first(t, c);
        let g = up_to(t, c);
        assert(h =~= s.take(h.len() as int)) by {
            assert forall|i: int| 0 <= i < h.len() implies h[i] == s[i] by {
                if i > 0 {
                    assert(g[i - 1] == t.take(g.len() as int)[i - 1]);
                }
            }
        }
        if h.contains(c) {
            let i = choose|i: int| 0 <= i < h.len() && h[i] == c;
            assert(g[i - 1] == c);
        }
    } else {
        assert(h =~= s.take(0));
    }
}

/// A text that holds another is what stands before the first of it, that, and what stands
/// after it.
pub proof fn texts_are_parted_at_the_first(s: Seq<char>, n: Seq<char>)
    ensures
        has(s, n) <==> exists|i: int|
            0 <= i && i + n.len() <= s.len() && #[trigger] s.subrange(i, i + n.len()) == n,
        has(s, n) <==> after(s, n) is Some,
        has(s, n) <==> before(s, n) is Some,
        has(s, n) ==> s == before(s, n)->0 + n + after(s, n)->0,
        has(s, n) ==> forall|i: int|
            0 <= i < before(s, n)->0.len() ==> #[trigger] s.subrange(i, i + n.len()) != n,
{
    lemma_position(s, n, 0);
    if has(s, n) {
        let i = position(s, n, 0)->0;
        assert(s.subrange(i, i + n.len()) == n);
        assert(s =~= s.take(i) + s.subrange(i, i + n.len()) + s.skip(i + n.len()));
        assert forall|j: int| 0 <= j < i implies #[trigger] s.subrange(j, j + n.len()) != n by {
            assert(!occurs_at(s, n, j));
        }
    } else {
        assert forall|i: int| 0 <= i && i + n.len() <= s.len() implies #[trigger] s.subrange(
            i,
            i + n.len(),
        ) != n by {
            assert(!occurs_at(s, n, i));
        }
    }
}

/// The pieces of a text hold none of the character between them, and make up the text again
/// with it.
pub proof fn pieces_make_up_the_text(s: Seq<char>, c: char)
    ensures
        joined(pieces(s, c), seq![c]) == s,
        forall|i: int| 0 <= i < pieces(s, c).len() ==> !(#[trigger] pieces(s, c)[i]).contains(c),
    decreases s.len(),
{
    let p = pieces(s, c);
    if s.len() == 0 {
        assert(p =~= seq![Seq::<char>::empty()]);
        assert(joined(p, seq![c]) =~= s);
    } else {
        let t = s.drop_last();
        let q = pieces(t, c);
        pieces_make_up_the_text(t, c);
        let done = piece_scan(t, c).done;
        let open = piece_scan(t, c).open;
        assert(q =~= done.push(open));
        assert(q.drop_last() =~= done);
        if s.last() == c {
            assert(p =~= q.push(Seq::empty()));
            assert(p.drop_last() =~= q);
            assert(joined(p, seq![c]) == joined(q, seq![c]) + seq![c] + Seq::<char>::empty());
            assert(joined(p, seq![c]) =~= s);
            assert forall|i: int| 0 <= i < p.len() implies !(#[trigger] p[i]).contains(c) by {
                if i < q.len() {
                    assert(p[i] == q[i]);
                }
            }
        } else {
            let grown = open.push(s.last());
            assert(p =~= done.push(grown));
            assert(p.drop_last() =~= done);
            assert(q.last() == open);
            assert(q[done.len() as int] == open);
            if done.len() == 0 {
                assert(joined(p, seq![c]) == p[0]);
                assert(joined(q, seq![c]) == q[0]);
            } else {
                assert(joined(p, seq![c]) == joined(done, seq![c]) + seq![c] + grown);
                assert(joined(q, seq![c]) == joined(done, seq![c]) + seq![c] + open);
            }
            assert(joined(p, seq![c]) =~= joined(q, seq![c]).push(s.last()));
            assert(joined(p, seq![c]) =~= s);
            assert forall|i: int| 0 <= i < p.len() implies !(#[trigger] p[i]).contains(c) by {
                if i < done.len() {
                    assert(p[i] == q[i]);
                } else if grown.contains(c) {
                    let k = choose|k: int| 0 <= k < grown.len() && grown[k] == c;
                    assert(open[k] == c);
                    assert(open.contains(c));
                }
            }
        }
    }
}

/// A number is written in digits that stand for it, without a zero before them.
pub proof fn numbers_are_written_in_digits(n: nat)
    ensures
        all_digits(number_text(n)),
        number_value(number_text(n)) == n,
        number_text(n).len() > 0,
        n >= 10 ==> number_text(n)[0] != '0',
        parsed_number(number_text(n), n) == Some(n),
    decreases n,
{
    let t = number_text(n);
    lemma_digit_char(n % 10);
    if n < 10 {
        assert(t =~= seq![digit_char(n)]);
        assert(t.drop_last() =~= Seq::empty());
        assert(number_value(Seq::<char>::empty()) == 0);
        lemma_digit_char(n);
        assert(t.last() == digit_char(n));
    } else {
        numbers_are_written_in_digits(n / 10);
        let h = number_text(n / 10);
        assert(t.drop_last() =~= h);
        assert(t[0] == h[0]);
        if n / 10 < 10 {
            lemma_digit_char(n / 10);
        }
        assert forall|i: int| 0 <= i < t.len() implies digit(#[trigger] t[i]) by {
            if i < h.len() {
                assert(t[i] == h[i]);
            }
        }
    }
    assert(digit(t[0]));
}

proof fn lemma_digit_char(d: nat)
    requires
        d < 10,
    ensures
        digit(digit_char(d)),
        digit_char(d) as nat == d + 48,
        d > 0 ==> digit_char(d) != '0',
{
}

/// A text without another is left as it is, and one that begins with another begins with what
/// it is replaced by.
pub proof fn replacing_changes_what_is_found(s: Seq<char>, n: Seq<char>, by: Seq<char>)
    requires
        n.len() > 0,
    ensures
        !(has(s, n)) ==> replaced(s, n, by) == s,
        replaced(n + s, n, by) == by + replaced(s, n, by),
    decreases s.len(),
{
    assert((n + s).subrange(0, n.len() as int) =~= n);
    assert(occurs_at(n + s, n, 0));
    assert((n + s).skip(n.len() as int) =~= s);
    if !(has(s, n)) {
        lemma_position(s, n, 0);
        if s.len() >= n.len() {
            assert(!occurs_at(s, n, 0));
            let t = s.skip(1);
            if has(t, n) {
                lemma_position(t, n, 0);
                let i = position(t, n, 0)->0;
                assert(s.subrange(i + 1, i + 1 + n.len()) =~= t.subrange(i, i + n.len()));
                assert(occurs_at(s, n, i + 1));
            }
            replacing_changes_what_is_found(t, n, by);
            assert(seq![s[0]] + t =~= s);
        }
    }
}

} // verus!
