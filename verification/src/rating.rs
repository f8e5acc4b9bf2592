//! Ratings in texts.

use vstd::prelude::*;

use crate::decimal;
use crate::decimal::Decimal;
use crate::text;

verus! {

/// The most digits of a rating that are read.
pub const MAX_DIGITS: usize = 28;

/// The largest exponent that is told apart from larger ones.
pub const MAX_EXPONENT: u64 = 1000;

/// The first index at or after `i` at which one of two characters stands in `s`, or its
/// length.
pub open spec fn mark(s: Seq<char>, a: char, b: char, i: int) -> int
    decreases s.len() - i,
{
    if i < 0 || i >= s.len() {
        s.len() as int
    } else if s[i] == a || s[i] == b {
        i
    } else {
        mark(s, a, b, i + 1)
    }
}

/// Whether a text starts with a sign.
pub open spec fn is_signed(s: Seq<char>) -> bool {
    s.len() > 0 && (s[0] == '+' || s[0] == '-')
}

/// A text without a sign at its start.
pub open spec fn bare(s: Seq<char>) -> Seq<char> {
    if is_signed(s) {
        s.skip(1)
    } else {
        s
    }
}

/// A number with the sign that a text starts with.
pub open spec fn with_sign(s: Seq<char>, n: int) -> int {
    if is_signed(s) && s[0] == '-' {
        -n
    } else {
        n
    }
}

/// The smaller of two numbers.
pub open spec fn smaller(a: int, b: int) -> int {
    if a <= b {
        a
    } else {
        b
    }
}

/// The exponent that a text stands for: a sign or none, and digits.
pub open spec fn exponent(s: Seq<char>) -> Option<int> {
    if bare(s).len() > 0 && text::all_digits(bare(s)) {
        Some(with_sign(s, smaller(text::number_value(bare(s)) as int, MAX_EXPONENT as int)))
    } else {
        None
    }
}

/// What stands before the exponent of a number without a sign.
pub open spec fn head(t: Seq<char>) -> Seq<char> {
    t.take(mark(t, 'e', 'E', 0))
}

/// The exponent of a number without a sign, which is nothing where it has none.
pub open spec fn power(t: Seq<char>) -> Option<int> {
    let e = mark(t, 'e', 'E', 0);
    if e < t.len() {
        exponent(t.skip(e + 1))
    } else {
        Some(0)
    }
}

/// What stands before the point.
pub open spec fn whole(m: Seq<char>) -> Seq<char> {
    m.take(mark(m, '.', '.', 0))
}

/// A text without the zeros at its start.
pub open spec fn stripped(s: Seq<char>) -> Seq<char>
    decreases s.len(),
{
    if s.len() > 0 && s[0] == '0' {
        stripped(s.skip(1))
    } else {
        s
    }
}

/// The digits before the point that count.
pub open spec fn leading(m: Seq<char>) -> Seq<char> {
    stripped(whole(m))
}

/// What stands behind the point.
pub open spec fn fraction(m: Seq<char>) -> Seq<char> {
    let p = mark(m, '.', '.', 0);
    if p < m.len() {
        m.skip(p + 1)
    } else {
        Seq::empty()
    }
}

/// The first digits behind the point, as many as are read beside those before it.
pub open spec fn kept(m: Seq<char>) -> Seq<char> {
    fraction(m).take(smaller(fraction(m).len() as int, MAX_DIGITS - leading(m).len()))
}

/// The amount `n / 10^places`, cut off behind the last decimal place that it could have,
/// where it can be held.
pub open spec fn placed(s: Seq<char>, n: int, places: int) -> Option<Decimal> {
    if places > decimal::MAX_SCALE {
        Some(
            decimal::dec(
                with_sign(s, n / decimal::pow10((places - decimal::MAX_SCALE) as nat) as int),
                decimal::MAX_SCALE as nat,
            ),
        )
    } else if places >= 0 {
        Some(decimal::dec(with_sign(s, n), places as nat))
    } else if n * decimal::pow10((-places) as nat) <= decimal::MAX_MANTISSA {
        Some(decimal::dec(with_sign(s, n * decimal::pow10((-places) as nat)), 0))
    } else {
        None
    }
}

/// The rating that a text stands for: a sign or none, digits with or without a point
/// among them, and an exponent or none. There is none where more digits before the point
/// count than are read, or the amount is too large to be held.
pub open spec fn rating(s: Seq<char>) -> Option<Decimal> {
    let t = bare(s);
    let m = head(t);
    match power(t) {
        Some(x) => if text::all_digits(whole(m)) && text::all_digits(fraction(m)) && whole(m).len()
            + fraction(m).len() > 0 && leading(m).len() <= MAX_DIGITS {
            placed(s, text::number_value(leading(m) + kept(m)) as int, kept(m).len() - x)
        } else {
            None
        },
        None => None,
    }
}

fn find_mark(v: &Vec<char>, a: char, b: char) -> (r: usize)
    ensures
        r == mark(v@, a, b, 0),
        r <= v@.len(),
{
    let mut i: usize = 0;
    while i < v.len() && v[i] != a && v[i] != b
        invariant
            i <= v@.len(),
            mark(v@, a, b, 0) == mark(v@, a, b, i as int),
        decreases v@.len() - i,
    {
        i = i + 1;
    }
    i
}

fn part(v: &Vec<char>, from: usize, to: usize) -> (r: Vec<char>)
    requires
        from <= to <= v@.len(),
    ensures
        r@ == v@.subrange(from as int, to as int),
{
    let mut out: Vec<char> = Vec::new();
    let mut i: usize = from;
    while i < to
        invariant
            from <= i <= to <= v@.len(),
            out@ == v@.subrange(from as int, i as int),
        decreases to - i,
    {
        out.push(v[i]);
        i = i + 1;
        assert(out@ =~= v@.subrange(from as int, i as int));
    }
    out
}

fn without_sign(v: &Vec<char>) -> (r: Vec<char>)
    ensures
        r@ == bare(v@),
{
    if v.len() > 0 && (v[0] == '+' || v[0] == '-') {
        assert(v@.subrange(1, v@.len() as int) =~= v@.skip(1));
        part(v, 1, v.len())
    } else {
        assert(v@.subrange(0, v@.len() as int) =~= v@);
        part(v, 0, v.len())
    }
}

fn without_zeros(v: &Vec<char>) -> (r: Vec<char>)
    ensures
        r@ == stripped(v@),
        text::all_digits(v@) ==> text::all_digits(r@),
{
    let mut i: usize = 0;
    assert(v@.skip(0) =~= v@);
    while i < v.len() && v[i] == '0'
        invariant
            i <= v@.len(),
            stripped(v@) == stripped(v@.skip(i as int)),
        decreases v@.len() - i,
    {
        assert(v@.skip(i as int).skip(1) =~= v@.skip(i + 1));
        i = i + 1;
    }
    assert(v@.subrange(i as int, v@.len() as int) =~= v@.skip(i as int));
    part(v, i, v.len())
}

fn is_number(v: &Vec<char>) -> (r: bool)
    ensures
        r == text::all_digits(v@),
{
    let mut i: usize = 0;
    while i < v.len()
        invariant
            i <= v@.len(),
            forall|k: int| 0 <= k < i ==> text::digit(#[trigger] v@[k]),
        decreases v@.len() - i,
    {
        if v[i] < '0' || v[i] > '9' {
            assert(!text::digit(v@[i as int]));
            return false;
        }
        i = i + 1;
    }
    true
}

proof fn lemma_value_grows(s: Seq<char>, i: int)
    requires
        0 <= i <= s.len(),
        text::all_digits(s),
    ensures
        text::number_value(s.take(i)) <= text::number_value(s),
    decreases s.len(),
{
    if i == s.len() {
        assert(s.take(i) =~= s);
    } else {
        assert(s.drop_last().take(i) =~= s.take(i));
        lemma_value_grows(s.drop_last(), i);
    }
}

/// The number that some digits stand for, up to a limit.
fn value_up_to(v: &Vec<char>, max: u128) -> (r: u128)
    requires
        text::all_digits(v@),
        max <= decimal::MAX_MANTISSA,
    ensures
        r == smaller(text::number_value(v@) as int, max as int),
{
    let mut n: u128 = 0;
    let mut i: usize = 0;
    while i < v.len()
        invariant
            i <= v@.len(),
            n <= max <= decimal::MAX_MANTISSA,
            text::all_digits(v@),
            n == text::number_value(v@.take(i as int)),
        decreases v@.len() - i,
    {
        assert(text::digit(v@[i as int]));
        let value: u128 = (v[i] as u32 - 48) as u128;
        assert(v@.take(i + 1).drop_last() =~= v@.take(i as int));
        assert(text::number_value(v@.take(i + 1)) == 10 * n + value);
        let next: u128 = n * 10 + value;
        if next >= max {
            proof {
                lemma_value_grows(v@, i + 1);
            }
            return max;
        }
        n = next;
        i = i + 1;
    }
    assert(v@.take(i as int) =~= v@);
    n
}

proof fn lemma_value_bound(s: Seq<char>)
    requires
        text::all_digits(s),
    ensures
        text::number_value(s) < decimal::pow10(s.len()),
    decreases s.len(),
{
    if s.len() > 0 {
        lemma_value_bound(s.drop_last());
        assert(text::digit(s[s.len() - 1]));
    }
}

proof fn lemma_digits_fit(s: Seq<char>)
    requires
        text::all_digits(s),
        s.len() <= MAX_DIGITS,
    ensures
        text::number_value(s) < decimal::MAX_MANTISSA,
{
    lemma_value_bound(s);
    decimal::lemma_pow10_sum(s.len(), (28 - s.len()) as nat);
    decimal::lemma_pow10_positive((28 - s.len()) as nat);
    assert(decimal::pow10(7) == 10_000_000) by {
        reveal_with_fuel(decimal::pow10, 8);
    }
    decimal::lemma_pow10_sum(7, 7);
    assert(decimal::pow10(14) == 100_000_000_000_000);
    decimal::lemma_pow10_sum(14, 14);
    let (x, y) = (decimal::pow10(s.len()) as int, decimal::pow10((28 - s.len()) as nat) as int);
    assert(x <= x * y) by (nonlinear_arith)
        requires
            x >= 0,
            y >= 1,
    ;
    assert(decimal::pow10(28) == 10_000_000_000_000_000_000_000_000_000int);
}

fn signed(v: &Vec<char>, n: u128) -> (r: i128)
    requires
        n <= decimal::MAX_MANTISSA,
    ensures
        r == with_sign(v@, n as int),
        -decimal::MAX_MANTISSA <= r <= decimal::MAX_MANTISSA,
{
    if v.len() > 0 && v[0] == '-' {
        -(n as i128)
    } else {
        n as i128
    }
}

fn place(v: &Vec<char>, n: u128, places: i64) -> (r: Option<Decimal>)
    requires
        n <= decimal::MAX_MANTISSA,
        -2000 <= places <= 2000,
    ensures
        r == placed(v@, n as int, places as int),
{
    if places > 28 {
        let by: i64 = places - 28;
        let mut q: u128 = n;
        let mut k: i64 = 0;
        assert(n as int / 1 == n);
        while k < by
            invariant
                0 <= k <= by <= 2000,
                q == n as int / decimal::pow10(k as nat) as int,
            decreases by - k,
        {
            proof {
                decimal::lemma_pow10_positive(k as nat);
                vstd::arithmetic::div_mod::lemma_div_denominator(
                    n as int,
                    decimal::pow10(k as nat) as int,
                    10,
                );
                assert(decimal::pow10(k as nat) * 10 == decimal::pow10((k + 1) as nat));
            }
            q = q / 10;
            k = k + 1;
        }
        proof {
            decimal::lemma_pow10_positive(by as nat);
            assert(q <= n) by (nonlinear_arith)
                requires
                    q == n as int / decimal::pow10(by as nat) as int,
                    decimal::pow10(by as nat) > 0,
            ;
        }
        return Decimal::from_parts(signed(v, q), 28);
    }
    if places >= 0 {
        return Decimal::from_parts(signed(v, n), places as u32);
    }
    let by: i64 = -places;
    let max: u128 = decimal::MAX_MANTISSA as u128;
    let mut m: u128 = n;
    let mut k: i64 = 0;
    while k < by
        invariant
            0 <= k <= by <= 2000,
            by == -places,
            max == decimal::MAX_MANTISSA,
            m <= max,
            m == n * decimal::pow10(k as nat),
        decreases by - k,
    {
        let grown: u128 = m * 10;
        proof {
            let p = decimal::pow10(k as nat) as int;
            assert(decimal::pow10((k + 1) as nat) == 10 * p);
            assert(n * (10 * p) == 10 * (n * p)) by (nonlinear_arith);
        }
        if grown > max {
            proof {
                decimal::lemma_pow10_sum((k + 1) as nat, (by - k - 1) as nat);
                decimal::lemma_pow10_positive((by - k - 1) as nat);
                let (p, c) = (
                    decimal::pow10((k + 1) as nat) as int,
                    decimal::pow10((by - k - 1) as nat) as int,
                );
                assert(n * (p * c) >= n * p) by (nonlinear_arith)
                    requires
                        n >= 0,
                        p >= 0,
                        c >= 1,
                ;
            }
            return None;
        }
        m = grown;
        k = k + 1;
    }
    Decimal::from_parts(signed(v, m), 0)
}

fn read_exponent(v: &Vec<char>) -> (r: Option<i64>)
    ensures
        match r {
            Some(x) => exponent(v@) == Some(x as int) && -MAX_EXPONENT <= x <= MAX_EXPONENT,
            None => exponent(v@) is None,
        },
{
    let digits = without_sign(v);
    if digits.len() == 0 || !is_number(&digits) {
        return None;
    }
    let n: u128 = value_up_to(&digits, MAX_EXPONENT as u128);
    Some(signed(v, n) as i64)
}

/// The rating that a text stands for.
pub fn read_rating(s: &str) -> (r: Option<Decimal>)
    ensures
        r == rating(s@),
{
    let v = text::chars_of(s);
    let t = without_sign(&v);
    let e: usize = find_mark(&t, 'e', 'E');
    let m = part(&t, 0, e);
    assert(m@ =~= head(t@));
    let x: i64 = if e < t.len() {
        let tail = part(&t, e + 1, t.len());
        assert(tail@ =~= t@.skip(e + 1));
        match read_exponent(&tail) {
            Some(x) => x,
            None => {
                return None;
            },
        }
    } else {
        0
    };
    let p: usize = find_mark(&m, '.', '.');
    let before = part(&m, 0, p);
    assert(before@ =~= whole(m@));
    let behind = if p < m.len() {
        part(&m, p + 1, m.len())
    } else {
        Vec::new()
    };
    assert(behind@ =~= fraction(m@));
    if !is_number(&before) || !is_number(&behind) || (before.len() == 0 && behind.len() == 0) {
        return None;
    }
    let counting = without_zeros(&before);
    if counting.len() > MAX_DIGITS {
        return None;
    }
    let room: usize = MAX_DIGITS - counting.len();
    let count: usize = if behind.len() <= room {
        behind.len()
    } else {
        room
    };
    let cut = part(&behind, 0, count);
    assert(cut@ =~= kept(m@));
    let mut digits: Vec<char> = counting;
    let ghost first = digits@;
    let mut i: usize = 0;
    while i < cut.len()
        invariant
            i <= cut@.len(),
            digits@ == first + cut@.take(i as int),
        decreases cut@.len() - i,
    {
        digits.push(cut[i]);
        i = i + 1;
        assert(digits@ =~= first + cut@.take(i as int));
    }
    assert(digits@ =~= leading(m@) + kept(m@));
    assert(text::all_digits(digits@)) by {
        assert forall|k: int| 0 <= k < digits@.len() implies text::digit(#[trigger] digits@[k]) by {
            if k < first.len() {
                assert(text::digit(leading(m@)[k]));
            } else {
                assert(text::digit(fraction(m@)[k - first.len()]));
            }
        }
    }
    proof {
        lemma_digits_fit(digits@);
    }
    let n: u128 = value_up_to(&digits, decimal::MAX_MANTISSA as u128);
    place(&v, n, cut.len() as i64 - x)
}

/// Digits with a point between them, at most 28 in all, stand for the number that they spell,
/// with as many decimal places as there are digits behind the point, and for what is less
/// than nothing behind a minus sign.
pub proof fn ratings_are_what_digits_spell(w: Seq<char>, f: Seq<char>)
    requires
        text::all_digits(w),
        text::all_digits(f),
        0 < w.len() + f.len() <= 28,
    ensures
        rating(w + seq!['.'] + f) == Some(
            decimal::dec(text::number_value(w + f) as int, f.len()),
        ),
        rating(seq!['-'] + (w + seq!['.'] + f)) == Some(
            decimal::dec(-text::number_value(w + f), f.len()),
        ),
{
    let t = w + seq!['.'] + f;
    let s = seq!['-'] + t;
    assert forall|i: int| 0 <= i < t.len() implies #[trigger] t[i] == '.' || text::digit(t[i]) by {
        if i < w.len() {
            assert(t[i] == w[i]);
        } else if i > w.len() {
            assert(t[i] == f[i - w.len() - 1]);
        }
    }
    assert(s.skip(1) =~= t);
    lemma_no_mark(t, 'e', 'E', 0);
    assert(t.take(t.len() as int) =~= t);
    lemma_mark_at(t, '.', w.len() as int, 0);
    assert(whole(t) =~= w);
    assert(fraction(t) =~= f);
    lemma_stripped(w, f);
    assert(f.take(f.len() as int) =~= f);
    assert(kept(t) =~= f);
    assert(head(t) == t);
    assert(power(t) == Some(0int));
    assert(!is_signed(t)) by {
        assert(t[0] == '.' || text::digit(t[0]));
    }
    assert(bare(t) == t);
    assert(bare(s) == t);
}

proof fn lemma_no_mark(s: Seq<char>, a: char, b: char, i: int)
    requires
        0 <= i <= s.len(),
        forall|j: int| i <= j < s.len() ==> #[trigger] s[j] != a && s[j] != b,
    ensures
        mark(s, a, b, i) == s.len(),
    decreases s.len() - i,
{
    if i < s.len() {
        lemma_no_mark(s, a, b, i + 1);
    }
}

proof fn lemma_mark_at(s: Seq<char>, a: char, k: int, i: int)
    requires
        0 <= i <= k < s.len(),
        s[k] == a,
        forall|j: int| i <= j < k ==> #[trigger] s[j] != a,
    ensures
        mark(s, a, a, i) == k,
    decreases k - i,
{
    if i < k {
        lemma_mark_at(s, a, k, i + 1);
    }
}

proof fn lemma_zero_before(s: Seq<char>)
    ensures
        text::number_value(seq!['0'] + s) == text::number_value(s),
    decreases s.len(),
{
    let t = seq!['0'] + s;
    if s.len() == 0 {
        assert(t.drop_last() =~= Seq::empty());
        assert(t.last() == '0');
        assert(text::number_value(Seq::<char>::empty()) == 0);
    } else {
        lemma_zero_before(s.drop_last());
        assert(t.drop_last() =~= seq!['0'] + s.drop_last());
        assert(t.last() == s.last());
    }
}

proof fn lemma_stripped(w: Seq<char>, f: Seq<char>)
    requires
        text::all_digits(w),
    ensures
        text::number_value(stripped(w) + f) == text::number_value(w + f),
        stripped(w).len() <= w.len(),
        text::all_digits(stripped(w)),
    decreases w.len(),
{
    if w.len() > 0 && w[0] == '0' {
        let t = w.skip(1);
        assert forall|i: int| 0 <= i < t.len() implies text::digit(#[trigger] t[i]) by {
            assert(t[i] == w[i + 1]);
        }
        lemma_stripped(t, f);
        lemma_zero_before(t + f);
        assert(w + f =~= seq!['0'] + (t + f));
    }
}

} // verus!
