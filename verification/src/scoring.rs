//! How well an offer fits a search.
//!
//! A score is a number of quintillionths, from none to `ONE`. Three signals make it
//! up: where in the title the words of the search stand, where the price lies
//! among the prices found, and how alike title and search are.

use vstd::prelude::*;

use crate::decimal;
use crate::decimal::Decimal;
use crate::order;
use crate::text;

verus! {

/// The whole, in quintillionths.
pub const ONE: u64 = 1_000_000_000_000_000_000;

/// The least score of an offer that is kept.
pub const RELEVANT_THRESHOLD: u64 = 400_000_000_000_000_000;

/// The least score of a product whose prices are looked up.
pub const KEEPA_CANDIDATE_THRESHOLD: u64 = 500_000_000_000_000_000;

/// How many quintillionths the higher part of a ratio counts.
pub const RATIO_STEP: u128 = 10_000_000_000_000_000_000_000_000_000_000_000_000;

// ---- Ratios ----

/// The smaller of two numbers.
pub open spec fn least(a: int, b: int) -> int {
    if a <= b {
        a
    } else {
        b
    }
}

/// The larger of two numbers.
pub open spec fn most(a: int, b: int) -> int {
    if a >= b {
        a
    } else {
        b
    }
}

/// `a` divided by `b` in quintillionths, rounded down.
pub open spec fn ratio(a: Decimal, b: Decimal) -> int {
    (a@.mantissa * decimal::pow10(b@.scale + 18)) / (b@.mantissa * decimal::pow10(a@.scale))
}

/// A ratio in quintillionths, in two parts.
#[derive(Clone, Copy, Debug)]
pub struct Ratio {
    high: u128,
    low: u128,
}

impl View for Ratio {
    type V = int;

    closed spec fn view(&self) -> int {
        self.high * RATIO_STEP + self.low
    }
}

impl Ratio {
    #[verifier::type_invariant]
    spec fn in_parts(self) -> bool {
        self.low < RATIO_STEP
    }

    /// A ratio of some quintillionths.
    pub fn new(quintillionths: u128) -> (r: Ratio)
        ensures
            r@ == quintillionths,
    {
        Ratio { high: quintillionths / RATIO_STEP, low: quintillionths % RATIO_STEP }
    }

    /// The ratio in quintillionths, in steps of `RATIO_STEP` and what is left.
    pub fn parts(&self) -> (r: (u128, u128))
        ensures
            r.0 * RATIO_STEP + r.1 == self@,
            r.1 < RATIO_STEP,
    {
        proof {
            use_type_invariant(self);
        }
        (self.high, self.low)
    }

    /// The ratio in quintillionths, up to `RATIO_STEP`.
    pub fn capped(&self) -> (r: u128)
        ensures
            r == least(RATIO_STEP as int, self@),
    {
        proof {
            use_type_invariant(self);
        }
        if self.high > 0 {
            RATIO_STEP
        } else {
            self.low
        }
    }

    /// Whether this ratio is more than `other`.
    pub fn exceeds(&self, other: &Ratio) -> (r: bool)
        ensures
            r == (self@ > other@),
    {
        proof {
            use_type_invariant(self);
            use_type_invariant(other);
        }
        self.high > other.high || (self.high == other.high && self.low > other.low)
    }

    /// Ten times this ratio and a digit more.
    fn grown(&self, digit: u128) -> (r: Ratio)
        requires
            digit < 10,
            self@ <= 10_000_000_000_000_000_000_000_000_000_000_000_000 * RATIO_STEP,
        ensures
            r@ == self@ * 10 + digit,
    {
        proof {
            use_type_invariant(self);
        }
        let low: u128 = self.low * 10 + digit;
        Ratio { high: self.high * 10 + low / RATIO_STEP, low: low % RATIO_STEP }
    }
}

proof fn lemma_ratio_up(n: int, d: int, up: nat, down: nat, by: nat)
    requires
        n >= 0,
        d > 0,
        up == by + down,
    ensures
        (n * decimal::pow10(up)) / (d * decimal::pow10(down)) == (n * decimal::pow10(by)) / d,
{
    decimal::lemma_pow10_sum(by, down);
    decimal::lemma_pow10_positive(down);
    decimal::lemma_pow10_positive(by);
    let (b, c) = (decimal::pow10(by) as int, decimal::pow10(down) as int);
    let x = n * (b * c);
    assert(x == (n * b) * c) by (nonlinear_arith)
        requires
            x == n * (b * c),
    ;
    assert(x >= 0) by (nonlinear_arith)
        requires
            x == n * (b * c),
            n >= 0,
            b > 0,
            c > 0,
    ;
    vstd::arithmetic::div_mod::lemma_div_denominator(x, c, d);
    vstd::arithmetic::div_mod::lemma_div_by_multiple(n * b, c);
    assert(d * c == c * d) by (nonlinear_arith);
}

proof fn lemma_ratio_down(n: int, d: int, up: nat, down: nat, by: nat)
    requires
        n >= 0,
        d > 0,
        down == by + up,
    ensures
        (n * decimal::pow10(up)) / (d * decimal::pow10(down)) == (n / decimal::pow10(by) as int)
            / d,
{
    decimal::lemma_pow10_sum(by, up);
    decimal::lemma_pow10_positive(up);
    decimal::lemma_pow10_positive(by);
    let (b, c) = (decimal::pow10(by) as int, decimal::pow10(up) as int);
    assert(n * c >= 0) by (nonlinear_arith)
        requires
            n >= 0,
            c > 0,
    ;
    assert(b * d > 0) by (nonlinear_arith)
        requires
            b > 0,
            d > 0,
    ;
    vstd::arithmetic::div_mod::lemma_div_denominator(n * c, c, b * d);
    vstd::arithmetic::div_mod::lemma_div_by_multiple(n, c);
    vstd::arithmetic::div_mod::lemma_div_denominator(n, b, d);
    assert(d * (b * c) == c * (b * d)) by (nonlinear_arith);
}

proof fn lemma_one()
    ensures
        decimal::pow10(18) == ONE,
{
    assert(decimal::pow10(9) == 1_000_000_000) by {
        reveal_with_fuel(decimal::pow10, 10);
    }
    decimal::lemma_pow10_sum(9, 9);
    assert(decimal::pow10(18) == 1_000_000_000_000_000_000int);
}

proof fn lemma_pow10_45()
    ensures
        decimal::pow10(45) == 1_000_000_000_000_000_000_000_000_000_000_000_000_000_000_000int,
{
    assert(decimal::pow10(10) == 10_000_000_000 && decimal::pow10(5) == 100_000) by {
        reveal_with_fuel(decimal::pow10, 11);
    }
    decimal::lemma_pow10_sum(10, 10);
    assert(decimal::pow10(20) == 100_000_000_000_000_000_000int);
    decimal::lemma_pow10_sum(20, 20);
    assert(decimal::pow10(40) == 10_000_000_000_000_000_000_000_000_000_000_000_000_000int);
    decimal::lemma_pow10_sum(5, 40);
}

proof fn lemma_ratio_room(n: int, d: int, q: int, rest: int, k: nat)
    requires
        0 <= n <= decimal::MAX_MANTISSA,
        d > 0,
        q >= 0,
        rest >= 0,
        k <= 45,
        n * decimal::pow10(k) == q * d + rest,
    ensures
        q <= 10_000_000_000_000_000_000_000_000_000_000_000_000 * RATIO_STEP,
{
    decimal::lemma_pow10_sum(k, (45 - k) as nat);
    decimal::lemma_pow10_positive((45 - k) as nat);
    lemma_pow10_45();
    let (p, c) = (decimal::pow10(k) as int, decimal::pow10((45 - k) as nat) as int);
    let all = decimal::pow10(45) as int;
    assert(p <= all) by (nonlinear_arith)
        requires
            p * c == all,
            c >= 1,
            p >= 0,
    ;
    let m = decimal::MAX_MANTISSA as int;
    assert(n * p <= m * all) by (nonlinear_arith)
        requires
            0 <= n <= m,
            0 <= p <= all,
    ;
    assert(q <= q * d) by (nonlinear_arith)
        requires
            q >= 0,
            d >= 1,
    ;
}

/// `a` divided by `b` in quintillionths.
pub fn ratio_between(a: &Decimal, b: &Decimal) -> (r: Ratio)
    requires
        a@.mantissa >= 0,
        b@.mantissa > 0,
    ensures
        r@ == ratio(*a, *b),
{
    let n: u128 = a.mantissa() as u128;
    let d: u128 = b.mantissa() as u128;
    let up: u32 = b.scale() + 18;
    let down: u32 = a.scale();
    if up < down {
        let mut q: u128 = n;
        let mut k: u32 = 0;
        let by: u32 = down - up;
        assert(n / 1 == n);
        while k < by
            invariant
                k <= by,
                q == n as int / decimal::pow10(k as nat) as int,
                n <= decimal::MAX_MANTISSA,
            decreases by - k,
        {
            proof {
                decimal::lemma_pow10_positive(k as nat);
                vstd::arithmetic::div_mod::lemma_div_denominator(
                    n as int,
                    decimal::pow10(k as nat) as int,
                    10,
                );
                assert(decimal::pow10(k as nat) * 10 == decimal::pow10((k + 1) as nat));
            }
            q = q / 10;
            k = k + 1;
        }
        proof {
            lemma_ratio_down(n as int, d as int, up as nat, down as nat, by as nat);
            decimal::lemma_pow10_positive(by as nat);
            assert(q <= n) by (nonlinear_arith)
                requires
                    q == n as int / decimal::pow10(by as nat) as int,
                    decimal::pow10(by as nat) > 0,
            ;
            assert(q / d <= q) by (nonlinear_arith)
                requires
                    d > 0,
                    q >= 0,
            ;
        }
        return Ratio::new(q / d);
    }
    let by: u32 = up - down;
    let mut q = Ratio::new(n / d);
    let mut rest: u128 = n % d;
    let mut k: u32 = 0;
    proof {
        let first = q@;
        assert(n * 1 == first * d + rest) by (nonlinear_arith)
            requires
                first == n / d,
                rest == n % d,
                d > 0,
        ;
    }
    while k < by
        invariant
            k <= by,
            d > 0,
            d <= decimal::MAX_MANTISSA,
            by == up - down,
            up >= down,
            n == a@.mantissa,
            d == b@.mantissa,
            up == b@.scale + 18,
            down == a@.scale,
            rest < d,
            by <= 46,
            n <= decimal::MAX_MANTISSA,
            q@ >= 0,
            n * decimal::pow10(k as nat) == q@ * d + rest,
        decreases by - k,
    {
        let next: u128 = (rest * 10) / d;
        let left: u128 = (rest * 10) % d;
        proof {
            assert(next < 10) by (nonlinear_arith)
                requires
                    next == (rest * 10) / d as int,
                    rest < d,
                    d > 0,
            ;
            lemma_ratio_room(n as int, d as int, q@, rest as int, k as nat);
        }
        let grown = q.grown(next);
        proof {
            let p = decimal::pow10(k as nat) as int;
            assert(decimal::pow10((k + 1) as nat) == 10 * p);
            let (x, y) = (q@, grown@);
            assert(n * (10 * p) == y * d + left) by (nonlinear_arith)
                requires
                    n * p == x * d + rest,
                    y == x * 10 + next,
                    next == (rest * 10) / d as int,
                    left == (rest * 10) % d as int,
                    d > 0,
            ;
        }
        q = grown;
        rest = left;
        k = k + 1;
    }
    proof {
        lemma_ratio_up(n as int, d as int, up as nat, down as nat, by as nat);
        vstd::arithmetic::div_mod::lemma_fundamental_div_mod_converse(
            n * decimal::pow10(by as nat),
            d as int,
            q@,
            rest as int,
        );
    }
    q
}

// ---- Prices ----

/// The amounts that are more than nothing.
pub open spec fn positives(v: Seq<Decimal>) -> Seq<Decimal>
    decreases v.len(),
{
    if v.len() == 0 {
        v
    } else if v.last()@.mantissa > 0 {
        positives(v.drop_last()).push(v.last())
    } else {
        positives(v.drop_last())
    }
}

/// The largest ratio between neighbours, and the index behind the first such gap.
pub struct Gap {
    pub ratio: int,
    pub at: int,
}

/// The widest of the gaps between the first `k` of some amounts.
pub open spec fn widest_gap(s: Seq<Decimal>, k: int) -> Gap
    decreases k,
{
    if k <= 1 {
        Gap { ratio: 0, at: 0 }
    } else if ratio(s[k - 1], s[k - 2]) > widest_gap(s, k - 1).ratio {
        Gap { ratio: ratio(s[k - 1], s[k - 2]), at: k - 1 }
    } else {
        widest_gap(s, k - 1)
    }
}

/// The score of a price that is a ratio of what is expected: the whole at the
/// expected price, three tenths less for each time that it is away from it, and
/// never less than half.
pub open spec fn nearness(r: int) -> int {
    most(
        ONE as int / 2,
        ONE - ((if r >= ONE {
            r - ONE
        } else {
            ONE - r
        }) * 3) / 10,
    )
}

/// The score of a price beside the price that the manufacturer asks: nothing below
/// a tenth of it, then rising to two fifths at 65 hundredths, then by nearness, and
/// two fifths above three times it.
pub open spec fn anchored_score(price: Decimal, msrp: Decimal) -> int {
    let r = ratio(price, msrp);
    if price@.mantissa <= 0 {
        300_000_000_000_000_000
    } else if r < 100_000_000_000_000_000 {
        0
    } else if r < 650_000_000_000_000_000 {
        ((r - 100_000_000_000_000_000) * 8) / 11
    } else if r <= 3 * ONE {
        nearness(r)
    } else {
        400_000_000_000_000_000
    }
}

/// Where the products begin among amounts in order: behind the widest gap, where
/// it is more than twofold and has three amounts behind it, or is more than
/// threefold.
pub open spec fn product_start(s: Seq<Decimal>) -> int {
    let gap = widest_gap(s, s.len() as int);
    if s.len() >= 4 && gap.ratio > 2 * ONE && (s.len() - gap.at >= 3 || gap.ratio > 3 * ONE) {
        gap.at
    } else {
        0
    }
}

/// The score of a price among amounts in order: by nearness to the middle one
/// within the products, and by its share of the nearest product outside.
pub open spec fn gapped_score(price: Decimal, s: Seq<Decimal>) -> int {
    let low = s[product_start(s)];
    let high = s.last();
    if price@.mantissa <= 0 {
        300_000_000_000_000_000
    } else if decimal::at_most(low, price) && decimal::at_most(price, high) {
        nearness(ratio(price, s[s.len() as int / 2]))
    } else if decimal::below(price, low) {
        least((ratio(price, low) * 4) / 10, 350_000_000_000_000_000)
    } else {
        most(300_000_000_000_000_000, least((ratio(high, price) * 7) / 10, 800_000_000_000_000_000))
    }
}

/// The amounts of which there is one to go by.
pub open spec fn anchor(msrp: Option<Decimal>) -> Option<Decimal> {
    match msrp {
        Some(m) => if m@.mantissa > 0 {
            Some(m)
        } else {
            None
        },
        None => None,
    }
}

/// The scores of some prices.
pub open spec fn cluster_scores(prices: Seq<Decimal>, msrp: Option<Decimal>) -> Seq<int> {
    let s = order::sorted(positives(prices), order::amount_order());
    if s.len() == 0 {
        Seq::new(prices.len(), |i: int| 500_000_000_000_000_000)
    } else {
        match anchor(msrp) {
            Some(m) => Seq::new(prices.len(), |i: int| anchored_score(prices[i], m)),
            None => Seq::new(prices.len(), |i: int| gapped_score(prices[i], s)),
        }
    }
}

/// How far apart the prices are: the widest gap where there are four of them, and
/// the whole otherwise.
pub open spec fn cluster_gap(prices: Seq<Decimal>, msrp: Option<Decimal>) -> int {
    let s = order::sorted(positives(prices), order::amount_order());
    if s.len() < 4 {
        ONE as int
    } else if anchor(msrp) is Some {
        most(ONE as int, widest_gap(s, s.len() as int).ratio)
    } else {
        widest_gap(s, s.len() as int).ratio
    }
}

/// Some scores as integers.
pub open spec fn score_views(v: Seq<u64>) -> Seq<int> {
    Seq::new(v.len(), |i: int| v[i] as int)
}

proof fn lemma_positives(v: Seq<Decimal>)
    ensures
        forall|i: int| 0 <= i < positives(v).len() ==> (#[trigger] positives(v)[i])@.mantissa > 0,
    decreases v.len(),
{
    if v.len() > 0 {
        let t = positives(v.drop_last());
        lemma_positives(v.drop_last());
        assert forall|i: int| 0 <= i < positives(v).len() implies (#[trigger] positives(
            v,
        )[i])@.mantissa > 0 by {
            if i < t.len() {
                assert(positives(v)[i] == t[i]);
            }
        }
    }
}

/// Whether some amounts are all more than nothing.
pub open spec fn all_positive(v: Seq<Decimal>) -> bool {
    forall|i: int| 0 <= i < v.len() ==> (#[trigger] v[i])@.mantissa > 0
}

proof fn lemma_sorted_positive(v: Seq<Decimal>)
    ensures
        all_positive(order::sorted(positives(v), order::amount_order())),
        order::sorted(positives(v), order::amount_order()).len() == positives(v).len(),
{
    let p = |d: Decimal| d@.mantissa > 0;
    let s = order::sorted(positives(v), order::amount_order());
    lemma_positives(v);
    assert forall|i: int| 0 <= i < positives(v).len() implies #[trigger] p(positives(v)[i]) by {}
    order::lemma_sorted_keeps(positives(v), order::amount_order(), p);
    assert forall|i: int| 0 <= i < s.len() implies (#[trigger] s[i])@.mantissa > 0 by {
        assert(p(s[i]));
    }
}

/// Whether none of some amounts is more than nothing.
pub open spec fn none_positive(v: Seq<Decimal>) -> bool {
    forall|i: int| 0 <= i < v.len() ==> (#[trigger] v[i])@.mantissa <= 0
}

proof fn lemma_no_positives(v: Seq<Decimal>)
    requires
        none_positive(v),
    ensures
        positives(v).len() == 0,
    decreases v.len(),
{
    if v.len() > 0 {
        assert forall|i: int| 0 <= i < v.drop_last().len() implies (#[trigger] v.drop_last()[i])@.mantissa
            <= 0 by {
            assert(v.drop_last()[i] == v[i]);
        }
        lemma_no_positives(v.drop_last());
        assert(v.last() == v[v.len() - 1]);
    }
}

proof fn lemma_gap_of_ordered(s: Seq<Decimal>, k: int)
    requires
        2 <= k <= s.len(),
        all_positive(s),
        order::ordered(s, order::amount_order()),
    ensures
        widest_gap(s, k).ratio >= ONE,
    decreases k,
{
    if k > 2 {
        lemma_gap_of_ordered(s, k - 1);
    } else {
        let (a, b) = (s[1], s[0]);
        assert(order::amount_order()(b, a));
        let (x, y) = (a@.mantissa, b@.mantissa);
        let (p, q) = (decimal::pow10(a@.scale) as int, decimal::pow10(b@.scale) as int);
        decimal::lemma_pow10_positive(a@.scale);
        decimal::lemma_pow10_positive(b@.scale);
        decimal::lemma_pow10_sum(b@.scale, 18);
        lemma_one();
        let o = decimal::pow10(18) as int;
        assert(o == ONE);
        assert(widest_gap(s, 1).ratio == 0);
        assert((x * (q * o)) / (y * p) >= o) by (nonlinear_arith)
            requires
                x > 0,
                y > 0,
                p > 0,
                q > 0,
                o > 0,
                y * p <= x * q,
        {
            let d = y * p;
            assert(d > 0);
            assert(x * (q * o) == (x * q) * o);
            assert((x * q) * o >= d * o);
            vstd::arithmetic::div_mod::lemma_div_is_ordered(d * o, (x * q) * o, d);
            vstd::arithmetic::div_mod::lemma_div_multiples_vanish(o, d);
            assert(d * o == o * d);
        }
    }
}

fn keep_positive(v: &[Decimal]) -> (r: Vec<Decimal>)
    ensures
        r@ == positives(v@),
{
    let mut out: Vec<Decimal> = Vec::new();
    let mut i: usize = 0;
    while i < v.len()
        invariant
            i <= v@.len(),
            out@ == positives(v@.take(i as int)),
        decreases v@.len() - i,
    {
        assert(v@.take(i + 1).drop_last() =~= v@.take(i as int));
        if v[i].is_positive() {
            out.push(v[i]);
        }
        i = i + 1;
    }
    assert(v@.take(i as int) =~= v@);
    out
}

fn near(r: u128) -> (s: u64)
    requires
        r <= RATIO_STEP,
    ensures
        s == nearness(r as int),
        r == RATIO_STEP ==> forall|x: int| x >= r ==> s == #[trigger] nearness(x),
{
    let away: u128 = if r >= ONE as u128 {
        r - ONE as u128
    } else {
        ONE as u128 - r
    };
    let drop: u128 = (away * 3) / 10;
    if drop >= (ONE / 2) as u128 {
        ONE / 2
    } else {
        ONE - drop as u64
    }
}

fn find_gap(s: &Vec<Decimal>) -> (r: (Ratio, usize))
    requires
        forall|i: int| 0 <= i < s@.len() ==> (#[trigger] s@[i])@.mantissa > 0,
        s@.len() > 0,
    ensures
        r.0@ == widest_gap(s@, s@.len() as int).ratio,
        r.1 == widest_gap(s@, s@.len() as int).at,
        r.1 < s@.len(),
{
    let mut best = Ratio::new(0);
    let mut at: usize = 0;
    let mut k: usize = 1;
    while k < s.len()
        invariant
            1 <= k <= s@.len(),
            forall|i: int| 0 <= i < s@.len() ==> (#[trigger] s@[i])@.mantissa > 0,
            best@ == widest_gap(s@, k as int).ratio,
            at == widest_gap(s@, k as int).at,
            at < s@.len(),
        decreases s@.len() - k,
    {
        let r = ratio_between(&s[k], &s[k - 1]);
        if r.exceeds(&best) {
            best = r;
            at = k;
        }
        k = k + 1;
    }
    (best, at)
}

fn score_anchored(price: &Decimal, msrp: &Decimal) -> (r: u64)
    requires
        msrp@.mantissa > 0,
    ensures
        r == anchored_score(*price, *msrp),
{
    if !price.is_positive() {
        return 300_000_000_000_000_000;
    }
    let r: u128 = ratio_between(price, msrp).capped();
    if r < 100_000_000_000_000_000 {
        0
    } else if r < 650_000_000_000_000_000 {
        (((r - 100_000_000_000_000_000) * 8) / 11) as u64
    } else if r <= 3 * (ONE as u128) {
        near(r)
    } else {
        400_000_000_000_000_000
    }
}

fn score_gapped(price: &Decimal, s: &Vec<Decimal>, start: usize) -> (r: u64)
    requires
        forall|i: int| 0 <= i < s@.len() ==> (#[trigger] s@[i])@.mantissa > 0,
        start < s@.len(),
        start == product_start(s@),
    ensures
        r == gapped_score(*price, s@),
{
    if !price.is_positive() {
        return 300_000_000_000_000_000;
    }
    let low = s[start];
    let high = s[s.len() - 1];
    if low.le(price) && price.le(&high) {
        near(ratio_between(price, &s[s.len() / 2]).capped())
    } else if price.lt(&low) {
        let share: u128 = (ratio_between(price, &low).capped() * 4) / 10;
        if share <= 350_000_000_000_000_000 {
            share as u64
        } else {
            350_000_000_000_000_000
        }
    } else {
        let share: u128 = (ratio_between(&high, price).capped() * 7) / 10;
        if share <= 300_000_000_000_000_000 {
            300_000_000_000_000_000
        } else if share <= 800_000_000_000_000_000 {
            share as u64
        } else {
            800_000_000_000_000_000
        }
    }
}

/// The score of each price, by the price that the manufacturer asks where it is
/// known and by the gaps between the prices otherwise; and how far apart the
/// prices are. Where no price is more than nothing each scores a half.
pub fn price_cluster_scores(prices: &[Decimal], msrp_brl: Option<Decimal>) -> (r: (Vec<u64>, Ratio))
    ensures
        score_views(r.0@) == cluster_scores(prices@, msrp_brl),
        r.1@ == cluster_gap(prices@, msrp_brl),
        r.0@.len() == prices@.len(),
        forall|i: int| 0 <= i < r.0@.len() ==> #[trigger] r.0@[i] <= ONE,
        r.1@ >= ONE,
        none_positive(prices@) ==> r.1@ == ONE && forall|i: int|
            0 <= i < r.0@.len() ==> #[trigger] r.0@[i] == ONE / 2,
{
    let valid = keep_positive(prices);
    let s = order::sort_amounts(&valid);
    proof {
        lemma_sorted_positive(prices@);
        order::amount_order_is_total();
        order::sorting_orders(valid@, order::amount_order());
        if s@.len() >= 4 {
            lemma_gap_of_ordered(s@, s@.len() as int);
        }
        if none_positive(prices@) {
            lemma_no_positives(prices@);
        }
    }
    let (found, at): (Ratio, usize) = if s.len() >= 4 {
        find_gap(&s)
    } else {
        (Ratio::new(0), 0)
    };
    let anchor = match msrp_brl {
        Some(m) => if m.is_positive() {
            Some(m)
        } else {
            None
        },
        None => None,
    };
    let count: usize = s.len();
    let wide: u128 = found.capped();
    let start: usize = if count >= 4 && wide > 2 * (ONE as u128) && (count - at >= 3 || wide > 3
        * (ONE as u128)) {
        at
    } else {
        0
    };
    let mut scores: Vec<u64> = Vec::new();
    let ghost want = cluster_scores(prices@, msrp_brl);
    let mut i: usize = 0;
    while i < prices.len()
        invariant
            i <= prices@.len(),
            want == cluster_scores(prices@, msrp_brl),
            s@ == order::sorted(positives(prices@), order::amount_order()),
            forall|k: int| 0 <= k < s@.len() ==> (#[trigger] s@[k])@.mantissa > 0,
            s@.len() > 0 ==> start < s@.len() && start == product_start(s@),
            anchor == self::anchor(msrp_brl),
            scores@.len() == i,
            forall|k: int| 0 <= k < i ==> #[trigger] scores@[k] == want[k] && scores@[k] <= ONE,
        decreases prices@.len() - i,
    {
        let score: u64 = if s.len() == 0 {
            500_000_000_000_000_000
        } else {
            match anchor {
                Some(m) => score_anchored(&prices[i], &m),
                None => score_gapped(&prices[i], &s, start),
            }
        };
        scores.push(score);
        i = i + 1;
    }
    assert(score_views(scores@) =~= want);
    let gap = if count < 4 {
        Ratio::new(ONE as u128)
    } else if anchor.is_some() && wide < ONE as u128 {
        Ratio::new(ONE as u128)
    } else {
        found
    };
    (scores, gap)
}

// ---- Words ----

/// A letter without its accent, and a space for a dash.
pub open spec fn plain_letter(c: char) -> char {
    if c == '-' || c == '_' {
        ' '
    } else if c == 'á' || c == 'à' || c == 'ã' || c == 'â' {
        'a'
    } else if c == 'é' || c == 'ê' {
        'e'
    } else if c == 'í' {
        'i'
    } else if c == 'ó' || c == 'ô' || c == 'õ' {
        'o'
    } else if c == 'ú' || c == 'ü' {
        'u'
    } else if c == 'ç' {
        'c'
    } else {
        c
    }
}

/// A text in lower case with plain letters.
pub open spec fn plain_text(s: Seq<char>) -> Seq<char> {
    text::lowered(s).map_values(|c: char| plain_letter(c))
}

/// A text as it is compared: in lower case, without accents and dashes, one space
/// between words.
pub open spec fn normalized(s: Seq<char>) -> Seq<char> {
    text::joined(text::words(plain_text(s)), " "@)
}

fn simplify(c: char) -> (r: char)
    ensures
        r == plain_letter(c),
{
    if c == '-' || c == '_' {
        ' '
    } else if c == 'á' || c == 'à' || c == 'ã' || c == 'â' {
        'a'
    } else if c == 'é' || c == 'ê' {
        'e'
    } else if c == 'í' {
        'i'
    } else if c == 'ó' || c == 'ô' || c == 'õ' {
        'o'
    } else if c == 'ú' || c == 'ü' {
        'u'
    } else if c == 'ç' {
        'c'
    } else {
        c
    }
}

/// Whether a text is in the form in which texts are compared: without capital letters from
/// A to Z, accents and dashes, one space between words and none at the ends.
pub open spec fn tidy(s: Seq<char>) -> bool {
    &&& text::single_spaced(s)
    &&& forall|i: int|
        0 <= i < s.len() ==> plain_letter(#[trigger] s[i]) == s[i] && !('A' <= s[i] <= 'Z')
}

proof fn lemma_normalized_words(s: Seq<char>)
    ensures
        text::words(normalized(s)) == text::words(plain_text(s)),
{
    text::lemma_words(plain_text(s));
    text::lemma_words_joined(text::words(plain_text(s)));
}

proof fn lemma_normalized_spaced(s: Seq<char>, a: Seq<char>, b: Seq<char>)
    requires
        text::lowered(s) == text::spaced(text::lowered(a), text::lowered(b)),
    ensures
        text::words(normalized(s)) == text::words(normalized(a)) + text::words(normalized(b)),
{
    assert(plain_text(s) =~= text::spaced(plain_text(a), plain_text(b)));
    text::lemma_words_spaced(plain_text(a), plain_text(b));
    lemma_normalized_words(s);
    lemma_normalized_words(a);
    lemma_normalized_words(b);
}

proof fn lemma_normalized(s: Seq<char>)
    requires
        forall|i: int|
            0 <= i < text::lowered(s).len() ==> !('A' <= #[trigger] text::lowered(s)[i] <= 'Z'),
        forall|t: Seq<char>| text::made_of_small(t, text::lowered(s)) ==> #[trigger] text::lowered(
            t,
        ) == t,
    ensures
        tidy(normalized(s)),
        normalized(normalized(s)) == normalized(s),
{
    let lower = text::lowered(s);
    let p = plain_text(s);
    let n = normalized(s);
    text::lemma_words(p);
    text::lemma_single_spaced(text::words(p), p);
    assert forall|i: int| 0 <= i < n.len() implies plain_letter(#[trigger] n[i]) == n[i] && !('A'
        <= n[i] <= 'Z') && (lower.contains(n[i]) || text::small_ascii(n[i])) by {
        let k = choose|k: int| 0 <= k < p.push(' ').len() && p.push(' ')[k] == n[i];
        if k < p.len() {
            assert(p[k] == plain_letter(lower[k]));
        }
    }
    assert(text::made_of_small(n, lower));
    assert(plain_text(n) =~= n);
    lemma_normalized_words(s);
}

/// A text as it is compared. What is in that form already stays as it is. The words on
/// either side of a space are compared each by themselves.
pub fn normalize(s: &str) -> (r: String)
    ensures
        r@ == normalized(s@),
        tidy(r@),
        normalized(r@) == r@,
        forall|a: Seq<char>, b: Seq<char>|
            s@ == #[trigger] text::spaced(a, b) ==> text::words(r@) == text::words(normalized(a))
                + text::words(normalized(b)),
{
    let lower = text::lowercase(s);
    let v = text::chars_of(lower.as_str());
    let mut plain = String::new();
    let ghost want = plain_text(s@);
    let mut i: usize = 0;
    while i < v.len()
        invariant
            i <= v@.len(),
            v@ == text::lowered(s@),
            want == plain_text(s@),
            plain@ == want.take(i as int),
        decreases v@.len() - i,
    {
        plain.push(simplify(v[i]));
        assert(want.take(i + 1) =~= want.take(i as int).push(want[i as int]));
        i = i + 1;
    }
    assert(want.take(i as int) =~= want);
    proof {
        lemma_normalized(s@);
        assert forall|a: Seq<char>, b: Seq<char>| s@ == #[trigger] text::spaced(a, b) implies
            text::words(normalized(s@)) == text::words(normalized(a)) + text::words(normalized(b)) by {
            lemma_normalized_spaced(s@, a, b);
        }
    }
    let words = text::split_words(plain.as_str());
    text::join(&words, " ")
}

/// Whether a word is too common to tell products apart.
pub open spec fn stop_word(s: Seq<char>) -> bool {
    ||| s == "de"@
    ||| s == "do"@
    ||| s == "da"@
    ||| s == "dos"@
    ||| s == "das"@
    ||| s == "para"@
    ||| s == "com"@
    ||| s == "sem"@
    ||| s == "por"@
    ||| s == "em"@
    ||| s == "no"@
    ||| s == "na"@
    ||| s == "the"@
    ||| s == "for"@
    ||| s == "with"@
    ||| s == "and"@
    ||| s == "or"@
    ||| s == "a"@
    ||| s == "an"@
    ||| s == "o"@
    ||| s == "e"@
    ||| s == "um"@
    ||| s == "uma"@
}

fn is_stop_word(s: &str) -> (r: bool)
    ensures
        r == stop_word(s@),
{
    text::same_text(s, "de") || text::same_text(s, "do") || text::same_text(s, "da")
        || text::same_text(s, "dos") || text::same_text(s, "das") || text::same_text(s, "para")
        || text::same_text(s, "com") || text::same_text(s, "sem") || text::same_text(s, "por")
        || text::same_text(s, "em") || text::same_text(s, "no") || text::same_text(s, "na")
        || text::same_text(s, "the") || text::same_text(s, "for") || text::same_text(s, "with")
        || text::same_text(s, "and") || text::same_text(s, "or") || text::same_text(s, "a")
        || text::same_text(s, "an") || text::same_text(s, "o") || text::same_text(s, "e")
        || text::same_text(s, "um") || text::same_text(s, "uma")
}

/// Whether a word of a search has to stand in a title.
pub open spec fn telling(word: Seq<char>) -> bool {
    text::byte_len(word) > 1 && !stop_word(word)
}

/// Whether a word stands in a title, or does once the spaces are taken out.
pub open spec fn stands_in(title: Seq<char>, word: Seq<char>) -> bool {
    text::has(title, word) || text::has(text::dropped(title, ' '), word)
}

/// Whether every telling word of a search stands in a title.
pub open spec fn matching(title: Seq<char>, query: Seq<char>) -> bool {
    let words = text::words(normalized(query));
    forall|i: int|
        0 <= i < words.len() && telling(#[trigger] words[i]) ==> stands_in(
            normalized(title),
            words[i],
        )
}

proof fn lemma_stands_in_more(title: Seq<char>, more: Seq<char>, word: Seq<char>)
    requires
        stands_in(title, word),
    ensures
        stands_in(title + more, word),
{
    if text::has(title, word) {
        text::lemma_has_more(title, more, word);
    } else {
        text::lemma_dropped_more(title, more, ' ');
        text::lemma_has_more(text::dropped(title, ' '), text::dropped(more, ' '), word);
    }
}

proof fn lemma_longer_title(title: Seq<char>, a: Seq<char>, b: Seq<char>, query: Seq<char>)
    requires
        text::words(normalized(title)) == text::words(normalized(a)) + text::words(normalized(b)),
        matching(a, query),
    ensures
        matching(title, query),
{
    let (n, x, y) = (normalized(title), normalized(a), normalized(b));
    lemma_normalized_words(title);
    lemma_normalized_words(a);
    lemma_normalized_words(b);
    text::lemma_joined_spaced(text::words(x), text::words(y));
    let more = if text::words(x).len() == 0 {
        n
    } else if text::words(y).len() == 0 {
        Seq::empty()
    } else {
        seq![' '] + y
    };
    assert(n =~= x + more);
    let w = text::words(normalized(query));
    assert forall|i: int| 0 <= i < w.len() && telling(#[trigger] w[i]) implies stands_in(
        n,
        w[i],
    ) by {
        lemma_stands_in_more(x, more, w[i]);
    }
}

proof fn lemma_split_query(title: Seq<char>, query: Seq<char>, a: Seq<char>, b: Seq<char>)
    requires
        text::words(normalized(query)) == text::words(normalized(a)) + text::words(normalized(b)),
    ensures
        matching(title, query) == (matching(title, a) && matching(title, b)),
{
    let w = text::words(normalized(query));
    let x = text::words(normalized(a));
    let y = text::words(normalized(b));
    if matching(title, query) {
        assert forall|i: int| 0 <= i < x.len() && telling(#[trigger] x[i]) implies stands_in(
            normalized(title),
            x[i],
        ) by {
            assert(w[i] == x[i]);
        }
        assert forall|i: int| 0 <= i < y.len() && telling(#[trigger] y[i]) implies stands_in(
            normalized(title),
            y[i],
        ) by {
            assert(w[x.len() + i] == y[i]);
        }
    }
    if matching(title, a) && matching(title, b) {
        assert forall|i: int| 0 <= i < w.len() && telling(#[trigger] w[i]) implies stands_in(
            normalized(title),
            w[i],
        ) by {
            if i < x.len() {
                assert(w[i] == x[i]);
            } else {
                assert(w[i] == y[i - x.len()]);
            }
        }
    }
}

fn words_stand(name: &str, wanted: &str) -> (r: bool)
    ensures
        r == forall|i: int|
            0 <= i < text::words(wanted@).len() && telling(#[trigger] text::words(wanted@)[i])
                ==> stands_in(name@, text::words(wanted@)[i]),
{
    let compact = text::drop_char(name, ' ');
    let words = text::split_words(wanted);
    let ghost w = text::words(wanted@);
    let mut i: usize = 0;
    while i < words.len()
        invariant
            i <= words@.len(),
            w == text::words(wanted@),
            text::texts(words@) == w,
            compact@ == text::dropped(name@, ' '),
            forall|k: int| 0 <= k < i && telling(#[trigger] w[k]) ==> stands_in(name@, w[k]),
        decreases words@.len() - i,
    {
        let word = words[i].as_str();
        assert(w[i as int] == word@);
        if text::text_bytes(word) > 1 && !is_stop_word(word) && !text::contains(name, word)
            && !text::contains(compact.as_str(), word) {
            return false;
        }
        i = i + 1;
    }
    true
}

/// Whether every telling word of a search stands in a title. A search for two things is
/// met where both are, a title that goes on still holds what it held, and it makes no
/// difference whether the texts were normalized before.
pub fn tokens_match(title: &str, query: &str) -> (r: bool)
    ensures
        r == matching(title@, query@),
        r == matching(normalized(title@), normalized(query@)),
        forall|a: Seq<char>, b: Seq<char>|
            query@ == #[trigger] text::spaced(a, b) ==> r == (matching(title@, a) && matching(
                title@,
                b,
            )),
        forall|a: Seq<char>, b: Seq<char>|
            title@ == #[trigger] text::spaced(a, b) && matching(a, query@) ==> r,
{
    let name = normalize(title);
    let wanted = normalize(query);
    proof {
        assert forall|a: Seq<char>, b: Seq<char>| query@ == #[trigger] text::spaced(a, b) implies
            matching(title@, query@) == (matching(title@, a) && matching(title@, b)) by {
            lemma_split_query(title@, query@, a, b);
        }
        assert forall|a: Seq<char>, b: Seq<char>|
            title@ == #[trigger] text::spaced(a, b) && matching(a, query@) implies matching(
            title@,
            query@,
        ) by {
            lemma_longer_title(title@, a, b, query@);
        }
    }
    words_stand(name.as_str(), wanted.as_str())
}

// ---- Title structure ----

/// Where a word stands in a title, in bytes, at the start where it only does once
/// the spaces are taken out.
pub open spec fn place(title: Seq<char>, word: Seq<char>) -> Option<int> {
    match text::position(title, word, 0) {
        Some(i) => Some(text::byte_len(title.take(i)) as int),
        None => if text::has(text::dropped(title, ' '), word) {
            Some(0)
        } else {
            None
        },
    }
}

/// Where those of some words stand that stand in a title.
pub open spec fn places(title: Seq<char>, words: Seq<Seq<char>>) -> Seq<int>
    decreases words.len(),
{
    if words.len() == 0 {
        Seq::empty()
    } else {
        match place(title, words.last()) {
            Some(p) => places(title, words.drop_last()).push(p),
            None => places(title, words.drop_last()),
        }
    }
}

/// The smallest of some numbers.
pub open spec fn lowest(v: Seq<int>) -> int
    decreases v.len(),
{
    if v.len() <= 1 {
        v[0]
    } else {
        least(lowest(v.drop_last()), v.last())
    }
}

/// The largest of some numbers.
pub open spec fn highest(v: Seq<int>) -> int
    decreases v.len(),
{
    if v.len() <= 1 {
        v[0]
    } else {
        most(highest(v.drop_last()), v.last())
    }
}

/// What the first word is worth, in hundredths: the earlier in the title, the more.
pub open spec fn position_worth(first: int, title_len: int) -> int {
    if first * 10 < title_len {
        100
    } else if first * 4 < title_len {
        85
    } else if first * 2 < title_len {
        50
    } else {
        20
    }
}

/// What words far apart cost, in hundredths, by how many times the length of the
/// search lies between the first and the last.
pub open spec fn spread_cost(spread: int, query_len: int) -> int {
    if query_len == 0 || spread * 2 <= query_len * 3 {
        0
    } else if spread <= query_len * 3 {
        25
    } else {
        50
    }
}

/// The score of a title that holds every word of a search, in hundredths.
pub open spec fn full_title_worth(title: Seq<char>, query: Seq<char>, at: Seq<int>) -> int {
    let raw = position_worth(lowest(at), text::byte_len(title) as int) + (if text::has(
        title,
        query,
    ) {
        20int
    } else {
        0
    }) - spread_cost(highest(at) - lowest(at), text::byte_len(query) as int);
    most(0, least(raw, 100))
}

/// The score of a title by where the words of a search stand in it, both
/// normalized.
pub open spec fn structure_score(title: Seq<char>, query: Seq<char>) -> int {
    let words = text::words(query);
    let at = places(title, words);
    if title.len() == 0 {
        0
    } else if words.len() == 0 {
        ONE as int / 2
    } else if at.len() < words.len() {
        (at.len() * ONE) / (5 * words.len() as int)
    } else {
        full_title_worth(title, query, at) * (ONE as int / 100)
    }
}

fn find_place(title: &str, compact: &str, word: &str) -> (r: Option<usize>)
    requires
        compact@ == text::dropped(title@, ' '),
    ensures
        text::index_of(r) == place(title@, word@),
{
    match text::before_text(title, word) {
        Some(head) => Some(text::text_bytes(head.as_str())),
        None => if text::contains(compact, word) {
            Some(0)
        } else {
            None
        },
    }
}

proof fn lemma_lowest_highest(v: Seq<int>)
    requires
        v.len() > 0,
    ensures
        lowest(v) <= highest(v),
    decreases v.len(),
{
    if v.len() > 1 {
        lemma_lowest_highest(v.drop_last());
    }
}

/// The score of a title by where the words of a search stand in it.
pub fn title_structure_score(title: &str, query: &str) -> (r: u64)
    ensures
        r == structure_score(normalized(title@), normalized(query@)),
        r <= ONE,
{
    let name = normalize(title);
    let wanted = normalize(query);
    let ghost (t, q) = (normalized(title@), normalized(query@));
    if name.as_str().is_empty() {
        return 0;
    }
    let words = text::split_words(wanted.as_str());
    let ghost w = text::words(q);
    assert(text::texts(words@).len() == words@.len());
    if words.len() == 0 {
        return ONE / 2;
    }
    let compact = text::drop_char(name.as_str(), ' ');
    let mut found: usize = 0;
    let mut first: usize = 0;
    let mut last: usize = 0;
    let mut i: usize = 0;
    while i < words.len()
        invariant
            i <= words@.len(),
            w.len() == words@.len(),
            text::texts(words@) == w,
            name@ == t,
            compact@ == text::dropped(t, ' '),
            found == places(t, w.take(i as int)).len(),
            found <= i,
            found > 0 ==> first == lowest(places(t, w.take(i as int))) && last == highest(
                places(t, w.take(i as int)),
            ),
        decreases words@.len() - i,
    {
        let ghost so_far = places(t, w.take(i as int));
        assert(w.take(i + 1).drop_last() =~= w.take(i as int));
        assert(w[i as int] == words@[i as int]@);
        match find_place(name.as_str(), compact.as_str(), words[i].as_str()) {
            Some(p) => {
                proof {
                    let grown = so_far.push(p as int);
                    assert(grown.drop_last() =~= so_far);
                    assert(places(t, w.take(i + 1)) == grown);
                }
                if found == 0 || p < first {
                    first = p;
                }
                if found == 0 || p > last {
                    last = p;
                }
                found = found + 1;
            },
            None => {},
        }
        i = i + 1;
    }
    assert(w.take(i as int) =~= w);
    let count: usize = words.len();
    if found < count {
        proof {
            let (f, c, o) = (found as int, count as int, ONE as int);
            assert((f * o) / (5 * c) <= o && f * o <= 0xffff_ffff_ffff_ffff * 1_000_000_000_000_000_000
                && 0 <= (f * o) / (5 * c)) by (nonlinear_arith)
                requires
                    0 <= f < c,
                    f <= 0xffff_ffff_ffff_ffff,
                    o == 1_000_000_000_000_000_000,
            ;
        }
        return ((found as u128 * ONE as u128) / (5 * count as u128)) as u64;
    }
    proof {
        lemma_lowest_highest(places(t, w));
    }
    let title_len: u128 = text::text_bytes(name.as_str()) as u128;
    let query_len: u128 = text::text_bytes(wanted.as_str()) as u128;
    let start: u128 = first as u128;
    let position: u64 = if start * 10 < title_len {
        100
    } else if start * 4 < title_len {
        85
    } else if start * 2 < title_len {
        50
    } else {
        20
    };
    let phrase: u64 = if text::contains(name.as_str(), wanted.as_str()) {
        20
    } else {
        0
    };
    let spread: u128 = (last - first) as u128;
    let cost: u64 = if query_len == 0 || spread * 2 <= query_len * 3 {
        0
    } else if spread <= query_len * 3 {
        25
    } else {
        50
    };
    let raw: u64 = if position + phrase < cost {
        0
    } else {
        position + phrase - cost
    };
    let worth: u64 = if raw > 100 {
        100
    } else {
        raw
    };
    worth * (ONE / 100)
}

// ---- Likeness ----

/// How alike two texts are by the edits from one to the other.
pub uninterp spec fn edit_likeness(a: Seq<char>, b: Seq<char>) -> Option<decimal::DecimalView>;

/// How alike two words are by the letters that they share.
pub uninterp spec fn word_likeness(a: Seq<char>, b: Seq<char>) -> Option<decimal::DecimalView>;

/// Calls `strsim::normalized_damerau_levenshtein` and makes the result a decimal
/// with `rust_decimal::Decimal::try_from`. Left unsaid is the measure itself.
#[verifier::external_body]
fn compare_texts(a: &str, b: &str) -> (r: Option<Decimal>)
    ensures
        r == decimal::of_opt(edit_likeness(a@, b@)),
{
    rust_decimal::Decimal::try_from(strsim::normalized_damerau_levenshtein(a, b)).ok().and_then(
        |d| Decimal::from_parts(d.mantissa(), d.scale()),
    )
}

/// Calls `strsim::jaro_winkler` and makes the result a decimal with
/// `rust_decimal::Decimal::try_from`. Left unsaid is the measure itself.
#[verifier::external_body]
fn compare_words(a: &str, b: &str) -> (r: Option<Decimal>)
    ensures
        r == decimal::of_opt(word_likeness(a@, b@)),
{
    rust_decimal::Decimal::try_from(strsim::jaro_winkler(a, b)).ok().and_then(
        |d| Decimal::from_parts(d.mantissa(), d.scale()),
    )
}

/// An amount in quintillionths, from none to the whole.
pub open spec fn unit(d: Option<Decimal>) -> int {
    match d {
        Some(d) => if d@.mantissa <= 0 {
            0
        } else {
            least(ONE as int, ratio(d, decimal::dec(1, 0)))
        },
        None => 0,
    }
}

fn in_unit(d: Option<Decimal>) -> (r: u64)
    ensures
        r == unit(d),
        r <= ONE,
{
    match d {
        Some(d) => {
            if !d.is_positive() {
                return 0;
            }
            let r: u128 = ratio_between(&d, &Decimal::new(1, 0)).capped();
            if r > ONE as u128 {
                ONE
            } else {
                r as u64
            }
        },
        None => 0,
    }
}

/// How alike a word is to the one of some words that is most like it.
pub open spec fn best_likeness(word: Seq<char>, others: Seq<Seq<char>>) -> int
    decreases others.len(),
{
    if others.len() == 0 {
        0
    } else {
        most(
            best_likeness(word, others.drop_last()),
            unit(decimal::of_opt(word_likeness(word, others.last()))),
        )
    }
}

/// How alike each of some words is to the most like of some others, together.
pub open spec fn total_likeness(words: Seq<Seq<char>>, others: Seq<Seq<char>>) -> int
    decreases words.len(),
{
    if words.len() == 0 {
        0
    } else {
        total_likeness(words.drop_last(), others) + best_likeness(words.last(), others)
    }
}

/// What the likeness of words counts for in a title of a length, in hundredths:
/// less in a title much longer than the search.
pub open spec fn focus(query_len: int, title_len: int) -> int {
    if query_len * 10 > title_len * 3 {
        100
    } else if query_len * 10 > title_len {
        85
    } else {
        70
    }
}

/// How alike a title and a search are, both normalized: by their words, on the
/// average, or as a whole, whichever is more.
pub open spec fn similarity_score(title: Seq<char>, query: Seq<char>) -> int {
    let wanted = text::words(query);
    let found = text::words(title);
    let whole = unit(decimal::of_opt(edit_likeness(query, title)));
    if query.len() == 0 || title.len() == 0 {
        0
    } else if wanted.len() == 0 || found.len() == 0 {
        whole
    } else {
        most(
            ((total_likeness(wanted, found) / wanted.len() as int) * focus(
                text::byte_len(query) as int,
                text::byte_len(title) as int,
            )) / 100,
            whole,
        )
    }
}

fn best_match(word: &str, others: &Vec<String>) -> (r: u64)
    ensures
        r == best_likeness(word@, text::texts(others@)),
        r <= ONE,
{
    let ghost o = text::texts(others@);
    let mut best: u64 = 0;
    let mut i: usize = 0;
    while i < others.len()
        invariant
            i <= others@.len(),
            o == text::texts(others@),
            best == best_likeness(word@, o.take(i as int)),
            best <= ONE,
        decreases others@.len() - i,
    {
        assert(o.take(i + 1).drop_last() =~= o.take(i as int));
        assert(o[i as int] == others@[i as int]@);
        let s: u64 = in_unit(compare_words(word, others[i].as_str()));
        if s > best {
            best = s;
        }
        i = i + 1;
    }
    assert(o.take(i as int) =~= o);
    best
}

/// How alike a title and a search are.
pub fn string_similarity_score(title: &str, query: &str) -> (r: u64)
    ensures
        r == similarity_score(normalized(title@), normalized(query@)),
        r <= ONE,
{
    let name = normalize(title);
    let wanted = normalize(query);
    if wanted.as_str().is_empty() || name.as_str().is_empty() {
        return 0;
    }
    let whole: u64 = in_unit(compare_texts(wanted.as_str(), name.as_str()));
    let words = text::split_words(wanted.as_str());
    let others = text::split_words(name.as_str());
    let ghost w = text::words(normalized(query@));
    let ghost o = text::words(normalized(title@));
    assert(text::texts(words@).len() == words@.len());
    assert(text::texts(others@).len() == others@.len());
    if words.len() == 0 || others.len() == 0 {
        return whole;
    }
    let mut sum: u128 = 0;
    let mut i: usize = 0;
    while i < words.len()
        invariant
            i <= words@.len(),
            w == text::texts(words@),
            o == text::texts(others@),
            sum == total_likeness(w.take(i as int), o),
            sum <= i * ONE,
        decreases words@.len() - i,
    {
        assert(w.take(i + 1).drop_last() =~= w.take(i as int));
        assert(w[i as int] == words@[i as int]@);
        let best: u64 = best_match(words[i].as_str(), &others);
        sum = sum + best as u128;
        i = i + 1;
    }
    assert(w.take(i as int) =~= w);
    let count: usize = words.len();
    let average: u64 = {
        proof {
            assert(sum / (count as u128) <= ONE) by (nonlinear_arith)
                requires
                    sum <= count * ONE,
                    count > 0,
            ;
        }
        (sum / (count as u128)) as u64
    };
    let query_len: u128 = text::text_bytes(wanted.as_str()) as u128;
    let title_len: u128 = text::text_bytes(name.as_str()) as u128;
    let factor: u64 = if query_len * 10 > title_len * 3 {
        100
    } else if query_len * 10 > title_len {
        85
    } else {
        70
    };
    assert(average * factor <= ONE * 100) by (nonlinear_arith)
        requires
            average <= ONE,
            factor <= 100,
    ;
    let by_words: u64 = ((average as u128 * factor as u128) / 100) as u64;
    if by_words >= whole {
        by_words
    } else {
        whole
    }
}

// ---- The score ----

/// The score of an offer and the signals that make it up.
#[derive(Clone, Copy, Debug)]
pub struct RelevanceScore {
    pub total: u64,
    pub title_structure: u64,
    pub price_cluster: u64,
    pub string_similarity: u64,
}

/// What the three signals count for, in hundredths: the price counts for more
/// where the prices are more than threefold apart.
pub struct Weights {
    pub structure: int,
    pub similarity: int,
    pub cluster: int,
}

/// The weights of the signals for prices that are so far apart.
pub open spec fn weights(gap_ratio: int) -> Weights {
    if gap_ratio > 3 * ONE {
        Weights { structure: 35, similarity: 25, cluster: 40 }
    } else {
        Weights { structure: 45, similarity: 35, cluster: 20 }
    }
}

/// The part of what the title says that counts at a score of the price: all of it
/// from two fifths on, and below that in proportion.
pub open spec fn damping(cluster: int) -> int {
    least((cluster * 5) / 2, ONE as int)
}

/// The score made up of the signals.
pub open spec fn combined_score(
    structure: int,
    similarity: int,
    cluster: int,
    gap_ratio: int,
) -> int {
    let w = weights(gap_ratio);
    ((structure * w.structure + similarity * w.similarity) * damping(cluster)) / (100 * ONE) + (
    cluster * w.cluster) / 100
}

/// The score of an offer for a search.
pub open spec fn relevance(
    title: Seq<char>,
    query: Seq<char>,
    cluster: int,
    gap_ratio: int,
) -> int {
    combined_score(
        structure_score(normalized(title), normalized(query)),
        similarity_score(normalized(title), normalized(query)),
        cluster,
        gap_ratio,
    )
}

/// The score made up of the signals.
pub fn combine(structure: u64, similarity: u64, cluster: u64, gap_ratio: Ratio) -> (r: u64)
    requires
        structure <= ONE,
        similarity <= ONE,
    ensures
        r == combined_score(
            structure as int,
            similarity as int,
            cluster as int,
            gap_ratio@,
        ),
{
    let (w1, w2, w3): (u128, u128, u128) = if gap_ratio.capped() > 3 * (ONE as u128) {
        (35, 25, 40)
    } else {
        (45, 35, 20)
    };
    let scaled: u128 = (cluster as u128 * 5) / 2;
    let dampen: u128 = if scaled <= ONE as u128 {
        scaled
    } else {
        ONE as u128
    };
    let title: u128 = structure as u128 * w1 + similarity as u128 * w2;
    assert(title * dampen <= 80 * ONE * ONE) by (nonlinear_arith)
        requires
            title <= 80 * ONE,
            dampen <= ONE,
    ;
    let told: u128 = (title * dampen) / (100 * (ONE as u128));
    assert(told <= ONE) by (nonlinear_arith)
        requires
            told == (title * dampen) / (100 * ONE),
            title * dampen <= 80 * ONE * ONE,
            ONE > 0,
    ;
    (told + (cluster as u128 * w3) / 100) as u64
}

/// The score of an offer for a search, with the signals that make it up.
pub fn score_product(title: &str, query: &str, cluster_score: u64, gap_ratio: Ratio) -> (r:
    RelevanceScore)
    ensures
        r.total == relevance(title@, query@, cluster_score as int, gap_ratio@),
        r.title_structure == structure_score(normalized(title@), normalized(query@)),
        r.price_cluster == cluster_score,
        r.string_similarity == similarity_score(normalized(title@), normalized(query@)),
{
    let structure: u64 = title_structure_score(title, query);
    let similarity: u64 = string_similarity_score(title, query);
    RelevanceScore {
        total: combine(structure, similarity, cluster_score, gap_ratio),
        title_structure: structure,
        price_cluster: cluster_score,
        string_similarity: similarity,
    }
}

// ---- Laws ----

/// Signals that are parts of the whole make up a score that is one.
pub proof fn score_is_part_of_whole(structure: int, similarity: int, cluster: int, gap_ratio: int)
    requires
        0 <= structure <= ONE,
        0 <= similarity <= ONE,
        0 <= cluster <= ONE,
    ensures
        0 <= combined_score(structure, similarity, cluster, gap_ratio) <= ONE,
{
    let w = weights(gap_ratio);
    let title = structure * w.structure + similarity * w.similarity;
    let damp = damping(cluster);
    let o = ONE as int;
    assert(0 <= title <= (100 - w.cluster) * o);
    assert(0 <= title * damp <= ((100 - w.cluster) * o) * o) by (nonlinear_arith)
        requires
            0 <= title <= (100 - w.cluster) * o,
            0 <= damp <= o,
    ;
    let told = (title * damp) / (100 * o);
    assert(0 <= told && told * 100 <= (100 - w.cluster) * o) by (nonlinear_arith)
        requires
            told == (title * damp) / (100 * o),
            0 <= title * damp <= ((100 - w.cluster) * o) * o,
            o > 0,
    ;
    assert(0 <= cluster * w.cluster <= o * w.cluster);
    assert(combined_score(structure, similarity, cluster, gap_ratio) == told + (cluster
        * w.cluster) / 100);
}

proof fn lemma_positives_same(v: Seq<Decimal>)
    ensures
        forall|d: Decimal| #[trigger]
            positives(v).to_multiset().count(d) == if d@.mantissa > 0 {
                v.to_multiset().count(d)
            } else {
                0
            },
    decreases v.len(),
{
    broadcast use vstd::seq_lib::group_to_multiset_ensures;
    broadcast use vstd::multiset::group_multiset_axioms;

    if v.len() > 0 {
        let (t, x) = (v.drop_last(), v.last());
        lemma_positives_same(t);
        assert(v =~= t.push(x));
        assert(v.to_multiset() == t.to_multiset().insert(x));
        assert forall|d: Decimal| #[trigger]
            positives(v).to_multiset().count(d) == if d@.mantissa > 0 {
                v.to_multiset().count(d)
            } else {
                0
            } by {
            assert(positives(t).to_multiset().count(d) == if d@.mantissa > 0 {
                t.to_multiset().count(d)
            } else {
                0
            });
        }
    } else {
        assert(positives(v) == v);
        assert forall|d: Decimal| #[trigger] v.to_multiset().count(d) == 0 by {
            assert(!v.contains(d));
        }
    }
}

proof fn lemma_sorted_same(a: Seq<Decimal>, b: Seq<Decimal>)
    requires
        a.to_multiset() == b.to_multiset(),
    ensures
        ({
            let le = order::amount_order();
            let s = order::sorted(positives(a), le);
            let t = order::sorted(positives(b), le);
            &&& all_positive(s)
            &&& all_positive(t)
            &&& s.len() == t.len()
            &&& forall|i: int| 0 <= i < s.len() ==> #[trigger] decimal::same_amount(s[i], t[i])
        }),
{
    let le = order::amount_order();
    lemma_positives_same(a);
    lemma_positives_same(b);
    assert(positives(a).to_multiset() =~= positives(b).to_multiset());
    order::amount_order_is_total();
    order::sorting_orders(positives(a), le);
    order::sorting_orders(positives(b), le);
    let s = order::sorted(positives(a), le);
    let t = order::sorted(positives(b), le);
    order::orders_agree(s, t, le);
    lemma_sorted_positive(a);
    lemma_sorted_positive(b);
    assert forall|i: int| 0 <= i < s.len() implies #[trigger] decimal::same_amount(s[i], t[i]) by {
        assert(le(s[i], t[i]));
    }
}

proof fn lemma_same_quotient(x: int, y: int, z: int, w: int)
    requires
        x >= 0,
        z >= 0,
        y > 0,
        w > 0,
        x * w == z * y,
    ensures
        x / y == z / w,
{
    vstd::arithmetic::div_mod::lemma_div_denominator(x * w, w, y);
    vstd::arithmetic::div_mod::lemma_div_denominator(z * y, y, w);
    vstd::arithmetic::div_mod::lemma_div_by_multiple(x, w);
    vstd::arithmetic::div_mod::lemma_div_by_multiple(z, y);
    assert(w * y == y * w) by (nonlinear_arith);
    assert(x * w >= 0) by (nonlinear_arith)
        requires
            x >= 0,
            w > 0,
    ;
}

proof fn lemma_ratio_same(a: Decimal, b: Decimal, c: Decimal, d: Decimal)
    requires
        decimal::same_amount(a, c),
        decimal::same_amount(b, d),
        a@.mantissa > 0,
        b@.mantissa > 0,
        c@.mantissa > 0,
        d@.mantissa > 0,
    ensures
        ratio(a, b) == ratio(c, d),
{
    let (x, y, z, w) = (a@.mantissa, b@.mantissa, c@.mantissa, d@.mantissa);
    let (p, q) = (decimal::pow10(a@.scale) as int, decimal::pow10(b@.scale) as int);
    let (r, t) = (decimal::pow10(c@.scale) as int, decimal::pow10(d@.scale) as int);
    let m = decimal::pow10(18) as int;
    decimal::lemma_pow10_positive(a@.scale);
    decimal::lemma_pow10_positive(b@.scale);
    decimal::lemma_pow10_positive(c@.scale);
    decimal::lemma_pow10_positive(d@.scale);
    decimal::lemma_pow10_positive(18);
    decimal::lemma_pow10_sum(b@.scale, 18);
    decimal::lemma_pow10_sum(d@.scale, 18);
    let (n1, d1) = (x * (q * m), y * p);
    let (n2, d2) = (z * (t * m), w * r);
    assert((x * (q * m)) * (w * r) == ((x * r) * (w * q)) * m) by (nonlinear_arith);
    assert((z * (t * m)) * (y * p) == ((z * p) * (y * t)) * m) by (nonlinear_arith);
    assert(x * r == z * p && y * t == w * q);
    assert((x * r) * (w * q) == (z * p) * (y * t));
    assert(n1 >= 0 && d1 > 0 && n2 >= 0 && d2 > 0) by (nonlinear_arith)
        requires
            n1 == x * (q * m),
            d1 == y * p,
            n2 == z * (t * m),
            d2 == w * r,
            x > 0,
            y > 0,
            z > 0,
            w > 0,
            p > 0,
            q > 0,
            r > 0,
            t > 0,
            m > 0,
    ;
    lemma_same_quotient(n1, d1, n2, d2);
}

proof fn lemma_gap_same(s: Seq<Decimal>, t: Seq<Decimal>, k: int)
    requires
        0 <= k <= s.len(),
        s.len() == t.len(),
        all_positive(s),
        all_positive(t),
        forall|i: int| 0 <= i < s.len() ==> #[trigger] decimal::same_amount(s[i], t[i]),
    ensures
        widest_gap(s, k) == widest_gap(t, k),
        0 <= widest_gap(s, k).at,
        k > 0 ==> widest_gap(s, k).at < k,
    decreases k,
{
    if k > 1 {
        lemma_gap_same(s, t, k - 1);
        assert(decimal::same_amount(s[k - 1], t[k - 1]));
        assert(decimal::same_amount(s[k - 2], t[k - 2]));
        lemma_ratio_same(s[k - 1], s[k - 2], t[k - 1], t[k - 2]);
    }
}

proof fn lemma_score_same(price: Decimal, s: Seq<Decimal>, t: Seq<Decimal>)
    requires
        0 < s.len(),
        s.len() == t.len(),
        all_positive(s),
        all_positive(t),
        forall|i: int| 0 <= i < s.len() ==> #[trigger] decimal::same_amount(s[i], t[i]),
    ensures
        gapped_score(price, s) == gapped_score(price, t),
{
    let n = s.len() as int;
    lemma_gap_same(s, t, n);
    let start = product_start(s);
    if price@.mantissa > 0 {
        assert(decimal::same_amount(s[start], t[start]));
        assert(decimal::same_amount(s[n - 1], t[n - 1]));
        assert(decimal::same_amount(s[n / 2], t[n / 2]));
        lemma_ratio_same(price, s[n / 2], price, t[n / 2]);
        lemma_ratio_same(price, s[start], price, t[start]);
        lemma_ratio_same(s[n - 1], price, t[n - 1], price);
        decimal::amounts_are_ordered(s[start], t[start], price);
        decimal::amounts_are_ordered(t[start], s[start], price);
        decimal::amounts_are_ordered(price, s[n - 1], t[n - 1]);
        decimal::amounts_are_ordered(price, t[n - 1], s[n - 1]);
    }
}

/// The score of a price does not depend on where it stands among the prices, nor does how
/// far apart they are: the same prices in another order score the same.
pub proof fn scores_go_with_their_prices(
    prices: Seq<Decimal>,
    shuffled: Seq<Decimal>,
    msrp: Option<Decimal>,
)
    requires
        prices.to_multiset() == shuffled.to_multiset(),
    ensures
        cluster_scores(prices, msrp).len() == cluster_scores(shuffled, msrp).len(),
        forall|i: int, j: int|
            0 <= i < prices.len() && 0 <= j < shuffled.len() && prices[i] == shuffled[j]
                ==> #[trigger] cluster_scores(prices, msrp)[i] == #[trigger] cluster_scores(
                shuffled,
                msrp,
            )[j],
        cluster_gap(prices, msrp) == cluster_gap(shuffled, msrp),
{
    broadcast use vstd::seq_lib::group_to_multiset_ensures;

    assert(prices.len() == prices.to_multiset().len());
    assert(shuffled.len() == shuffled.to_multiset().len());
    lemma_sorted_same(prices, shuffled);
    let s = order::sorted(positives(prices), order::amount_order());
    let t = order::sorted(positives(shuffled), order::amount_order());
    lemma_gap_same(s, t, s.len() as int);
    assert forall|i: int, j: int|
        0 <= i < prices.len() && 0 <= j < shuffled.len() && prices[i] == shuffled[j] implies
        #[trigger] cluster_scores(prices, msrp)[i] == #[trigger] cluster_scores(
        shuffled,
        msrp,
    )[j] by {
        if s.len() > 0 {
            lemma_score_same(prices[i], s, t);
        }
    }
}

/// Where the price scores nothing, the offer does, whatever its title.
pub proof fn price_vetoes(structure: int, similarity: int, gap_ratio: int)
    ensures
        combined_score(structure, similarity, 0, gap_ratio) == 0,
        0 < RELEVANT_THRESHOLD,
{
    let w = weights(gap_ratio);
    let title = structure * w.structure + similarity * w.similarity;
    assert(title * 0 == 0) by (nonlinear_arith);
}

/// From two fifths on, the score of the price takes nothing from what the title
/// says.
pub proof fn fair_price_counts_title_in_full(
    structure: int,
    similarity: int,
    cluster: int,
    gap_ratio: int,
)
    requires
        0 <= structure,
        0 <= similarity,
        400_000_000_000_000_000 <= cluster,
    ensures
        combined_score(structure, similarity, cluster, gap_ratio) == (structure * weights(
            gap_ratio,
        ).structure + similarity * weights(gap_ratio).similarity) / 100 + (cluster * weights(
            gap_ratio,
        ).cluster) / 100,
{
    let w = weights(gap_ratio);
    let title = structure * w.structure + similarity * w.similarity;
    let o = ONE as int;
    assert((title * o) / (100 * o) == title / 100) by {
        assert(title * o == o * title && 100 * o == o * 100) by (nonlinear_arith);
        vstd::arithmetic::div_mod::lemma_div_multiples_vanish_quotient(o, title, 100);
    }
}

/// With everything else as it is, a price that scores no less gives a score that is
/// no less.
pub proof fn better_price_scores_no_less(
    structure: int,
    similarity: int,
    cluster: int,
    better: int,
    gap_ratio: int,
)
    requires
        0 <= structure,
        0 <= similarity,
        0 <= cluster <= better,
    ensures
        combined_score(structure, similarity, cluster, gap_ratio) <= combined_score(
            structure,
            similarity,
            better,
            gap_ratio,
        ),
{
    let w = weights(gap_ratio);
    let title = structure * w.structure + similarity * w.similarity;
    let (x, y) = (damping(cluster), damping(better));
    let o = ONE as int;
    assert(title * x <= title * y) by (nonlinear_arith)
        requires
            title >= 0,
            x <= y,
    ;
    vstd::arithmetic::div_mod::lemma_div_is_ordered(title * x, title * y, 100 * o);
}

proof fn lemma_ratio_ordered(p: Decimal, q: Decimal, m: Decimal)
    requires
        p@.mantissa >= 0,
        q@.mantissa >= 0,
        m@.mantissa > 0,
        decimal::at_most(p, q),
    ensures
        0 <= ratio(p, m) <= ratio(q, m),
{
    let k = decimal::pow10(m@.scale + 18) as int;
    let (a, b) = (decimal::pow10(p@.scale) as int, decimal::pow10(q@.scale) as int);
    let d = m@.mantissa;
    decimal::lemma_pow10_positive(m@.scale + 18);
    decimal::lemma_pow10_positive(p@.scale);
    decimal::lemma_pow10_positive(q@.scale);
    let (x, y) = (p@.mantissa, q@.mantissa);
    let n = (x * k) / (d * a);
    assert(d * a > 0 && d * b > 0 && x * k >= 0) by (nonlinear_arith)
        requires
            d > 0,
            a > 0,
            b > 0,
            x >= 0,
            k > 0,
    ;
    vstd::arithmetic::div_mod::lemma_fundamental_div_mod(x * k, d * a);
    vstd::arithmetic::div_mod::lemma_div_pos_is_pos(x * k, d * a);
    assert(n * (d * a) <= x * k) by (nonlinear_arith)
        requires
            x * k == (d * a) * n + (x * k) % (d * a),
            d * a > 0,
    ;
    assert(n * (d * b) <= y * k) by (nonlinear_arith)
        requires
            n * (d * a) <= x * k,
            x * b <= y * a,
            a > 0,
            b > 0,
            k > 0,
    {
        assert((n * (d * a)) * b <= (x * k) * b);
        assert((x * b) * k <= (y * a) * k);
        assert((n * (d * b)) * a <= (y * k) * a);
    }
    assert((y * k) / (d * b) >= n) by {
        vstd::arithmetic::div_mod::lemma_div_by_multiple(n, d * b);
        vstd::arithmetic::div_mod::lemma_div_is_ordered(n * (d * b), y * k, d * b);
    }
}

/// Up to the price that the manufacturer asks, a dearer offer scores no less.
pub proof fn dearer_scores_no_less_up_to_msrp(price: Decimal, dearer: Decimal, msrp: Decimal)
    requires
        price@.mantissa > 0,
        dearer@.mantissa > 0,
        msrp@.mantissa > 0,
        decimal::at_most(price, dearer),
        decimal::at_most(dearer, msrp),
    ensures
        anchored_score(price, msrp) <= anchored_score(dearer, msrp),
{
    lemma_ratio_ordered(price, dearer, msrp);
    lemma_ratio_ordered(dearer, msrp, msrp);
    lemma_ratio_self(msrp);
}

proof fn lemma_ratio_self(m: Decimal)
    requires
        m@.mantissa > 0,
    ensures
        ratio(m, m) == ONE,
{
    lemma_ratio_up(m@.mantissa, m@.mantissa, m@.scale + 18, m@.scale, 18);
    let d = m@.mantissa;
    lemma_one();
    assert(d * ONE == ONE * d) by (nonlinear_arith);
    vstd::arithmetic::div_mod::lemma_div_by_multiple(ONE as int, d);
}

/// An offer at the price that the manufacturer asks has the whole score for its
/// price, and one below a tenth of it has none.
pub proof fn anchored_extremes(price: Decimal, msrp: Decimal)
    requires
        price@.mantissa > 0,
        msrp@.mantissa > 0,
    ensures
        anchored_score(msrp, msrp) == ONE,
        ratio(price, msrp) < 100_000_000_000_000_000 ==> anchored_score(price, msrp) == 0,
{
    lemma_ratio_self(msrp);
}

proof fn lemma_positive_kept(v: Seq<Decimal>, i: int)
    requires
        0 <= i < v.len(),
        v[i]@.mantissa > 0,
    ensures
        positives(v).len() > 0,
    decreases v.len(),
{
    if i < v.len() - 1 {
        lemma_positive_kept(v.drop_last(), i);
    }
}

/// Where the price that the manufacturer asks is known, an offer below a tenth of it scores
/// nothing, whatever its title and whatever the other prices.
pub proof fn accessories_score_nothing(
    title: Seq<char>,
    query: Seq<char>,
    prices: Seq<Decimal>,
    msrp: Decimal,
    i: int,
)
    requires
        0 <= i < prices.len(),
        prices[i]@.mantissa > 0,
        msrp@.mantissa > 0,
        ratio(prices[i], msrp) < 100_000_000_000_000_000,
    ensures
        cluster_scores(prices, Some(msrp))[i] == 0,
        relevance(
            title,
            query,
            cluster_scores(prices, Some(msrp))[i],
            cluster_gap(prices, Some(msrp)),
        ) == 0,
{
    lemma_positive_kept(prices, i);
    order::lemma_sorted_keeps(positives(prices), order::amount_order(), |d: Decimal| true);
    price_vetoes(
        structure_score(normalized(title), normalized(query)),
        similarity_score(normalized(title), normalized(query)),
        cluster_gap(prices, Some(msrp)),
    );
}

proof fn lemma_word_found(s: Seq<char>, i: int)
    requires
        0 <= i < text::word_scan(s).done.len(),
    ensures
        exists|k: int| #[trigger] text::occurs_at(s, text::word_scan(s).done[i], k),
    decreases s.len(),
{
    let t = s.drop_last();
    let before = text::word_scan(t);
    let word = text::word_scan(s).done[i];
    if i < before.done.len() {
        lemma_word_found(t, i);
        let k = choose|k: int| #[trigger] text::occurs_at(t, before.done[i], k);
        assert(s.subrange(k, k + word.len()) =~= t.subrange(k, k + word.len()));
        assert(text::occurs_at(s, word, k));
    } else {
        lemma_open_word(t);
        let k = t.len() - word.len();
        assert(s.subrange(k, k + word.len()) =~= t.subrange(k, k + word.len()));
        assert(text::occurs_at(s, word, k));
    }
}

proof fn lemma_open_word(s: Seq<char>)
    ensures
        text::word_scan(s).open.len() <= s.len(),
        text::occurs_at(s, text::word_scan(s).open, s.len() - text::word_scan(s).open.len()),
    decreases s.len(),
{
    let open = text::word_scan(s).open;
    if s.len() > 0 {
        lemma_open_word(s.drop_last());
        let before = text::word_scan(s.drop_last()).open;
        if !text::space(s.last()) {
            let k = s.len() - open.len();
            assert(s.drop_last().subrange(k, s.len() - 1) =~= before);
            assert(s.subrange(k, s.len() as int) =~= open);
        } else {
            assert(s.subrange(s.len() as int, s.len() as int) =~= open);
        }
    } else {
        assert(s.subrange(0, 0) =~= open);
    }
}

/// A title holds every word of a search for that title.
pub proof fn title_matches_itself(title: Seq<char>)
    ensures
        matching(title, title),
{
    let n = normalized(title);
    let words = text::words(n);
    assert forall|i: int| 0 <= i < words.len() && telling(#[trigger] words[i]) implies stands_in(
        n,
        words[i],
    ) by {
        let scan = text::word_scan(n);
        if i < scan.done.len() {
            lemma_word_found(n, i);
        } else {
            lemma_open_word(n);
        }
        let k = choose|k: int| #[trigger] text::occurs_at(n, words[i], k);
        text::lemma_position(n, words[i], 0);
        assert(text::occurs_at(n, words[i], k));
    }
}

/// An amount beside another one, both in units of the smallest decimal place of the two
/// together.
pub open spec fn beside(a: Decimal, b: Decimal) -> int {
    a@.mantissa * decimal::pow10(b@.scale)
}

proof fn lemma_ratio_bounds(a: Decimal, b: Decimal)
    requires
        a@.mantissa >= 0,
        b@.mantissa > 0,
    ensures
        ({
            let r = ratio(a, b);
            let (p, m) = (beside(a, b), beside(b, a));
            &&& m > 0
            &&& p >= 0
            &&& r >= 0
            &&& r * m <= p * 1_000_000_000_000_000_000int < (r + 1) * m
        }),
{
    lemma_one();
    decimal::lemma_pow10_sum(b@.scale, 18);
    decimal::lemma_pow10_positive(a@.scale);
    decimal::lemma_pow10_positive(b@.scale);
    let (x, y) = (a@.mantissa, b@.mantissa);
    let (c, d) = (decimal::pow10(b@.scale) as int, decimal::pow10(a@.scale) as int);
    let o = 1_000_000_000_000_000_000int;
    let (p, m, r) = (x * c, y * d, ratio(a, b));
    assert(x * (c * o) == (x * c) * o) by (nonlinear_arith);
    assert(m > 0 && p >= 0) by (nonlinear_arith)
        requires
            m == y * d,
            p == x * c,
            y > 0,
            d > 0,
            x >= 0,
            c > 0,
    ;
    assert(r == (p * o) / m);
    vstd::arithmetic::div_mod::lemma_fundamental_div_mod(p * o, m);
    vstd::arithmetic::div_mod::lemma_mod_bound(p * o, m);
    vstd::arithmetic::div_mod::lemma_div_pos_is_pos(p * o, m);
    assert(r * m <= p * o < (r + 1) * m) by (nonlinear_arith)
        requires
            p * o == m * r + (p * o) % m,
            0 <= (p * o) % m < m,
    ;
}

proof fn lemma_ratio_under(r: int, p: int, m: int, k: int)
    requires
        m > 0,
        r * m <= p * 1_000_000_000_000_000_000int < (r + 1) * m,
    ensures
        r < k <==> p * 1_000_000_000_000_000_000int < k * m,
{
    let n = p * 1_000_000_000_000_000_000int;
    assert(n < k * m ==> r < k) by (nonlinear_arith)
        requires
            m > 0,
            r * m <= n,
    ;
    assert(r < k ==> n < k * m) by (nonlinear_arith)
        requires
            m > 0,
            n < (r + 1) * m,
    ;
}

proof fn lemma_ramp(r: int, p: int, m: int, s: int)
    requires
        m > 0,
        r * m <= p * 1_000_000_000_000_000_000int < (r + 1) * m,
        s == ((r - 100_000_000_000_000_000) * 8) / 11,
    ensures
        s * (110 * m) <= (8 * (10 * p - m)) * 1_000_000_000_000_000_000int < (s + 2) * (110 * m),
{
    let o = 1_000_000_000_000_000_000int;
    let n = p * o;
    assert(11 * s <= 8 * r - 800_000_000_000_000_000 < 11 * s + 11);
    assert((11 * s) * m <= (8 * r - 800_000_000_000_000_000) * m < (11 * s + 11) * m)
        by (nonlinear_arith)
        requires
            m > 0,
            11 * s <= 8 * r - 800_000_000_000_000_000 < 11 * s + 11,
    ;
    assert((11 * s) * m == 11 * (s * m) && (8 * r - 800_000_000_000_000_000) * m == 8 * (r * m)
        - 800_000_000_000_000_000 * m && (11 * s + 11) * m == 11 * (s * m) + 11 * m && (r + 1) * m
        == r * m + m && s * (110 * m) == 110 * (s * m) && (s + 2) * (110 * m) == 110 * (s * m) + 220
        * m) by (nonlinear_arith);
    assert((8 * (10 * p - m)) * o == 80 * n - 8 * (m * o)) by (nonlinear_arith)
        requires
            n == p * o,
    ;
    assert(m * o == 1_000_000_000_000_000_000int * m) by (nonlinear_arith)
        requires
            o == 1_000_000_000_000_000_000int,
    ;
}

proof fn lemma_nearness(r: int, p: int, m: int)
    requires
        m > 0,
        r * m <= p * 1_000_000_000_000_000_000int < (r + 1) * m,
        0 <= p,
    ensures
        nearness(r) >= 500_000_000_000_000_000,
        nearness(r) <= 1_000_000_000_000_000_000,
        2 * m <= 3 * p && p <= m ==> size(
            nearness(r) * (10 * m) - (7 * m + 3 * p) * 1_000_000_000_000_000_000int,
        ) <= 10 * m,
        m <= p && 3 * p <= 8 * m ==> size(
            nearness(r) * (10 * m) - (13 * m - 3 * p) * 1_000_000_000_000_000_000int,
        ) <= 13 * m,
        3 * p >= 8 * m ==> nearness(r) <= 500_000_000_000_000_001,
{
    let o = 1_000_000_000_000_000_000int;
    let n = p * o;
    let s = nearness(r);
    lemma_ratio_under(r, p, m, o);
    let away = if r >= o {
        r - o
    } else {
        o - r
    };
    let drop = (away * 3) / 10;
    assert(10 * drop <= 3 * away < 10 * drop + 10);
    let rm = r * m;
    assert((r + 1) * m == rm + m) by (nonlinear_arith)
        requires
            rm == r * m,
    ;
    assert(m * o == 1_000_000_000_000_000_000int * m) by (nonlinear_arith)
        requires
            o == 1_000_000_000_000_000_000int,
    ;
    assert(away * m == if r >= o {
        rm - m * o
    } else {
        m * o - rm
    }) by (nonlinear_arith)
        requires
            rm == r * m,
            away == if r >= o {
                r - o
            } else {
                o - r
            },
    ;
    let dm = drop * m;
    assert(10 * dm <= 3 * (away * m) < 10 * dm + 10 * m) by (nonlinear_arith)
        requires
            10 * drop <= 3 * away < 10 * drop + 10,
            dm == drop * m,
            m > 0,
    ;
    assert((7 * m + 3 * p) * o == 7 * (m * o) + 3 * n && (13 * m - 3 * p) * o == 13 * (m * o) - 3
        * n) by (nonlinear_arith)
        requires
            n == p * o,
    ;
    assert(3 * p >= 8 * m ==> 3 * n >= 8 * (m * o)) by (nonlinear_arith)
        requires
            n == p * o,
            o > 0,
    ;
    assert(3 * p <= 8 * m ==> 3 * n <= 8 * (m * o)) by (nonlinear_arith)
        requires
            n == p * o,
            o > 0,
    ;
    assert(p <= m ==> n <= m * o) by (nonlinear_arith)
        requires
            n == p * o,
            o > 0,
    ;
    assert(m <= p ==> m * o <= n) by (nonlinear_arith)
        requires
            n == p * o,
            o > 0,
    ;
    assert(2 * m <= 3 * p ==> 2 * (m * o) <= 3 * n) by (nonlinear_arith)
        requires
            n == p * o,
            o > 0,
    ;
    let e = o - drop;
    assert(e * m == m * o - dm) by (nonlinear_arith)
        requires
            e == o - drop,
            dm == drop * m,
    ;
    assert(s * (10 * m) == 10 * (s * m)) by (nonlinear_arith);
    if s == e {
        assert(s * m == m * o - dm);
    } else {
        assert(s == 500_000_000_000_000_000 && e < s);
        assert(s * m == 500_000_000_000_000_000 * m) by (nonlinear_arith)
            requires
                s == 500_000_000_000_000_000,
        ;
        assert(e * m <= s * m - m) by (nonlinear_arith)
            requires
                e + 1 <= s,
                m > 0,
        ;
    }
    if 3 * p >= 8 * m && e > 500_000_000_000_000_001 {
        assert(e * m >= 500_000_000_000_000_002 * m) by (nonlinear_arith)
            requires
                e >= 500_000_000_000_000_002,
                m > 0,
        ;
    }
}

/// A number without its sign.
pub open spec fn size(n: int) -> int {
    if n < 0 {
        -n
    } else {
        n
    }
}

/// Where the price that the manufacturer asks is known, the score of an offer for its price
/// goes by the share of that price that it costs, to within two quintillionths: nothing
/// below a tenth, then rising evenly to two fifths at 65 hundredths; from there on to three
/// times the price the whole less three tenths of the distance from it, but no less than a
/// half; and two fifths beyond. All is multiplied out: `p` to `m` is the offer to the price
/// that is asked.
pub proof fn scores_follow_the_price_asked(prices: Seq<Decimal>, msrp: Decimal, i: int)
    requires
        0 <= i < prices.len(),
        prices[i]@.mantissa > 0,
        msrp@.mantissa > 0,
    ensures
        ({
            let s = cluster_scores(prices, Some(msrp))[i];
            let (p, m) = (beside(prices[i], msrp), beside(msrp, prices[i]));
            let o = 1_000_000_000_000_000_000int;
            &&& 10 * p < m ==> s == 0
            &&& m <= 10 * p && 100 * p < 65 * m ==> s * (110 * m) <= (8 * (10 * p - m)) * o < (s + 2)
                * (110 * m)
            &&& 65 * m <= 100 * p && p <= 3 * m ==> 2 * s >= o && s <= o
            &&& 65 * m <= 100 * p && 3 * p < 2 * m ==> size(s * (10 * m) - (7 * m + 3 * p) * o) <= 10
                * m
            &&& 2 * m <= 3 * p && p <= m ==> size(s * (10 * m) - (7 * m + 3 * p) * o) <= 10 * m
            &&& m <= p && 3 * p <= 8 * m ==> size(s * (10 * m) - (13 * m - 3 * p) * o) <= 13 * m
            &&& 8 * m <= 3 * p && p <= 3 * m ==> 2 * s <= o + 2
            &&& p * o >= (3 * o + 1) * m ==> 10 * s == 4 * o
            &&& p > 3 * m ==> 10 * s == 4 * o || (p * o < (3 * o + 1) * m && o <= 2 * s <= o + 2)
        }),
{
    let s = cluster_scores(prices, Some(msrp))[i];
    let (p, m) = (beside(prices[i], msrp), beside(msrp, prices[i]));
    let o = 1_000_000_000_000_000_000int;
    lemma_positive_kept(prices, i);
    order::lemma_sorted_keeps(positives(prices), order::amount_order(), |d: Decimal| true);
    assert(s == anchored_score(prices[i], msrp));
    lemma_ratio_bounds(prices[i], msrp);
    let r = ratio(prices[i], msrp);
    lemma_ratio_under(r, p, m, 100_000_000_000_000_000);
    lemma_ratio_under(r, p, m, 650_000_000_000_000_000);
    lemma_ratio_under(r, p, m, 3 * o + 1);
    lemma_nearness(r, p, m);
    if 100_000_000_000_000_000 <= r < 650_000_000_000_000_000 {
        lemma_ramp(r, p, m, s);
    }
    assert(p * o == 1_000_000_000_000_000_000int * p && (3 * o + 1) * m
        == 3_000_000_000_000_000_001int * m) by (nonlinear_arith)
        requires
            o == 1_000_000_000_000_000_000int,
    ;
    if 65 * m <= 100 * p && 3 * p < 2 * m {
        lemma_nearness_low(r, p, m);
    }
}

proof fn lemma_nearness_low(r: int, p: int, m: int)
    requires
        m > 0,
        0 <= p,
        r * m <= p * 1_000_000_000_000_000_000int < (r + 1) * m,
        65 * m <= 100 * p,
        3 * p < 2 * m,
    ensures
        size(nearness(r) * (10 * m) - (7 * m + 3 * p) * 1_000_000_000_000_000_000int) <= 10 * m,
{
    let o = 1_000_000_000_000_000_000int;
    let n = p * o;
    lemma_ratio_under(r, p, m, o);
    lemma_ratio_under(r, p, m, 650_000_000_000_000_000);
    assert(n == 1_000_000_000_000_000_000int * p);
    let away = o - r;
    let drop = (away * 3) / 10;
    assert(10 * drop <= 3 * away < 10 * drop + 10);
    assert(r < o);
    let s = nearness(r);
    assert(s == o - drop);
    let rm = r * m;
    assert((r + 1) * m == rm + m && away * m == o * m - rm && s * (10 * m) == 10 * (o * m) - 10 * (
    drop * m)) by (nonlinear_arith)
        requires
            rm == r * m,
            away == o - r,
            s == o - drop,
    ;
    assert(10 * (drop * m) <= 3 * (away * m) < 10 * (drop * m) + 10 * m) by (nonlinear_arith)
        requires
            10 * drop <= 3 * away < 10 * drop + 10,
            m > 0,
    ;
    assert((7 * m + 3 * p) * o == 7 * (o * m) + 3 * n) by (nonlinear_arith)
        requires
            n == p * o,
    ;
}

/// From the price that the manufacturer asks up to three times it, a dearer offer scores no
/// more for its price; and nowhere above it as little as an offer below a tenth of it.
pub proof fn dearer_scores_no_more_above_msrp(
    prices: Seq<Decimal>,
    msrp: Decimal,
    i: int,
    j: int,
)
    requires
        0 <= i < prices.len(),
        0 <= j < prices.len(),
        msrp@.mantissa > 0,
        prices[i]@.mantissa > 0,
        prices[j]@.mantissa > 0,
        decimal::at_most(msrp, prices[i]),
        decimal::at_most(prices[i], prices[j]),
    ensures
        ({
            let s = cluster_scores(prices, Some(msrp));
            s[j] <= s[i] && s[j] >= 400_000_000_000_000_000
        }),
{
    lemma_positive_kept(prices, i);
    order::lemma_sorted_keeps(positives(prices), order::amount_order(), |d: Decimal| true);
    lemma_ratio_ordered(msrp, prices[i], msrp);
    lemma_ratio_ordered(prices[i], prices[j], msrp);
    lemma_ratio_self(msrp);
}

/// An offer without a price scores three tenths for it where any other has one.
pub proof fn missing_prices_score_three_tenths(
    prices: Seq<Decimal>,
    msrp: Option<Decimal>,
    i: int,
    j: int,
)
    requires
        0 <= i < prices.len(),
        0 <= j < prices.len(),
        prices[i]@.mantissa <= 0,
        prices[j]@.mantissa > 0,
    ensures
        10 * cluster_scores(prices, msrp)[i] == 3_000_000_000_000_000_000int,
{
    lemma_positive_kept(prices, j);
    order::lemma_sorted_keeps(positives(prices), order::amount_order(), |d: Decimal| true);
}

/// The score of an offer is made up of 45 hundredths for where the words stand in its title,
/// 35 for how alike the title is and 20 for its price, and of 35, 25 and 40 where the prices
/// are more than threefold apart; but what the title says counts only in proportion where
/// the price scores less than two fifths. All to within three quintillionths.
pub proof fn signals_are_weighed(structure: int, similarity: int, cluster: int, gap_ratio: int)
    requires
        0 <= structure <= 1_000_000_000_000_000_000,
        0 <= similarity <= 1_000_000_000_000_000_000,
        0 <= cluster <= 1_000_000_000_000_000_000,
    ensures
        ({
            let total = combined_score(structure, similarity, cluster, gap_ratio);
            let o = 1_000_000_000_000_000_000int;
            let apart = gap_ratio > 3 * o;
            let title = if apart {
                35 * structure + 25 * similarity
            } else {
                45 * structure + 35 * similarity
            };
            let price = if apart {
                40 * cluster
            } else {
                20 * cluster
            };
            &&& 5 * cluster >= 2 * o ==> 100 * total <= title + price < 100 * (total + 2)
            &&& 5 * cluster <= 2 * o ==> (200 * o) * total <= (5 * cluster) * title + (2 * o) * price
                < (200 * o) * (total + 4)
        }),
{
    let o = 1_000_000_000_000_000_000int;
    let w = weights(gap_ratio);
    let x = structure * w.structure + similarity * w.similarity;
    let d = damping(cluster);
    let told = (x * d) / (100 * o);
    let paid = (cluster * w.cluster) / 100;
    let total = combined_score(structure, similarity, cluster, gap_ratio);
    assert(x == if gap_ratio > 3 * o {
        35 * structure + 25 * similarity
    } else {
        45 * structure + 35 * similarity
    });
    assert(0 <= x <= 80 * o);
    assert(0 <= d <= o);
    assert(x * d >= 0) by (nonlinear_arith)
        requires
            x >= 0,
            d >= 0,
    ;
    assert((100 * o) * told <= x * d < (100 * o) * told + 100 * o);
    let price = cluster * w.cluster;
    assert(100 * paid <= price < 100 * paid + 100);
    assert(price == if gap_ratio > 3 * o {
        40 * cluster
    } else {
        20 * cluster
    });
    if 5 * cluster >= 2 * o {
        assert(d == o);
        assert(x * o == 1_000_000_000_000_000_000int * x);
    }
    if 5 * cluster <= 2 * o {
        assert(2 * d <= 5 * cluster < 2 * d + 2);
        let c5 = 5 * cluster;
        assert(2 * (x * d) <= c5 * x <= 2 * (x * d) + 2 * x) by (nonlinear_arith)
            requires
                2 * d <= c5 < 2 * d + 2,
                x >= 0,
        ;
    }
}

/// How many times the price before it a price is, in quintillionths.
pub open spec fn step_to(s: Seq<Decimal>, j: int) -> int {
    ratio(s[j], s[j - 1])
}

/// Whether a price is more than so many times the one before it, multiplied out.
pub open spec fn jumps(s: Seq<Decimal>, j: int, times: int) -> bool {
    beside(s[j], s[j - 1]) > times * beside(s[j - 1], s[j])
}

/// The widest gap is as wide as one between two neighbours, the first such, and no other is
/// wider.
proof fn lemma_widest(s: Seq<Decimal>, k: int)
    requires
        0 <= k <= s.len(),
        all_positive(s),
    ensures
        forall|j: int| 1 <= j < k ==> #[trigger] step_to(s, j) <= widest_gap(s, k).ratio,
        widest_gap(s, k).ratio > 0 ==> 1 <= widest_gap(s, k).at < k && step_to(
            s,
            widest_gap(s, k).at,
        ) == widest_gap(s, k).ratio,
        widest_gap(s, k).ratio >= 0,
    decreases k,
{
    if k > 1 {
        lemma_widest(s, k - 1);
    }
}

proof fn lemma_step(s: Seq<Decimal>, j: int)
    requires
        1 <= j < s.len(),
        all_positive(s),
    ensures
        step_to(s, j) > 2_000_000_000_000_000_000 ==> jumps(s, j, 2),
        step_to(s, j) > 3_000_000_000_000_000_000 ==> jumps(s, j, 3),
{
    let (p, m, r) = (beside(s[j], s[j - 1]), beside(s[j - 1], s[j]), step_to(s, j));
    assert(s[j]@.mantissa > 0 && s[j - 1]@.mantissa > 0);
    lemma_ratio_bounds(s[j], s[j - 1]);
    lemma_ratio_under(r, p, m, 2_000_000_000_000_000_001);
    lemma_ratio_under(r, p, m, 3_000_000_000_000_000_001);
}

/// Among prices in order, the products are told from the accessories before them by the
/// widest gap, if it is more than twofold and has three prices behind it, or is more than
/// threefold; fewer than four prices are never told apart. A gap of more than threefold, by a
/// quintillionth at least, always tells them apart, and so does the widest one if it is more
/// than twofold and has three prices behind it.
pub proof fn products_start_behind_the_widest_gap(s: Seq<Decimal>)
    requires
        s.len() > 0,
        all_positive(s),
    ensures
        ({
            let n = s.len() as int;
            let k = product_start(s);
            &&& 0 <= k < n
            &&& n < 4 ==> k == 0
            &&& k > 0 ==> jumps(s, k, 2)
            &&& k > 0 && n - k < 3 ==> jumps(s, k, 3)
            &&& k > 0 ==> forall|j: int| 1 <= j < n ==> #[trigger] step_to(s, j) <= step_to(s, k)
            &&& n >= 4 ==> forall|j: int|
                1 <= j < n && #[trigger] step_to(s, j) > 3_000_000_000_000_000_000int ==> k > 0
            &&& n >= 4 ==> forall|j: int|
                1 <= j <= n - 3 && #[trigger] step_to(s, j) > 2_000_000_000_000_000_000int && (forall|i: int|
                    1 <= i < n && i != j ==> #[trigger] step_to(s, i) < step_to(s, j)) ==> k == j
        }),
{
    let n = s.len() as int;
    let k = product_start(s);
    lemma_widest(s, n);
    let g = widest_gap(s, n);
    if k > 0 {
        lemma_step(s, k);
    }
    if n >= 4 {
        assert forall|j: int|
            1 <= j < n && #[trigger] step_to(s, j) > 3_000_000_000_000_000_000int implies k > 0 by {
            assert(step_to(s, j) <= g.ratio);
        }
        assert forall|j: int|
            1 <= j <= n - 3 && #[trigger] step_to(s, j) > 2_000_000_000_000_000_000int && (forall|i: int|
                1 <= i < n && i != j ==> #[trigger] step_to(s, i) < step_to(s, j)) implies k == j by {
            assert(step_to(s, j) <= g.ratio);
            assert(step_to(s, g.at) == g.ratio);
            assert(g.at == j);
        }
    }
}

/// Where no price of the manufacturer is known, an offer below the products scores two fifths
/// of its share of the cheapest of them, but no more than 35 hundredths; one from there on
/// scores the whole less three tenths of its distance from the middle price, but no less than
/// a half. All is multiplied out: `p` to `low`, and `q` to `mid`, is the offer to either.
pub proof fn prices_score_by_their_cluster(price: Decimal, s: Seq<Decimal>)
    requires
        s.len() > 0,
        all_positive(s),
        price@.mantissa > 0,
        decimal::at_most(price, s.last()),
    ensures
        ({
            let score = gapped_score(price, s);
            let start = s[product_start(s)];
            let middle = s[s.len() as int / 2];
            let (p, low) = (beside(price, start), beside(start, price));
            let (q, mid) = (beside(price, middle), beside(middle, price));
            let o = 1_000_000_000_000_000_000int;
            &&& p < low ==> 20 * score <= 7 * o && score * (10 * low) <= (4 * p) * o
            &&& p < low && 20 * score < 7 * o ==> (4 * p) * o < (score + 2) * (10 * low)
            &&& p >= low ==> 2 * score >= o && score <= o
            &&& p >= low && 2 * mid <= 3 * q && q <= mid ==> size(
                score * (10 * mid) - (7 * mid + 3 * q) * o,
            ) <= 10 * mid
            &&& p >= low && mid <= q && 3 * q <= 8 * mid ==> size(
                score * (10 * mid) - (13 * mid - 3 * q) * o,
            ) <= 13 * mid
            &&& p >= low && 3 * q >= 8 * mid ==> score <= 500_000_000_000_000_001
        }),
{
    let start = s[product_start(s)];
    let middle = s[s.len() as int / 2];
    products_start_behind_the_widest_gap(s);
    assert(start@.mantissa > 0 && middle@.mantissa > 0);
    let (p, low) = (beside(price, start), beside(start, price));
    let (q, mid) = (beside(price, middle), beside(middle, price));
    let o = 1_000_000_000_000_000_000int;
    lemma_ratio_bounds(price, start);
    lemma_ratio_bounds(price, middle);
    lemma_nearness(ratio(price, middle), q, mid);
    let r = ratio(price, start);
    let x = (r * 4) / 10;
    assert(10 * x <= 4 * r < 10 * x + 10);
    assert((10 * x) * low <= (4 * r) * low && (4 * r + 4) * low <= (10 * x + 14) * low)
        by (nonlinear_arith)
        requires
            10 * x <= 4 * r < 10 * x + 10,
            low > 0,
    ;
    assert((10 * x) * low == x * (10 * low) && (4 * r) * low == 4 * (r * low) && (4 * r + 4) * low
        == 4 * ((r + 1) * low) && (10 * x + 14) * low <= (x + 2) * (10 * low) && (4 * p) * o == 4 * (
    p * o)) by (nonlinear_arith)
        requires
            low > 0,
    ;
    let score = gapped_score(price, s);
    if p < low && score != x {
        assert(score <= x);
        assert(score * (10 * low) <= x * (10 * low)) by (nonlinear_arith)
            requires
                score <= x,
                low > 0,
        ;
    }
}

/// The scores of prices without one of the manufacturer are those among the prices that are
/// more than nothing, from the cheapest to the dearest.
pub proof fn prices_are_scored_in_order(prices: Seq<Decimal>, i: int)
    requires
        0 <= i < prices.len(),
        prices[i]@.mantissa > 0,
    ensures
        exists|s: Seq<Decimal>|
            s.len() > 0 && all_positive(s) && (forall|a: int, b: int|
                0 <= a <= b < s.len() ==> decimal::at_most(#[trigger] s[a], #[trigger] s[b])) && (
            forall|d: Decimal| #[trigger]
                s.to_multiset().count(d) == (if d@.mantissa > 0 {
                    prices.to_multiset().count(d)
                } else {
                    0
                })) && cluster_scores(prices, None)[i] == #[trigger] gapped_score(prices[i], s)
                && decimal::at_most(prices[i], s.last()) && (s.len() < 4 ==> cluster_gap(prices, None)
                == 1_000_000_000_000_000_000) && (s.len() >= 4 ==> forall|j: int|
                1 <= j < s.len() ==> #[trigger] step_to(s, j) <= cluster_gap(prices, None)),
{
    let s = order::sorted(positives(prices), order::amount_order());
    let le = order::amount_order();
    lemma_positive_kept(prices, i);
    lemma_sorted_positive(prices);
    lemma_positives_same(prices);
    order::amount_order_is_total();
    order::sorting_orders(positives(prices), le);
    assert forall|a: int, b: int| 0 <= a <= b < s.len() implies decimal::at_most(
        #[trigger] s[a],
        #[trigger] s[b],
    ) by {
        assert(le(s[a], s[b]));
    }
    broadcast use vstd::seq_lib::group_to_multiset_ensures;

    assert(prices.to_multiset().count(prices[i]) > 0) by {
        assert(prices.contains(prices[i]));
    }
    assert(s.to_multiset().count(prices[i]) > 0);
    assert(s.contains(prices[i]));
    let k = choose|k: int| 0 <= k < s.len() && s[k] == prices[i];
    assert(decimal::at_most(s[k], s[s.len() - 1]));
    lemma_widest(s, s.len() as int);
    assert(cluster_scores(prices, None)[i] == gapped_score(prices[i], s));
}

/// How many of some words stand in a title.
pub open spec fn standing(title: Seq<char>, words: Seq<Seq<char>>) -> Seq<Seq<char>> {
    words.filter(
        |w: Seq<char>| text::has(title, w) || text::has(text::dropped(title, ' '), w),
    )
}

proof fn lemma_places(title: Seq<char>, words: Seq<Seq<char>>)
    ensures
        places(title, words).len() == standing(title, words).len(),
        places(title, words).len() <= words.len(),
        places(title, words).len() == words.len() ==> forall|i: int|
            0 <= i < words.len() ==> Some(#[trigger] places(title, words)[i]) == place(
                title,
                words[i],
            ),
        (forall|i: int|
            0 <= i < words.len() ==> text::has(title, #[trigger] words[i]) || text::has(
                text::dropped(title, ' '),
                words[i],
            )) ==> places(title, words).len() == words.len(),
    decreases words.len(),
{
    reveal(Seq::filter);
    if words.len() > 0 {
        let t = words.drop_last();
        lemma_places(title, t);
        text::lemma_position(title, words.last(), 0);
        assert forall|i: int| 0 <= i < t.len() implies #[trigger] t[i] == words[i] by {}
        assert(words.last() == words[words.len() - 1]);
        assert(place(title, words.last()) is Some <==> text::has(title, words.last()) || text::has(
            text::dropped(title, ' '),
            words.last(),
        ));
    }
}

/// A title with only some of the words of a search scores a fifth of the share of them that
/// it holds; an empty one scores nothing, and any other one a half for a search of no words.
pub proof fn missing_words_cost_four_fifths(title: Seq<char>, query: Seq<char>)
    ensures
        ({
            let words = text::words(query);
            let held = words.filter(
                |w: Seq<char>| text::has(title, w) || text::has(text::dropped(title, ' '), w),
            ).len() as int;
            let n = words.len() as int;
            let score = structure_score(title, query);
            &&& title.len() == 0 ==> score == 0
            &&& title.len() > 0 && n == 0 ==> 2 * score == 1_000_000_000_000_000_000int
            &&& title.len() > 0 && held < n ==> (5 * n) * score <= held
                * 1_000_000_000_000_000_000int < (5 * n) * (score + 1)
        }),
{
    let words = text::words(query);
    lemma_places(title, words);
    let held = standing(title, words).len() as int;
    let n = words.len() as int;
    if title.len() > 0 && held < n {
        let x = held * 1_000_000_000_000_000_000int;
        vstd::arithmetic::div_mod::lemma_fundamental_div_mod(x, 5 * n);
        vstd::arithmetic::div_mod::lemma_mod_bound(x, 5 * n);
        let score = structure_score(title, query);
        assert(score == x / (5 * n));
        assert((5 * n) * (score + 1) == (5 * n) * score + 5 * n) by (nonlinear_arith);
    }
}

/// A title with every word of a search scores by where the first of them stands, in the first
/// tenth, quarter, half or later; a fifth more where it holds the search as it is; and less
/// where the words lie further apart than once and a half, or three times, the length of the
/// search.
pub proof fn words_score_by_their_places(
    title: Seq<char>,
    query: Seq<char>,
    first: int,
    last: int,
)
    requires
        title.len() > 0,
        text::words(query).len() > 0,
        ({
            let words = text::words(query);
            &&& forall|i: int|
                0 <= i < words.len() ==> {
                    let at = match text::position(title, #[trigger] words[i], 0) {
                        Some(k) => Some(text::byte_len(title.take(k)) as int),
                        None => if text::has(text::dropped(title, ' '), words[i]) {
                            Some(0int)
                        } else {
                            None
                        },
                    };
                    at is Some && first <= at->0 <= last
                }
            &&& exists|i: int|
                0 <= i < words.len() && place(title, #[trigger] words[i]) == Some(first)
            &&& exists|i: int|
                0 <= i < words.len() && place(title, #[trigger] words[i]) == Some(last)
        }),
    ensures
        ({
            let long = text::byte_len(title) as int;
            let wide = text::byte_len(query) as int;
            let early = if 10 * first < long {
                100int
            } else if 4 * first < long {
                85
            } else if 2 * first < long {
                50
            } else {
                20
            };
            let phrase = if text::has(title, query) {
                20int
            } else {
                0
            };
            let apart = if wide == 0 || 2 * (last - first) <= 3 * wide {
                0int
            } else if last - first <= 3 * wide {
                25
            } else {
                50
            };
            let worth = early + phrase - apart;
            let score = structure_score(title, query);
            &&& worth >= 100 ==> score == 1_000_000_000_000_000_000int
            &&& worth <= 0 ==> score == 0
            &&& 0 <= worth <= 100 ==> score == worth * 10_000_000_000_000_000int
        }),
{
    let words = text::words(query);
    let at = places(title, words);
    assert forall|i: int| 0 <= i < words.len() implies text::has(title, #[trigger] words[i])
        || text::has(text::dropped(title, ' '), words[i]) by {
        text::lemma_position(title, words[i], 0);
        assert(text::position(title, words[i], 0) is Some || text::has(
            text::dropped(title, ' '),
            words[i],
        ));
    }
    lemma_places(title, words);
    assert(at.len() == words.len());
    lemma_least_most(at);
    assert forall|i: int| 0 <= i < at.len() implies first <= #[trigger] at[i] <= last by {
        assert(place(title, words[i]) == Some(at[i]));
    }
    let i = choose|i: int| 0 <= i < words.len() && place(title, #[trigger] words[i]) == Some(first);
    let j = choose|j: int| 0 <= j < words.len() && place(title, #[trigger] words[j]) == Some(last);
    assert(at[i] == first && at[j] == last);
    assert(lowest(at) == first);
    assert(highest(at) == last);
}

proof fn lemma_least_most(v: Seq<int>)
    requires
        v.len() > 0,
    ensures
        forall|i: int| 0 <= i < v.len() ==> lowest(v) <= #[trigger] v[i] <= highest(v),
        exists|i: int| 0 <= i < v.len() && #[trigger] v[i] == lowest(v),
        exists|i: int| 0 <= i < v.len() && #[trigger] v[i] == highest(v),
    decreases v.len(),
{
    let t = v.drop_last();
    if v.len() > 1 {
        lemma_least_most(t);
        let i = choose|i: int| 0 <= i < t.len() && #[trigger] t[i] == lowest(t);
        let j = choose|j: int| 0 <= j < t.len() && #[trigger] t[j] == highest(t);
        assert(v[i] == t[i] && v[j] == t[j]);
        assert(v[v.len() - 1] == v.last());
        assert forall|k: int| 0 <= k < v.len() implies lowest(v) <= #[trigger] v[k] <= highest(
            v,
        ) by {
            if k < t.len() {
                assert(t[k] == v[k]);
            }
        }
    } else {
        assert(v[0] == lowest(v) && v[0] == highest(v));
    }
}

/// A share is taken in quintillionths, rounded down, from nothing for one of nothing or less
/// to the whole for one of a whole or more.
pub proof fn shares_are_kept_in_bounds(d: Decimal)
    ensures
        ({
            let u = unit(Some(d));
            let whole = decimal::pow10(d@.scale) as int;
            let o = 1_000_000_000_000_000_000int;
            &&& d@.mantissa <= 0 ==> u == 0
            &&& d@.mantissa >= whole ==> u == o
            &&& 0 < d@.mantissa < whole ==> u * whole <= d@.mantissa * o < (u + 1) * whole
            &&& unit(None) == 0
        }),
{
    let one = decimal::dec(1, 0);
    decimal::lemma_dec(1, 0);
    decimal::lemma_pow10_positive(d@.scale);
    assert(decimal::pow10(0) == 1);
    let whole = decimal::pow10(d@.scale) as int;
    let o = 1_000_000_000_000_000_000int;
    if d@.mantissa > 0 {
        lemma_ratio_bounds(d, one);
        let r = ratio(d, one);
        assert(beside(d, one) == d@.mantissa * 1);
        assert(beside(one, d) == 1 * whole);
        lemma_ratio_under(r, d@.mantissa, whole, o);
        assert(d@.mantissa >= whole ==> d@.mantissa * o >= o * whole) by (nonlinear_arith)
            requires
                o > 0,
        ;
        assert(d@.mantissa < whole ==> d@.mantissa * o < o * whole) by (nonlinear_arith)
            requires
                o > 0,
        ;
    }
}

/// A word is as like some words as to the one of them that it is most like.
pub proof fn likeness_is_to_the_nearest(word: Seq<char>, others: Seq<Seq<char>>)
    ensures
        forall|i: int|
            0 <= i < others.len() ==> unit(
                decimal::of_opt(word_likeness(word, #[trigger] others[i])),
            ) <= best_likeness(word, others),
        best_likeness(word, others) > 0 ==> exists|i: int|
            0 <= i < others.len() && best_likeness(word, others) == unit(
                decimal::of_opt(word_likeness(word, #[trigger] others[i])),
            ),
        best_likeness(word, others) >= 0,
    decreases others.len(),
{
    if others.len() > 0 {
        let t = others.drop_last();
        likeness_is_to_the_nearest(word, t);
        let last = unit(decimal::of_opt(word_likeness(word, others.last())));
        let ghost b = best_likeness(word, t);
        assert(others.last() == others[others.len() - 1]);
        if b >= last && b > 0 {
            let i = choose|i: int|
                0 <= i < t.len() && b == unit(
                    decimal::of_opt(word_likeness(word, #[trigger] t[i])),
                );
            assert(others[i] == t[i]);
        }
        assert forall|i: int| 0 <= i < others.len() implies unit(
            decimal::of_opt(word_likeness(word, #[trigger] others[i])),
        ) <= best_likeness(word, others) by {
            if i < t.len() {
                assert(t[i] == others[i]);
            }
        }
    }
}

proof fn lemma_total_between(words: Seq<Seq<char>>, others: Seq<Seq<char>>, low: int, high: int)
    requires
        forall|i: int|
            0 <= i < words.len() ==> low <= best_likeness(#[trigger] words[i], others) <= high,
    ensures
        low * words.len() <= total_likeness(words, others) <= high * words.len(),
    decreases words.len(),
{
    let n = words.len() as int;
    if words.len() > 0 {
        let t = words.drop_last();
        assert forall|i: int| 0 <= i < t.len() implies low <= best_likeness(#[trigger] t[i], others)
            <= high by {
            assert(t[i] == words[i]);
        }
        lemma_total_between(t, others, low, high);
        assert(words.last() == words[words.len() - 1]);
        assert(low * (n - 1) + low == low * n && high * (n - 1) + high == high * n)
            by (nonlinear_arith);
    }
}

/// How alike a title is to a search lies, for words that are each from `low` to `high` like
/// those of the title, within those bounds, taken in full where the search is longer than
/// three tenths of the title, at 85 hundredths above one tenth and at 70 below; it is never
/// less than how alike the two are as a whole.
pub proof fn titles_are_as_alike_as_their_words(
    title: Seq<char>,
    query: Seq<char>,
    low: int,
    high: int,
)
    requires
        title.len() > 0,
        query.len() > 0,
        text::words(title).len() > 0,
        text::words(query).len() > 0,
        0 <= low,
        forall|i: int|
            0 <= i < text::words(query).len() ==> low <= best_likeness(
                #[trigger] text::words(query)[i],
                text::words(title),
            ) <= high,
    ensures
        ({
            let score = similarity_score(title, query);
            let whole = unit(decimal::of_opt(edit_likeness(query, title)));
            let (q, t) = (text::byte_len(query) as int, text::byte_len(title) as int);
            let part = if 10 * q > 3 * t {
                100int
            } else if 10 * q > t {
                85
            } else {
                70
            };
            &&& score >= whole
            &&& 100 * (score + 1) > part * low
            &&& score == whole || 100 * score <= part * high
        }),
{
    let wanted = text::words(query);
    let found = text::words(title);
    lemma_total_between(wanted, found, low, high);
    let n = wanted.len() as int;
    let total = total_likeness(wanted, found);
    let mean = total / n;
    vstd::arithmetic::div_mod::lemma_fundamental_div_mod(total, n);
    vstd::arithmetic::div_mod::lemma_mod_bound(total, n);
    assert(low <= mean <= high) by (nonlinear_arith)
        requires
            total == n * mean + total % n,
            0 <= total % n < n,
            low * n <= total <= high * n,
            n > 0,
    ;
    let part = focus(text::byte_len(query) as int, text::byte_len(title) as int);
    assert(mean * part >= low * part && mean * part <= high * part) by (nonlinear_arith)
        requires
            low <= mean <= high,
            part > 0,
    ;
    assert(low * part == part * low && high * part == part * high) by (nonlinear_arith);
}

/// Nothing is alike to nothing.
pub proof fn empty_titles_are_not_alike(title: Seq<char>, query: Seq<char>)
    requires
        title.len() == 0 || query.len() == 0,
    ensures
        similarity_score(title, query) == 0,
{
}

/// Whether two letters are one but for an accent, or both set words apart.
pub open spec fn one_letter(a: char, b: char) -> bool {
    ||| a == b
    ||| "-_ "@.contains(a) && "-_ "@.contains(b)
    ||| "aáàãâ"@.contains(a) && "aáàãâ"@.contains(b)
    ||| "eéê"@.contains(a) && "eéê"@.contains(b)
    ||| "ií"@.contains(a) && "ií"@.contains(b)
    ||| "oóôõ"@.contains(a) && "oóôõ"@.contains(b)
    ||| "uúü"@.contains(a) && "uúü"@.contains(b)
    ||| "cç"@.contains(a) && "cç"@.contains(b)
}

/// Titles that differ only in case, accents or dashes are taken for one.
pub proof fn titles_go_without_accents(a: Seq<char>, b: Seq<char>)
    requires
        text::lowered(a).len() == text::lowered(b).len(),
        forall|i: int|
            0 <= i < text::lowered(a).len() ==> one_letter(
                #[trigger] text::lowered(a)[i],
                text::lowered(b)[i],
            ),
    ensures
        normalized(a) == normalized(b),
{
    reveal_strlit("-_ ");
    reveal_strlit("aáàãâ");
    reveal_strlit("eéê");
    reveal_strlit("ií");
    reveal_strlit("oóôõ");
    reveal_strlit("uúü");
    reveal_strlit("cç");
    assert forall|c: char, d: char| #[trigger] one_letter(c, d) implies plain_letter(c)
        == plain_letter(d) by {
    }
    assert(plain_text(a) =~= plain_text(b));
}

/// Letters are not taken for one another beyond that.
pub proof fn letters_keep_apart(a: char, b: char)
    ensures
        plain_letter(a) == plain_letter(b) <==> one_letter(a, b),
{
    reveal_strlit("-_ ");
    reveal_strlit("aáàãâ");
    reveal_strlit("eéê");
    reveal_strlit("ií");
    reveal_strlit("oóôõ");
    reveal_strlit("uúü");
    reveal_strlit("cç");
    lemma_held("-_ "@, a);
    lemma_held("aáàãâ"@, a);
    lemma_held("eéê"@, a);
    lemma_held("ií"@, a);
    lemma_held("oóôõ"@, a);
    lemma_held("uúü"@, a);
    lemma_held("cç"@, a);
    lemma_held("-_ "@, b);
    lemma_held("aáàãâ"@, b);
    lemma_held("eéê"@, b);
    lemma_held("ií"@, b);
    lemma_held("oóôõ"@, b);
    lemma_held("uúü"@, b);
    lemma_held("cç"@, b);
}

proof fn lemma_held(s: Seq<char>, c: char)
    ensures
        1 <= s.len() && s[0] == c ==> s.contains(c),
        2 <= s.len() && s[1] == c ==> s.contains(c),
        3 <= s.len() && s[2] == c ==> s.contains(c),
        4 <= s.len() && s[3] == c ==> s.contains(c),
        5 <= s.len() && s[4] == c ==> s.contains(c),
{
}

/// A title matches a search exactly where every word of it stands in the title, as it is or
/// once the spaces are taken out, but for those of one byte and those that are common.
pub proof fn titles_hold_every_telling_word(title: Seq<char>, query: Seq<char>)
    ensures
        matching(title, query) <==> forall|i: int|
            0 <= i < text::words(normalized(query)).len() ==> {
                let w = #[trigger] text::words(normalized(query))[i];
                ||| text::has(normalized(title), w)
                ||| text::has(text::dropped(normalized(title), ' '), w)
                ||| text::byte_len(w) <= 1
                ||| w == "de"@ || w == "do"@ || w == "da"@ || w == "dos"@ || w == "das"@
                ||| w == "para"@ || w == "com"@ || w == "sem"@ || w == "por"@ || w == "em"@
                ||| w == "no"@ || w == "na"@ || w == "um"@ || w == "uma"@ || w == "o"@ || w == "e"@
                ||| w == "the"@ || w == "for"@ || w == "with"@ || w == "and"@ || w == "or"@
                ||| w == "a"@ || w == "an"@
            },
{
    let words = text::words(normalized(query));
    if matching(title, query) {
        assert forall|i: int| 0 <= i < words.len() implies !telling(#[trigger] words[i])
            || stands_in(normalized(title), words[i]) by {}
    }
}

} // verus!
