//! Order statistics over real-valued samples, by integer key.
//!
//! A real number in IEEE format is ordered by its bit pattern once negative
//! patterns are mirrored. The functions here work on such keys: selecting a rank
//! among keys selects the same rank among the numbers, with NaNs ordered
//! deterministically rather than compared.

use vstd::multiset::Multiset;
use vstd::prelude::*;

use crate::raw::Fraction;

verus! {

/// The key of a single-precision bit pattern: patterns with the sign bit clear
/// keep their value, patterns with it set count down from -1.
pub open spec fn key32_spec(bits: u32) -> int {
    if bits < 0x8000_0000 {
        bits as int
    } else {
        0x7fff_ffff - bits
    }
}

/// The key of a double-precision bit pattern.
pub open spec fn key64_spec(bits: u64) -> int {
    if bits < 0x8000_0000_0000_0000 {
        bits as int
    } else {
        0x7fff_ffff_ffff_ffff - bits
    }
}

/// The key of a single-precision bit pattern.
pub fn key32(bits: u32) -> (key: i32)
    ensures
        key == key32_spec(bits),
{
    if bits < 0x8000_0000 {
        bits as i32
    } else {
        (0x7fff_ffff - bits as i64) as i32
    }
}

/// The bit pattern with a given key.
pub fn bits32(key: i32) -> (bits: u32)
    ensures
        key32_spec(bits) == key,
{
    if key >= 0 {
        key as u32
    } else {
        (0x7fff_ffff - key as i64) as u32
    }
}

/// The key of a double-precision bit pattern.
pub fn key64(bits: u64) -> (key: i64)
    ensures
        key == key64_spec(bits),
{
    if bits < 0x8000_0000_0000_0000 {
        bits as i64
    } else {
        (0x7fff_ffff_ffff_ffff - bits as i128) as i64
    }
}

/// Keys order bit patterns as sign and magnitude do: every negative number below
/// every non-negative one, larger magnitudes further out.
pub proof fn law_keys_order_by_sign_and_magnitude(a: u32, b: u32)
    ensures
        a < b < 0x8000_0000 ==> key32_spec(a) < key32_spec(b),
        0x8000_0000 <= a < b ==> key32_spec(b) < key32_spec(a),
        b < 0x8000_0000 <= a ==> key32_spec(a) < key32_spec(b),
        key32_spec(a) == key32_spec(b) ==> a == b,
{
}

/// Keys of double precision order as those of single precision do, and a key of single
/// precision goes back to the pattern it came from.
pub proof fn law_double_keys_order_by_sign_and_magnitude(a: u64, b: u64)
    ensures
        a < b < 0x8000_0000_0000_0000 ==> key64_spec(a) < key64_spec(b),
        0x8000_0000_0000_0000 <= a < b ==> key64_spec(b) < key64_spec(a),
        b < 0x8000_0000_0000_0000 <= a ==> key64_spec(a) < key64_spec(b),
        key64_spec(a) == key64_spec(b) ==> a == b,
        a < 0x8000_0000_0000_0000 ==> key64_spec(a) >= 0,
        a >= 0x8000_0000_0000_0000 ==> key64_spec(a) < 0,
{
}

/// How many elements lie below `x`.
pub open spec fn below(s: Seq<i32>, x: i32) -> nat {
    s.to_multiset().filter(|v: i32| v < x).len()
}

/// How many elements are at most `x`.
pub open spec fn at_most(s: Seq<i32>, x: i32) -> nat {
    s.to_multiset().filter(|v: i32| v <= x).len()
}

/// `x` is what stands at place `k` once `s` is sorted: no more than `k` elements
/// lie below it, and more than `k` are at most it.
pub open spec fn is_rank(s: Seq<i32>, k: int, x: i32) -> bool {
    below(s, x) <= k < at_most(s, x)
}

/// A rank picks one value.
pub proof fn law_rank_is_unique(s: Seq<i32>, k: int, x: i32, y: i32)
    requires
        is_rank(s, k, x),
        is_rank(s, k, y),
    ensures
        x == y,
{
    if x < y {
        lemma_at_most_below(s, x, y);
    }
    if y < x {
        lemma_at_most_below(s, y, x);
    }
}

/// What is at most `x` lies below anything larger.
pub proof fn lemma_at_most_below(s: Seq<i32>, x: i32, y: i32)
    requires
        x < y,
    ensures
        at_most(s, x) <= below(s, y),
{
    broadcast use vstd::multiset::group_multiset_axioms;

    let m = s.to_multiset();
    let small = m.filter(|v: i32| v <= x);
    let large = m.filter(|v: i32| v < y);
    assert(small.subset_of(large));
    lemma_subset_len(small, large);
}

/// A value below `y` counts below `y` beside all that is below it.
pub proof fn lemma_below_grows(s: Seq<i32>, i: int, y: i32)
    requires
        0 <= i < s.len(),
        s[i] < y,
    ensures
        below(s, s[i]) < below(s, y),
{
    broadcast use vstd::multiset::group_multiset_axioms;

    s.to_multiset_ensures();
    let m = s.to_multiset();
    let x = s[i];
    let small = m.filter(|v: i32| v < x);
    let large = m.filter(|v: i32| v < y);
    assert(s.contains(x));
    assert(small.insert(x).subset_of(large));
    lemma_subset_len(small.insert(x), large);
}

/// A sub-multiset is no larger.
proof fn lemma_subset_len(a: Multiset<i32>, b: Multiset<i32>)
    requires
        a.subset_of(b),
    ensures
        a.len() <= b.len(),
{
    broadcast use vstd::multiset::group_multiset_axioms;

    assert(b =~= a.add(b.sub(a)));
    assert(b.len() == a.len() + b.sub(a).len());
}

/// Counts over a sequence are the sums of the counts over its two parts.
proof fn lemma_count_parts(s: Seq<i32>, cut: int, p: spec_fn(i32) -> bool)
    requires
        0 <= cut <= s.len(),
    ensures
        s.to_multiset().filter(p).len() == s.take(cut).to_multiset().filter(p).len() + s.skip(
            cut,
        ).to_multiset().filter(p).len(),
{
    broadcast use vstd::multiset::group_multiset_axioms;

    let a = s.take(cut);
    let b = s.skip(cut);
    assert(s =~= a + b);
    vstd::seq_lib::lemma_multiset_commutative(a, b);
    assert(s.to_multiset().filter(p) =~= a.to_multiset().filter(p).add(b.to_multiset().filter(p)));
}

/// When no element satisfies `p`, the count is zero; when all do, it is the
/// length; in any case it is no more than the length.
proof fn lemma_count_bounds(s: Seq<i32>, p: spec_fn(i32) -> bool)
    ensures
        s.to_multiset().filter(p).len() <= s.len(),
        (forall|i: int| 0 <= i < s.len() ==> !p(#[trigger] s[i])) ==> s.to_multiset().filter(p).len()
            == 0,
        (forall|i: int| 0 <= i < s.len() ==> p(#[trigger] s[i])) ==> s.to_multiset().filter(p).len()
            == s.len(),
{
    broadcast use vstd::multiset::group_multiset_axioms;

    s.to_multiset_ensures();
    let m = s.to_multiset();
    lemma_subset_len(m.filter(p), m);
    if forall|i: int| 0 <= i < s.len() ==> !p(#[trigger] s[i]) {
        assert forall|v: i32| #[trigger] m.filter(p).count(v) == 0 by {
            if m.count(v) > 0 {
                assert(s.contains(v));
            }
        }
        assert(m.filter(p) =~= Multiset::empty());
    }
    if forall|i: int| 0 <= i < s.len() ==> p(#[trigger] s[i]) {
        assert forall|v: i32| #[trigger] m.filter(p).count(v) == m.count(v) by {
            if m.count(v) > 0 {
                assert(s.contains(v));
            }
        }
        assert(m.filter(p) =~= m);
    }
}

/// With everything before `cut` at most `x`, everything from `cut` on at least
/// `x`, and `x` among the latter, `x` has rank `cut`.
proof fn lemma_rank_right(s: Seq<i32>, cut: int, at: int)
    requires
        0 <= cut <= at < s.len(),
        forall|i: int| 0 <= i < cut ==> #[trigger] s[i] <= s[at],
        forall|i: int| cut <= i < s.len() ==> s[at] <= #[trigger] s[i],
    ensures
        is_rank(s, cut, s[at]),
{
    let x = s[at];
    let lt = |v: i32| v < x;
    let le = |v: i32| v <= x;
    lemma_count_parts(s, cut, lt);
    lemma_count_bounds(s.take(cut), lt);
    lemma_count_bounds(s.skip(cut), lt);
    assert forall|i: int| 0 <= i < s.skip(cut).len() implies !lt(#[trigger] s.skip(cut)[i]) by {
        assert(s.skip(cut)[i] == s[i + cut]);
    }
    lemma_count_parts(s, cut, le);
    lemma_count_bounds(s.take(cut), le);
    assert forall|i: int| 0 <= i < s.take(cut).len() implies le(#[trigger] s.take(cut)[i]) by {
        assert(s.take(cut)[i] == s[i]);
    }
    lemma_count_one(s.skip(cut), at - cut, le);
}

/// With everything up to `last` at most `x`, everything after it at least `x`,
/// and `x` among the former, `x` has rank `last`.
proof fn lemma_rank_left(s: Seq<i32>, last: int, at: int)
    requires
        0 <= at <= last < s.len(),
        forall|i: int| 0 <= i <= last ==> #[trigger] s[i] <= s[at],
        forall|i: int| last < i < s.len() ==> s[at] <= #[trigger] s[i],
    ensures
        is_rank(s, last, s[at]),
{
    let x = s[at];
    let lt = |v: i32| v < x;
    let le = |v: i32| v <= x;
    let cut = last + 1;
    lemma_count_parts(s, cut, lt);
    lemma_count_missing(s.take(cut), at, lt);
    lemma_count_bounds(s.skip(cut), lt);
    assert forall|i: int| 0 <= i < s.skip(cut).len() implies !lt(#[trigger] s.skip(cut)[i]) by {
        assert(s.skip(cut)[i] == s[i + cut]);
    }
    lemma_count_parts(s, cut, le);
    lemma_count_bounds(s.take(cut), le);
    assert forall|i: int| 0 <= i < s.take(cut).len() implies le(#[trigger] s.take(cut)[i]) by {
        assert(s.take(cut)[i] == s[i]);
    }
}

/// An element that satisfies `p` makes the count at least one.
proof fn lemma_count_one(s: Seq<i32>, at: int, p: spec_fn(i32) -> bool)
    requires
        0 <= at < s.len(),
        p(s[at]),
    ensures
        s.to_multiset().filter(p).len() >= 1,
{
    broadcast use vstd::multiset::group_multiset_axioms;

    s.to_multiset_ensures();
    let m = s.to_multiset();
    assert(s.contains(s[at]));
    assert(m.filter(p).count(s[at]) >= 1);
    lemma_subset_len(Multiset::singleton(s[at]), m.filter(p));
}

/// An element that does not satisfy `p` keeps the count below the length.
proof fn lemma_count_missing(s: Seq<i32>, at: int, p: spec_fn(i32) -> bool)
    requires
        0 <= at < s.len(),
        !p(s[at]),
    ensures
        s.to_multiset().filter(p).len() < s.len(),
{
    broadcast use vstd::multiset::group_multiset_axioms;

    s.to_multiset_ensures();
    let m = s.to_multiset();
    assert(s.contains(s[at]));
    lemma_subset_len(m.filter(p), m.sub(Multiset::singleton(s[at])));
    lemma_subset_len(Multiset::singleton(s[at]), m);
}

/// Put the element of rank `k` in its place, smaller ones before it and larger
/// ones after it.
///
/// Calls std's `select_nth_unstable` on a slice of integers. Taken on trust: the
/// slice is reordered, the element at `k` is the one sorting would put there,
/// every element before it is at most it, and every element after it at least.
#[verifier::external_body]
fn select_nth(values: &mut Vec<i32>, k: usize)
    requires
        k < old(values).len(),
    ensures
        final(values).len() == old(values).len(),
        final(values)@.to_multiset() == old(values)@.to_multiset(),
        forall|i: int| 0 <= i < k ==> #[trigger] final(values)@[i] <= final(values)@[k as int],
        forall|i: int|
            k < i < final(values).len() ==> final(values)@[k as int] <= #[trigger] final(values)@[i],
{
    values.select_nth_unstable(k);
}

/// The two keys a percentile lies between, and how far from the first.
#[derive(Debug, Clone, Copy, PartialEq, Eq, Structural)]
pub struct Percentile {
    pub lo: i32,
    pub hi: i32,
    pub frac: Fraction,
}

/// `p` brackets the `q`-th percentile of `s` by linear interpolation between
/// ranks: position `(n - 1) * q / 100` among the sorted elements.
pub open spec fn is_percentile(s: Seq<i32>, q: int, p: Percentile) -> bool {
    let pos = (s.len() - 1) * q;
    &&& is_rank(s, pos / 100, p.lo)
    &&& is_rank(
        s,
        if pos % 100 == 0 {
            pos / 100
        } else {
            pos / 100 + 1
        },
        p.hi,
    )
    &&& p.frac.num == pos % 100
    &&& p.frac.den == 100
}

/// Bracket the `q`-th percentile ('linear' interpolation) of `values` with
/// selection instead of a full sort; `None` when there are none. Reorders
/// `values`.
pub fn percentile_select(values: &mut Vec<i32>, q: usize) -> (p: Option<Percentile>)
    requires
        q <= 100,
    ensures
        final(values)@.to_multiset() == old(values)@.to_multiset(),
        match p {
            Some(p) => old(values).len() > 0 && is_percentile(old(values)@, q as int, p),
            None => old(values).len() == 0,
        },
{
    let n: usize = values.len();
    if n == 0 {
        return None;
    }
    proof {
        assert(0 <= (n - 1) * q <= (n - 1) * 100) by (nonlinear_arith)
            requires
                0 <= q <= 100,
                n >= 1,
        ;
    }
    let pos: u128 = (n - 1) as u128 * q as u128;
    let lo: usize = (pos / 100) as usize;
    let rem: u64 = (pos % 100) as u64;
    let frac = Fraction { num: rem, den: 100 };
    select_nth(values, lo);
    proof {
        lemma_rank_right(values@, lo as int, lo as int);
    }
    let a: i32 = values[lo];
    if rem == 0 {
        return Some(Percentile { lo: a, hi: a, frac });
    }
    // The next rank is the minimum of what lies right of the selected place.
    let mut best: usize = lo + 1;
    let mut i: usize = lo + 2;
    while i < n
        invariant
            n == values.len(),
            lo < best < n,
            best < i <= n || n == lo + 2 && i == n,
            forall|j: int| lo < j < i ==> values@[best as int] <= #[trigger] values@[j],
        decreases n - i,
    {
        if values[i] < values[best] {
            best = i;
        }
        i += 1;
    }
    proof {
        assert forall|j: int| 0 <= j < lo + 1 implies #[trigger] values@[j] <= values@[best as int] by {
            assert(values@[j] <= values@[lo as int]);
        }
        lemma_rank_right(values@, lo + 1, best as int);
    }
    Some(Percentile { lo: a, hi: values[best], frac })
}

/// The two middle keys; equal when the count is odd.
#[derive(Debug, Clone, Copy, PartialEq, Eq, Structural)]
pub struct Middle {
    pub lo: i32,
    pub hi: i32,
}

/// `m` holds the two middle elements of `s` (one and the same when the count is
/// odd).
pub open spec fn is_middle(s: Seq<i32>, m: Middle) -> bool {
    &&& is_rank(s, (s.len() - 1) / 2, m.lo)
    &&& is_rank(s, s.len() as int / 2, m.hi)
}

/// The middle of a list of keys (the median is their average when the count is
/// even), by selection; `None` when there are none. Reorders `values`.
pub fn median(values: &mut Vec<i32>) -> (m: Option<Middle>)
    ensures
        final(values)@.to_multiset() == old(values)@.to_multiset(),
        match m {
            Some(m) => old(values).len() > 0 && is_middle(old(values)@, m),
            None => old(values).len() == 0,
        },
{
    let n: usize = values.len();
    if n == 0 {
        return None;
    }
    let mid: usize = n / 2;
    select_nth(values, mid);
    proof {
        lemma_rank_right(values@, mid as int, mid as int);
    }
    let hi: i32 = values[mid];
    if n % 2 == 1 {
        return Some(Middle { lo: hi, hi });
    }
    // The lower middle is the maximum of what lies left of the upper one.
    let mut best: usize = 0;
    let mut i: usize = 1;
    while i < mid
        invariant
            n == values.len(),
            1 <= mid < n,
            best < i <= mid,
            forall|j: int| 0 <= j < i ==> #[trigger] values@[j] <= values@[best as int],
        decreases mid - i,
    {
        if values[i] > values[best] {
            best = i;
        }
        i += 1;
    }
    proof {
        assert forall|j: int| mid - 1 < j < n implies values@[best as int] <= #[trigger] values@[j] by {
            assert(values@[best as int] <= values@[mid as int]);
        }
        lemma_rank_left(values@, mid - 1, best as int);
    }
    Some(Middle { lo: values[best], hi })
}

/// A rank is a place in the sorted list: with `sorted` the same values in order, the value
/// of rank `k` is the `k`-th of them.
pub proof fn law_rank_is_a_place_when_sorted(s: Seq<i32>, sorted: Seq<i32>, k: int, x: i32)
    requires
        sorted.to_multiset() == s.to_multiset(),
        forall|i: int, j: int|
            0 <= i <= j < sorted.len() ==> #[trigger] sorted[i] <= #[trigger] sorted[j],
        0 <= k < sorted.len(),
        is_rank(s, k, x),
    ensures
        x == sorted[k],
{
    lemma_rank_left(sorted, k, k);
    law_rank_is_unique(s, k, x, sorted[k]);
}

/// The percentile lies `(n - 1) q / 100` places into the sorted list: between the values at
/// the two places around that, and as far from the first as it is from its place.
pub proof fn law_percentile_is_a_place_when_sorted(
    s: Seq<i32>,
    sorted: Seq<i32>,
    q: int,
    p: Percentile,
    place: int,
)
    requires
        0 <= q <= 100,
        is_percentile(s, q, p),
        s.len() > 0,
        sorted.to_multiset() == s.to_multiset(),
        forall|i: int, j: int|
            0 <= i <= j < sorted.len() ==> #[trigger] sorted[i] <= #[trigger] sorted[j],
        100 * place <= (s.len() - 1) * q < 100 * (place + 1),
    ensures
        p.lo == sorted[place],
        100 * place == (s.len() - 1) * q ==> p.hi == p.lo && p.frac.num == 0,
        100 * place < (s.len() - 1) * q ==> p.hi == sorted[place + 1],
        p.frac.den * place + p.frac.num == (s.len() - 1) * q,
{
    s.to_multiset_ensures();
    sorted.to_multiset_ensures();
    let n = s.len() as int;
    let pos = (n - 1) * q;
    assert(0 <= pos <= 100 * (n - 1)) by (nonlinear_arith)
        requires
            pos == (n - 1) * q,
            0 <= q <= 100,
            1 <= n,
    ;
    law_rank_is_a_place_when_sorted(s, sorted, place, p.lo);
    if pos % 100 == 0 {
        law_rank_is_a_place_when_sorted(s, sorted, place, p.hi);
    } else {
        law_rank_is_a_place_when_sorted(s, sorted, place + 1, p.hi);
    }
}

/// The middles of a sorted list of `n` are the values at the two places around `(n - 1)/2`.
pub proof fn law_middle_is_a_place_when_sorted(s: Seq<i32>, sorted: Seq<i32>, m: Middle)
    requires
        is_middle(s, m),
        s.len() > 0,
        sorted.to_multiset() == s.to_multiset(),
        forall|i: int, j: int|
            0 <= i <= j < sorted.len() ==> #[trigger] sorted[i] <= #[trigger] sorted[j],
    ensures
        m.lo == sorted[(s.len() - 1) / 2],
        m.hi == sorted[s.len() - 1 - (s.len() - 1) / 2],
{
    s.to_multiset_ensures();
    sorted.to_multiset_ensures();
    law_rank_is_a_place_when_sorted(s, sorted, (s.len() - 1) / 2, m.lo);
    law_rank_is_a_place_when_sorted(s, sorted, s.len() as int / 2, m.hi);
}

/// The middles split the list in half: no more than half of it lies strictly below the
/// upper one, and no more than half strictly above the lower one; an odd list has one
/// middle.
pub proof fn law_middle_splits_in_half(s: Seq<i32>, m: Middle)
    requires
        is_middle(s, m),
    ensures
        2 * below(s, m.hi) <= s.len(),
        2 * (s.len() - at_most(s, m.lo)) <= s.len(),
        s.len() % 2 == 1 ==> m.lo == m.hi,
        m.lo <= m.hi,
{
    if s.len() % 2 == 1 {
        law_rank_is_unique(s, s.len() as int / 2, m.lo, m.hi);
    }
    if m.hi < m.lo {
        lemma_at_most_below(s, m.hi, m.lo);
    }
}

/// The `q`-th percentile splits the list: no more than `q` percent of it lies strictly
/// below the lower bracket, and no more than the rest strictly above the upper one.
pub proof fn law_percentile_splits(s: Seq<i32>, q: int, p: Percentile)
    requires
        0 <= q <= 100,
        is_percentile(s, q, p),
    ensures
        100 * below(s, p.lo) <= q * s.len(),
        100 * (s.len() - at_most(s, p.hi)) <= (100 - q) * s.len(),
        p.lo <= p.hi,
{
    let n = s.len() as int;
    let pos = (n - 1) * q;
    assert(q * n == pos + q && (100 - q) * n == 100 * n - pos - q) by (nonlinear_arith)
        requires
            pos == (n - 1) * q,
    ;
    if p.hi < p.lo {
        lemma_at_most_below(s, p.hi, p.lo);
    }
}

/// A rank is one of the values: a list whose values all lie in a range has its ranks
/// there.
pub proof fn law_rank_is_in_range(s: Seq<i32>, k: int, x: i32, least: int, most: int)
    requires
        is_rank(s, k, x),
        0 <= k < s.len(),
        forall|i: int| 0 <= i < s.len() ==> least <= #[trigger] s[i] <= most,
    ensures
        least <= x <= most,
{
    if x < least {
        lemma_count_bounds(s, |v: i32| v <= x);
    }
    if x > most {
        lemma_count_bounds(s, |v: i32| v < x);
    }
}

/// `i` is the first place of the smallest key.
pub open spec fn is_first_min(keys: Seq<i64>, i: int) -> bool {
    &&& 0 <= i < keys.len()
    &&& forall|j: int| 0 <= j < keys.len() ==> keys[i] <= #[trigger] keys[j]
    &&& forall|j: int| 0 <= j < i ==> keys[i] < #[trigger] keys[j]
}

/// The first place of the smallest key.
pub fn first_min(keys: &[i64]) -> (i: usize)
    requires
        keys.len() > 0,
    ensures
        is_first_min(keys@, i as int),
{
    let mut best: usize = 0;
    let mut i: usize = 1;
    while i < keys.len()
        invariant
            best < i <= keys.len(),
            forall|j: int| 0 <= j < i ==> keys@[best as int] <= #[trigger] keys@[j],
            forall|j: int| 0 <= j < best ==> keys@[best as int] < #[trigger] keys@[j],
        decreases keys.len() - i,
    {
        if keys[i] < keys[best] {
            best = i;
        }
        i += 1;
    }
    best
}

/// `i` is the first place that is at least `x`, or the length when none is.
pub open spec fn is_search_left(keys: Seq<i64>, x: i64, i: int) -> bool {
    &&& 0 <= i <= keys.len()
    &&& forall|j: int| 0 <= j < i ==> #[trigger] keys[j] < x
    &&& i < keys.len() ==> keys[i] >= x
}

/// The first place whose key is at least `x`; the length when there is none.
pub fn search_left(keys: &[i64], x: i64) -> (i: usize)
    ensures
        is_search_left(keys@, x, i as int),
{
    let mut i: usize = 0;
    while i < keys.len()
        invariant
            i <= keys.len(),
            forall|j: int| 0 <= j < i ==> #[trigger] keys@[j] < x,
        decreases keys.len() - i,
    {
        if keys[i] >= x {
            return i;
        }
        i += 1;
    }
    i
}

} // verus!
