//! Properties of sequences of 16-bit words (axes and map cells), each with
//! the executable check that decides it.
use vstd::prelude::*;

verus! {

/// Word `i` of `s` is strictly greater than word `i - 1`.
pub open spec fn rises_at(s: Seq<u16>, i: int) -> bool {
    s[i - 1] < s[i]
}

/// Word `i` of `s` is not smaller than word `i - 1`.
pub open spec fn holds_at(s: Seq<u16>, i: int) -> bool {
    s[i - 1] <= s[i]
}

/// `s` is strictly increasing.
pub open spec fn strictly_increasing(s: Seq<u16>) -> bool {
    forall|i: int| 0 < i < s.len() ==> #[trigger] rises_at(s, i)
}

/// `s` never decreases.
pub open spec fn non_decreasing(s: Seq<u16>) -> bool {
    forall|i: int| 0 < i < s.len() ==> #[trigger] holds_at(s, i)
}

/// Some word of `s` is strictly greater than the one before it.
pub open spec fn some_rise(s: Seq<u16>) -> bool {
    exists|i: int| 0 < i < s.len() && #[trigger] rises_at(s, i)
}

/// Number of words of `s` in `lo ..= hi`.
pub open spec fn count_between(s: Seq<u16>, lo: int, hi: int) -> nat
    decreases s.len(),
{
    if s.len() == 0 {
        0
    } else {
        count_between(s.drop_last(), lo, hi) + if lo <= s.last() <= hi {
            1nat
        } else {
            0nat
        }
    }
}

/// Number of signed words of `s` in `lo ..= hi`.
pub open spec fn count_between_signed(s: Seq<i16>, lo: int, hi: int) -> nat
    decreases s.len(),
{
    if s.len() == 0 {
        0
    } else {
        count_between_signed(s.drop_last(), lo, hi) + if lo <= s.last() <= hi {
            1nat
        } else {
            0nat
        }
    }
}

/// Sum of the words of `s`.
pub open spec fn sum_signed(s: Seq<i16>) -> int
    decreases s.len(),
{
    if s.len() == 0 {
        0
    } else {
        sum_signed(s.drop_last()) + s.last()
    }
}

/// Sum of the unsigned words of `s`.
pub open spec fn sum_words(s: Seq<u16>) -> int
    decreases s.len(),
{
    if s.len() == 0 {
        0
    } else {
        sum_words(s.drop_last()) + s.last()
    }
}

/// Every word of `s` lies in `lo ..= hi`.
pub open spec fn all_between(s: Seq<u16>, lo: int, hi: int) -> bool {
    forall|i: int| 0 <= i < s.len() ==> lo <= #[trigger] s[i] <= hi
}

/// Every signed word of `s` lies in `lo ..= hi`.
pub open spec fn all_between_signed(s: Seq<i16>, lo: int, hi: int) -> bool {
    forall|i: int| 0 <= i < s.len() ==> lo <= #[trigger] s[i] <= hi
}

/// Some word of `s` lies in `lo ..= hi`.
pub open spec fn any_between(s: Seq<u16>, lo: int, hi: int) -> bool {
    exists|i: int| 0 <= i < s.len() && lo <= #[trigger] s[i] <= hi
}

/// Some signed word of `s` lies in `lo ..= hi`.
pub open spec fn any_between_signed(s: Seq<i16>, lo: int, hi: int) -> bool {
    exists|i: int| 0 <= i < s.len() && lo <= #[trigger] s[i] <= hi
}

/// The spread (largest minus smallest) of the signed words of `s` is at least `d`.
pub open spec fn spread_at_least_signed(s: Seq<i16>, d: int) -> bool {
    exists|i: int, j: int| 0 <= i < s.len() && 0 <= j < s.len() && #[trigger] s[i] - #[trigger] s[j] >= d
}

/// The spread (largest minus smallest) of the words of `s` is at least `d`.
pub open spec fn spread_at_least(s: Seq<u16>, d: int) -> bool {
    exists|i: int, j: int| 0 <= i < s.len() && 0 <= j < s.len() && #[trigger] s[i] - #[trigger] s[j] >= d
}

/// Signed cells that all lie in `lo ..= hi`, spread over at least `d`, and
/// of which at least half are positive.
pub open spec fn signed_cells_ok(s: Seq<i16>, lo: int, hi: int, d: int) -> bool {
    &&& s.len() > 0
    &&& all_between_signed(s, lo, hi)
    &&& spread_at_least_signed(s, d)
    &&& count_between_signed(s, 1, 32767) >= s.len() / 2
}

pub proof fn lemma_count_bound(s: Seq<u16>, lo: int, hi: int)
    ensures
        count_between(s, lo, hi) <= s.len(),
    decreases s.len(),
{
    if s.len() > 0 {
        lemma_count_bound(s.drop_last(), lo, hi);
    }
}

pub proof fn lemma_count_bound_signed(s: Seq<i16>, lo: int, hi: int)
    ensures
        count_between_signed(s, lo, hi) <= s.len(),
    decreases s.len(),
{
    if s.len() > 0 {
        lemma_count_bound_signed(s.drop_last(), lo, hi);
    }
}

pub proof fn lemma_sum_bounds(s: Seq<i16>)
    ensures
        -32768 * s.len() <= sum_signed(s) <= 32767 * s.len(),
    decreases s.len(),
{
    if s.len() > 0 {
        lemma_sum_bounds(s.drop_last());
    }
}

pub proof fn lemma_sum_words_bounds(s: Seq<u16>)
    ensures
        0 <= sum_words(s) <= 65535 * s.len(),
    decreases s.len(),
{
    if s.len() > 0 {
        lemma_sum_words_bounds(s.drop_last());
    }
}

/// Whether `v` is strictly increasing.
pub fn is_strictly_increasing(v: &[u16]) -> (r: bool)
    ensures
        r == strictly_increasing(v@),
{
    let mut i: usize = 1;
    while i < v.len()
        invariant
            1 <= i,
            forall|j: int| 0 < j < i && j < v@.len() ==> #[trigger] rises_at(v@, j),
        decreases v.len() - i,
    {
        if v[i] <= v[i - 1] {
            assert(!rises_at(v@, i as int));
            return false;
        }
        i += 1;
    }
    true
}

/// Whether `v` never decreases.
pub fn is_non_decreasing(v: &[u16]) -> (r: bool)
    ensures
        r == non_decreasing(v@),
{
    let mut i: usize = 1;
    while i < v.len()
        invariant
            1 <= i,
            forall|j: int| 0 < j < i && j < v@.len() ==> #[trigger] holds_at(v@, j),
        decreases v.len() - i,
    {
        if v[i] < v[i - 1] {
            assert(!holds_at(v@, i as int));
            return false;
        }
        i += 1;
    }
    true
}

/// Number of words of `v` in `lo ..= hi`.
pub fn count_in(v: &[u16], lo: u16, hi: u16) -> (r: usize)
    ensures
        r == count_between(v@, lo as int, hi as int),
{
    let mut c: usize = 0;
    let mut i: usize = 0;
    while i < v.len()
        invariant
            i <= v@.len(),
            c == count_between(v@.take(i as int), lo as int, hi as int),
            c <= i,
        decreases v.len() - i,
    {
        assert(v@.take(i + 1).drop_last() =~= v@.take(i as int));
        if lo <= v[i] && v[i] <= hi {
            c += 1;
        }
        i += 1;
    }
    assert(v@.take(v@.len() as int) =~= v@);
    c
}

/// Number of signed words of `v` in `lo ..= hi`.
pub fn count_in_signed(v: &[i16], lo: i16, hi: i16) -> (r: usize)
    ensures
        r == count_between_signed(v@, lo as int, hi as int),
{
    let mut c: usize = 0;
    let mut i: usize = 0;
    while i < v.len()
        invariant
            i <= v@.len(),
            c == count_between_signed(v@.take(i as int), lo as int, hi as int),
            c <= i,
        decreases v.len() - i,
    {
        assert(v@.take(i + 1).drop_last() =~= v@.take(i as int));
        if lo <= v[i] && v[i] <= hi {
            c += 1;
        }
        i += 1;
    }
    assert(v@.take(v@.len() as int) =~= v@);
    c
}

/// Whether some word of `v` is strictly greater than the one before it.
pub fn has_rise(v: &[u16]) -> (r: bool)
    ensures
        r == some_rise(v@),
{
    let mut i: usize = 1;
    while i < v.len()
        invariant
            1 <= i,
            i <= v@.len() || v@.len() == 0,
            forall|j: int| 0 < j < i && j < v@.len() ==> !#[trigger] rises_at(v@, j),
        decreases v.len() - i,
    {
        if v[i - 1] < v[i] {
            assert(rises_at(v@, i as int));
            return true;
        }
        i += 1;
    }
    false
}

/// Whether every word of `v` lies in `lo ..= hi`.
pub fn all_in(v: &[u16], lo: u16, hi: u16) -> (r: bool)
    ensures
        r == all_between(v@, lo as int, hi as int),
{
    let mut i: usize = 0;
    while i < v.len()
        invariant
            i <= v@.len(),
            forall|j: int| 0 <= j < i ==> lo <= #[trigger] v@[j] <= hi,
        decreases v.len() - i,
    {
        if v[i] < lo || v[i] > hi {
            return false;
        }
        i += 1;
    }
    true
}

/// Whether every signed word of `v` lies in `lo ..= hi`.
pub fn all_in_signed(v: &[i16], lo: i16, hi: i16) -> (r: bool)
    ensures
        r == all_between_signed(v@, lo as int, hi as int),
{
    let mut i: usize = 0;
    while i < v.len()
        invariant
            i <= v@.len(),
            forall|j: int| 0 <= j < i ==> lo <= #[trigger] v@[j] <= hi,
        decreases v.len() - i,
    {
        if v[i] < lo || v[i] > hi {
            return false;
        }
        i += 1;
    }
    true
}

/// Whether some word of `v` lies in `lo ..= hi`.
pub fn any_in(v: &[u16], lo: u16, hi: u16) -> (r: bool)
    ensures
        r == any_between(v@, lo as int, hi as int),
{
    let mut i: usize = 0;
    while i < v.len()
        invariant
            i <= v@.len(),
            forall|j: int| 0 <= j < i ==> !(lo <= #[trigger] v@[j] <= hi),
        decreases v.len() - i,
    {
        if lo <= v[i] && v[i] <= hi {
            return true;
        }
        i += 1;
    }
    false
}

/// Whether some signed word of `v` lies in `lo ..= hi`.
pub fn any_in_signed(v: &[i16], lo: i16, hi: i16) -> (r: bool)
    ensures
        r == any_between_signed(v@, lo as int, hi as int),
{
    let mut i: usize = 0;
    while i < v.len()
        invariant
            i <= v@.len(),
            forall|j: int| 0 <= j < i ==> !(lo <= #[trigger] v@[j] <= hi),
        decreases v.len() - i,
    {
        if lo <= v[i] && v[i] <= hi {
            return true;
        }
        i += 1;
    }
    false
}

/// Sum of the signed words of `v`.
pub fn sum_of_signed(v: &[i16]) -> (r: i64)
    requires
        v@.len() <= 1_000_000,
    ensures
        r == sum_signed(v@),
{
    let mut s: i64 = 0;
    let mut i: usize = 0;
    while i < v.len()
        invariant
            i <= v@.len(),
            v@.len() <= 1_000_000,
            s == sum_signed(v@.take(i as int)),
        decreases v.len() - i,
    {
        proof {
            assert(v@.take(i + 1).drop_last() =~= v@.take(i as int));
            lemma_sum_bounds(v@.take(i as int));
        }
        s = s + v[i] as i64;
        i += 1;
    }
    assert(v@.take(v@.len() as int) =~= v@);
    s
}

/// Sum of the unsigned words of `v`.
pub fn sum_of_words(v: &[u16]) -> (r: u64)
    requires
        v@.len() <= 1_000_000,
    ensures
        r == sum_words(v@),
{
    let mut s: u64 = 0;
    let mut i: usize = 0;
    while i < v.len()
        invariant
            i <= v@.len(),
            v@.len() <= 1_000_000,
            s == sum_words(v@.take(i as int)),
        decreases v.len() - i,
    {
        proof {
            assert(v@.take(i + 1).drop_last() =~= v@.take(i as int));
            lemma_sum_words_bounds(v@.take(i as int));
        }
        s = s + v[i] as u64;
        i += 1;
    }
    assert(v@.take(v@.len() as int) =~= v@);
    s
}

/// Smallest and largest signed word of a non-empty `v`.
pub fn min_max_signed(v: &[i16]) -> (r: (i16, i16))
    requires
        v@.len() > 0,
    ensures
        exists|i: int| 0 <= i < v@.len() && v@[i] == r.0,
        exists|i: int| 0 <= i < v@.len() && v@[i] == r.1,
        forall|i: int| 0 <= i < v@.len() ==> r.0 <= #[trigger] v@[i] <= r.1,
{
    let mut lo = v[0];
    let mut hi = v[0];
    let mut i: usize = 1;
    while i < v.len()
        invariant
            1 <= i <= v@.len(),
            exists|k: int| 0 <= k < v@.len() && v@[k] == lo,
            exists|k: int| 0 <= k < v@.len() && v@[k] == hi,
            forall|k: int| 0 <= k < i ==> lo <= #[trigger] v@[k] <= hi,
        decreases v.len() - i,
    {
        if v[i] < lo {
            lo = v[i];
        }
        if v[i] > hi {
            hi = v[i];
        }
        i += 1;
    }
    (lo, hi)
}

/// Smallest and largest word of a non-empty `v`.
pub fn min_max(v: &[u16]) -> (r: (u16, u16))
    requires
        v@.len() > 0,
    ensures
        exists|i: int| 0 <= i < v@.len() && v@[i] == r.0,
        exists|i: int| 0 <= i < v@.len() && v@[i] == r.1,
        forall|i: int| 0 <= i < v@.len() ==> r.0 <= #[trigger] v@[i] <= r.1,
{
    let mut lo = v[0];
    let mut hi = v[0];
    let mut i: usize = 1;
    while i < v.len()
        invariant
            1 <= i <= v@.len(),
            exists|k: int| 0 <= k < v@.len() && v@[k] == lo,
            exists|k: int| 0 <= k < v@.len() && v@[k] == hi,
            forall|k: int| 0 <= k < i ==> lo <= #[trigger] v@[k] <= hi,
        decreases v.len() - i,
    {
        if v[i] < lo {
            lo = v[i];
        }
        if v[i] > hi {
            hi = v[i];
        }
        i += 1;
    }
    (lo, hi)
}

/// Whether the spread of the words of a non-empty `v` is at least `d`.
pub fn has_spread(v: &[u16], d: u32) -> (r: bool)
    requires
        v@.len() > 0,
    ensures
        r == spread_at_least(v@, d as int),
{
    let (lo, hi) = min_max(v);
    let r = (hi as u64) >= (lo as u64) + (d as u64);
    proof {
        if r {
            let i = choose|i: int| 0 <= i < v@.len() && v@[i] == hi;
            let j = choose|j: int| 0 <= j < v@.len() && v@[j] == lo;
            assert(v@[i] - v@[j] >= d);
        } else {
            assert forall|i: int, j: int|
                0 <= i < v@.len() && 0 <= j < v@.len() implies !(#[trigger] v@[i] - #[trigger] v@[j] >= d) by {
                assert(lo <= v@[j] && v@[i] <= hi);
            }
        }
    }
    r
}

/// Whether the spread of the signed words of a non-empty `v` is at least `d`.
pub fn has_spread_signed(v: &[i16], d: i32) -> (r: bool)
    requires
        v@.len() > 0,
    ensures
        r == spread_at_least_signed(v@, d as int),
{
    let (lo, hi) = min_max_signed(v);
    let r = (hi as i32) - (lo as i32) >= d;
    proof {
        if r {
            let i = choose|i: int| 0 <= i < v@.len() && v@[i] == hi;
            let j = choose|j: int| 0 <= j < v@.len() && v@[j] == lo;
            assert(v@[i] - v@[j] >= d);
        } else {
            assert forall|i: int, j: int|
                0 <= i < v@.len() && 0 <= j < v@.len() implies !(#[trigger] v@[i] - #[trigger] v@[j] >= d) by {
                assert(lo <= v@[j] && v@[i] <= hi);
            }
        }
    }
    r
}

/// Whether the signed cells `v` all lie in `lo ..= hi`, spread over at
/// least `d`, and at least half of them are positive.
pub fn check_signed_cells(v: &[i16], lo: i16, hi: i16, d: i32) -> (r: bool)
    ensures
        r == signed_cells_ok(v@, lo as int, hi as int, d as int),
{
    if v.len() == 0 || !all_in_signed(v, lo, hi) || !has_spread_signed(v, d) {
        return false;
    }
    count_in_signed(v, 1, 32767) >= v.len() / 2
}

} // verus!
