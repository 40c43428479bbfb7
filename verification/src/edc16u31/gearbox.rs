//! Gearbox torque limiters: runs of at least four curves that share one RPM
//! axis, each stored as `[00 n]`, n engine speeds, then n torque values.
use vstd::prelude::*;
use std::collections::HashSet;
use crate::bytes::{be16, be16_seq, read_u16, read_words};
use crate::model::{DataType, DetectedMap, MapDimensions, has_text, lemma_listed_last, listed, text, FIXED_ONE};
use crate::text::{decimal, numbered};
use crate::words::{all_between, any_between, is_strictly_increasing, all_in, any_in, strictly_increasing};
use super::{EDC16U31Detector, data_section, get_data_section_range};

verus! {

broadcast use {vstd::std_specs::hash::group_hash_axioms, crate::model::lemma_listed_push};

/// The curve at `o` (header, axis, data) when it fits before `end`: its
/// number of points.
pub open spec fn gear_unit(s: Seq<u8>, o: int, end: int) -> Option<int> {
    if o + 2 > end {
        None
    } else {
        let n = be16(s, o) as int;
        let axis = be16_seq(s, o + 2, n);
        let vals = be16_seq(s, o + 2 + 2 * n, n);
        if 11 <= n <= 15 && o + 2 + 4 * n <= end && 300 <= axis[0] <= 1500 && 2500 <= axis[n - 1]
            <= 6000 && strictly_increasing(axis) && all_between(vals, 0, 60000) && any_between(
            vals,
            1,
            65535,
        ) {
            Some(n)
        } else {
            None
        }
    }
}

/// The curves at `a` and `b` (of `n` points) have the same axis.
pub open spec fn same_axes(s: Seq<u8>, a: int, b: int, n: int) -> bool {
    s.subrange(a + 2, a + 2 + 2 * n) == s.subrange(b + 2, b + 2 + 2 * n)
}

/// The next curve of the run of the curve at `first` (of `n` points): the
/// first of `cursor + pad`, `cursor + pad + 2`, ... `cursor + 16` before
/// `end` that is a curve of `n` points with the same axis.
pub open spec fn next_curve(s: Seq<u8>, first: int, cursor: int, n: int, end: int, pad: int) -> Option<int>
    decreases 18 - pad,
{
    if pad > 16 || pad > end - cursor {
        None
    } else if gear_unit(s, cursor + pad, end) == Some(n) && same_axes(s, first, cursor + pad, n) {
        Some(cursor + pad)
    } else {
        next_curve(s, first, cursor, n, end, pad + 2)
    }
}

pub proof fn lemma_next_curve(s: Seq<u8>, first: int, cursor: int, n: int, end: int, pad: int)
    ensures
        next_curve(s, first, cursor, n, end, pad) matches Some(c) ==> cursor + pad <= c <= cursor + 16 && gear_unit(
            s,
            c,
            end,
        ) == Some(n),
    decreases 18 - pad,
{
    if !(pad > 16 || pad > end - cursor) {
        if !(gear_unit(s, cursor + pad, end) == Some(n) && same_axes(s, first, cursor + pad, n)) {
            lemma_next_curve(s, first, cursor, n, end, pad + 2);
        }
    }
}

/// The curves of the run of the curve at `first` that follow `cursor`.
pub open spec fn run_after(s: Seq<u8>, first: int, cursor: int, n: int, end: int) -> Seq<int>
    decreases end - cursor,
{
    match next_curve(s, first, cursor, n, end, 0) {
        Some(c) => {
            proof {
                lemma_next_curve(s, first, cursor, n, end, 0);
            }
            seq![c] + run_after(s, first, c + 2 + 4 * n, n, end)
        },
        None => Seq::empty(),
    }
}

/// The header positions of the run that starts with the curve at `o` of `n` points.
pub open spec fn run_units(s: Seq<u8>, o: int, n: int, end: int) -> Seq<int> {
    seq![o] + run_after(s, o, o + 2 + 4 * n, n, end)
}

/// One of the curves at `u` (of `n` points) holds a torque of at least 10000.
pub open spec fn run_torque(s: Seq<u8>, u: Seq<int>, n: int) -> bool {
    exists|k: int| 0 <= k < u.len() && any_between(be16_seq(s, #[trigger] u[k] + 2 + 2 * n, n), 10000, 65535)
}

/// A run of at least four curves with some torque of at least 10000 starts
/// at `o`, on the word alignment of the scan from `st`.
pub open spec fn gear_run(s: Seq<u8>, st: int, end: int, o: int) -> bool {
    &&& st <= o
    &&& (o - st) % 2 == 0
    &&& gear_unit(s, o, end) matches Some(n) && run_units(s, o, n, end).len() >= 4 && run_torque(
        s,
        run_units(s, o, n, end),
        n,
    )
}

/// The first such run of the scan.
pub open spec fn first_gear_run(s: Seq<u8>, st: int, end: int, o: int) -> bool {
    &&& gear_run(s, st, end, o)
    &&& forall|p: int| p < o ==> !#[trigger] gear_run(s, st, end, p)
}

/// The address of curve `k` of the run that starts at `o`.
pub open spec fn run_curve_address(s: Seq<u8>, o: int, end: int, k: int) -> int {
    let n = gear_unit(s, o, end)->0;
    run_units(s, o, n, end)[k] + 2 + 2 * n
}

/// The curves of the first run below `bound` whose address is not in `d`
/// are listed in `r`, and so is the global limiter value before it.
pub open spec fn gear_first_listed(s: Seq<u8>, d: Set<u32>, st: int, end: int, r: Seq<DetectedMap>, bound: int) -> bool {
    &&& forall|o: int, k: int|
        first_gear_run(s, st, end, o) && o < bound && 0 <= k < run_units(s, o, gear_unit(s, o, end)->0, end).len()
            && !d.contains(#[trigger] run_curve_address(s, o, end, k) as u32) ==> listed(
            r,
            run_curve_address(s, o, end, k),
        )
    &&& forall|o: int|
        #[trigger] first_gear_run(s, st, end, o) && o < bound && o >= 2 && 0 < be16(s, o - 2) <= 60000
            && !d.contains((o - 2) as u32) ==> listed(r, o - 2)
}

proof fn lemma_gear_first_grow(
    s: Seq<u8>,
    d: Set<u32>,
    st: int,
    end: int,
    a: Seq<DetectedMap>,
    b: Seq<DetectedMap>,
    bound: int,
)
    requires
        gear_first_listed(s, d, st, end, a, bound),
        forall|x: int| listed(a, x) ==> #[trigger] listed(b, x),
    ensures
        gear_first_listed(s, d, st, end, b, bound),
{
    assert forall|o: int, k: int|
        first_gear_run(s, st, end, o) && o < bound && 0 <= k < run_units(s, o, gear_unit(s, o, end)->0, end).len()
            && !d.contains(#[trigger] run_curve_address(s, o, end, k) as u32) implies listed(
        b,
        run_curve_address(s, o, end, k),
    ) by {
        assert(listed(a, run_curve_address(s, o, end, k)));
    }
    assert forall|o: int|
        #[trigger] first_gear_run(s, st, end, o) && o < bound && o >= 2 && 0 < be16(s, o - 2) <= 60000
            && !d.contains((o - 2) as u32) implies listed(b, o - 2) by {
        assert(listed(a, o - 2));
    }
}

proof fn lemma_gear_first_step(
    s: Seq<u8>,
    d: Set<u32>,
    st: int,
    end: int,
    r: Seq<DetectedMap>,
    o: int,
    found_run: bool,
)
    requires
        gear_first_listed(s, d, st, end, r, o),
        !found_run ==> (o - st) % 2 == 0 && !gear_run(s, st, end, o),
        found_run ==> exists|p: int| p < o && #[trigger] gear_run(s, st, end, p),
    ensures
        gear_first_listed(s, d, st, end, r, o + 2),
{
    assert forall|q: int| o <= q < o + 2 implies !#[trigger] first_gear_run(s, st, end, q) by {
        if found_run {
            let p = choose|p: int| p < o && #[trigger] gear_run(s, st, end, p);
            assert(gear_run(s, st, end, p));
        }
    }
}

/// A torque limiter curve of `n` points whose header is at `o`.
pub open spec fn gear_curve_map(m: DetectedMap, o: int, n: int) -> bool {
    &&& m.address == o + 2 + 2 * n
    &&& m.size == 2 * n
    &&& m.dimensions == MapDimensions::OneDimensional { length: n as usize }
    &&& m.data_type == DataType::Int16
    &&& has_text(m.category, "Gearbox"@)
    &&& has_text(m.unit, "Nm"@)
    &&& m.correction_factor == Some(100_000_000_000i64)
    &&& m.offset == Some(0i64)
    &&& m.confidence == 950
    &&& m.x_axis_address == Some((o + 2) as u32)
    &&& has_text(m.x_label, "rpm"@)
    &&& m.x_axis_correction == Some(FIXED_ONE)
    &&& m.x_axis_offset == Some(0i64)
}

/// The global limiter value stored just before the first curve of a run.
pub open spec fn gear_single_map(s: Seq<u8>, m: DetectedMap, end: int) -> bool {
    &&& m.address + 2 <= end
    &&& gear_unit(s, m.address + 2, end) is Some
    &&& 0 < be16(s, m.address as int) <= 60000
    &&& m.size == 2
    &&& m.dimensions == MapDimensions::OneDimensional { length: 1 }
    &&& m.data_type == DataType::Int16
    &&& has_text(m.name, "Single Value Gearbox Limiter"@)
    &&& has_text(m.category, "Gearbox"@)
    &&& has_text(m.unit, "Nm"@)
    &&& m.correction_factor == Some(100_000_000_000i64)
    &&& m.offset == Some(0i64)
    &&& m.confidence == 930
}

/// Number of curve maps (more than one value) among `r`.
pub open spec fn curves_in(r: Seq<DetectedMap>) -> nat
    decreases r.len(),
{
    if r.len() == 0 {
        0
    } else {
        curves_in(r.drop_last()) + if r.last().size > 2 {
            1nat
        } else {
            0nat
        }
    }
}

/// Map `k` of `r` is a curve, numbered after the curves before it, or the
/// global limiter value.
pub open spec fn gear_entry_ok(s: Seq<u8>, r: Seq<DetectedMap>, k: int, end: int) -> bool {
    ||| (exists|o: int, n: int|
        gear_unit(s, o, end) == Some(n) && #[trigger] gear_curve_map(r[k], o, n) && has_text(
            r[k].name,
            "Gearbox Torque Limiter "@ + decimal(curves_in(r.subrange(0, k)) + 1),
        ))
    ||| gear_single_map(s, r[k], end)
}

/// Checks the curve at `o`; gives its number of points.
fn gear_unit_len(data: &[u8], o: usize, end: usize) -> (r: Option<usize>)
    requires
        end <= data@.len(),
    ensures
        match gear_unit(data@, o as int, end as int) {
            Some(n) => r == Some(n as usize),
            None => r is None,
        },
{
    if o > end || end - o < 2 {
        return None;
    }
    let n = read_u16(data, o) as usize;
    if n < 11 || n > 15 || end - o - 2 < n * 4 {
        return None;
    }
    let axis = read_words(data, o + 2, n);
    if axis[0] < 300 || axis[0] > 1500 || axis[n - 1] < 2500 || axis[n - 1] > 6000
        || !is_strictly_increasing(axis.as_slice()) {
        return None;
    }
    let vals = read_words(data, o + 2 + n * 2, n);
    if !all_in(vals.as_slice(), 0, 60000) || !any_in(vals.as_slice(), 1, 65535) {
        return None;
    }
    Some(n)
}

/// Whether the axes of the curves at `a` and `b` (of `n` points) are equal.
fn same_axis(data: &[u8], a: usize, b: usize, n: usize) -> (r: bool)
    requires
        a + 2 + 2 * n <= data@.len(),
        b + 2 + 2 * n <= data@.len(),
    ensures
        r == (data@.subrange(a + 2, a + 2 + 2 * n) == data@.subrange(b + 2, b + 2 + 2 * n)),
{
    let len = data.len();
    let mut i: usize = 0;
    while i < 2 * n
        invariant
            len == data@.len(),
            a + 2 + 2 * n <= len,
            b + 2 + 2 * n <= len,
            i <= 2 * n,
            forall|j: int|
                0 <= j < i ==> #[trigger] data@.subrange(a + 2, a + 2 + 2 * n)[j] == data@.subrange(
                    b + 2,
                    b + 2 + 2 * n,
                )[j],
        decreases 2 * n - i,
    {
        if data[a + 2 + i] != data[b + 2 + i] {
            assert(data@.subrange(a + 2, a + 2 + 2 * n)[i as int] != data@.subrange(b + 2, b + 2 + 2 * n)[i as int]);
            return false;
        }
        i += 1;
    }
    assert(data@.subrange(a + 2, a + 2 + 2 * n) =~= data@.subrange(b + 2, b + 2 + 2 * n));
    true
}

/// The next curve of the run after `cursor`: the first of `cursor`,
/// `cursor + 2`, ... `cursor + 16` that is a curve of `n` points with the
/// same axis as the curve at `first`.
fn next_unit(data: &[u8], first: usize, cursor: usize, n: usize, end: usize) -> (r: Option<usize>)
    requires
        end <= data@.len(),
        first + 2 + 4 * n <= end,
        cursor <= end,
    ensures
        r matches Some(c) ==> cursor <= c <= cursor + 16 && gear_unit(data@, c as int, end as int) == Some(
            n as int,
        ),
        match next_curve(data@, first as int, cursor as int, n as int, end as int, 0) {
            Some(c) => r == Some(c as usize),
            None => r is None,
        },
{
    let mut pad: usize = 0;
    while pad <= 16
        invariant
            end <= data@.len(),
            first + 2 + 4 * n <= end,
            cursor <= end,
            pad % 2 == 0,
            pad <= 18,
            next_curve(data@, first as int, cursor as int, n as int, end as int, pad as int) == next_curve(
                data@,
                first as int,
                cursor as int,
                n as int,
                end as int,
                0,
            ),
        decreases 18 - pad,
    {
        if pad > end - cursor {
            return None;
        }
        let cand = cursor + pad;
        match gear_unit_len(data, cand, end) {
            Some(m) => {
                if m == n && same_axis(data, first, cand, n) {
                    return Some(cand);
                }
            },
            None => {},
        }
        pad += 2;
    }
    None
}

/// Whether one of the curves starting at `starts` holds a value of at least 10000.
fn run_has_torque(data: &[u8], starts: &Vec<usize>, n: usize) -> (r: bool)
    requires
        forall|k: int| 0 <= k < starts@.len() ==> #[trigger] starts@[k] + 2 + 4 * n <= data@.len(),
    ensures
        r == exists|k: int|
            0 <= k < starts@.len() && any_between(be16_seq(data@, #[trigger] starts@[k] + 2 + 2 * n, n as int), 10000, 65535),
{
    let len = data.len();
    let mut k: usize = 0;
    while k < starts.len()
        invariant
            len == data@.len(),
            forall|j: int| 0 <= j < starts@.len() ==> #[trigger] starts@[j] + 2 + 4 * n <= len,
            forall|j: int|
                0 <= j < k ==> !any_between(be16_seq(data@, #[trigger] starts@[j] + 2 + 2 * n, n as int), 10000, 65535),
        decreases starts.len() - k,
    {
        let st = starts[k];
        assert(st + 2 + 4 * n <= len);
        let d = st + 2 + n * 2;
        let vals = read_words(data, d, n);
        if any_in(vals.as_slice(), 10000, 65535) {
            return true;
        }
        k += 1;
    }
    false
}

/// The header positions of the run that starts with the curve at `offset`
/// (of `n` points), in order.
fn collect_run(data: &[u8], offset: usize, n: usize, scan_end: usize) -> (starts: Vec<usize>)
    requires
        scan_end <= data@.len(),
        gear_unit(data@, offset as int, scan_end as int) == Some(n as int),
    ensures
        starts@.len() >= 1,
        starts@[0] == offset,
        11 <= n <= 15,
        forall|k: int| 0 <= k < starts@.len() ==> #[trigger] gear_unit(data@, starts@[k] as int, scan_end as int) == Some(n as int),
        forall|k: int| 0 <= k < starts@.len() ==> #[trigger] starts@[k] + 2 + 4 * n <= scan_end,
        forall|k: int| 0 <= k < starts@.len() ==> #[trigger] starts@[k] >= offset + k,
        run_units(data@, offset as int, n as int, scan_end as int).len() == starts@.len(),
        forall|j: int| 0 <= j < starts@.len() ==> #[trigger] run_units(data@, offset as int, n as int, scan_end as int)[j] == starts@[j] as int,
{
    let ghost s = data@;
    let ghost end = scan_end as int;
    let unit_size = 2 + n * 4;
    let mut starts: Vec<usize> = Vec::new();
    starts.push(offset);
    let ghost mut su: Seq<int> = seq![offset as int];
    let ghost units = run_units(s, offset as int, n as int, end);
    let mut cursor = offset + unit_size;
    let mut more = true;
    while more
        invariant
            s == data@,
            scan_end <= s.len(),
            11 <= n <= 15,
            unit_size == 2 + 4 * n,
            offset + unit_size <= cursor <= scan_end,
            starts@.len() >= 1,
            starts@[0] == offset,
            forall|k: int| 0 <= k < starts@.len() ==> #[trigger] gear_unit(s, starts@[k] as int, end) == Some(n as int),
            forall|k: int| 0 <= k < starts@.len() ==> #[trigger] starts@[k] + unit_size <= cursor,
            forall|k: int| 0 <= k < starts@.len() ==> #[trigger] starts@[k] >= offset + k,
            cursor >= starts@[starts@.len() - 1] + unit_size,
            end == scan_end,
            su.len() == starts@.len(),
            forall|j: int| 0 <= j < su.len() ==> #[trigger] su[j] == starts@[j] as int,
            units == run_units(s, offset as int, n as int, end),
            more ==> units == su + run_after(s, offset as int, cursor as int, n as int, end),
            !more ==> units == su,
        decreases scan_end - cursor + if more { 1int } else { 0int },
    {
        match next_unit(data, offset, cursor, n, scan_end) {
            Some(c) => {
                let ghost before = starts@;
                proof {
                    lemma_next_curve(s, offset as int, cursor as int, n as int, end, 0);
                    assert(next_curve(s, offset as int, cursor as int, n as int, end, 0) == Some(c as int));
                    assert(run_after(s, offset as int, cursor as int, n as int, end) == seq![c as int] + run_after(
                        s,
                        offset as int,
                        c + 2 + 4 * n,
                        n as int,
                        end,
                    ));
                    assert(su + (seq![c as int] + run_after(s, offset as int, c + 2 + 4 * n, n as int, end))
                        =~= su.push(c as int) + run_after(s, offset as int, c + 2 + 4 * n, n as int, end));
                    su = su.push(c as int);
                }
                starts.push(c);
                cursor = c + unit_size;
                assert(starts@[starts@.len() - 1] == c);
                assert forall|k: int| 0 <= k < starts@.len() implies #[trigger] starts@[k] >= offset + k by {
                    if k < before.len() {
                        assert(starts@[k] == before[k]);
                    }
                }
            },
            None => {
                proof {
                    assert(run_after(s, offset as int, cursor as int, n as int, end) =~= Seq::<int>::empty());
                    assert(su + Seq::<int>::empty() =~= su);
                }
                more = false;
            },
        }
    }
    starts
}

proof fn lemma_curves_push(r: Seq<DetectedMap>, m: DetectedMap)
    ensures
        curves_in(r.push(m)) == curves_in(r) + if m.size > 2 {
            1nat
        } else {
            0nat
        },
{
    assert(r.push(m).drop_last() =~= r);
}

proof fn lemma_entries_kept(s: Seq<u8>, r: Seq<DetectedMap>, m: DetectedMap, end: int)
    requires
        forall|k: int| 0 <= k < r.len() ==> #[trigger] gear_entry_ok(s, r, k, end),
    ensures
        forall|k: int| 0 <= k < r.len() ==> #[trigger] gear_entry_ok(s, r.push(m), k, end),
{
    assert forall|k: int| 0 <= k < r.len() implies #[trigger] gear_entry_ok(s, r.push(m), k, end) by {
        assert(r.push(m).subrange(0, k) =~= r.subrange(0, k));
        assert(r.push(m)[k] == r[k]);
        assert(gear_entry_ok(s, r, k, end));
    }
}

/// The gearbox torque limiter maps `r` found in the image `s`, leaving out the addresses of `d`,
/// as the scan states them.
pub open spec fn gearbox_post(s: Seq<u8>, d: Set<u32>, r: Seq<DetectedMap>) -> bool {
    &&& (forall|k: int|
                0 <= k < r.len() ==> #[trigger] gear_entry_ok(
                    s,
                    r,
                    k,
                    data_section(s.len() as int).1,
                ) && !d.contains(r[k].address))
    &&& (forall|j: int, k: int|
                0 <= j < k < r.len() && (#[trigger] r[j]).size <= 2 ==> (#[trigger] r[k]).size > 2)
    &&& (gear_first_listed(
                s,
                d,
                data_section(s.len() as int).0,
                data_section(s.len() as int).1,
                r,
                data_section(s.len() as int).1,
            ))
}

impl EDC16U31Detector {
    /// The gearbox torque limiter curves (runs of at least four curves with
    /// one shared RPM axis and a torque of at least 1000 Nm somewhere),
    /// numbered in order, and the global limiter value stored before the
    /// first run; addresses in `detected` are left out.
    #[verifier::spinoff_prover]
    #[verifier::rlimit(100)]
    pub fn detect_gearbox_torque_limiter(&self, data: &[u8], detected: &HashSet<u32>) -> (r: Vec<
        DetectedMap,
    >)
        requires
            data@.len() <= u32::MAX,
        ensures
            gearbox_post(data@, detected@, r@),
    {
        let ghost s = data@;
        let mut maps: Vec<DetectedMap> = Vec::new();
        let (scan_start, scan_end) = get_data_section_range(data.len());
        let ghost end = scan_end as int;
        let ghost st = scan_start as int;
        let ghost mut found_run = false;
        let mut offset = scan_start;
        let mut found_count: u64 = 0;
        let mut single_done = false;
        while offset <= scan_end && scan_end - offset >= 2
            invariant
                s == data@,
                s.len() <= u32::MAX,
                end == scan_end,
                scan_end == data_section(s.len() as int).1,
                scan_end <= s.len(),
                offset <= scan_end,
                found_count == curves_in(maps@),
                found_count <= offset,
                forall|k: int| 0 <= k < maps@.len() ==> #[trigger] gear_entry_ok(s, maps@, k, end),
                forall|k: int| 0 <= k < maps@.len() ==> !detected@.contains((#[trigger] maps@[k]).address),
                !single_done ==> forall|k: int| 0 <= k < maps@.len() ==> (#[trigger] maps@[k]).size > 2,
                forall|j: int, k: int|
                    0 <= j < k < maps@.len() && (#[trigger] maps@[j]).size <= 2 ==> (
                    #[trigger] maps@[k]).size > 2,
                st == scan_start,
                st <= offset,
                scan_start == data_section(s.len() as int).0,
                !found_run ==> (offset - st) % 2 == 0 && !single_done,
                !found_run ==> forall|p: int| p < offset ==> !#[trigger] gear_run(s, st, end, p),
                found_run ==> exists|p: int| p < offset && #[trigger] gear_run(s, st, end, p),
                gear_first_listed(s, detected@, st, end, maps@, offset as int),
            decreases scan_end - offset,
        {
            let n = match gear_unit_len(data, offset, scan_end) {
                Some(n) => n,
                None => {
                    proof {
                        assert(!gear_run(s, st, end, offset as int));
                        lemma_gear_first_step(s, detected@, st, end, maps@, offset as int, found_run);
                    }
                    offset += 2;
                    continue;
                },
            };
            let unit_size = 2 + n * 4;
            let starts = collect_run(data, offset, n, scan_end);
            let ghost units = run_units(s, offset as int, n as int, end);
            let count = starts.len();
            let torque = run_has_torque(data, &starts, n);
            proof {
                assert(units.len() == count);
                if torque {
                    let k = choose|k: int|
                        0 <= k < starts@.len() && any_between(be16_seq(s, #[trigger] starts@[k] + 2 + 2 * n, n as int), 10000, 65535);
                    assert(units[k] == starts@[k] as int);
                    assert(run_torque(s, units, n as int));
                } else {
                    assert forall|k: int| 0 <= k < units.len() implies !any_between(
                        be16_seq(s, #[trigger] units[k] + 2 + 2 * n, n as int),
                        10000,
                        65535,
                    ) by {
                        assert(units[k] == starts@[k] as int);
                    }
                }
                assert(gear_unit(s, offset as int, end) == Some(n as int));
                assert((count >= 4 && torque) == (run_units(s, offset as int, n as int, end).len() >= 4 && run_torque(s, units, n as int)));
            }
            if count < 4 || !torque {
                proof {
                    assert(!gear_run(s, st, end, offset as int));
                    lemma_gear_first_step(s, detected@, st, end, maps@, offset as int, found_run);
                }
                offset += 2;
                continue;
            }
            let ghost first = !found_run;
            proof {
                if first {
                    assert(gear_run(s, st, end, offset as int));
                    assert(first_gear_run(s, st, end, offset as int));
                } else {
                    let p = choose|p: int| p < offset && #[trigger] gear_run(s, st, end, p);
                    assert(!first_gear_run(s, st, end, offset as int));
                }
            }
            let ghost mb = maps@;
            if !single_done && offset >= 2 {
                let single_addr = offset - 2;
                let single_val = read_u16(data, single_addr);
                if single_val > 0 && single_val <= 60000 && !detected.contains(&(single_addr as u32)) {
                    let mut single = DetectedMap::new(
                        single_addr as u32,
                        2,
                        MapDimensions::OneDimensional { length: 1 },
                        DataType::Int16,
                    );
                    single.name = Some(text("Single Value Gearbox Limiter"));
                    single.category = Some(text("Gearbox"));
                    single.unit = Some(text("Nm"));
                    single.correction_factor = Some(100_000_000_000);
                    single.offset = Some(0);
                    single.confidence = 930;
                    let ghost before = maps@;
                    proof {
                        lemma_entries_kept(s, before, single, end);
                        lemma_curves_push(before, single);
                    }
                    maps.push(single);
                    proof {
                        assert(maps@ == before.push(single));
                        assert(forall|j: int| 0 <= j < before.len() ==> #[trigger] gear_entry_ok(s, before.push(single), j, end));
                        assert(gear_single_map(s, maps@[maps@.len() - 1], end));
                        assert(gear_entry_ok(s, maps@, maps@.len() - 1, end));
                        assert forall|j: int| 0 <= j < maps@.len() implies #[trigger] gear_entry_ok(s, maps@, j, end) by {
                            if j < before.len() {
                                assert(maps@[j] == before[j]);
                                assert(gear_entry_ok(s, before.push(single), j, end));
                            } else {
                                assert(j == before.len());
                                assert(maps@[j] == single);
                            }
                        }
                    }
                    single_done = true;
                    proof {
                        lemma_listed_last(before, single);
                    }
                }
            }
            proof {
                lemma_gear_first_grow(s, detected@, st, end, mb, maps@, offset as int);
            }
            let ghost run_start = offset;
            let mut k: usize = 0;
            while k < count
                invariant
                    s == data@,
                    found_count <= run_start + k,
                    k <= count,
                    run_start == offset,
                    starts@[count - 1] >= offset + count - 1,
                    s.len() <= u32::MAX,
                    scan_end <= s.len(),
                    end == scan_end,
                    count == starts@.len(),
                    11 <= n <= 15,
                    forall|j: int| 0 <= j < starts@.len() ==> #[trigger] gear_unit(s, starts@[j] as int, end) == Some(n as int),
                    found_count == curves_in(maps@),
                    forall|j: int| 0 <= j < maps@.len() ==> #[trigger] gear_entry_ok(s, maps@, j, end),
                    forall|j: int| 0 <= j < maps@.len() ==> !detected@.contains((#[trigger] maps@[j]).address),
                    !single_done ==> forall|j: int| 0 <= j < maps@.len() ==> (#[trigger] maps@[j]).size > 2,
                    forall|i: int, j: int|
                        0 <= i < j < maps@.len() && (#[trigger] maps@[i]).size <= 2 ==> (
                        #[trigger] maps@[j]).size > 2,
                    gear_first_listed(s, detected@, st, end, maps@, offset as int),
                    first && offset >= 2 && 0 < be16(s, offset - 2) <= 60000 && !detected@.contains((offset - 2) as u32) ==> listed(maps@, offset - 2),
                    units.len() == starts@.len(),
                    forall|j: int| 0 <= j < units.len() ==> #[trigger] units[j] == starts@[j] as int,
                    gear_unit(s, offset as int, end) == Some(n as int),
                    units == run_units(s, offset as int, n as int, end),
                    first ==> forall|j: int|
                        0 <= j < k && !detected@.contains(#[trigger] run_curve_address(s, offset as int, end, j) as u32)
                            ==> listed(maps@, run_curve_address(s, offset as int, end, j)),
                decreases count - k,
            {
                let ghost mk = maps@;
                let unit_start = starts[k];
                let axis_start = unit_start + 2;
                let data_addr = axis_start + n * 2;
                if !detected.contains(&(data_addr as u32)) {
                    found_count += 1;
                    let mut map = DetectedMap::new(
                        data_addr as u32,
                        n * 2,
                        MapDimensions::OneDimensional { length: n },
                        DataType::Int16,
                    );
                    map.name = Some(numbered("Gearbox Torque Limiter ", found_count));
                    map.category = Some(text("Gearbox"));
                    map.unit = Some(text("Nm"));
                    map.correction_factor = Some(100_000_000_000);
                    map.offset = Some(0);
                    map.confidence = 950;
                    map.x_axis_address = Some(axis_start as u32);
                    map.x_label = Some(text("rpm"));
                    map.x_axis_correction = Some(FIXED_ONE);
                    map.x_axis_offset = Some(0);
                    proof {
                        lemma_entries_kept(s, maps@, map, end);
                        lemma_curves_push(maps@, map);
                        assert(gear_curve_map(map, unit_start as int, n as int));
                    }
                    let ghost before = maps@;
                    maps.push(map);
                    proof {
                        let last = maps@.len() - 1;
                        assert(maps@.subrange(0, last) =~= before);
                        assert(gear_unit(s, unit_start as int, end) == Some(n as int));
                        assert(gear_entry_ok(s, maps@, last, end));
                        assert forall|j: int| 0 <= j < maps@.len() implies #[trigger] gear_entry_ok(s, maps@, j, end) by {
                            if j < before.len() {
                                assert(maps@[j] == before[j]);
                            }
                        }
                        lemma_listed_last(before, map);
                    }
                }
                proof {
                    lemma_gear_first_grow(s, detected@, st, end, mk, maps@, offset as int);
                    assert(run_curve_address(s, offset as int, end, k as int) == data_addr);
                }
                k += 1;
            }
            assert(found_count <= offset + count);
            assert(starts@[count - 1] >= offset + count - 1);
            let ghost old_offset = offset as int;
            proof {
                assert forall|q: int| old_offset < q implies !#[trigger] first_gear_run(s, st, end, q) by {
                    if first {
                        assert(gear_run(s, st, end, old_offset));
                    } else {
                        let p = choose|p: int| p < old_offset && #[trigger] gear_run(s, st, end, p);
                        assert(gear_run(s, st, end, p));
                    }
                }
                assert(exists|p: int| p <= old_offset && #[trigger] gear_run(s, st, end, p)) by {
                    if first {
                        assert(gear_run(s, st, end, old_offset));
                    } else {
                        let p = choose|p: int| p < old_offset && #[trigger] gear_run(s, st, end, p);
                        assert(gear_run(s, st, end, p));
                    }
                }
            }
            offset = starts[count - 1] + unit_size;
            proof {
                found_run = true;
            }
        }
        maps
    }
}

} // verus!
