//! Boost target maps (16 x 10 and 15 x 10, behind a `[00 rows][00 cols]`
//! header) and boost limiter maps (11 x 10 and 10 x 10 found by their axes,
//! 16 x 10 behind a `[00 10][00 0A]` header).
use vstd::prelude::*;
use std::collections::HashSet;
use crate::bytes::{be16_seq, be16s_seq, bytes_at, read_signed_words, read_words};
use crate::model::{lemma_listed_last, lemma_listed_prefix, listed, DetectedMap};
use crate::words::{
    all_between_signed, all_in_signed, any_between_signed, any_in_signed, is_non_decreasing, is_strictly_increasing,
    non_decreasing, strictly_increasing,
};
use super::axis_scan::{create_detected_map, templated_map};
use super::templates::MapType;
use super::{scan_limit, EDC16U31Detector};

verus! {

broadcast use {vstd::std_specs::hash::group_hash_axioms, crate::model::lemma_listed_push};

// --------------------------------------------------------------- boost target

/// An engine-speed axis from at most 1500 up to 4000 ..= 5500, never decreasing.
pub open spec fn target_rpm_axis(v: Seq<u16>) -> bool {
    &&& v.len() >= 1
    &&& v[0] <= 1500
    &&& 4000 <= v[v.len() - 1] <= 5500
    &&& non_decreasing(v)
}

/// An injection quantity axis of 10 points from at most 1500 up to
/// 3500 ..= 8000, strictly increasing, whose mean step (rounded down) is
/// 300 ..= 900.
pub open spec fn target_iq_axis(v: Seq<u16>) -> bool {
    &&& v.len() == 10
    &&& v[0] <= 1500
    &&& 3500 <= v[9] <= 8000
    &&& strictly_increasing(v)
    &&& 300 <= (v[9] - v[0]) / 9 <= 900
}

/// The boost target table with axes at `ys`, in an image of which `lim`
/// bytes are scanned, for a detector that is `tuned` or not: cells of 0 up
/// to 5500 (6000 when tuned) mbar, reaching 1000.
pub open spec fn target_table(s: Seq<u8>, lim: int, ys: int, rows: int, tuned: bool) -> bool {
    let ms = ys + 2 * rows + 20;
    let cells = be16s_seq(s, ms, rows * 10);
    &&& ms + 20 * rows <= lim
    &&& target_rpm_axis(be16_seq(s, ys, rows))
    &&& target_iq_axis(be16_seq(s, ys + 2 * rows, 10))
    &&& all_between_signed(cells, 0, if tuned { 6000 } else { 5500 })
    &&& any_between_signed(cells, 1000, 32767)
}

/// `m` is the boost target (`rows` x 10) behind the header at `o`, with
/// `pad` (0 or 4) bytes between header and axes.
pub open spec fn target_found(s: Seq<u8>, lim: int, tuned: bool, m: DetectedMap, o: int, pad: int, rows: int) -> bool {
    let ys = o + 4 + pad;
    &&& (rows == 16 || rows == 15)
    &&& (pad == 0 || pad == 4)
    &&& bytes_at(s, o, seq![0x00u8, rows as u8, 0x00, 0x0A])
    &&& target_table(s, lim, ys, rows, tuned)
    &&& templated_map(m, MapType::BoostTarget, ys + 2 * rows + 20, rows, 10, ys, ys + 2 * rows, 1050)
}

/// `m` is a boost target of `start .. min(end, len)`, not at an address of `d`.
pub open spec fn target_ok(s: Seq<u8>, start: int, end: int, tuned: bool, d: Set<u32>, m: DetectedMap) -> bool {
    &&& !d.contains(m.address)
    &&& exists|o: int, pad: int, rows: int| start <= o && #[trigger] target_found(s, scan_limit(s, end), tuned, m, o, pad, rows)
}


/// Where the cells of the boost target of `rows` rows behind the header at
/// `o` start, with `pad` bytes between header and axes.
pub open spec fn target_ms(o: int, pad: int, rows: int) -> int {
    o + 4 + pad + 2 * rows + 20
}

/// A boost target of `rows` x 10, with 0 or 4 bytes of padding, not at an
/// address of `d`, is behind its header at the word-aligned position `o` of
/// `start .. min(end, len)`.
pub open spec fn target_candidate(
    s: Seq<u8>,
    d: Set<u32>,
    start: int,
    end: int,
    tuned: bool,
    rows: int,
    o: int,
    pad: int,
) -> bool {
    &&& start <= o
    &&& (o - start) % 2 == 0
    &&& o + 28 + 22 * rows <= scan_limit(s, end)
    &&& (pad == 0 || pad == 4)
    &&& bytes_at(s, o, seq![0x00u8, rows as u8, 0x00, 0x0A])
    &&& target_table(s, scan_limit(s, end), o + 4 + pad, rows, tuned)
    &&& !d.contains(target_ms(o, pad, rows) as u32)
}

/// A boost target behind the header at `o` is in `r`, or `o` lies between a
/// header of `rows` rows whose target is in `r` and the end of its cells.
pub open spec fn target_claimed(s: Seq<u8>, r: Seq<DetectedMap>, start: int, rows: int, o: int) -> bool {
    ||| listed(r, target_ms(o, 0, rows))
    ||| listed(r, target_ms(o, 4, rows))
    ||| exists|h: int, p: int|
        start <= h < o < target_ms(h, p, rows) + 20 * rows && (h - start) % 2 == 0 && (p == 0 || p == 4) && bytes_at(
            s,
            h,
            seq![0x00u8, rows as u8, 0x00, 0x0A],
        ) && #[trigger] listed(r, target_ms(h, p, rows))
}

proof fn lemma_target_claims_kept(s: Seq<u8>, a: Seq<DetectedMap>, b: Seq<DetectedMap>, start: int, rows: int)
    requires
        a.len() <= b.len(),
        forall|k: int| 0 <= k < a.len() ==> b[k] == a[k],
    ensures
        forall|o: int| target_claimed(s, a, start, rows, o) ==> #[trigger] target_claimed(s, b, start, rows, o),
{
    lemma_listed_prefix(a, b);
    assert forall|o: int| target_claimed(s, a, start, rows, o) implies #[trigger] target_claimed(s, b, start, rows, o) by {
        if !listed(a, target_ms(o, 0, rows)) && !listed(a, target_ms(o, 4, rows)) {
            let (h, p) = choose|h: int, p: int|
                start <= h < o < target_ms(h, p, rows) + 20 * rows && (h - start) % 2 == 0 && (p == 0 || p == 4)
                    && bytes_at(s, h, seq![0x00u8, rows as u8, 0x00, 0x0A]) && #[trigger] listed(a, target_ms(h, p, rows));
            assert(listed(b, target_ms(h, p, rows)));
        }
    }
}

fn is_target_table(data: &[u8], lim: usize, ys: usize, rows: usize, tuned: bool) -> (r: bool)
    requires
        lim <= data@.len(),
        data@.len() + 0x10000 <= usize::MAX,
        rows == 16 || rows == 15,
    ensures
        r == target_table(data@, lim as int, ys as int, rows as int, tuned),
{
    if ys > lim || lim - ys < 22 * rows + 20 {
        return false;
    }
    let ms = ys + 2 * rows + 20;
    let y = read_words(data, ys, rows);
    if y[0] > 1500 || y[rows - 1] < 4000 || y[rows - 1] > 5500 || !is_non_decreasing(y.as_slice()) {
        return false;
    }
    let x = read_words(data, ys + 2 * rows, 10);
    if x[0] > 1500 || x[9] < 3500 || x[9] > 8000 || !is_strictly_increasing(x.as_slice()) {
        return false;
    }
    assert(x@[0] < x@[9]) by {
        assert(crate::words::rises_at(x@, 9));
        assert forall|i: int, j: int| 0 <= i < j < 10 implies x@[i] < x@[j] by {
            lemma_increasing_pairs(x@, i, j);
        }
    }
    let step = (x[9] - x[0]) / 9;
    if step < 300 || step > 900 {
        return false;
    }
    let v = read_signed_words(data, ms, rows * 10);
    let limit: i16 = if tuned { 6000 } else { 5500 };
    all_in_signed(v.as_slice(), 0, limit) && any_in_signed(v.as_slice(), 1000, 32767)
}

/// In a strictly increasing sequence every earlier word is smaller.
proof fn lemma_increasing_pairs(v: Seq<u16>, i: int, j: int)
    requires
        strictly_increasing(v),
        0 <= i < j < v.len(),
    ensures
        v[i] < v[j],
    decreases j - i,
{
    assert(crate::words::rises_at(v, j));
    if i < j - 1 {
        lemma_increasing_pairs(v, i, j - 1);
    }
}

/// Whether the header `[00 rows][00 0A]` stands at `o`.
fn target_header(data: &[u8], o: usize, rows: usize) -> (r: bool)
    requires
        o + 4 <= data@.len(),
        rows == 16 || rows == 15,
    ensures
        r == bytes_at(data@, o as int, seq![0x00u8, rows as u8, 0x00, 0x0A]),
{
    let r = data[o] == 0 && data[o + 1] as usize == rows && data[o + 2] == 0 && data[o + 3] == 0x0A;
    proof {
        let p = seq![0x00u8, rows as u8, 0x00, 0x0A];
        if r {
            assert forall|k: int| 0 <= k < p.len() implies data@[o + k] == p[k] by {}
        } else {
            if data@[o + 0] != p[0] {
            } else if data@[o + 1] != p[1] {
            } else if data@[o + 2] != p[2] {
            } else {
                assert(data@[o + 3] != p[3]);
            }
        }
    }
    r
}

fn target_variant(
    data: &[u8],
    start: usize,
    end: usize,
    rows: usize,
    tuned: bool,
    detected: &HashSet<u32>,
    out: &mut Vec<DetectedMap>,
)
    requires
        data@.len() <= u32::MAX,
        data@.len() + 0x10000 <= usize::MAX,
        rows == 16 || rows == 15,
    ensures
        final(out)@.len() >= old(out)@.len(),
        forall|k: int| 0 <= k < old(out)@.len() ==> final(out)@[k] == old(out)@[k],
        forall|k: int|
            old(out)@.len() <= k < final(out)@.len() ==> target_ok(
                data@,
                start as int,
                end as int,
                tuned,
                detected@,
                #[trigger] final(out)@[k],
            ),
        forall|o: int, pad: int|
            #[trigger] target_candidate(data@, detected@, start as int, end as int, tuned, rows as int, o, pad)
                ==> target_claimed(data@, final(out)@, start as int, rows as int, o),
{
    let ghost s = data@;
    let ghost first = out@;
    let len = data.len();
    let lim = if end < len { end } else { len };
    let total = 28 + 22 * rows;
    let mut o = start;
    while o <= lim && lim - o >= total
        invariant
            s == data@,
            len == s.len(),
            len <= u32::MAX,
            len + 0x10000 <= usize::MAX,
            lim == scan_limit(s, end as int),
            start <= o,
            rows == 16 || rows == 15,
            total == 28 + 22 * rows,
            out@.len() >= first.len(),
            forall|k: int| 0 <= k < first.len() ==> out@[k] == first[k],
            forall|k: int|
                first.len() <= k < out@.len() ==> target_ok(s, start as int, end as int, tuned, detected@, #[trigger] out@[k]),
            (o - start) % 2 == 0,
            forall|q: int, p: int|
                q < o && #[trigger] target_candidate(s, detected@, start as int, end as int, tuned, rows as int, q, p)
                    ==> target_claimed(s, out@, start as int, rows as int, q),
        decreases len - o,
    {
        let ghost entry = out@;
        if target_header(data, o, rows) {
            let mut pad: usize = 0;
            let mut found = false;
            let mut next: usize = 0;
            while pad <= 4 && !found
                invariant
                    s == data@,
                    len == s.len(),
                    len <= u32::MAX,
                    len + 0x10000 <= usize::MAX,
                    lim == scan_limit(s, end as int),
                    o + total <= lim,
                    start <= o,
                    rows == 16 || rows == 15,
                    total == 28 + 22 * rows,
                    pad == 0 || pad == 4 || pad == 8,
                    bytes_at(s, o as int, seq![0x00u8, rows as u8, 0x00, 0x0A]),
                    found ==> o < next <= len,
                    found ==> exists|p: int|
                        (p == 0 || p == 4) && next == target_ms(o as int, p, rows as int) + 20 * rows && #[trigger] listed(
                            out@,
                            target_ms(o as int, p, rows as int),
                        ),
                    !found ==> out@ == entry,
                    forall|p: int|
                        0 <= p < pad && #[trigger] target_candidate(s, detected@, start as int, end as int, tuned, rows as int, o as int, p)
                            ==> target_claimed(s, out@, start as int, rows as int, o as int),
                    (o - start) % 2 == 0,
                    out@.len() >= entry.len(),
                    forall|k: int| 0 <= k < entry.len() ==> out@[k] == entry[k],
                    out@.len() >= first.len(),
                    forall|k: int| 0 <= k < first.len() ==> out@[k] == first[k],
                    forall|k: int|
                        first.len() <= k < out@.len() ==> target_ok(
                            s,
                            start as int,
                            end as int,
                            tuned,
                            detected@,
                            #[trigger] out@[k],
                        ),
                decreases 8 - pad,
            {
                let ys = o + 4 + pad;
                let ms = ys + 2 * rows + 20;
                if !detected.contains(&(ms as u32)) && !super::headed::listed_in(out.as_slice(), ms as u32)
                    && is_target_table(data, lim, ys, rows, tuned) {
                    let m = create_detected_map(MapType::BoostTarget, ms, rows, 10, ys, ys + 2 * rows, 1050);
                    assert(target_found(s, lim as int, tuned, m, o as int, pad as int, rows as int));
                    assert(target_ok(s, start as int, end as int, tuned, detected@, m));
                    proof {
                        lemma_listed_last(out@, m);
                        assert(ms == target_ms(o as int, pad as int, rows as int));
                    }
                    out.push(m);
                    found = true;
                    next = ms + 20 * rows;
                } else {
                    proof {
                        assert(ms == target_ms(o as int, pad as int, rows as int));
                        if detected@.contains(ms as u32) {
                        } else if listed(out@, ms as int) {
                            assert(target_claimed(s, out@, start as int, rows as int, o as int));
                        }
                    }
                }
                pad += 4;
            }
            if found {
                proof {
                    lemma_target_claims_kept(s, entry, out@, start as int, rows as int);
                    let p = choose|p: int|
                        (p == 0 || p == 4) && next == target_ms(o as int, p, rows as int) + 20 * rows && #[trigger] listed(
                            out@,
                            target_ms(o as int, p, rows as int),
                        );
                    assert forall|q: int, p2: int|
                        q < next && #[trigger] target_candidate(s, detected@, start as int, end as int, tuned, rows as int, q, p2)
                            implies target_claimed(s, out@, start as int, rows as int, q) by {
                        if q > o {
                            assert(listed(out@, target_ms(o as int, p, rows as int)));
                        } else if q == o {
                            if p == 0 {
                                assert(listed(out@, target_ms(o as int, 0, rows as int)));
                            } else {
                                assert(listed(out@, target_ms(o as int, 4, rows as int)));
                            }
                        }
                    }
                }
                o = next;
                continue;
            }
        }
        o += 2;
    }
}

// -------------------------------------------------------------- boost limiter

/// An atmospheric pressure axis of 10 points from 550 ..= 750 up to
/// 950 ..= 1200 mbar, strictly increasing.
pub open spec fn atmo_axis(v: Seq<u16>) -> bool {
    &&& v.len() == 10
    &&& 550 <= v[0] <= 750
    &&& 950 <= v[9] <= 1200
    &&& strictly_increasing(v)
}

/// Boost limiter cells: between 800 and 5000 mbar, reaching 1800.
pub open spec fn limiter_cells(v: Seq<i16>) -> bool {
    all_between_signed(v, 800, 5000) && any_between_signed(v, 1800, 32767)
}

/// An axis is linear: three or more points, a positive first step, and every
/// later step within max(first step / 10, 20) of it.
pub open spec fn linear_axis(v: Seq<u16>) -> bool {
    let d = v[1] - v[0];
    let tol = if d / 10 > 20 { d / 10 } else { 20 };
    &&& v.len() >= 3
    &&& d > 0
    &&& forall|i: int| 2 <= i < v.len() ==> -tol <= #[trigger] (v[i] - v[i - 1]) - d <= tol
}

/// The engine-speed axes of the three boost limiter layouts.
pub open spec fn limiter_rpm_a(v: Seq<u16>) -> bool {
    &&& v.len() == 11
    &&& 1200 <= v[0] <= 2000
    &&& 4000 <= v[10] <= 5000
    &&& strictly_increasing(v)
}

pub open spec fn limiter_rpm_b(v: Seq<u16>) -> bool {
    &&& v.len() == 10
    &&& 650 <= v[0] <= 1800
    &&& 4300 <= v[9] <= 5100
    &&& strictly_increasing(v)
    &&& !linear_axis(v)
}

pub open spec fn limiter_rpm_c(v: Seq<u16>) -> bool {
    &&& v.len() == 16
    &&& 1000 <= v[0] <= 2200
    &&& 4000 <= v[15] <= 6000
    &&& strictly_increasing(v)
}

/// A boost limiter of layout `kind` (0: 11 x 10 from its axes at `o`,
/// 1: 10 x 10 from its axes at `o`, 2: 16 x 10 behind `[00 10][00 0A]` at `o`).
pub open spec fn limiter_at(s: Seq<u8>, o: int, kind: int) -> bool {
    let rows = if kind == 0 { 11int } else if kind == 1 { 10int } else { 16int };
    let ys = if kind == 2 { o + 4 } else { o };
    let y = be16_seq(s, ys, rows);
    &&& 0 <= o
    &&& ys + 2 * rows + 20 + 20 * rows <= s.len()
    &&& (kind == 0 ==> limiter_rpm_a(y))
    &&& (kind == 1 ==> limiter_rpm_b(y))
    &&& (kind == 2 ==> bytes_at(s, o, seq![0x00u8, 0x10, 0x00, 0x0A]) && limiter_rpm_c(y))
    &&& atmo_axis(be16_seq(s, ys + 2 * rows, 10))
    &&& limiter_cells(be16s_seq(s, ys + 2 * rows + 20, rows * 10))
}

/// `m` is the boost limiter of layout `kind` at `o` in `start .. min(end, len)`.
pub open spec fn limiter_found(s: Seq<u8>, start: int, end: int, m: DetectedMap, o: int, kind: int) -> bool {
    let rows = if kind == 0 { 11int } else if kind == 1 { 10int } else { 16int };
    let ys = if kind == 2 { o + 4 } else { o };
    let total = if kind == 2 { 376int } else { 22 * rows + 20 };
    &&& 0 <= kind <= 2
    &&& start <= o
    &&& o + total <= end
    &&& o + total <= s.len()
    &&& limiter_at(s, o, kind)
    &&& templated_map(m, MapType::BoostLimiter, ys + 2 * rows + 20, rows, 10, ys, ys + 2 * rows, 1000)
}

/// `m` is a boost limiter of `start .. min(end, len)` of one of the three
/// layouts, not at an address of `d`.
pub open spec fn boost_limiter_ok(s: Seq<u8>, start: int, end: int, d: Set<u32>, m: DetectedMap) -> bool {
    &&& !d.contains(m.address)
    &&& exists|o: int, kind: int| #[trigger] limiter_found(s, start, end, m, o, kind)
}

/// The rows of a boost limiter of layout `kind`.
pub open spec fn limiter_rows(kind: int) -> int {
    if kind == 0 {
        11
    } else if kind == 1 {
        10
    } else {
        16
    }
}

/// Where the cells of the boost limiter of layout `kind` at `o` start.
pub open spec fn limiter_ms(o: int, kind: int) -> int {
    (if kind == 2 { o + 4 } else { o }) + 2 * limiter_rows(kind) + 20
}

/// The bytes a boost limiter of layout `kind` needs from `o`.
pub open spec fn limiter_total(kind: int) -> int {
    if kind == 2 {
        376
    } else {
        22 * limiter_rows(kind) + 20
    }
}

/// A boost limiter of layout `kind`, not at an address of `d`, is at the
/// word-aligned position `o` of `start .. min(end, len)`.
pub open spec fn boost_limiter_candidate(s: Seq<u8>, d: Set<u32>, start: int, end: int, kind: int, o: int) -> bool {
    &&& start <= o
    &&& (o - start) % 2 == 0
    &&& o + limiter_total(kind) <= end
    &&& o + limiter_total(kind) <= s.len()
    &&& limiter_at(s, o, kind)
    &&& !d.contains(limiter_ms(o, kind) as u32)
}

/// The boost limiter of layout `kind` at `o` is in `r`, or `o` lies between
/// the start of one of that layout in `r` and the end of its cells.
pub open spec fn limiter_claimed(s: Seq<u8>, r: Seq<DetectedMap>, start: int, kind: int, o: int) -> bool {
    ||| listed(r, limiter_ms(o, kind))
    ||| exists|h: int|
        start <= h < o < limiter_ms(h, kind) + 20 * limiter_rows(kind) && (h - start) % 2 == 0 && #[trigger] limiter_at(
            s,
            h,
            kind,
        ) && listed(r, limiter_ms(h, kind))
}

proof fn lemma_limiter_claims_kept(s: Seq<u8>, a: Seq<DetectedMap>, b: Seq<DetectedMap>, start: int, kind: int)
    requires
        a.len() <= b.len(),
        forall|k: int| 0 <= k < a.len() ==> b[k] == a[k],
    ensures
        forall|o: int| limiter_claimed(s, a, start, kind, o) ==> #[trigger] limiter_claimed(s, b, start, kind, o),
{
    lemma_listed_prefix(a, b);
    assert forall|o: int| limiter_claimed(s, a, start, kind, o) implies #[trigger] limiter_claimed(s, b, start, kind, o) by {
        if !listed(a, limiter_ms(o, kind)) {
            let h = choose|h: int|
                start <= h < o < limiter_ms(h, kind) + 20 * limiter_rows(kind) && (h - start) % 2 == 0 && #[trigger] limiter_at(
                    s,
                    h,
                    kind,
                ) && listed(a, limiter_ms(h, kind));
            assert(listed(b, limiter_ms(h, kind)));
        }
    }
}

/// Whether the axis `v` is linear.
fn is_linear_axis(v: &[u16]) -> (r: bool)
    ensures
        v@.len() >= 3 ==> r == linear_axis(v@),
        v@.len() < 3 ==> !r,
{
    if v.len() < 3 || v[1] <= v[0] {
        return false;
    }
    let d: i32 = v[1] as i32 - v[0] as i32;
    let tol: i32 = if d / 10 > 20 { d / 10 } else { 20 };
    let mut i: usize = 2;
    while i < v.len()
        invariant
            2 <= i <= v@.len(),
            d == v@[1] - v@[0],
            d > 0,
            tol == (if d / 10 > 20 { d / 10 } else { 20 }),
            forall|k: int| 2 <= k < i ==> -tol <= #[trigger] (v@[k] - v@[k - 1]) - d <= tol,
        decreases v.len() - i,
    {
        let delta: i32 = v[i] as i32 - v[i - 1] as i32;
        if delta - d > tol || d - delta > tol {
            return false;
        }
        i += 1;
    }
    true
}

fn is_limiter_at(data: &[u8], o: usize, kind: usize) -> (r: bool)
    requires
        kind <= 2,
        data@.len() + 0x10000 <= usize::MAX,
    ensures
        r == limiter_at(data@, o as int, kind as int),
{
    let rows: usize = if kind == 0 { 11 } else if kind == 1 { 10 } else { 16 };
    if o > data.len() {
        return false;
    }
    let ys = if kind == 2 { o + 4 } else { o };
    if ys > data.len() || data.len() - ys < 22 * rows + 20 {
        return false;
    }
    if kind == 2 {
        let h = data[o] == 0 && data[o + 1] == 0x10 && data[o + 2] == 0 && data[o + 3] == 0x0A;
        proof {
            let p = seq![0x00u8, 0x10, 0x00, 0x0A];
            if h {
                assert forall|k: int| 0 <= k < p.len() implies data@[o + k] == p[k] by {}
            } else {
                if data@[o + 0] != p[0] {
                } else if data@[o + 1] != p[1] {
                } else if data@[o + 2] != p[2] {
                } else {
                    assert(data@[o + 3] != p[3]);
                }
            }
        }
        if !h {
            return false;
        }
    }
    let y = read_words(data, ys, rows);
    let y_ok = if kind == 0 {
        1200 <= y[0] && y[0] <= 2000 && 4000 <= y[10] && y[10] <= 5000 && is_strictly_increasing(y.as_slice())
    } else if kind == 1 {
        650 <= y[0] && y[0] <= 1800 && 4300 <= y[9] && y[9] <= 5100 && is_strictly_increasing(y.as_slice())
            && !is_linear_axis(y.as_slice())
    } else {
        1000 <= y[0] && y[0] <= 2200 && 4000 <= y[15] && y[15] <= 6000 && is_strictly_increasing(y.as_slice())
    };
    if !y_ok {
        return false;
    }
    let x = read_words(data, ys + 2 * rows, 10);
    if x[0] < 550 || x[0] > 750 || x[9] < 950 || x[9] > 1200 || !is_strictly_increasing(x.as_slice()) {
        return false;
    }
    let v = read_signed_words(data, ys + 2 * rows + 20, rows * 10);
    all_in_signed(v.as_slice(), 800, 5000) && any_in_signed(v.as_slice(), 1800, 32767)
}

/// The boost limiters of one layout, appended to `out`; an address in
/// `detected` or already in `out` is passed over.
fn limiter_variant(
    data: &[u8],
    start: usize,
    end: usize,
    kind: usize,
    detected: &HashSet<u32>,
    out: &mut Vec<DetectedMap>,
)
    requires
        data@.len() <= u32::MAX,
        data@.len() + 0x10000 <= usize::MAX,
        kind <= 2,
    ensures
        final(out)@.len() >= old(out)@.len(),
        forall|k: int| 0 <= k < old(out)@.len() ==> final(out)@[k] == old(out)@[k],
        forall|k: int|
            old(out)@.len() <= k < final(out)@.len() ==> boost_limiter_ok(
                data@,
                start as int,
                end as int,
                detected@,
                #[trigger] final(out)@[k],
            ),
        forall|o: int|
            #[trigger] boost_limiter_candidate(data@, detected@, start as int, end as int, kind as int, o)
                ==> limiter_claimed(data@, final(out)@, start as int, kind as int, o),
{
    let ghost s = data@;
    let ghost first = out@;
    let len = data.len();
    let lim = if end < len { end } else { len };
    let rows: usize = if kind == 0 { 11 } else if kind == 1 { 10 } else { 16 };
    let total: usize = if kind == 2 { 376 } else { 22 * rows + 20 };
    let mut o = start;
    while o <= lim && lim - o >= total
        invariant
            s == data@,
            len == s.len(),
            len <= u32::MAX,
            len + 0x10000 <= usize::MAX,
            lim <= len,
            lim <= end,
            start <= o,
            kind <= 2,
            rows == (if kind == 0 { 11usize } else if kind == 1 { 10usize } else { 16usize }),
            total == (if kind == 2 { 376int } else { 22 * rows + 20 }),
            out@.len() >= first.len(),
            forall|k: int| 0 <= k < first.len() ==> out@[k] == first[k],
            forall|k: int|
                first.len() <= k < out@.len() ==> boost_limiter_ok(s, start as int, end as int, detected@, #[trigger] out@[k]),
            (o - start) % 2 == 0,
            forall|q: int|
                q < o && #[trigger] boost_limiter_candidate(s, detected@, start as int, end as int, kind as int, q)
                    ==> limiter_claimed(s, out@, start as int, kind as int, q),
        decreases len - o,
    {
        let ys = if kind == 2 { o + 4 } else { o };
        let ms = ys + 2 * rows + 20;
        if is_limiter_at(data, o, kind) && !detected.contains(&(ms as u32)) && !super::headed::listed_in(
            out.as_slice(),
            ms as u32,
        ) {
            let m = create_detected_map(MapType::BoostLimiter, ms, rows, 10, ys, ys + 2 * rows, 1000);
            assert(limiter_found(s, start as int, end as int, m, o as int, kind as int));
            assert(boost_limiter_ok(s, start as int, end as int, detected@, m));
            let ghost before = out@;
            proof {
                lemma_listed_last(before, m);
                lemma_limiter_claims_kept(s, before, before.push(m), start as int, kind as int);
            }
            out.push(m);
            proof {
                assert(ms == limiter_ms(o as int, kind as int));
                assert(listed(out@, limiter_ms(o as int, kind as int)));
            }
            o = ms + 20 * rows;
            continue;
        }
        o += 2;
    }
}

impl EDC16U31Detector {
    /// The boost target maps: 16 x 10 then 15 x 10, a map found by the first
    /// shape not reported again by the second.
    pub fn detect_boost_target_maps(&self, data: &[u8], start: usize, end: usize, detected: &HashSet<u32>) -> (r: Vec<
        DetectedMap,
    >)
        requires
            data@.len() <= u32::MAX,
            data@.len() + 0x10000 <= usize::MAX,
        ensures
            forall|k: int|
                0 <= k < r@.len() ==> target_ok(data@, start as int, end as int, self.tuned(), detected@, #[trigger] r@[k]),
            forall|o: int, pad: int, rows: int|
                (rows == 16 || rows == 15) && #[trigger] target_candidate(
                    data@,
                    detected@,
                    start as int,
                    end as int,
                    self.tuned(),
                    rows,
                    o,
                    pad,
                ) ==> target_claimed(data@, r@, start as int, rows, o),
    {
        let ghost s = data@;
        let mut maps: Vec<DetectedMap> = Vec::new();
        target_variant(data, start, end, 16, self.tuned_mode, detected, &mut maps);
        let ghost m16 = maps@;
        target_variant(data, start, end, 15, self.tuned_mode, detected, &mut maps);
        proof {
            lemma_target_claims_kept(s, m16, maps@, start as int, 16);
        }
        maps
    }

    /// The boost limiter maps: the 11 x 10 layout, then the 10 x 10 one, then
    /// the 16 x 10 one behind its header, an address found by an earlier
    /// layout not reported again.
    pub fn detect_boost_limiter_maps(&self, data: &[u8], start: usize, end: usize, detected: &HashSet<u32>) -> (r: Vec<
        DetectedMap,
    >)
        requires
            data@.len() <= u32::MAX,
            data@.len() + 0x10000 <= usize::MAX,
        ensures
            forall|k: int| 0 <= k < r@.len() ==> boost_limiter_ok(data@, start as int, end as int, detected@, #[trigger] r@[k]),
            forall|o: int, kind: int|
                0 <= kind <= 2 && #[trigger] boost_limiter_candidate(data@, detected@, start as int, end as int, kind, o)
                    ==> limiter_claimed(data@, r@, start as int, kind, o),
    {
        let ghost s = data@;
        let mut maps: Vec<DetectedMap> = Vec::new();
        limiter_variant(data, start, end, 0, detected, &mut maps);
        let ghost m0 = maps@;
        limiter_variant(data, start, end, 1, detected, &mut maps);
        let ghost m1 = maps@;
        limiter_variant(data, start, end, 2, detected, &mut maps);
        proof {
            lemma_limiter_claims_kept(s, m0, m1, start as int, 0);
            lemma_limiter_claims_kept(s, m0, maps@, start as int, 0);
            lemma_limiter_claims_kept(s, m1, maps@, start as int, 1);
        }
        maps
    }
}

} // verus!
