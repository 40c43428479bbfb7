//! EGR maps: the desired-air-quantity tables (16 RPM rows by 13 to 16 IQ
//! columns) and the 20-point hysteresis curves.
use vstd::prelude::*;
use std::collections::HashSet;
use crate::bytes::{be16, be16_seq, read_u16, read_words};
use crate::model::{DataType, DetectedMap, MapDimensions, has_text, lemma_listed_last, listed, text, FIXED_ONE};
use crate::text::{decimal, numbered};
use crate::words::{all_between, any_between, all_in, any_in, count_between, count_in, lemma_count_bound};
use super::axes::{daq_iq_ok, daq_rpm_ok, egr_hyst_rpm_ok, is_valid_daq_iq_axis, is_valid_daq_rpm_axis, is_valid_egr_hyst_rpm_axis_strict};
use super::EDC16U31Detector;

verus! {

broadcast use {vstd::std_specs::hash::group_hash_axioms, crate::model::lemma_listed_push};

/// A desired-air-quantity table with its header at `pos`: 16 rows, 13 to 16
/// columns, a valid RPM and IQ axis and no cell above 32767; gives the
/// number of columns.
pub open spec fn daq_table(s: Seq<u8>, pos: int) -> Option<int> {
    if pos < 0 || pos + 4 > s.len() {
        None
    } else {
        let cols = be16(s, pos + 2) as int;
        if be16(s, pos) == 16 && 13 <= cols <= 16 && pos + 36 + 34 * cols <= s.len() && daq_rpm_ok(
            be16_seq(s, pos + 4, 16),
        ) && daq_iq_ok(be16_seq(s, pos + 36, cols)) && all_between(
            be16_seq(s, pos + 36 + 2 * cols, 16 * cols),
            0,
            32767,
        ) {
            Some(cols)
        } else {
            None
        }
    }
}

/// The cells of the table at `pos`.
pub open spec fn daq_cells(s: Seq<u8>, pos: int, cols: int) -> Seq<u16> {
    be16_seq(s, pos + 36 + 2 * cols, 16 * cols)
}

/// The map of the table at `pos` (the RPM axis is shown as X).
pub open spec fn daq_map(m: DetectedMap, pos: int, cols: int) -> bool {
    &&& m.address == pos + 36 + 2 * cols
    &&& m.size == 32 * cols
    &&& m.dimensions == MapDimensions::TwoDimensional { rows: cols as usize, cols: 16 }
    &&& m.data_type == DataType::UInt16
    &&& has_text(m.category, "EGR"@)
    &&& has_text(m.unit, "mg/stroke"@)
    &&& m.correction_factor == Some(100_000_000_000i64)
    &&& m.offset == Some(0i64)
    &&& (m.confidence == 900 || m.confidence == 880)
    &&& m.y_axis_address == Some((pos + 36) as u32)
    &&& has_text(m.y_label, "mg/stroke"@)
    &&& m.y_axis_correction == Some(10_000_000_000i64)
    &&& m.y_axis_offset == Some(0i64)
    &&& m.x_axis_address == Some((pos + 4) as u32)
    &&& has_text(m.x_label, "RPM"@)
    &&& m.x_axis_correction == Some(FIXED_ONE)
    &&& m.x_axis_offset == Some(0i64)
}

/// The end of the calibration zone swept for tables.
pub open spec fn egr_zone_end(len: int) -> int {
    if len < 0x1D0000 {
        len
    } else {
        0x1D0000
    }
}

/// Position `p` lies past the header and inside the extent of a table.
pub open spec fn daq_covered(s: Seq<u8>, p: int) -> bool {
    exists|q: int|
        q < p && match #[trigger] daq_table(s, q) {
            Some(c) => p < q + 36 + 34 * c,
            None => false,
        }
}

/// A table at `p` whose cells reach 1000 and whose address is not in `d`
/// is listed in `r`, unless `p` lies inside another table.
pub open spec fn zone_table_kept(s: Seq<u8>, d: Set<u32>, r: Seq<DetectedMap>, p: int) -> bool {
    match daq_table(s, p) {
        Some(c) => (any_between(daq_cells(s, p, c), 1000, 65535) && !d.contains((p + 36 + 2 * c) as u32)) ==> (
        listed(r, p + 36 + 2 * c) || daq_covered(s, p)),
        None => true,
    }
}

proof fn lemma_zone_kept_grow(s: Seq<u8>, d: Set<u32>, a: Seq<DetectedMap>, b: Seq<DetectedMap>, lo: int, hi: int)
    requires
        forall|x: int| listed(a, x) ==> #[trigger] listed(b, x),
        forall|p: int| lo <= p < hi && (p - 0x180000) % 2 == 0 ==> #[trigger] zone_table_kept(s, d, a, p),
    ensures
        forall|p: int| lo <= p < hi && (p - 0x180000) % 2 == 0 ==> #[trigger] zone_table_kept(s, d, b, p),
{
    assert forall|p: int| lo <= p < hi && (p - 0x180000) % 2 == 0 implies #[trigger] zone_table_kept(s, d, b, p) by {
        assert(zone_table_kept(s, d, a, p));
        match daq_table(s, p) {
            Some(c) => {
                if listed(a, p + 36 + 2 * c) {
                    assert(listed(b, p + 36 + 2 * c));
                }
            },
            None => {},
        }
    }
}

/// Cells of a hysteresis curve that look like EGR values: 0, 0xFFFF or 100 to 25000.
pub open spec fn hyst_valid_count(v: Seq<u16>) -> nat {
    count_between(v, 0, 0) + count_between(v, 65535, 65535) + count_between(v, 100, 25000)
}

/// A hysteresis curve (from 0x180000) with its `[00 14]` header at `h`.
pub open spec fn hyst_candidate(s: Seq<u8>, h: int) -> bool {
    &&& 0x180000 <= h
    &&& h + 100 < s.len()
    &&& s[h] == 0x00
    &&& s[h + 1] == 0x14
    &&& egr_hyst_rpm_ok(be16_seq(s, h + 2, 20))
    &&& hyst_valid_count(be16_seq(s, h + 42, 20)) >= 12
}

/// The end of the hysteresis scan.
pub open spec fn egr_hi(len: int) -> int {
    if len >= 100 {
        len - 100
    } else {
        0
    }
}

/// The headers of hysteresis curves in `lo..up` whose curve address is not
/// in `d`, in increasing order.
pub open spec fn hcands(s: Seq<u8>, d: Set<u32>, lo: int, up: int) -> Seq<usize>
    decreases up - lo,
{
    if up <= lo {
        Seq::empty()
    } else {
        let prev = hcands(s, d, lo, up - 1);
        if hyst_candidate(s, up - 1) && !d.contains((up - 1 + 42) as u32) {
            prev.push((up - 1) as usize)
        } else {
            prev
        }
    }
}

/// The hysteresis curve headers of the image from 0x180000.
pub open spec fn egr_candidates(s: Seq<u8>, d: Set<u32>) -> Seq<usize> {
    hcands(s, d, 0x180000, egr_hi(s.len() as int))
}

/// How many of `c` lie at a distance of 1 to 499 from `h`.
pub open spec fn seq_near(c: Seq<usize>, h: int) -> nat
    decreases c.len(),
{
    if c.len() == 0 {
        0
    } else {
        seq_near(c.drop_last(), h) + if 0 < c.last() - h < 500 || 0 < h - c.last() < 500 {
            1nat
        } else {
            0nat
        }
    }
}

/// A hysteresis curve at `h` is kept: it has two neighbours among `c`, or
/// one of `c` less than 0x8000 after it has.
pub open spec fn hyst_kept(c: Seq<usize>, h: int) -> bool {
    ||| seq_near(c, h) >= 2
    ||| exists|j: int| 0 <= j < c.len() && h < #[trigger] c[j] < h + 0x8000 && seq_near(c, c[j] as int) >= 2
}

/// Two cells of `v` hold the same value, neither 0 nor 0xFFFF.
pub open spec fn has_repeat(v: Seq<u16>) -> bool {
    exists|i: int, j: int|
        0 <= i < j < v.len() && #[trigger] v[i] == #[trigger] v[j] && v[i] != 0 && v[i] != 65535
}

/// A curve of the older layout (0x10000 to 0x180000) with its header at `h`.
pub open spec fn legacy_candidate(s: Seq<u8>, h: int) -> bool {
    let v = be16_seq(s, h + 42, 20);
    let nz = 20 - count_between(v, 0, 0) - count_between(v, 65535, 65535);
    &&& 0x10000 <= h < 0x180000
    &&& h + 100 < s.len()
    &&& s[h] == 0x00
    &&& s[h + 1] == 0x14
    &&& nz >= 5
    &&& count_between(v, 100, 25000) >= (nz * 2) / 5
    &&& (egr_hyst_rpm_ok(be16_seq(s, h + 2, 20)) || has_repeat(v))
}

/// An accepted curve of the older layout: its own RPM axis is valid, or a
/// curve with a valid axis starts 78 to 90 bytes away.
pub open spec fn legacy_accepted(s: Seq<u8>, h: int) -> bool {
    &&& legacy_candidate(s, h)
    &&& (egr_hyst_rpm_ok(be16_seq(s, h + 2, 20)) || exists|h2: int|
        #[trigger] legacy_candidate(s, h2) && egr_hyst_rpm_ok(be16_seq(s, h2 + 2, 20)) && 78 <= (
        if h > h2 {
            h - h2
        } else {
            h2 - h
        }) <= 90)
}

/// The distance between two positions.
pub open spec fn gap(a: int, b: int) -> int {
    if a > b {
        a - b
    } else {
        b - a
    }
}

/// The headers of curves of the older layout in `lo..up` whose curve
/// address is not in `d`, in increasing order.
pub open spec fn lpos(s: Seq<u8>, d: Set<u32>, lo: int, up: int) -> Seq<usize>
    decreases up - lo,
{
    if up <= lo {
        Seq::empty()
    } else {
        let prev = lpos(s, d, lo, up - 1);
        if legacy_candidate(s, up - 1) && !d.contains((up - 1 + 42) as u32) {
            prev.push((up - 1) as usize)
        } else {
            prev
        }
    }
}

/// The curve headers of the older layout of the image.
pub open spec fn legacy_candidates(s: Seq<u8>, d: Set<u32>) -> Seq<usize> {
    let hi = egr_hi(s.len() as int);
    lpos(s, d, 0x10000, if hi < 0x180000 { hi } else { 0x180000 })
}

/// The curve whose header is at `h` has a valid RPM axis of its own.
pub open spec fn lvalid(s: Seq<u8>, h: int) -> bool {
    egr_hyst_rpm_ok(be16_seq(s, h + 2, 20))
}

/// How many of the first `n` of `c`, other than `c[k]`, lie within 500 bytes of it.
pub open spec fn close_count(c: Seq<usize>, k: int, n: int) -> nat
    decreases n,
{
    if n <= 0 {
        0
    } else {
        close_count(c, k, n - 1) + if n - 1 != k && gap(c[n - 1] as int, c[k] as int) <= 500 {
            1nat
        } else {
            0nat
        }
    }
}

/// Curve `k` of `c` has a valid axis, or another of `c` with a valid axis
/// lies 78 to 90 bytes away.
pub open spec fn valid_nearby(s: Seq<u8>, c: Seq<usize>, k: int) -> bool {
    ||| lvalid(s, c[k] as int)
    ||| exists|j: int|
        0 <= j < c.len() && j != k && lvalid(s, #[trigger] c[j] as int) && 78 <= gap(c[k] as int, c[j] as int)
            <= 90
}

/// Curve `k` of `c` is kept: with three or more others within 500 bytes it
/// needs a valid axis near it, else a valid axis of its own.
pub open spec fn legacy_kept(s: Seq<u8>, c: Seq<usize>, k: int) -> bool {
    if close_count(c, k, c.len() as int) >= 3 {
        valid_nearby(s, c, k)
    } else {
        lvalid(s, c[k] as int)
    }
}

/// The map of the curve whose header is at `h`.
pub open spec fn hyst_map(m: DetectedMap, h: int, unit: Seq<char>) -> bool {
    &&& m.address == h + 42
    &&& m.size == 40
    &&& m.dimensions == MapDimensions::OneDimensional { length: 20 }
    &&& m.data_type == DataType::UInt16
    &&& has_text(m.category, "EGR"@)
    &&& has_text(m.unit, unit)
    &&& m.correction_factor == Some(10_000_000_000i64)
    &&& m.offset == Some(0i64)
    &&& m.confidence == 850
    &&& m.x_axis_address == Some((h + 2) as u32)
    &&& has_text(m.x_label, "RPM"@)
    &&& m.x_axis_correction == Some(FIXED_ONE)
    &&& m.x_axis_offset == Some(0i64)
}

/// Number of tables (maps larger than a curve) among `r`.
pub open spec fn daq_in(r: Seq<DetectedMap>) -> nat
    decreases r.len(),
{
    if r.len() == 0 {
        0
    } else {
        daq_in(r.drop_last()) + if r.last().size > 40 {
            1nat
        } else {
            0nat
        }
    }
}

/// Number of curves among `r`.
pub open spec fn hyst_in(r: Seq<DetectedMap>) -> nat
    decreases r.len(),
{
    if r.len() == 0 {
        0
    } else {
        hyst_in(r.drop_last()) + if r.last().size == 40 {
            1nat
        } else {
            0nat
        }
    }
}

/// Map `k` of `r` is a table or a curve of the image, numbered after the
/// maps of its kind before it, and not at an address of `d`.
pub open spec fn egr_entry_ok(s: Seq<u8>, d: Set<u32>, r: Seq<DetectedMap>, k: int) -> bool {
    &&& !d.contains(r[k].address)
    &&& {
        ||| exists|pos: int, cols: int|
            daq_table(s, pos) == Some(cols) && any_between(daq_cells(s, pos, cols), 1000, 65535)
                && #[trigger] daq_map(r[k], pos, cols) && has_text(
                r[k].name,
                "EGR (Desired air quantity) "@ + decimal(daq_in(r.subrange(0, k)) + 1),
            )
        ||| exists|h: int|
            hyst_candidate(s, h) && #[trigger] hyst_map(r[k], h, "%"@) && has_text(
                r[k].name,
                "EGR hysteresis "@ + decimal(hyst_in(r.subrange(0, k)) + 1),
            )
        ||| exists|h: int|
            legacy_accepted(s, h) && #[trigger] hyst_map(r[k], h, "mg/stroke"@) && has_text(
                r[k].name,
                "EGR hysteresis "@ + decimal(hyst_in(r.subrange(0, k)) + 1),
            )
    }
}

/// The invariant of the list being built.
pub open spec fn egr_list_ok(s: Seq<u8>, d: Set<u32>, r: Seq<DetectedMap>, n2d: u64, nh: u64) -> bool {
    &&& forall|k: int| 0 <= k < r.len() ==> #[trigger] egr_entry_ok(s, d, r, k)
    &&& n2d == daq_in(r)
    &&& nh == hyst_in(r)
    &&& n2d + nh <= r.len()
}

proof fn lemma_counts_bound(r: Seq<DetectedMap>)
    ensures
        daq_in(r) + hyst_in(r) <= r.len(),
    decreases r.len(),
{
    if r.len() > 0 {
        lemma_counts_bound(r.drop_last());
    }
}

proof fn lemma_push_entry(s: Seq<u8>, d: Set<u32>, r: Seq<DetectedMap>, m: DetectedMap)
    requires
        forall|k: int| 0 <= k < r.len() ==> #[trigger] egr_entry_ok(s, d, r, k),
    ensures
        forall|k: int| 0 <= k < r.len() ==> #[trigger] egr_entry_ok(s, d, r.push(m), k),
        daq_in(r.push(m)) == daq_in(r) + if m.size > 40 {
            1nat
        } else {
            0nat
        },
        hyst_in(r.push(m)) == hyst_in(r) + if m.size == 40 {
            1nat
        } else {
            0nat
        },
        r.push(m).subrange(0, r.len() as int) == r,
{
    assert(r.push(m).drop_last() =~= r);
    assert(r.push(m).subrange(0, r.len() as int) =~= r);
    assert forall|k: int| 0 <= k < r.len() implies #[trigger] egr_entry_ok(s, d, r.push(m), k) by {
        assert(r.push(m).subrange(0, k) =~= r.subrange(0, k));
        assert(r.push(m)[k] == r[k]);
        assert(egr_entry_ok(s, d, r, k));
    }
}

/// The table whose header is at `pos`: its number of columns, and whether
/// one of its cells reaches 1000.
fn daq_table_at(data: &[u8], pos: usize) -> (r: Option<(usize, bool)>)
    ensures
        match daq_table(data@, pos as int) {
            Some(cols) => r matches Some((c, big)) && c == cols && big == any_between(
                daq_cells(data@, pos as int, cols),
                1000,
                65535,
            ),
            None => r is None,
        },
{
    let len = data.len();
    if pos > len || len - pos < 4 {
        return None;
    }
    let rows = read_u16(data, pos);
    let cols = read_u16(data, pos + 2) as usize;
    if rows != 16 || cols < 13 || cols > 16 || len - pos < 36 + 34 * cols {
        return None;
    }
    let y = read_words(data, pos + 4, 16);
    if !is_valid_daq_rpm_axis(y.as_slice()) {
        return None;
    }
    let x = read_words(data, pos + 36, cols);
    if !is_valid_daq_iq_axis(x.as_slice()) {
        return None;
    }
    let cells = read_words(data, pos + 36 + 2 * cols, 16 * cols);
    if !all_in(cells.as_slice(), 0, 32767) {
        return None;
    }
    let big = any_in(cells.as_slice(), 1000, 65535);
    Some((cols, big))
}

/// Appends the table at `pos` as the next EGR table.
fn push_daq(
    maps: &mut Vec<DetectedMap>,
    n2d: &mut u64,
    nh: u64,
    pos: usize,
    cols: usize,
    confidence: u32,
    Ghost(s): Ghost<Seq<u8>>,
    Ghost(d): Ghost<Set<u32>>,
)
    requires
        egr_list_ok(s, d, old(maps)@, *old(n2d), nh),
        old(maps)@.len() < 0x1_0000_0000_0000,
        daq_table(s, pos as int) == Some(cols as int),
        any_between(daq_cells(s, pos as int, cols as int), 1000, 65535),
        !d.contains((pos + 36 + 2 * cols) as u32),
        pos + 36 + 34 * cols <= s.len() <= u32::MAX,
        confidence == 900 || confidence == 880,
    ensures
        egr_list_ok(s, d, final(maps)@, *final(n2d), nh),
        final(maps)@.len() == old(maps)@.len() + 1,
        final(maps)@.subrange(0, old(maps)@.len() as int) == old(maps)@,
        final(maps)@.last().address == pos + 36 + 2 * cols,
        forall|x: int| listed(old(maps)@, x) ==> #[trigger] listed(final(maps)@, x),
        listed(final(maps)@, pos + 36 + 2 * cols),
{
    let data_start = pos + 36 + 2 * cols;
    *n2d = *n2d + 1;
    let mut map = DetectedMap::new(
        data_start as u32,
        32 * cols,
        MapDimensions::TwoDimensional { rows: cols, cols: 16 },
        DataType::UInt16,
    );
    map.name = Some(numbered("EGR (Desired air quantity) ", *n2d));
    map.category = Some(text("EGR"));
    map.unit = Some(text("mg/stroke"));
    map.correction_factor = Some(100_000_000_000);
    map.offset = Some(0);
    map.confidence = confidence;
    map.y_axis_address = Some((pos + 36) as u32);
    map.y_label = Some(text("mg/stroke"));
    map.y_axis_correction = Some(10_000_000_000);
    map.y_axis_offset = Some(0);
    map.x_axis_address = Some((pos + 4) as u32);
    map.x_label = Some(text("RPM"));
    map.x_axis_correction = Some(FIXED_ONE);
    map.x_axis_offset = Some(0);
    let ghost before = maps@;
    proof {
        lemma_push_entry(s, d, before, map);
        lemma_counts_bound(before.push(map));
        assert(daq_map(map, pos as int, cols as int));
    }
    maps.push(map);
    proof {
        let last = before.len() as int;
        assert(maps@[last] == map);
        assert(egr_entry_ok(s, d, maps@, last));
        lemma_listed_last(before, map);
    }
}

/// Appends the curve whose header is at `h` as the next hysteresis curve.
fn push_hyst(
    maps: &mut Vec<DetectedMap>,
    n2d: u64,
    nh: &mut u64,
    h: usize,
    percent: bool,
    Ghost(s): Ghost<Seq<u8>>,
    Ghost(d): Ghost<Set<u32>>,
)
    requires
        egr_list_ok(s, d, old(maps)@, n2d, *old(nh)),
        old(maps)@.len() < 0x1_0000_0000_0000,
        percent ==> hyst_candidate(s, h as int),
        !percent ==> legacy_accepted(s, h as int),
        !d.contains((h + 42) as u32),
        h + 100 < s.len() <= u32::MAX,
    ensures
        egr_list_ok(s, d, final(maps)@, n2d, *final(nh)),
        final(maps)@.len() == old(maps)@.len() + 1,
        forall|x: int| listed(old(maps)@, x) ==> #[trigger] listed(final(maps)@, x),
        listed(final(maps)@, h + 42),
{
    *nh = *nh + 1;
    let mut map = DetectedMap::new((h + 42) as u32, 40, MapDimensions::OneDimensional { length: 20 }, DataType::UInt16);
    map.name = Some(numbered("EGR hysteresis ", *nh));
    map.category = Some(text("EGR"));
    map.unit = Some(if percent { text("%") } else { text("mg/stroke") });
    map.correction_factor = Some(10_000_000_000);
    map.offset = Some(0);
    map.confidence = 850;
    map.x_axis_address = Some((h + 2) as u32);
    map.x_label = Some(text("RPM"));
    map.x_axis_correction = Some(FIXED_ONE);
    map.x_axis_offset = Some(0);
    let ghost before = maps@;
    proof {
        lemma_push_entry(s, d, before, map);
        lemma_counts_bound(before.push(map));
    }
    maps.push(map);
    proof {
        let last = before.len() as int;
        assert(maps@[last] == map);
        lemma_listed_last(before, map);
        if percent {
            assert(hyst_map(map, h as int, "%"@));
        } else {
            assert(hyst_map(map, h as int, "mg/stroke"@));
        }
        assert(egr_entry_ok(s, d, maps@, last));
    }
}

/// Whether a hysteresis curve (from 0x180000) has its header at `h`.
fn hyst_at(data: &[u8], h: usize) -> (r: bool)
    ensures
        r == hyst_candidate(data@, h as int),
{
    let len = data.len();
    if h < 0x180000 || h >= len || len - h <= 100 {
        return false;
    }
    if data[h] != 0x00 || data[h + 1] != 0x14 {
        return false;
    }
    let x = read_words(data, h + 2, 20);
    if !is_valid_egr_hyst_rpm_axis_strict(x.as_slice()) {
        return false;
    }
    let v = read_words(data, h + 42, 20);
    proof {
        lemma_count_bound(v@, 0, 0);
        lemma_count_bound(v@, 65535, 65535);
        lemma_count_bound(v@, 100, 25000);
    }
    let c = count_in(v.as_slice(), 0, 0) + count_in(v.as_slice(), 65535, 65535) + count_in(v.as_slice(), 100, 25000);
    c >= 12
}

/// Whether two cells of `v` hold the same value, neither 0 nor 0xFFFF.
fn repeats(v: &[u16]) -> (r: bool)
    ensures
        r == has_repeat(v@),
{
    let mut i: usize = 0;
    while i < v.len()
        invariant
            i <= v@.len(),
            forall|a: int, b: int|
                0 <= a < i && a < b < v@.len() ==> !(#[trigger] v@[a] == #[trigger] v@[b] && v@[a] != 0
                    && v@[a] != 65535),
        decreases v.len() - i,
    {
        let mut j: usize = i + 1;
        while j < v.len()
            invariant
                i < v@.len(),
                i + 1 <= j <= v@.len(),
                forall|a: int, b: int|
                    0 <= a < i && a < b < v@.len() ==> !(#[trigger] v@[a] == #[trigger] v@[b] && v@[a]
                        != 0 && v@[a] != 65535),
                forall|b: int| i < b < j ==> !(v@[i as int] == #[trigger] v@[b] && v@[i as int] != 0 && v@[i as int] != 65535),
            decreases v.len() - j,
        {
            if v[i] == v[j] && v[i] != 0 && v[i] != 65535 {
                assert(v@[i as int] == v@[j as int]);
                return true;
            }
            j += 1;
        }
        i += 1;
    }
    false
}

/// For a curve of the older layout with its header at `h`: whether its own
/// RPM axis is valid.
fn legacy_at(data: &[u8], h: usize) -> (r: Option<bool>)
    ensures
        legacy_candidate(data@, h as int) ==> r == Some(egr_hyst_rpm_ok(be16_seq(data@, h + 2, 20))),
        !legacy_candidate(data@, h as int) ==> r is None,
{
    let len = data.len();
    if h < 0x10000 || h >= 0x180000 || h >= len || len - h <= 100 {
        return None;
    }
    if data[h] != 0x00 || data[h + 1] != 0x14 {
        return None;
    }
    let x = read_words(data, h + 2, 20);
    let valid = is_valid_egr_hyst_rpm_axis_strict(x.as_slice());
    let v = read_words(data, h + 42, 20);
    proof {
        lemma_count_bound(v@, 0, 0);
        lemma_count_bound(v@, 65535, 65535);
        assert(count_between(v@, 0, 0) + count_between(v@, 65535, 65535) <= 20) by {
            lemma_zero_ffff_disjoint(v@);
        }
    }
    let zeros = count_in(v.as_slice(), 0, 0);
    let full = count_in(v.as_slice(), 65535, 65535);
    let nz = 20 - zeros - full;
    if nz < 5 {
        return None;
    }
    if count_in(v.as_slice(), 100, 25000) < (nz * 2) / 5 {
        return None;
    }
    if !valid && !repeats(v.as_slice()) {
        return None;
    }
    Some(valid)
}

proof fn lemma_zero_ffff_disjoint(v: Seq<u16>)
    ensures
        count_between(v, 0, 0) + count_between(v, 65535, 65535) <= v.len(),
    decreases v.len(),
{
    if v.len() > 0 {
        lemma_zero_ffff_disjoint(v.drop_last());
    }
}

/// Whether `a` is the address of one of `maps`.
fn listed_address(maps: &Vec<DetectedMap>, a: u32) -> (r: bool)
    ensures
        r == listed(maps@, a as int),
{
    let mut k: usize = 0;
    while k < maps.len()
        invariant
            k <= maps@.len(),
            forall|j: int| 0 <= j < k ==> (#[trigger] maps@[j]).address != a,
        decreases maps.len() - k,
    {
        if maps[k].address == a {
            return true;
        }
        k += 1;
    }
    false
}

/// The distance between two positions.
fn distance(a: usize, b: usize) -> (r: usize)
    ensures
        r == (if a > b { a - b } else { b - a }),
{
    if a > b {
        a - b
    } else {
        b - a
    }
}

/// How many of `hs` lie at a distance of 1 to 499 from `h`.
fn neighbours(hs: &Vec<usize>, h: usize) -> (r: usize)
    ensures
        r == seq_near(hs@, h as int),
{
    let mut c: usize = 0;
    let mut k: usize = 0;
    while k < hs.len()
        invariant
            k <= hs@.len(),
            c <= k,
            c == seq_near(hs@.take(k as int), h as int),
        decreases hs.len() - k,
    {
        assert(hs@.take(k + 1).drop_last() =~= hs@.take(k as int));
        let dd = distance(hs[k], h);
        if dd > 0 && dd < 500 {
            c += 1;
        }
        k += 1;
    }
    assert(hs@.take(k as int) =~= hs@);
    c
}

/// The EGR tables `r` found in the image `s`, leaving out the addresses of `d`,
/// as the scan states them.
pub open spec fn egr_post(s: Seq<u8>, d: Set<u32>, r: Seq<DetectedMap>) -> bool {
    &&& (forall|k: int| 0 <= k < r.len() ==> #[trigger] egr_entry_ok(s, d, r, k))
    &&& (forall|p: int|
                0x180000 <= p && (p - 0x180000) % 2 == 0 && p + 580 <= egr_zone_end(s.len() as int)
                    ==> #[trigger] zone_table_kept(s, d, r, p))
    &&& (forall|j: int|
                0 <= j < egr_candidates(s, d).len() && hyst_kept(
                    egr_candidates(s, d),
                    #[trigger] egr_candidates(s, d)[j] as int,
                ) ==> listed(r, egr_candidates(s, d)[j] + 42))
    &&& (forall|k: int|
                0 <= k < legacy_candidates(s, d).len() && #[trigger] legacy_kept(
                    s,
                    legacy_candidates(s, d),
                    k,
                ) ==> listed(r, legacy_candidates(s, d)[k] + 42))
}

impl EDC16U31Detector {
    /// The EGR maps: the desired-air-quantity tables found before each
    /// hysteresis cluster and by a sweep of the calibration zone, numbered
    /// in order, then the hysteresis curves (clustered ones from 0x180000,
    /// then those of the older layout), numbered in order; addresses in
    /// `detected` are left out.
    pub fn detect_egr_maps(&self, data: &[u8], detected: &HashSet<u32>) -> (r: Vec<DetectedMap>)
        requires
            data@.len() <= u32::MAX,
        ensures
            egr_post(data@, detected@, r@),
    {
        let ghost s = data@;
        let ghost d = detected@;
        let len = data.len();
        let hi = if len >= 100 { len - 100 } else { 0 };
        let mut maps: Vec<DetectedMap> = Vec::new();
        let mut n2d: u64 = 0;
        let mut nh: u64 = 0;
        let mut anchors: Vec<usize> = Vec::new();
        let mut i: usize = 0x180000;
        while i < hi
            invariant
                len == s.len(),
                s == data@,
                hi <= len,
                hi == 0 || hi + 100 == len,
                anchors@.len() <= i,
                anchors@.len() <= len,
                forall|k: int| 0 <= k < anchors@.len() ==> #[trigger] anchors@[k] < i && anchors@[k] < len,
            decreases hi + 80 - i,
        {
            if data[i] == 0x00 && data[i + 1] == 0x14 {
                let x = read_words(data, i + 2, 20);
                if is_valid_egr_hyst_rpm_axis_strict(x.as_slice()) {
                    if anchors.len() == 0 || i - anchors[anchors.len() - 1] > 0x1000 {
                        anchors.push(i);
                    }
                    i += 80;
                    continue;
                }
            }
            i += 2;
        }
        let mut a: usize = 0;
        while a < anchors.len()
            invariant
                len == s.len(),
                s == data@,
                d == detected@,
                len <= u32::MAX,
                anchors@.len() <= len,
                a <= anchors@.len(),
                forall|k: int| 0 <= k < anchors@.len() ==> #[trigger] anchors@[k] < len,
                maps@.len() <= a * 0x9000,
                egr_list_ok(s, d, maps@, n2d, nh),
            decreases anchors.len() - a,
        {
            let anchor = anchors[a];
            let lo = if anchor >= 0x8000 { anchor - 0x8000 } else { 0 };
            let base = maps.len();
            let mut pos = lo;
            while pos < anchor && anchor - pos > 4
                invariant
                    len == s.len(),
                    s == data@,
                    d == detected@,
                    len <= u32::MAX,
                    anchor < len,
                    lo <= pos,
                    anchor <= lo + 0x8000,
                    pos <= anchor + 600,
                    base == a * 0x9000 || base <= a * 0x9000,
                    maps@.len() <= base + (pos - lo),
                    a < anchors@.len(),
                    anchors@.len() <= len,
                    egr_list_ok(s, d, maps@, n2d, nh),
                decreases anchor + 600 - pos,
            {
                match daq_table_at(data, pos) {
                    None => {
                        pos += 2;
                    },
                    Some((cols, big)) => {
                        let data_start = pos + 36 + 2 * cols;
                        let data_end = pos + 36 + 34 * cols;
                        if big && !detected.contains(&(data_start as u32)) {
                            proof {
                                assert(maps@.len() < 0x1_0000_0000_0000) by (nonlinear_arith)
                                    requires
                                        maps@.len() <= base + (pos - lo),
                                        base <= a * 0x9000,
                                        pos - lo <= 0x8000,
                                        a < len,
                                        len <= u32::MAX,
                                ;
                            }
                            push_daq(&mut maps, &mut n2d, nh, pos, cols, 900, Ghost(s), Ghost(d));
                        }
                        pos = data_end;
                    },
                }
            }
            proof {
                assert(maps@.len() <= (a + 1) * 0x9000) by (nonlinear_arith)
                    requires
                        maps@.len() <= base + (pos - lo),
                        base <= a * 0x9000,
                        pos - lo <= 0x8000 + 600,
                ;
            }
            a += 1;
        }
        let zone_end = if len < 0x1D0000 { len } else { 0x1D0000 };
        let zone_base = maps.len();
        let mut pos: usize = 0x180000;
        proof {
            assert(maps@.len() <= 0x9000 * 0x1_0000_0000) by (nonlinear_arith)
                requires
                    maps@.len() <= anchors@.len() * 0x9000,
                    anchors@.len() <= 0x1_0000_0000,
            ;
        }
        while pos <= zone_end && zone_end - pos >= 580
            invariant
                len == s.len(),
                s == data@,
                d == detected@,
                len <= u32::MAX,
                zone_end <= len,
                0x180000 <= pos,
                zone_base <= 0x9000 * 0x1_0000_0000,
                maps@.len() <= zone_base + (pos - 0x180000),
                maps@.len() <= zone_base + len,
                egr_list_ok(s, d, maps@, n2d, nh),
                zone_end == egr_zone_end(len as int),
                (pos - 0x180000) % 2 == 0,
                forall|p: int| 0x180000 <= p < pos && (p - 0x180000) % 2 == 0 ==> #[trigger] zone_table_kept(s, d, maps@, p),
            decreases zone_end - pos,
        {
            match daq_table_at(data, pos) {
                None => {
                    assert(zone_table_kept(s, d, maps@, pos as int));
                    pos += 2;
                },
                Some((cols, big)) => {
                    let data_start = pos + 36 + 2 * cols;
                    let data_end = pos + 36 + 34 * cols;
                    let ghost before = maps@;
                    if big && !detected.contains(&(data_start as u32)) && !listed_address(&maps, data_start as u32) {
                        push_daq(&mut maps, &mut n2d, nh, pos, cols, 880, Ghost(s), Ghost(d));
                    }
                    proof {
                        lemma_zone_kept_grow(s, d, before, maps@, 0x180000, pos as int);
                        assert(zone_table_kept(s, d, maps@, pos as int));
                        assert forall|p: int| 0x180000 <= p < data_end && (p - 0x180000) % 2 == 0 implies #[trigger] zone_table_kept(s, d, maps@, p) by {
                            if p > pos {
                                assert(daq_table(s, pos as int) == Some(cols as int));
                                assert(daq_covered(s, p));
                            }
                        }
                    }
                    pos = data_end;
                },
            }
        }
        assert(forall|p: int|
            0x180000 <= p < zone_end - 579 && (p - 0x180000) % 2 == 0 ==> #[trigger] zone_table_kept(s, d, maps@, p));
        let mut candidates: Vec<usize> = Vec::new();
        let mut i: usize = 0x180000;
        while i < hi
            invariant
                len == s.len(),
                s == data@,
                d == detected@,
                hi <= len,
                hi == 0 || hi + 100 == len,
                candidates@.len() <= i,
                candidates@.len() <= hi,
                forall|k: int| 0 <= k < candidates@.len() ==> hyst_candidate(s, #[trigger] candidates@[k] as int)
                    && !d.contains((candidates@[k] + 42) as u32),
                0x180000 <= i,
                i <= hi || i == 0x180000,
                candidates@ == hcands(s, d, 0x180000, i as int),
            decreases hi - i,
        {
            if hyst_at(data, i) && !detected.contains(&((i + 42) as u32)) {
                candidates.push(i);
            }
            i += 1;
        }
        assert(candidates@ == egr_candidates(s, d));
        let mut k: usize = 0;
        let base_h = maps.len();
        while k < candidates.len()
            invariant
                len == s.len(),
                s == data@,
                d == detected@,
                len <= u32::MAX,
                k <= candidates@.len(),
                candidates@.len() <= len,
                base_h <= 0x9000 * 0x1_0000_0000 + 0x1_0000_0000,
                maps@.len() <= base_h + k,
                forall|j: int| 0 <= j < candidates@.len() ==> hyst_candidate(s, #[trigger] candidates@[j] as int)
                    && !d.contains((candidates@[j] + 42) as u32),
                egr_list_ok(s, d, maps@, n2d, nh),
                forall|p: int|
                    0x180000 <= p < zone_end - 579 && (p - 0x180000) % 2 == 0 ==> #[trigger] zone_table_kept(s, d, maps@, p),
                candidates@ == egr_candidates(s, d),
                forall|j: int|
                    0 <= j < k && hyst_kept(candidates@, #[trigger] candidates@[j] as int) ==> listed(
                        maps@,
                        candidates@[j] + 42,
                    ),
            decreases candidates.len() - k,
        {
            let h = candidates[k];
            let keep = if neighbours(&candidates, h) >= 2 {
                true
            } else {
                let mut found = false;
                let mut j: usize = 0;
                while j < candidates.len()
                    invariant
                        j <= candidates@.len(),
                        h == candidates@[k as int],
                        k < candidates@.len(),
                        found == exists|jj: int|
                            0 <= jj < j && h < #[trigger] candidates@[jj] < h + 0x8000 && seq_near(
                                candidates@,
                                candidates@[jj] as int,
                            ) >= 2,
                    decreases candidates.len() - j,
                {
                    let other = candidates[j];
                    if other > h && other - h < 0x8000 && neighbours(&candidates, other) >= 2 {
                        found = true;
                    }
                    j += 1;
                }
                found
            };
            assert(keep == hyst_kept(candidates@, h as int));
            if keep {
                assert(hyst_candidate(s, candidates@[k as int] as int));
                let ghost before = maps@;
                push_hyst(&mut maps, n2d, &mut nh, h, true, Ghost(s), Ghost(d));
                proof {
                    lemma_zone_kept_grow(s, d, before, maps@, 0x180000, zone_end - 579);
                }
            }
            assert forall|j: int|
                0 <= j < k + 1 && hyst_kept(candidates@, #[trigger] candidates@[j] as int) implies listed(
                    maps@,
                    candidates@[j] + 42,
                ) by {
                if j < k {
                }
            }
            k += 1;
        }
        let legacy_end = if hi < 0x180000 { hi } else { 0x180000 };
        let mut legacy: Vec<(usize, bool)> = Vec::new();
        let mut i: usize = 0x10000;
        while i < legacy_end
            invariant
                len == s.len(),
                s == data@,
                d == detected@,
                legacy_end <= hi,
                hi <= len,
                hi == 0 || hi + 100 == len,
                legacy@.len() <= i,
                legacy@.len() <= legacy_end,
                forall|j: int|
                    0 <= j < legacy@.len() ==> legacy_candidate(s, (#[trigger] legacy@[j]).0 as int)
                        && !d.contains((legacy@[j].0 + 42) as u32) && legacy@[j].1 == egr_hyst_rpm_ok(
                        be16_seq(s, legacy@[j].0 + 2, 20),
                    ),
                0x10000 <= i,
                i <= legacy_end || i == 0x10000,
                legacy@.len() == lpos(s, d, 0x10000, i as int).len(),
                forall|j: int| 0 <= j < legacy@.len() ==> (#[trigger] legacy@[j]).0 == lpos(s, d, 0x10000, i as int)[j],
            decreases legacy_end - i,
        {
            let ghost before = legacy@;
            if !detected.contains(&((i + 42) as u32)) {
                match legacy_at(data, i) {
                    Some(valid) => {
                        legacy.push((i, valid));
                    },
                    None => {},
                }
            }
            proof {
                assert forall|j: int| 0 <= j < legacy@.len() implies (#[trigger] legacy@[j]).0 == lpos(
                    s,
                    d,
                    0x10000,
                    i + 1,
                )[j] by {
                    if j < before.len() {
                        assert(legacy@[j] == before[j]);
                    }
                }
            }
            i += 1;
        }
        assert(legacy_end == (if egr_hi(len as int) < 0x180000 { egr_hi(len as int) } else { 0x180000 }));
        let ghost lc = legacy_candidates(s, d);
        assert(legacy@.len() == lc.len());
        let mut k: usize = 0;
        let base_l = maps.len();
        while k < legacy.len()
            invariant
                len == s.len(),
                s == data@,
                d == detected@,
                len <= u32::MAX,
                k <= legacy@.len(),
                legacy@.len() <= len,
                base_l <= 0x9000 * 0x1_0000_0000 + 0x2_0000_0000,
                maps@.len() <= base_l + k,
                forall|j: int|
                    0 <= j < legacy@.len() ==> legacy_candidate(s, (#[trigger] legacy@[j]).0 as int)
                        && !d.contains((legacy@[j].0 + 42) as u32) && legacy@[j].1 == egr_hyst_rpm_ok(
                        be16_seq(s, legacy@[j].0 + 2, 20),
                    ),
                egr_list_ok(s, d, maps@, n2d, nh),
                forall|p: int|
                    0x180000 <= p < zone_end - 579 && (p - 0x180000) % 2 == 0 ==> #[trigger] zone_table_kept(s, d, maps@, p),
                forall|j: int|
                    0 <= j < egr_candidates(s, d).len() && hyst_kept(
                        egr_candidates(s, d),
                        #[trigger] egr_candidates(s, d)[j] as int,
                    ) ==> listed(maps@, egr_candidates(s, d)[j] + 42),
                lc == legacy_candidates(s, d),
                legacy@.len() == lc.len(),
                forall|j: int| 0 <= j < legacy@.len() ==> (#[trigger] legacy@[j]).0 == lc[j],
                forall|j: int| 0 <= j < k && #[trigger] legacy_kept(s, lc, j) ==> listed(maps@, lc[j] + 42),
            decreases legacy.len() - k,
        {
            let (h, valid) = legacy[k];
            let mut near_valid = valid;
            let mut j: usize = 0;
            while j < legacy.len() && !near_valid
                invariant
                    j <= legacy@.len(),
                    k < legacy@.len(),
                    h == legacy@[k as int].0,
                    near_valid ==> legacy@[k as int].1 || exists|jj: int|
                        0 <= jj < legacy@.len() && #[trigger] legacy@[jj].1 && 78 <= (if h > legacy@[jj].0 {
                            h - legacy@[jj].0
                        } else {
                            legacy@[jj].0 - h
                        }) <= 90,
                    valid == legacy@[k as int].1,
                    !near_valid ==> !valid && forall|jj: int|
                        0 <= jj < j && jj != k ==> !(#[trigger] legacy@[jj].1 && 78 <= gap(h as int, legacy@[jj].0 as int)
                            <= 90),
                decreases legacy.len() - j,
            {
                if j != k && legacy[j].1 {
                    let dist = distance(h, legacy[j].0);
                    if 78 <= dist && dist <= 90 {
                        near_valid = true;
                    }
                }
                j += 1;
            }
            let mut close: usize = 0;
            let mut j: usize = 0;
            while j < legacy.len()
                invariant
                    j <= legacy@.len(),
                    close <= j,
                    k < legacy@.len(),
                    h == legacy@[k as int].0,
                    legacy@.len() == lc.len(),
                    forall|jj: int| 0 <= jj < legacy@.len() ==> (#[trigger] legacy@[jj]).0 == lc[jj],
                    close == close_count(lc, k as int, j as int),
                decreases legacy.len() - j,
            {
                if j != k {
                    let dist = distance(h, legacy[j].0);
                    if dist <= 500 {
                        close += 1;
                    }
                }
                j += 1;
            }
            let accept = if close >= 3 {
                near_valid
            } else {
                valid
            };
            proof {
                assert(legacy@[k as int].0 == lc[k as int]);
                if valid_nearby(s, lc, k as int) && !near_valid {
                    if !lvalid(s, lc[k as int] as int) {
                        let jj = choose|jj: int|
                            0 <= jj < lc.len() && jj != k && lvalid(s, #[trigger] lc[jj] as int) && 78 <= gap(
                                lc[k as int] as int,
                                lc[jj] as int,
                            ) <= 90;
                        assert(legacy@[jj].0 == lc[jj]);
                    }
                }
                assert(accept == legacy_kept(s, lc, k as int));
            }
            if accept {
                proof {
                    if !valid {
                        let jj = choose|jj: int|
                            0 <= jj < legacy@.len() && #[trigger] legacy@[jj].1 && 78 <= (if h > legacy@[jj].0 {
                                h - legacy@[jj].0
                            } else {
                                legacy@[jj].0 - h
                            }) <= 90;
                        assert(legacy_candidate(s, legacy@[jj].0 as int));
                    }
                    assert(legacy_accepted(s, h as int));
                }
                let ghost before = maps@;
                push_hyst(&mut maps, n2d, &mut nh, h, false, Ghost(s), Ghost(d));
                proof {
                    lemma_zone_kept_grow(s, d, before, maps@, 0x180000, zone_end - 579);
                }
            }
            assert forall|j: int| 0 <= j < k + 1 && #[trigger] legacy_kept(s, lc, j) implies listed(maps@, lc[j] + 42) by {
                if j == k {
                    assert(lc[j] == h);
                }
            }
            k += 1;
        }
        maps
    }
}

} // verus!
