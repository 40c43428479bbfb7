//! Idle speed maps: the corrections by engine temperature (`[00 r 00 04]`
//! headers, r from 2 to 6) and the single idle speed values.
use vstd::prelude::*;
use std::collections::HashSet;
use crate::bytes::{be16, be16_seq, read_u16, read_words};
use crate::model::{DataType, DetectedMap, MapDimensions, has_text, inside_one, lemma_inside_last, text, FIXED_ONE};
use crate::text::{decimal, numbered};
use crate::words::{all_between, all_in, count_between, count_in};
use super::axes::{idle_rpm_correction_ok, idle_temp_ok, is_valid_idle_rpm_correction_axis, is_valid_idle_temp_axis};
use super::EDC16U31Detector;

verus! {

broadcast use {vstd::std_specs::hash::group_hash_axioms, crate::model::lemma_inside_push};

/// The temperature axis of a correction map with `rows` points.
pub open spec fn idle_x_ok(x: Seq<u16>, rows: int) -> bool {
    &&& 2300 <= x[0] <= 2950
    &&& (rows >= 4 ==> idle_temp_ok(x))
    &&& (rows == 2 ==> 2800 <= x[1] <= 3400 && x[1] > x[0])
}

/// A correction map with its header `[00 rows 00 04]` at `i`.
pub open spec fn idle_table(s: Seq<u8>, i: int) -> bool {
    let rows = s[i + 1] as int;
    let ds = i + 12 + 2 * rows;
    let cells = be16_seq(s, ds, 4 * rows);
    &&& 0x10000 <= i
    &&& i + 100 < s.len()
    &&& s[i] == 0
    &&& 2 <= rows <= 6
    &&& s[i + 2] == 0
    &&& s[i + 3] == 4
    &&& idle_x_ok(be16_seq(s, i + 4, rows), rows)
    &&& idle_rpm_correction_ok(be16_seq(s, i + 4 + 2 * rows, 4))
    &&& all_between(cells, 300, 3000)
    &&& count_between(cells, 700, 1600) >= (4 * rows * 7) / 10
}

/// The correction map of the header at `i`.
pub open spec fn idle_map(s: Seq<u8>, m: DetectedMap, i: int) -> bool {
    let rows = s[i + 1] as int;
    &&& idle_table(s, i)
    &&& m.address == i + 12 + 2 * rows
    &&& m.size == 8 * rows
    &&& m.dimensions == MapDimensions::TwoDimensional { rows: rows as usize, cols: 4 }
    &&& m.confidence == 880
    &&& m.x_axis_address == Some((i + 4) as u32)
    &&& has_text(m.x_label, "Engine temp"@)
    &&& m.x_axis_correction == Some(100_000_000_000i64)
    &&& m.x_axis_offset == Some(-273_150_000_000_000i64)
    &&& m.y_axis_address == Some((i + 4 + 2 * rows) as u32)
    &&& has_text(m.y_label, "rpm"@)
    &&& m.y_axis_correction == Some(FIXED_ONE)
    &&& m.y_axis_offset == Some(0i64)
}

/// The words before an idle speed value at `i`: `03E8 0011`, `0xxx 0000`
/// (0x0100 < xxx < 0x0400), `FFFF 0011`, `0064 0011` or `FFFF 0000`.
pub open spec fn idle_prefix(s: Seq<u8>, i: int) -> bool {
    let p1 = be16(s, i - 2);
    let p2 = be16(s, i - 4);
    ||| (p2 == 0x03E8 && p1 == 0x0011)
    ||| (p1 == 0 && 0x0100 < p2 < 0x0400)
    ||| (p1 == 0x0011 && p2 == 0xFFFF)
    ||| (p1 == 0x0011 && p2 == 0x0064)
    ||| (p1 == 0 && p2 == 0xFFFF)
}

/// A single idle speed value (620 to 850 rpm) at `i`, followed by `01 2C`.
pub open spec fn idle_single(s: Seq<u8>, m: DetectedMap, i: int) -> bool {
    &&& 0x10000 <= i
    &&& i + 8 < s.len()
    &&& i >= 4
    &&& 620 <= be16(s, i) <= 850
    &&& s[i + 2] == 0x01
    &&& s[i + 3] == 0x2C
    &&& idle_prefix(s, i)
    &&& m.address == i
    &&& m.size == 2
    &&& m.dimensions == MapDimensions::OneDimensional { length: 1 }
    &&& m.confidence == 850
}

/// The fields of every idle speed map.
pub open spec fn idle_fields(m: DetectedMap) -> bool {
    &&& m.data_type == DataType::UInt16
    &&& has_text(m.category, "Idle speed RPM"@)
    &&& has_text(m.unit, "rpm"@)
    &&& m.correction_factor == Some(FIXED_ONE)
    &&& m.offset == Some(0i64)
}

/// Number of correction maps (more than one value) among `r`.
pub open spec fn corrections_in(r: Seq<DetectedMap>) -> nat
    decreases r.len(),
{
    if r.len() == 0 {
        0
    } else {
        corrections_in(r.drop_last()) + if r.last().size > 2 {
            1nat
        } else {
            0nat
        }
    }
}

/// Map `k` of `r` is an idle speed map of the image, numbered after the
/// maps of its kind before it, not at an address of `d`.
pub open spec fn idle_entry_ok(s: Seq<u8>, d: Set<u32>, r: Seq<DetectedMap>, k: int) -> bool {
    let before = r.subrange(0, k);
    &&& !d.contains(r[k].address)
    &&& idle_fields(r[k])
    &&& {
        ||| (exists|i: int| #[trigger] idle_map(s, r[k], i)) && has_text(
            r[k].name,
            "Idle speed correction by engine temp "@ + decimal(corrections_in(before) + 1),
        )
        ||| (exists|i: int| #[trigger] idle_single(s, r[k], i)) && has_text(
            r[k].name,
            "Single value idle speed "@ + decimal((k - corrections_in(before) + 1) as nat),
        )
    }
}

/// A single idle speed value (620 to 850 rpm) is at `i`, followed by `01 2C`.
pub open spec fn idle_single_at(s: Seq<u8>, i: int) -> bool {
    &&& 0x10000 <= i
    &&& i + 8 < s.len()
    &&& i >= 4
    &&& 620 <= be16(s, i) <= 850
    &&& s[i + 2] == 0x01
    &&& s[i + 3] == 0x2C
    &&& idle_prefix(s, i)
}

/// Where the cells of the correction map with header `i` start.
pub open spec fn idle_data(s: Seq<u8>, i: int) -> int {
    i + 12 + 2 * (s[i + 1] as int)
}

/// Address `a` lies on an axis of map `m`.
pub open spec fn on_axis(m: DetectedMap, a: int) -> bool {
    ||| m.x_axis_address matches Some(xa) && m.dimensions matches MapDimensions::TwoDimensional { rows, cols: _ }
        && xa <= a < xa + 2 * rows
    ||| m.y_axis_address matches Some(ya) && m.dimensions matches MapDimensions::TwoDimensional { rows: _, cols }
        && ya <= a < ya + 2 * cols
}

/// Address `a` lies inside one of `maps` or on one of their axes.
pub open spec fn idle_taken(maps: Seq<DetectedMap>, a: int) -> bool {
    inside_one(maps, a) || exists|k: int| 0 <= k < maps.len() && on_axis(#[trigger] maps[k], a)
}

/// One of `maps` is the correction map of the header at `i`.
pub open spec fn has_idle_map(s: Seq<u8>, maps: Seq<DetectedMap>, i: int) -> bool {
    exists|k: int| 0 <= k < maps.len() && idle_map(s, #[trigger] maps[k], i)
}

proof fn lemma_idle_grow(s: Seq<u8>, maps: Seq<DetectedMap>, m: DetectedMap)
    ensures
        forall|i: int| has_idle_map(s, maps, i) ==> #[trigger] has_idle_map(s, maps.push(m), i),
        forall|a: int| idle_taken(maps, a) ==> #[trigger] idle_taken(maps.push(m), a),
{
    assert forall|i: int| has_idle_map(s, maps, i) implies #[trigger] has_idle_map(s, maps.push(m), i) by {
        let k = choose|k: int| 0 <= k < maps.len() && idle_map(s, #[trigger] maps[k], i);
        assert(maps.push(m)[k] == maps[k]);
    }
    assert forall|a: int| idle_taken(maps, a) implies #[trigger] idle_taken(maps.push(m), a) by {
        if !inside_one(maps, a) {
            let k = choose|k: int| 0 <= k < maps.len() && on_axis(#[trigger] maps[k], a);
            assert(maps.push(m)[k] == maps[k]);
        }
    }
}

proof fn lemma_corrections_bound(r: Seq<DetectedMap>)
    ensures
        corrections_in(r) <= r.len(),
    decreases r.len(),
{
    if r.len() > 0 {
        lemma_corrections_bound(r.drop_last());
    }
}

proof fn lemma_idle_push(s: Seq<u8>, d: Set<u32>, r: Seq<DetectedMap>, m: DetectedMap)
    requires
        forall|k: int| 0 <= k < r.len() ==> #[trigger] idle_entry_ok(s, d, r, k),
    ensures
        forall|k: int| 0 <= k < r.len() ==> #[trigger] idle_entry_ok(s, d, r.push(m), k),
        corrections_in(r.push(m)) == corrections_in(r) + if m.size > 2 {
            1nat
        } else {
            0nat
        },
        r.push(m).subrange(0, r.len() as int) == r,
{
    assert(r.push(m).drop_last() =~= r);
    assert(r.push(m).subrange(0, r.len() as int) =~= r);
    assert forall|k: int| 0 <= k < r.len() implies #[trigger] idle_entry_ok(s, d, r.push(m), k) by {
        assert(r.push(m).subrange(0, k) =~= r.subrange(0, k));
        assert(r.push(m)[k] == r[k]);
        assert(idle_entry_ok(s, d, r, k));
    }
}

/// Whether the header of a correction map is at `i`.
fn idle_table_at(data: &[u8], i: usize) -> (r: bool)
    requires
        i + 100 < data@.len(),
    ensures
        r == (0x10000 <= i && idle_table(data@, i as int)),
{
    if i < 0x10000 || data[i] != 0 || data[i + 2] != 0 || data[i + 3] != 4 {
        return false;
    }
    let rows = data[i + 1] as usize;
    if rows < 2 || rows > 6 {
        return false;
    }
    let x = read_words(data, i + 4, rows);
    if x[0] < 2300 || x[0] > 2950 {
        return false;
    }
    if rows >= 4 && !is_valid_idle_temp_axis(x.as_slice()) {
        return false;
    }
    if rows == 2 && (x[1] < 2800 || x[1] > 3400 || x[1] <= x[0]) {
        return false;
    }
    let y = read_words(data, i + 4 + 2 * rows, 4);
    if !is_valid_idle_rpm_correction_axis(y.as_slice()) {
        return false;
    }
    let cells = read_words(data, i + 12 + 2 * rows, 4 * rows);
    if !all_in(cells.as_slice(), 300, 3000) {
        return false;
    }
    count_in(cells.as_slice(), 700, 1600) >= (4 * rows * 7) / 10
}

/// Whether `a` falls inside one of `maps` or on one of their axes.
fn taken(maps: &Vec<DetectedMap>, a: usize) -> (r: bool)
    requires
        a <= u32::MAX,
    ensures
        r == idle_taken(maps@, a as int),
{
    let mut k: usize = 0;
    while k < maps.len()
        invariant
            k <= maps@.len(),
            a <= u32::MAX,
            forall|j: int| 0 <= j < k ==> !((#[trigger] maps@[j]).address <= a < maps@[j].address + maps@[j].size),
            forall|j: int| 0 <= j < k ==> !on_axis(#[trigger] maps@[j], a as int),
        decreases maps.len() - k,
    {
        let m = &maps[k];
        let start = m.address as usize;
        if a >= start && a - start < m.size {
            return true;
        }
        match (m.x_axis_address, m.dimensions) {
            (Some(xa), MapDimensions::TwoDimensional { rows, cols: _ }) => {
                if (xa as u128) <= (a as u128) && (a as u128) < (xa as u128) + 2 * (rows as u128) {
                    return true;
                }
            },
            _ => {},
        }
        match (m.y_axis_address, m.dimensions) {
            (Some(ya), MapDimensions::TwoDimensional { rows: _, cols }) => {
                if (ya as u128) <= (a as u128) && (a as u128) < (ya as u128) + 2 * (cols as u128) {
                    return true;
                }
            },
            _ => {},
        }
        k += 1;
    }
    false
}

/// The idle speed maps `r` found in the image `s`, leaving out the addresses of `d`,
/// as the scan states them.
pub open spec fn idle_post(s: Seq<u8>, d: Set<u32>, r: Seq<DetectedMap>) -> bool {
    &&& (forall|k: int| 0 <= k < r.len() ==> #[trigger] idle_entry_ok(s, d, r, k))
    &&& (forall|i: int|
                #[trigger] idle_table(s, i) && !d.contains(idle_data(s, i) as u32) ==> has_idle_map(
                    s,
                    r,
                    i,
                ))
    &&& (forall|i: int|
                #[trigger] idle_single_at(s, i) && !d.contains(i as u32) ==> idle_taken(r, i))
    &&& (forall|j: int, k: int|
                0 <= j < k < r.len() && (#[trigger] r[j]).size <= 2 ==> (#[trigger] r[k]).size <= 2)
}

impl EDC16U31Detector {
    /// The idle speed maps: the corrections by engine temperature, numbered
    /// in order, then the single idle speed values that lie in none of those
    /// maps or their axes, numbered in order; addresses in `detected` are
    /// left out, and every other correction map and single value is
    /// reported.
    pub fn detect_idle_speed_maps(&self, data: &[u8], detected: &HashSet<u32>) -> (r: Vec<DetectedMap>)
        requires
            data@.len() <= u32::MAX,
            data@.len() + 0x10000 <= usize::MAX,
        ensures
            idle_post(data@, detected@, r@),
    {
        let ghost s = data@;
        let ghost d = detected@;
        let len = data.len();
        let mut maps: Vec<DetectedMap> = Vec::new();
        let mut corrections: u64 = 0;
        let mut singles: u64 = 0;
        let hi = if len >= 100 { len - 100 } else { 0 };
        let mut i: usize = 0x10000;
        while i < hi
            invariant
                s == data@,
                d == detected@,
                len == s.len(),
                len <= u32::MAX,
                len + 0x10000 <= usize::MAX,
                hi == 0 || hi + 100 == len,
                0x10000 <= i,
                maps@.len() <= i,
                maps@.len() <= hi,
                corrections == corrections_in(maps@),
                corrections == maps@.len(),
                singles == 0,
                forall|k: int| 0 <= k < maps@.len() ==> #[trigger] idle_entry_ok(s, d, maps@, k),
                forall|k: int| 0 <= k < maps@.len() ==> (#[trigger] maps@[k]).size > 2,
                forall|j: int|
                    #[trigger] idle_table(s, j) && j < i && !d.contains(idle_data(s, j) as u32) ==> has_idle_map(
                        s,
                        maps@,
                        j,
                    ),
            decreases hi - i,
        {
            if idle_table_at(data, i) {
                let rows = data[i + 1] as usize;
                let ds = i + 12 + 2 * rows;
                if !detected.contains(&(ds as u32)) {
                    corrections += 1;
                    let mut m = DetectedMap::new(ds as u32, 8 * rows, MapDimensions::TwoDimensional { rows, cols: 4 }, DataType::UInt16);
                    m.name = Some(numbered("Idle speed correction by engine temp ", corrections));
                    m.category = Some(text("Idle speed RPM"));
                    m.unit = Some(text("rpm"));
                    m.correction_factor = Some(FIXED_ONE);
                    m.offset = Some(0);
                    m.confidence = 880;
                    m.x_axis_address = Some((i + 4) as u32);
                    m.x_label = Some(text("Engine temp"));
                    m.x_axis_correction = Some(100_000_000_000);
                    m.x_axis_offset = Some(-273_150_000_000_000);
                    m.y_axis_address = Some((i + 4 + 2 * rows) as u32);
                    m.y_label = Some(text("rpm"));
                    m.y_axis_correction = Some(FIXED_ONE);
                    m.y_axis_offset = Some(0);
                    assert(idle_map(s, m, i as int));
                    let ghost before = maps@;
                    proof {
                        lemma_idle_push(s, d, before, m);
                        lemma_idle_grow(s, before, m);
                    }
                    maps.push(m);
                    assert(idle_entry_ok(s, d, maps@, before.len() as int));
                    assert(maps@[before.len() as int] == m);
                    assert(has_idle_map(s, maps@, i as int));
                }
            }
            i += 1;
        }
        let base = maps.len();
        let hi2 = if len >= 8 { len - 8 } else { 0 };
        let mut i: usize = 0x10000;
        while i < hi2
            invariant
                s == data@,
                d == detected@,
                len == s.len(),
                len <= u32::MAX,
                hi2 == 0 || hi2 + 8 == len,
                0x10000 <= i,
                base <= len,
                maps@.len() <= base + i,
                corrections == corrections_in(maps@),
                corrections + singles == maps@.len(),
                forall|k: int| 0 <= k < maps@.len() ==> #[trigger] idle_entry_ok(s, d, maps@, k),
                forall|j: int|
                    #[trigger] idle_table(s, j) && !d.contains(idle_data(s, j) as u32) ==> has_idle_map(s, maps@, j),
                forall|j: int| #[trigger] idle_single_at(s, j) && j < i && !d.contains(j as u32) ==> idle_taken(maps@, j),
                base <= maps@.len(),
                forall|k: int| 0 <= k < base ==> (#[trigger] maps@[k]).size > 2,
                forall|k: int| base <= k < maps@.len() ==> (#[trigger] maps@[k]).size == 2,
            decreases hi2 - i,
        {
            let v = read_u16(data, i);
            if 620 <= v && v <= 850 && data[i + 2] == 0x01 && data[i + 3] == 0x2C && i >= 4 {
                let p1 = read_u16(data, i - 2);
                let p2 = read_u16(data, i - 4);
                let pattern = (p2 == 0x03E8 && p1 == 0x0011) || (p1 == 0 && 0x0100 < p2 && p2 < 0x0400) || (p1
                    == 0x0011 && p2 == 0xFFFF) || (p1 == 0x0011 && p2 == 0x0064) || (p1 == 0 && p2 == 0xFFFF);
                if pattern && !detected.contains(&(i as u32)) && !taken(&maps, i) {
                    singles += 1;
                    let mut m = DetectedMap::new(i as u32, 2, MapDimensions::OneDimensional { length: 1 }, DataType::UInt16);
                    m.name = Some(numbered("Single value idle speed ", singles));
                    m.category = Some(text("Idle speed RPM"));
                    m.unit = Some(text("rpm"));
                    m.correction_factor = Some(FIXED_ONE);
                    m.offset = Some(0);
                    m.confidence = 850;
                    assert(idle_single(s, m, i as int));
                    let ghost before = maps@;
                    proof {
                        lemma_idle_push(s, d, before, m);
                        lemma_corrections_bound(before);
                        lemma_idle_grow(s, before, m);
                        lemma_inside_last(before, m);
                    }
                    maps.push(m);
                    assert(idle_entry_ok(s, d, maps@, before.len() as int));
                }
            }
            i += 1;
        }
        maps
    }
}

} // verus!
