//! Fuel correction maps: small tables of correction factors (8192 = 1.0)
//! by a temperature, the ambient pressure or the vehicle speed, and RPM.
use vstd::prelude::*;
use std::collections::HashSet;
use crate::bytes::{be16_seq, read_words};
use crate::model::{DataType, DetectedMap, MapDimensions, has_text, lemma_claimed_grow, table_claimed, text, FIXED_ONE};
use crate::words::{count_between, count_in, is_non_decreasing, lemma_count_bound, non_decreasing, sum_of_words, sum_words};
use super::axes::{count_holds, holds_count};
use super::{EDC16U31Detector, data_section, get_data_section_range};

verus! {

broadcast use vstd::std_specs::hash::group_hash_axioms;

/// The grid sizes of fuel correction maps.
pub open spec fn fuel_grid(rows: int, cols: int) -> bool {
    ||| (rows == 2 && cols == 2)
    ||| (rows == 3 && cols == 3)
    ||| (rows == 3 && cols == 4)
    ||| (rows == 4 && cols == 3)
    ||| (rows == 4 && cols == 4)
    ||| (rows == 5 && cols == 5)
    ||| (rows == 8 && cols == 8)
    ||| (rows == 10 && cols == 10)
}

/// The first axis: mostly rising, and a temperature, an exhaust gas
/// temperature, a pressure or a speed range.
pub open spec fn fuel_y_ok(v: Seq<u16>) -> bool {
    let f = v[0] as int;
    let l = v[v.len() - 1] as int;
    let min_holds = if v.len() <= 3 { 1int } else { (v.len() - 1) * 70 / 100 };
    &&& v.len() > 0
    &&& count_holds(v) >= min_holds
    &&& {
        ||| (2000 <= f <= 5000 && 2500 <= l <= 5500)
        ||| (5000 <= f <= 10000 && 6000 <= l <= 12000)
        ||| (50 <= f <= 800 && 100 <= l <= 1600)
        ||| (f <= 50 && 50 <= l <= 500)
    }
}

/// The RPM axis: never falling, starting at most at 3500 and ending in 1000 to 5500.
pub open spec fn fuel_x_ok(v: Seq<u16>) -> bool {
    &&& v.len() > 0
    &&& non_decreasing(v)
    &&& v[0] <= 3500
    &&& 1000 <= v[v.len() - 1] <= 5500
}

/// The name of a fuel correction map by its shape and first axis value.
pub open spec fn fuel_type_name(y0: int, rows: int, cols: int) -> Seq<char> {
    if ((rows == 2 && cols == 2) || (rows == 8 && cols == 8)) && y0 >= 5000 {
        "Fuel correction by exhaust gas temp EGT"@
    } else if rows == 10 && cols == 10 {
        if y0 < 1000 {
            "Fuel correction by ambient pressure"@
        } else {
            "Fuel correction by fuel temperature"@
        }
    } else if rows == 3 && cols == 3 {
        "Fuel correction by fuel temperature"@
    } else if rows == 5 && cols == 5 {
        if y0 < 1000 {
            "Fuel correction by ambient pressure"@
        } else if y0 >= 3400 {
            "Fuel correction factor by intake air temperature"@
        } else {
            "Fuel correction by oil temperature"@
        }
    } else if (rows == 3 && cols == 4) || (rows == 4 && cols == 3) {
        "Fuel correction factor by intake air temperature"@
    } else if rows == 4 && cols == 4 {
        "Fuel correction factor by engine temp and vehicle speed"@
    } else {
        "Fuel correction"@
    }
}

/// The map is a correction by ambient pressure (its first axis is in mbar).
pub open spec fn by_pressure(y0: int, rows: int, cols: int) -> bool {
    ((rows == 10 && cols == 10) || (rows == 5 && cols == 5)) && y0 < 1000
}

/// A fuel correction table with its header `[00 rows] [00 cols]` at `o`.
pub open spec fn fuel_table(s: Seq<u8>, o: int) -> bool {
    let rows = s[o + 1] as int;
    let cols = s[o + 3] as int;
    let cells = be16_seq(s, o + 4 + 2 * rows + 2 * cols, rows * cols);
    &&& 0 <= o
    &&& o + 8 <= data_section(s.len() as int).1
    &&& s[o] == 0
    &&& s[o + 2] == 0
    &&& fuel_grid(rows, cols)
    &&& o + 4 + 2 * rows + 2 * cols + 2 * rows * cols <= s.len()
    &&& fuel_y_ok(be16_seq(s, o + 4, rows))
    &&& fuel_x_ok(be16_seq(s, o + 4 + 2 * rows, cols))
    &&& count_between(cells, 0, 0) + count_between(cells, 0x1000, 0x4000) >= (rows * cols * 70) / 100
    &&& 0x1800 <= sum_words(cells) / (rows * cols) <= 0x2800
}

/// The map of the table whose header is at `o`.
pub open spec fn fuel_map(s: Seq<u8>, m: DetectedMap, o: int) -> bool {
    let rows = s[o + 1] as int;
    let cols = s[o + 3] as int;
    let y0 = be16_seq(s, o + 4, rows)[0] as int;
    &&& fuel_table(s, o)
    &&& m.address == o + 4 + 2 * rows + 2 * cols
    &&& m.size == 2 * rows * cols
    &&& m.dimensions == MapDimensions::TwoDimensional { rows: rows as usize, cols: cols as usize }
    &&& m.data_type == DataType::UInt16
    &&& has_text(m.name, fuel_type_name(y0, rows, cols))
    &&& has_text(m.category, "Injection system"@)
    &&& has_text(m.unit, "-"@)
    &&& m.correction_factor == Some(122_070_313i64)
    &&& m.offset == Some(0i64)
    &&& m.confidence == 880
    &&& m.y_axis_address == Some((o + 4) as u32)
    &&& (if by_pressure(y0, rows, cols) {
        has_text(m.y_label, "mbar"@) && m.y_axis_correction == Some(FIXED_ONE) && m.y_axis_offset == Some(0i64)
    } else {
        has_text(m.y_label, "Temperature"@) && m.y_axis_correction == Some(100_000_000_000i64) && m.y_axis_offset
            == Some(-273_140_000_000_000i64)
    })
    &&& m.x_axis_address == Some((o + 4 + 2 * rows) as u32)
    &&& has_text(m.x_label, "rpm"@)
    &&& m.x_axis_correction == Some(FIXED_ONE)
    &&& m.x_axis_offset == Some(0i64)
}

/// Where the cells of the table with header `o` start.
pub open spec fn fuel_data(s: Seq<u8>, o: int) -> int {
    o + 4 + 2 * (s[o + 1] as int) + 2 * (s[o + 3] as int)
}

fn fuel_type_text(y0: u16, rows: usize, cols: usize) -> (r: String)
    ensures
        r@ == fuel_type_name(y0 as int, rows as int, cols as int),
{
    if ((rows == 2 && cols == 2) || (rows == 8 && cols == 8)) && y0 >= 5000 {
        text("Fuel correction by exhaust gas temp EGT")
    } else if rows == 10 && cols == 10 {
        if y0 < 1000 {
            text("Fuel correction by ambient pressure")
        } else {
            text("Fuel correction by fuel temperature")
        }
    } else if rows == 3 && cols == 3 {
        text("Fuel correction by fuel temperature")
    } else if rows == 5 && cols == 5 {
        if y0 < 1000 {
            text("Fuel correction by ambient pressure")
        } else if y0 >= 3400 {
            text("Fuel correction factor by intake air temperature")
        } else {
            text("Fuel correction by oil temperature")
        }
    } else if (rows == 3 && cols == 4) || (rows == 4 && cols == 3) {
        text("Fuel correction factor by intake air temperature")
    } else if rows == 4 && cols == 4 {
        text("Fuel correction factor by engine temp and vehicle speed")
    } else {
        text("Fuel correction")
    }
}

/// Whether a fuel correction table's header is at `o`.
fn fuel_table_at(data: &[u8], o: usize, end: usize) -> (r: bool)
    requires
        end == data_section(data@.len() as int).1,
        end <= data@.len(),
    ensures
        r == fuel_table(data@, o as int),
{
    let len = data.len();
    if o > end || end - o < 8 || data[o] != 0 || data[o + 2] != 0 {
        return false;
    }
    let rows = data[o + 1] as usize;
    let cols = data[o + 3] as usize;
    let grid = (rows == 2 && cols == 2) || (rows == 3 && cols == 3) || (rows == 3 && cols == 4) || (rows == 4 && cols
        == 3) || (rows == 4 && cols == 4) || (rows == 5 && cols == 5) || (rows == 8 && cols == 8) || (rows == 10
        && cols == 10);
    if !grid {
        return false;
    }
    assert(rows * cols <= 100) by (nonlinear_arith)
        requires
            rows <= 10,
            cols <= 10,
    ;
    let n = rows * cols;
    assert(2 * n == 2 * rows * cols) by (nonlinear_arith)
        requires
            n == rows * cols,
    ;
    if len - o < 4 + 2 * rows + 2 * cols + 2 * n {
        return false;
    }
    let y = read_words(data, o + 4, rows);
    let min_holds: usize = if rows <= 3 { 1 } else { (rows - 1) * 70 / 100 };
    if holds_count(y.as_slice()) < min_holds {
        return false;
    }
    let f = y[0];
    let l = y[rows - 1];
    let class = (2000 <= f && f <= 5000 && 2500 <= l && l <= 5500) || (5000 <= f && f <= 10000 && 6000 <= l && l
        <= 12000) || (50 <= f && f <= 800 && 100 <= l && l <= 1600) || (f <= 50 && 50 <= l && l <= 500);
    if !class {
        return false;
    }
    let x = read_words(data, o + 4 + 2 * rows, cols);
    if !is_non_decreasing(x.as_slice()) || x[0] > 3500 || x[cols - 1] < 1000 || x[cols - 1] > 5500 {
        return false;
    }
    let cells = read_words(data, o + 4 + 2 * rows + 2 * cols, n);
    proof {
        lemma_count_bound(cells@, 0, 0);
        lemma_count_bound(cells@, 0x1000, 0x4000);
    }
    let valid = count_in(cells.as_slice(), 0, 0) + count_in(cells.as_slice(), 0x1000, 0x4000);
    if valid < (n * 70) / 100 {
        return false;
    }
    let sum = sum_of_words(cells.as_slice());
    let avg = sum / (n as u64);
    0x1800 <= avg && avg <= 0x2800
}

/// The fuel correction tables `r` found in the image `s`, leaving out the addresses of `d`,
/// as the scan states them.
pub open spec fn fuel_post(s: Seq<u8>, d: Set<u32>, r: Seq<DetectedMap>) -> bool {
    &&& (forall|k: int|
                0 <= k < r.len() ==> !d.contains((#[trigger] r[k]).address) && exists|o: int|
                    #[trigger] fuel_map(s, r[k], o))
    &&& (forall|o: int|
                data_section(s.len() as int).0 <= o && (o - data_section(s.len() as int).0) % 2 == 0
                    && #[trigger] fuel_table(s, o) && !d.contains(fuel_data(s, o) as u32)
                    ==> table_claimed(r, o))
    &&& (forall|i: int, j: int| 0 <= i < j < r.len() ==> (#[trigger] r[i]).address < (#[trigger] r[j]).address)
}

impl EDC16U31Detector {
    /// The fuel correction maps of the data section, named by their shape
    /// and first axis; a table found is skipped over as a whole, and
    /// addresses in `detected` are left out. The scan goes word by word from
    /// the start of the data section, so every other table on that alignment
    /// is reported or lies within one reported before it.
    pub fn detect_fuel_correction_maps(&self, data: &[u8], detected: &HashSet<u32>) -> (r: Vec<DetectedMap>)
        requires
            data@.len() <= u32::MAX,
            data@.len() + 0x10000 <= usize::MAX,
        ensures
            fuel_post(data@, detected@, r@),
    {
        let ghost s = data@;
        let ghost d = detected@;
        let len = data.len();
        let mut maps: Vec<DetectedMap> = Vec::new();
        let (scan_start, scan_end) = get_data_section_range(len);
        let mut offset = scan_start;
        while offset < scan_end && scan_end - offset >= 8
            invariant
                s == data@,
                d == detected@,
                len == s.len(),
                len <= u32::MAX,
                len + 0x10000 <= usize::MAX,
                scan_start == data_section(len as int).0,
                scan_end == data_section(len as int).1,
                scan_end <= len,
                offset <= len + 2,
                scan_start <= offset,
                (offset - scan_start) % 2 == 0,
                forall|k: int|
                    0 <= k < maps@.len() ==> !d.contains((#[trigger] maps@[k]).address) && exists|o: int|
                        #[trigger] fuel_map(s, maps@[k], o),
                forall|q: int|
                    scan_start <= q < offset && (q - scan_start) % 2 == 0 && #[trigger] fuel_table(s, q) && !d.contains(
                        fuel_data(s, q) as u32,
                    ) ==> table_claimed(maps@, q),
                forall|i: int, j: int| 0 <= i < j < maps@.len() ==> (#[trigger] maps@[i]).address < (#[trigger] maps@[j]).address,
                forall|k: int| 0 <= k < maps@.len() ==> (#[trigger] maps@[k]).address < offset,
            decreases len + 2 - offset,
        {
            if !fuel_table_at(data, offset, scan_end) {
                offset += 2;
                continue;
            }
            let rows = data[offset + 1] as usize;
            let cols = data[offset + 3] as usize;
            assert(rows * cols <= 100) by (nonlinear_arith)
                requires
                    rows <= 10,
                    cols <= 10,
            ;
            let n = rows * cols;
            let ys = offset + 4;
            let xs = ys + 2 * rows;
            let ds = xs + 2 * cols;
            if detected.contains(&(ds as u32)) {
                offset += 2;
                continue;
            }
            let y0 = read_words(data, ys, 1)[0];
            assert(y0 == be16_seq(s, offset + 4, rows as int)[0]);
            let mut m = DetectedMap::new(ds as u32, 2 * n, MapDimensions::TwoDimensional { rows, cols }, DataType::UInt16);
            m.name = Some(fuel_type_text(y0, rows, cols));
            m.category = Some(text("Injection system"));
            m.unit = Some(text("-"));
            m.correction_factor = Some(122_070_313);
            m.offset = Some(0);
            m.confidence = 880;
            m.y_axis_address = Some(ys as u32);
            if ((rows == 10 && cols == 10) || (rows == 5 && cols == 5)) && y0 < 1000 {
                m.y_label = Some(text("mbar"));
                m.y_axis_correction = Some(FIXED_ONE);
                m.y_axis_offset = Some(0);
            } else {
                m.y_label = Some(text("Temperature"));
                m.y_axis_correction = Some(100_000_000_000);
                m.y_axis_offset = Some(-273_140_000_000_000);
            }
            m.x_axis_address = Some(xs as u32);
            m.x_label = Some(text("rpm"));
            m.x_axis_correction = Some(FIXED_ONE);
            m.x_axis_offset = Some(0);
            assert(2 * n == 2 * rows * cols) by (nonlinear_arith)
                requires
                    n == rows * cols,
            ;
            assert(fuel_map(s, m, offset as int));
            let ghost before = maps@;
            proof {
                lemma_claimed_grow(before, m);
            }
            maps.push(m);
            proof {
                assert(maps@[before.len() as int] == m);
                assert forall|q: int| offset <= q < ds + 2 * n implies table_claimed(maps@, q) by {
                    assert(crate::model::claims(maps@[before.len() as int], q));
                }
                assert forall|i: int, j: int| 0 <= i < j < maps@.len() implies (#[trigger] maps@[i]).address
                    < (#[trigger] maps@[j]).address by {
                    assert(maps@[i] == before[i]);
                    if j < before.len() {
                        assert(maps@[j] == before[j]);
                    }
                }
                assert forall|k: int| 0 <= k < maps@.len() implies (#[trigger] maps@[k]).address < ds + 2 * n by {
                    if k < before.len() {
                        assert(maps@[k] == before[k]);
                    }
                }
            }
            offset = ds + 2 * n;
        }
        maps
    }
}

} // verus!
