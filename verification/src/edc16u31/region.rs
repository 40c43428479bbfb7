//! Maps found by their header and axes alone in the late calibration
//! region: friction torque, fuel correction by engine temperature and
//! speed, the 2 x 2 torque limiter, the 14 x 13 dynamic injection maps,
//! and the VGT duty cycle tables of the turbo region.
use vstd::prelude::*;
use std::collections::HashSet;
use crate::bytes::{be16, be16_seq, read_u16, read_words};
use crate::model::{
    DataType, DetectedMap, MapCategory, MapDimensions, category_name, has_text, lemma_listed_last, listed, text, FIXED_ONE,
};
use crate::words::{all_between, all_in, has_rise, is_non_decreasing, is_strictly_increasing, non_decreasing, some_rise, strictly_increasing};
use super::EDC16U31Detector;

verus! {

broadcast use {vstd::std_specs::hash::group_hash_axioms, crate::model::lemma_listed_push};

/// The header `[rows] [cols]` at `o` announces a table that fits in the image.
pub open spec fn table_fits(s: Seq<u8>, o: int, rows: int, cols: int) -> bool {
    &&& 0 <= o
    &&& o + 4 <= s.len()
    &&& be16(s, o) == rows
    &&& be16(s, o + 2) == cols
    &&& o + 4 + 2 * rows + 2 * cols + 2 * rows * cols <= s.len()
}

/// The axes of the table with header `o`.
pub open spec fn y_of(s: Seq<u8>, o: int, rows: int) -> Seq<u16> {
    be16_seq(s, o + 4, rows)
}

pub open spec fn x_of(s: Seq<u8>, o: int, rows: int, cols: int) -> Seq<u16> {
    be16_seq(s, o + 4 + 2 * rows, cols)
}

/// The fields shared by the tables of the late region.
pub open spec fn late_fields(m: DetectedMap, o: int, rows: int, cols: int) -> bool {
    &&& m.address == o + 4 + 2 * rows + 2 * cols
    &&& m.size == 2 * rows * cols
    &&& m.dimensions == MapDimensions::TwoDimensional { rows: rows as usize, cols: cols as usize }
    &&& m.y_axis_address == Some((o + 4) as u32)
    &&& m.x_axis_address == Some((o + 4 + 2 * rows) as u32)
}

/// A friction torque table (9 x 8) at `o`.
pub open spec fn friction_at(s: Seq<u8>, m: DetectedMap, o: int) -> bool {
    let y = y_of(s, o, 9);
    let x = x_of(s, o, 9, 8);
    &&& table_fits(s, o, 9, 8)
    &&& 600 <= y[0] <= 1200
    &&& 4000 <= y[8] <= 5000
    &&& strictly_increasing(y)
    &&& x[0] >= 2000
    &&& strictly_increasing(x)
    &&& late_fields(m, o, 9, 8)
    &&& m.data_type == DataType::Int16
    &&& has_text(m.name, "Friction torque"@)
    &&& has_text(m.category, category_name(MapCategory::EngineTorqueRequest))
    &&& has_text(m.unit, "Nm"@)
    &&& m.correction_factor == Some(100_000_000_000i64)
    &&& has_text(m.y_label, "rpm"@)
    &&& m.y_axis_correction == Some(FIXED_ONE)
    &&& has_text(m.x_label, "°C"@)
    &&& m.x_axis_correction == Some(100_000_000_000i64)
    &&& m.x_axis_offset == Some(-273_140_000_000_000i64)
    &&& m.confidence == 900
}

/// A fuel correction by engine temperature and speed (3 x 3 or 4 x 4) at `o`.
pub open spec fn fuelcorr_at(s: Seq<u8>, m: DetectedMap, o: int, n: int) -> bool {
    let y = y_of(s, o, n);
    let x = x_of(s, o, n, n);
    &&& (n == 3 || n == 4)
    &&& table_fits(s, o, n, n)
    &&& 3800 <= y[0] <= 4100
    &&& strictly_increasing(y)
    &&& strictly_increasing(x)
    &&& late_fields(m, o, n, n)
    &&& m.data_type == DataType::UInt16
    &&& has_text(m.name, "Fuel correction factor by engine temp and vehicle speed"@)
    &&& has_text(m.category, category_name(MapCategory::InjectionSystem))
    &&& has_text(m.unit, "-"@)
    &&& m.correction_factor == Some(122_070_313i64)
    &&& has_text(m.y_label, "°C"@)
    &&& m.y_axis_correction == Some(100_000_000_000i64)
    &&& m.y_axis_offset == Some(-273_140_000_000_000i64)
    &&& has_text(m.x_label, "km/h"@)
    &&& m.x_axis_correction == Some(10_000_000_000i64)
    &&& m.confidence == 900
}

/// A 2 x 2 torque limiter at `o`.
pub open spec fn torquelim_at(s: Seq<u8>, m: DetectedMap, o: int) -> bool {
    let y = y_of(s, o, 2);
    let x = x_of(s, o, 2, 2);
    &&& table_fits(s, o, 2, 2)
    &&& 200 <= y[0] <= 800
    &&& 8000 <= y[1] <= 12000
    &&& x[0] == 0
    &&& 5000 <= x[1] <= 7000
    &&& late_fields(m, o, 2, 2)
    &&& m.data_type == DataType::Int16
    &&& has_text(m.name, "Torque Limiter"@)
    &&& has_text(m.category, category_name(MapCategory::EngineTorqueLimiters))
    &&& has_text(m.unit, "Nm"@)
    &&& m.correction_factor == Some(100_000_000_000i64)
    &&& has_text(m.y_label, "mbar"@)
    &&& m.y_axis_correction == Some(FIXED_ONE)
    &&& has_text(m.x_label, "rpm"@)
    &&& m.x_axis_correction == Some(FIXED_ONE)
    &&& m.confidence == 900
}

/// A 14 x 13 dynamic injection map at `o`.
pub open spec fn soi1314_at(s: Seq<u8>, m: DetectedMap, o: int) -> bool {
    let y = y_of(s, o, 14);
    let x = x_of(s, o, 14, 13);
    &&& table_fits(s, o, 14, 13)
    &&& y[0] <= 1400
    &&& 2800 <= y[13] <= 6000
    &&& strictly_increasing(y)
    &&& x[0] <= 700
    &&& 2500 <= x[12] <= 5500
    &&& non_decreasing(x)
    &&& late_fields(m, o, 14, 13)
    &&& m.data_type == DataType::Int16
    &&& has_text(m.name, "Start of injection (Dynamic)"@)
    &&& has_text(m.category, category_name(MapCategory::StartOfInjection))
    &&& has_text(m.unit, "deg CrS"@)
    &&& m.correction_factor == Some(23_437_000_000i64)
    &&& has_text(m.y_label, "rpm"@)
    &&& m.y_axis_correction == Some(FIXED_ONE)
    &&& m.y_axis_inverted == Some(true)
    &&& has_text(m.x_label, "mg/stroke"@)
    &&& m.x_axis_correction == Some(10_000_000_000i64)
    &&& m.confidence == 880
}

/// Map `m` is one of the late-region tables, with its header from 0x1C8000
/// to 0x1E0000, not at an address of `d`.
pub open spec fn late_ok(s: Seq<u8>, d: Set<u32>, m: DetectedMap) -> bool {
    &&& !d.contains(m.address)
    &&& exists|o: int|
        #![trigger late_fields(m, o, 9, 8)]
        #![trigger late_fields(m, o, 3, 3)]
        #![trigger late_fields(m, o, 4, 4)]
        #![trigger late_fields(m, o, 2, 2)]
        #![trigger late_fields(m, o, 14, 13)]
        0x1C8000 <= o && o + 4 < 0x1E0000 && (friction_at(s, m, o) || fuelcorr_at(s, m, o, 3) || fuelcorr_at(s, m, o, 4)
            || torquelim_at(s, m, o) || soi1314_at(s, m, o))
}

/// An engine-speed axis of the turbo region: from 400 ..= 1400 rpm up to
/// 2800 ..= 6000 rpm, strictly increasing.
pub open spec fn turbo_rpm_axis(y: Seq<u16>) -> bool {
    &&& y.len() >= 10
    &&& 400 <= y[0] <= 1400
    &&& 2800 <= y[y.len() - 1] <= 6000
    &&& strictly_increasing(y)
}

/// An injection-quantity axis of the turbo region: from at most 7 mg up to
/// 25 ..= 60 mg, never decreasing and not flat.
pub open spec fn turbo_iq_axis(x: Seq<u16>) -> bool {
    &&& x.len() >= 10
    &&& x[0] <= 700
    &&& 2500 <= x[x.len() - 1] <= 6000
    &&& non_decreasing(x)
    &&& some_rise(x)
}

/// A VGT duty cycle table (`rows` x 10, with 12 or 14 rows) at `o`, whose
/// cells are all at most 40000.
pub open spec fn vgt_at(s: Seq<u8>, m: DetectedMap, o: int, rows: int) -> bool {
    &&& (rows == 12 || rows == 14)
    &&& table_fits(s, o, rows, 10)
    &&& turbo_rpm_axis(y_of(s, o, rows))
    &&& turbo_iq_axis(x_of(s, o, rows, 10))
    &&& all_between(be16_seq(s, o + 4 + 2 * rows + 20, rows * 10), 0, 40000)
    &&& late_fields(m, o, rows, 10)
    &&& m.data_type == DataType::Int16
    &&& has_text(m.name, "N75 Duty Cycle"@)
    &&& has_text(m.category, category_name(MapCategory::TurboBoostPressureControl))
    &&& has_text(m.unit, "%"@)
    &&& m.correction_factor == Some(12_207_000_000i64)
    &&& has_text(m.y_label, "rpm"@)
    &&& m.y_axis_correction == Some(FIXED_ONE)
    &&& has_text(m.x_label, "mg/stroke"@)
    &&& m.x_axis_correction == Some(10_000_000_000i64)
    &&& m.confidence == 900
}

/// Map `m` is a VGT duty cycle table with its header from 0x1D8000 to
/// 0x1E8000, not at an address of `d`.
pub open spec fn turbo_ok(s: Seq<u8>, d: Set<u32>, m: DetectedMap) -> bool {
    &&& !d.contains(m.address)
    &&& exists|o: int|
        #![trigger late_fields(m, o, 12, 10)]
        #![trigger late_fields(m, o, 14, 10)]
        0x1D8000 <= o && o + 4 < 0x1E8000 && (vgt_at(s, m, o, 12) || vgt_at(s, m, o, 14))
}

/// Where the cells of the table with header `o` start and end.
pub open spec fn region_data(s: Seq<u8>, o: int) -> int {
    o + 4 + 2 * (be16(s, o) as int) + 2 * (be16(s, o + 2) as int)
}

pub open spec fn region_end(s: Seq<u8>, o: int) -> int {
    region_data(s, o) + 2 * (be16(s, o) as int) * (be16(s, o + 2) as int)
}

/// A late-region table (friction torque, fuel correction by engine
/// temperature and speed, 2 x 2 torque limiter or 14 x 13 dynamic injection
/// map) has its header and axes at `o`.
pub open spec fn late_table(s: Seq<u8>, o: int) -> bool {
    let rows = be16(s, o) as int;
    let cols = be16(s, o + 2) as int;
    let y = y_of(s, o, rows);
    let x = x_of(s, o, rows, cols);
    &&& table_fits(s, o, rows, cols)
    &&& {
        ||| rows == 9 && cols == 8 && 600 <= y[0] <= 1200 && 4000 <= y[8] <= 5000 && strictly_increasing(y) && x[0]
            >= 2000 && strictly_increasing(x)
        ||| (rows == 3 || rows == 4) && cols == rows && 3800 <= y[0] <= 4100 && strictly_increasing(y)
            && strictly_increasing(x)
        ||| rows == 2 && cols == 2 && 200 <= y[0] <= 800 && 8000 <= y[1] <= 12000 && x[0] == 0 && 5000 <= x[1] <= 7000
        ||| rows == 14 && cols == 13 && y[0] <= 1400 && 2800 <= y[13] <= 6000 && strictly_increasing(y) && x[0] <= 700
            && 2500 <= x[12] <= 5500 && non_decreasing(x)
    }
}

/// Position `o` lies inside the axes and cells of a late-region table found
/// before it.
pub open spec fn late_inside(s: Seq<u8>, o: int) -> bool {
    exists|h: int|
        0x1C8000 <= h < o < region_end(s, h) && (h - 0x1C8000) % 2 == 0 && #[trigger] late_table(s, h)
}

/// The axes of an inverse driver's wish table of the turbo region.
pub open spec fn inverse_dw_axes(y: Seq<u16>, x: Seq<u16>, rows: int, cols: int) -> bool {
    &&& y[0] == 0
    &&& 4000 <= y[rows - 1] <= 6000
    &&& strictly_increasing(y)
    &&& cols == 16
    &&& (rows == 12 || rows == 16)
    &&& x[0] == 0
    &&& 1500 <= x[cols - 1] <= 3800
    &&& strictly_increasing(x)
}

/// A table of the turbo region (a VGT duty cycle table or an inverse
/// driver's wish, of 10 ..= 16 rows and columns but 14 x 13, cells at most
/// 40000) has its header at `o`.
pub open spec fn turbo_table(s: Seq<u8>, o: int) -> bool {
    let rows = be16(s, o) as int;
    let cols = be16(s, o + 2) as int;
    let y = y_of(s, o, rows);
    let x = x_of(s, o, rows, cols);
    &&& 10 <= rows <= 16
    &&& 10 <= cols <= 16
    &&& !(rows == 14 && cols == 13)
    &&& table_fits(s, o, rows, cols)
    &&& (inverse_dw_axes(y, x, rows, cols) || (turbo_rpm_axis(y) && turbo_iq_axis(x)))
    &&& all_between(be16_seq(s, region_data(s, o), rows * cols), 0, 40000)
}

/// A VGT duty cycle table of 12 or 14 rows and 10 columns has its header
/// at `o`.
pub open spec fn vgt_table(s: Seq<u8>, o: int) -> bool {
    let rows = be16(s, o) as int;
    &&& (rows == 12 || rows == 14)
    &&& be16(s, o + 2) == 10
    &&& turbo_table(s, o)
    &&& turbo_rpm_axis(y_of(s, o, rows))
    &&& turbo_iq_axis(x_of(s, o, rows, 10))
}

/// Position `o` lies inside the axes and cells of a turbo-region table
/// found before it.
pub open spec fn turbo_inside(s: Seq<u8>, o: int) -> bool {
    exists|h: int|
        0x1D8000 <= h < o < region_end(s, h) && (h - 0x1D8000) % 2 == 0 && #[trigger] turbo_table(s, h)
}

fn late_map(o: usize, rows: usize, cols: usize) -> (m: DetectedMap)
    requires
        o + 4 + 2 * rows + 2 * cols + 2 * rows * cols <= u32::MAX,
        rows <= 16,
        cols <= 16,
    ensures
        late_fields(m, o as int, rows as int, cols as int),
        m.data_type == DataType::Int16,
        m.confidence == 900,
        m.name is None,
        m.category is None,
        m.unit is None,
        m.correction_factor is None,
        m.offset is None,
        m.y_label is None,
        m.x_label is None,
        m.y_axis_correction is None,
        m.x_axis_correction is None,
        m.y_axis_offset is None,
        m.x_axis_offset is None,
        (m.y_axis_inverted is None),
{
    assert(rows * cols <= 256) by (nonlinear_arith)
        requires
            rows <= 16,
            cols <= 16,
    ;
    let n = rows * cols;
    assert(2 * n == 2 * rows * cols) by (nonlinear_arith)
        requires
            n == rows * cols,
    ;
    let ys = o + 4;
    let xs = ys + 2 * rows;
    let ds = xs + 2 * cols;
    let mut m = DetectedMap::new(ds as u32, 2 * n, MapDimensions::TwoDimensional { rows, cols }, DataType::Int16);
    m.confidence = 900;
    m.y_axis_address = Some(ys as u32);
    m.x_axis_address = Some(xs as u32);
    m
}

/// The late-region tables `r` found in the image `s`, leaving out the addresses of `d`,
/// as the scan states them.
pub open spec fn region_post(s: Seq<u8>, d: Set<u32>, r: Seq<DetectedMap>) -> bool {
    &&& (forall|k: int| 0 <= k < r.len() ==> late_ok(s, d, #[trigger] r[k]))
    &&& (forall|o: int|
                0x1C8000 <= o && (o - 0x1C8000) % 2 == 0 && o + 4 < 0x1E0000 && #[trigger] late_table(s, o)
                    && !d.contains(region_data(s, o) as u32) ==> listed(r, region_data(s, o))
                    || late_inside(s, o))
    &&& (forall|i: int, j: int| 0 <= i < j < r.len() ==> (#[trigger] r[i]).address < (#[trigger] r[j]).address)
}

/// The turbo region tables `r` found in the image `s`, leaving out the addresses of `d`,
/// as the scan states them.
pub open spec fn turbo_post(s: Seq<u8>, d: Set<u32>, r: Seq<DetectedMap>) -> bool {
    &&& (forall|k: int| 0 <= k < r.len() ==> turbo_ok(s, d, #[trigger] r[k]))
    &&& (forall|o: int|
                0x1D8000 <= o && (o - 0x1D8000) % 2 == 0 && o + 4 < 0x1E8000 && #[trigger] vgt_table(s, o)
                    && !d.contains(region_data(s, o) as u32) ==> listed(r, region_data(s, o))
                    || turbo_inside(s, o))
    &&& (forall|i: int, j: int| 0 <= i < j < r.len() ==> (#[trigger] r[i]).address < (#[trigger] r[j]).address)
}

impl EDC16U31Detector {
    /// The late-region tables with their header from 0x1C8000: friction
    /// torque (9 x 8), fuel correction by engine temperature and speed (3 x 3
    /// or 4 x 4), the 2 x 2 torque limiter and the 14 x 13 dynamic injection
    /// maps, each recognised by its axes; a table found is skipped over as a
    /// whole, and addresses in `detected` are left out.
    pub fn detect_region1d_header_maps(&self, data: &[u8], detected: &HashSet<u32>) -> (r: Vec<DetectedMap>)
        requires
            data@.len() <= u32::MAX,
            data@.len() + 0x10000 <= usize::MAX,
        ensures
            region_post(data@, detected@, r@),
    {
        let ghost s = data@;
        let ghost d = detected@;
        let len = data.len();
        let lim = if len < 0x1E0000 { len } else { 0x1E0000 };
        let mut maps: Vec<DetectedMap> = Vec::new();
        let mut pos: usize = 0x1C8000;
        while pos < lim && lim - pos > 4
            invariant
                s == data@,
                d == detected@,
                len == s.len(),
                len <= u32::MAX,
                len + 0x10000 <= usize::MAX,
                lim <= len,
                lim <= 0x1E0000,
                0x1C8000 <= pos,
                pos <= len + 0x1C8000,
                forall|k: int| 0 <= k < maps@.len() ==> late_ok(s, d, #[trigger] maps@[k]),
                forall|i: int, j: int| 0 <= i < j < maps@.len() ==> (#[trigger] maps@[i]).address < (#[trigger] maps@[j]).address,
                forall|k: int| 0 <= k < maps@.len() ==> (#[trigger] maps@[k]).address < pos,
                (pos - 0x1C8000) % 2 == 0,
                forall|q: int|
                    0x1C8000 <= q < pos && (q - 0x1C8000) % 2 == 0 && #[trigger] late_table(s, q) && !d.contains(
                        region_data(s, q) as u32,
                    ) ==> listed(maps@, region_data(s, q)) || late_inside(s, q),
            decreases len + 0x1C8000 - pos,
        {
            let rows = read_u16(data, pos) as usize;
            let cols = read_u16(data, pos + 2) as usize;
            let kind: u8 = if rows == 9 && cols == 8 {
                1
            } else if (rows == 3 && cols == 3) || (rows == 4 && cols == 4) {
                2
            } else if rows == 2 && cols == 2 {
                3
            } else if rows == 14 && cols == 13 {
                4
            } else {
                0
            };
            if kind == 0 {
                pos += 2;
                continue;
            }
            assert(rows * cols <= 256) by (nonlinear_arith)
                requires
                    rows <= 16,
                    cols <= 16,
            ;
            let n = rows * cols;
            assert(2 * n == 2 * rows * cols) by (nonlinear_arith)
                requires
                    n == rows * cols,
            ;
            let ys = pos + 4;
            let xs = ys + 2 * rows;
            let ds = xs + 2 * cols;
            if ds > len || len - ds < 2 * n {
                pos += 2;
                continue;
            }
            let data_end = ds + 2 * n;
            let y = read_words(data, ys, rows);
            let x = read_words(data, xs, cols);
            assert(y@ == y_of(s, pos as int, rows as int));
            assert(x@ == x_of(s, pos as int, rows as int, cols as int));
            let mut m = late_map(pos, rows, cols);
            if kind == 1 {
                if y[0] < 600 || y[0] > 1200 || y[8] < 4000 || y[8] > 5000 || !is_strictly_increasing(y.as_slice())
                    || x[0] < 2000 || !is_strictly_increasing(x.as_slice()) {
                    pos += 2;
                    continue;
                }
                m.name = Some(text("Friction torque"));
                m.category = Some(MapCategory::EngineTorqueRequest.display_name());
                m.unit = Some(text("Nm"));
                m.correction_factor = Some(100_000_000_000);
                m.y_label = Some(text("rpm"));
                m.y_axis_correction = Some(FIXED_ONE);
                m.x_label = Some(text("°C"));
                m.x_axis_correction = Some(100_000_000_000);
                m.x_axis_offset = Some(-273_140_000_000_000);
                assert(friction_at(s, m, pos as int));
            } else if kind == 2 {
                if y[0] < 3800 || y[0] > 4100 || !is_strictly_increasing(y.as_slice()) || !is_strictly_increasing(
                    x.as_slice(),
                ) {
                    pos += 2;
                    continue;
                }
                m.data_type = DataType::UInt16;
                m.name = Some(text("Fuel correction factor by engine temp and vehicle speed"));
                m.category = Some(MapCategory::InjectionSystem.display_name());
                m.unit = Some(text("-"));
                m.correction_factor = Some(122_070_313);
                m.y_label = Some(text("°C"));
                m.y_axis_correction = Some(100_000_000_000);
                m.y_axis_offset = Some(-273_140_000_000_000);
                m.x_label = Some(text("km/h"));
                m.x_axis_correction = Some(10_000_000_000);
                assert(fuelcorr_at(s, m, pos as int, rows as int));
            } else if kind == 3 {
                if y[0] < 200 || y[0] > 800 || y[1] < 8000 || y[1] > 12000 || x[0] != 0 || x[1] < 5000 || x[1] > 7000 {
                    pos += 2;
                    continue;
                }
                m.name = Some(text("Torque Limiter"));
                m.category = Some(MapCategory::EngineTorqueLimiters.display_name());
                m.unit = Some(text("Nm"));
                m.correction_factor = Some(100_000_000_000);
                m.y_label = Some(text("mbar"));
                m.y_axis_correction = Some(FIXED_ONE);
                m.x_label = Some(text("rpm"));
                m.x_axis_correction = Some(FIXED_ONE);
                assert(torquelim_at(s, m, pos as int));
            } else {
                if y[0] > 1400 || y[13] < 2800 || y[13] > 6000 || !is_strictly_increasing(y.as_slice()) || x[0] > 700
                    || x[12] < 2500 || x[12] > 5500 || !is_non_decreasing(x.as_slice()) {
                    pos += 2;
                    continue;
                }
                m.name = Some(text("Start of injection (Dynamic)"));
                m.category = Some(MapCategory::StartOfInjection.display_name());
                m.unit = Some(text("deg CrS"));
                m.correction_factor = Some(23_437_000_000);
                m.confidence = 880;
                m.y_label = Some(text("rpm"));
                m.y_axis_correction = Some(FIXED_ONE);
                m.y_axis_inverted = Some(true);
                m.x_label = Some(text("mg/stroke"));
                m.x_axis_correction = Some(10_000_000_000);
                assert(soi1314_at(s, m, pos as int));
            }
            proof {
                assert(late_table(s, pos as int));
                assert(ds == region_data(s, pos as int));
                assert(data_end == region_end(s, pos as int));
                assert(data_end - pos == 2 * (2 + rows + cols + rows * cols)) by (nonlinear_arith)
                    requires
                        data_end == pos + 4 + 2 * rows + 2 * cols + 2 * n,
                        n == rows * cols,
                ;
            }
            if !detected.contains(&(ds as u32)) {
                assert(late_ok(s, d, m));
                proof {
                    lemma_listed_last(maps@, m);
                }
                maps.push(m);
            }
            pos = data_end;
        }
        maps
    }

    /// The VGT duty cycle tables of the turbo region, headers from 0x1D8000:
    /// a header of 10 ..= 16 rows and columns (14 x 13 left to the dynamic
    /// injection maps) whose axes are an engine-speed axis over an injection
    /// quantity axis, or the inverse driver's wish (an engine-speed axis from
    /// 0 over a torque axis, 16 columns, 12 or 16 rows), and whose cells are
    /// at most 40000, is a table of the region and is skipped over as a whole;
    /// of those, the tables of 10 columns and 12 or 14 rows on an injection
    /// quantity axis are reported, unless their address is in `detected`.
    pub fn detect_turbo_region_maps(&self, data: &[u8], detected: &HashSet<u32>) -> (r: Vec<DetectedMap>)
        requires
            data@.len() <= u32::MAX,
            data@.len() + 0x10000 <= usize::MAX,
        ensures
            turbo_post(data@, detected@, r@),
    {
        let ghost s = data@;
        let ghost d = detected@;
        let len = data.len();
        let lim = if len < 0x1E8000 { len } else { 0x1E8000 };
        let mut maps: Vec<DetectedMap> = Vec::new();
        let mut pos: usize = 0x1D8000;
        while pos < lim && lim - pos > 4
            invariant
                s == data@,
                d == detected@,
                len == s.len(),
                len <= u32::MAX,
                len + 0x10000 <= usize::MAX,
                lim <= len,
                lim <= 0x1E8000,
                0x1D8000 <= pos,
                pos <= len + 0x1D8000,
                forall|k: int| 0 <= k < maps@.len() ==> turbo_ok(s, d, #[trigger] maps@[k]),
                forall|i: int, j: int| 0 <= i < j < maps@.len() ==> (#[trigger] maps@[i]).address < (#[trigger] maps@[j]).address,
                forall|k: int| 0 <= k < maps@.len() ==> (#[trigger] maps@[k]).address < pos,
                (pos - 0x1D8000) % 2 == 0,
                forall|q: int|
                    0x1D8000 <= q < pos && (q - 0x1D8000) % 2 == 0 && #[trigger] vgt_table(s, q) && !d.contains(
                        region_data(s, q) as u32,
                    ) ==> listed(maps@, region_data(s, q)) || turbo_inside(s, q),
            decreases len + 0x1D8000 - pos,
        {
            let rows = read_u16(data, pos) as usize;
            let cols = read_u16(data, pos + 2) as usize;
            if rows < 10 || rows > 16 || cols < 10 || cols > 16 || (rows == 14 && cols == 13) {
                pos += 2;
                continue;
            }
            assert(rows * cols <= 256) by (nonlinear_arith)
                requires
                    rows <= 16,
                    cols <= 16,
            ;
            let n = rows * cols;
            assert(2 * n == 2 * rows * cols) by (nonlinear_arith)
                requires
                    n == rows * cols,
            ;
            let ys = pos + 4;
            let xs = ys + 2 * rows;
            let ds = xs + 2 * cols;
            if ds > len || len - ds < 2 * n {
                pos += 2;
                continue;
            }
            let data_end = ds + 2 * n;
            let y = read_words(data, ys, rows);
            let x = read_words(data, xs, cols);
            assert(y@ == y_of(s, pos as int, rows as int));
            assert(x@ == x_of(s, pos as int, rows as int, cols as int));
            let y_inc = is_strictly_increasing(y.as_slice());
            let last_y = y[rows - 1];
            let last_x = x[cols - 1];
            let is_inv_dw = y[0] == 0 && 4000 <= last_y && last_y <= 6000 && y_inc && cols == 16 && (rows == 12
                || rows == 16) && x[0] == 0 && 1500 <= last_x && last_x <= 3800 && is_strictly_increasing(
                x.as_slice(),
            );
            let is_turbo = 400 <= y[0] && y[0] <= 1400 && 2800 <= last_y && last_y <= 6000 && y_inc && x[0] <= 700
                && 2500 <= last_x && last_x <= 6000 && is_non_decreasing(x.as_slice()) && has_rise(x.as_slice());
            if !(is_inv_dw || is_turbo) {
                pos += 2;
                continue;
            }
            let cells = read_words(data, ds, n);
            if !all_in(cells.as_slice(), 0, 40000) {
                pos += 2;
                continue;
            }
            proof {
                assert(turbo_table(s, pos as int));
                assert(ds == region_data(s, pos as int));
                assert(data_end == region_end(s, pos as int));
                assert(data_end - pos == 2 * (2 + rows + cols + rows * cols)) by (nonlinear_arith)
                    requires
                        data_end == pos + 4 + 2 * rows + 2 * cols + 2 * n,
                        n == rows * cols,
                ;
            }
            if detected.contains(&(ds as u32)) || is_inv_dw || !(cols == 10 && (rows == 12 || rows == 14)) {
                pos = data_end;
                continue;
            }
            let mut m = late_map(pos, rows, cols);
            m.name = Some(text("N75 Duty Cycle"));
            m.category = Some(MapCategory::TurboBoostPressureControl.display_name());
            m.unit = Some(text("%"));
            m.correction_factor = Some(12_207_000_000);
            m.y_label = Some(text("rpm"));
            m.y_axis_correction = Some(FIXED_ONE);
            m.x_label = Some(text("mg/stroke"));
            m.x_axis_correction = Some(10_000_000_000);
            assert(turbo_iq_axis(x@));
            assert(turbo_rpm_axis(y@));
            assert(table_fits(s, pos as int, rows as int, 10));
            assert(cells@ == be16_seq(s, pos + 4 + 2 * rows + 20, rows * 10));
            assert(late_fields(m, pos as int, rows as int, 10));
            assert(vgt_at(s, m, pos as int, rows as int));
            assert(turbo_ok(s, d, m));
            proof {
                lemma_listed_last(maps@, m);
            }
            maps.push(m);
            pos = data_end;
        }
        maps
    }
}

} // verus!
