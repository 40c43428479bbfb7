//! Tables announced by a `[00 rows][00 cols]` header followed by their Y
//! axis, their X axis and their cells: torque to injection quantity
//! conversion, cranking torque, and boost pressure correction by intake air
//! temperature.
use vstd::prelude::*;
use std::collections::HashSet;
use crate::bytes::{be16_seq, be16s_seq, read_signed_words, read_words};
use crate::model::{
    DataType, DetectedMap, MapCategory, MapDimensions, category_name, claims, has_text, lemma_claimed_grow, lemma_listed_last,
    listed, table_claimed, text, FIXED_ONE,
};
use crate::words::{
    all_between, all_between_signed, all_in, all_in_signed, any_between, any_in, check_signed_cells, count_between,
    count_in, has_spread, is_non_decreasing, is_strictly_increasing, non_decreasing, signed_cells_ok, spread_at_least,
    strictly_increasing, sum_of_signed, sum_signed,
};
use super::{data_section, get_data_section_range, EDC16U31Detector};

verus! {

broadcast use {vstd::std_specs::hash::group_hash_axioms, crate::model::lemma_listed_push};

/// The header `[00 rows][00 cols]` stands at `o`.
pub open spec fn header_at(s: Seq<u8>, o: int, rows: int, cols: int) -> bool {
    &&& 0 <= o
    &&& o + 4 <= s.len()
    &&& s[o] == 0
    &&& s[o + 1] == rows
    &&& s[o + 2] == 0
    &&& s[o + 3] == cols
}

/// The whole table (header, axes and cells) fits in the image.
pub open spec fn table_in(s: Seq<u8>, o: int, rows: int, cols: int) -> bool {
    o + 4 + 2 * rows + 2 * cols + 2 * rows * cols <= s.len()
}

/// The Y axis, X axis and cells of the table whose header is at `o`.
pub open spec fn y_axis(s: Seq<u8>, o: int, rows: int) -> Seq<u16> {
    be16_seq(s, o + 4, rows)
}

pub open spec fn x_axis(s: Seq<u8>, o: int, rows: int, cols: int) -> Seq<u16> {
    be16_seq(s, o + 4 + 2 * rows, cols)
}

pub open spec fn cells(s: Seq<u8>, o: int, rows: int, cols: int) -> Seq<u16> {
    be16_seq(s, o + 4 + 2 * rows + 2 * cols, rows * cols)
}

pub open spec fn signed_cells(s: Seq<u8>, o: int, rows: int, cols: int) -> Seq<i16> {
    be16s_seq(s, o + 4 + 2 * rows + 2 * cols, rows * cols)
}

/// Address, size, shape and axis addresses of the table whose header is at `o`.
pub open spec fn table_fields(m: DetectedMap, o: int, rows: int, cols: int, dt: DataType) -> bool {
    &&& m.address == o + 4 + 2 * rows + 2 * cols
    &&& m.size == 2 * rows * cols
    &&& m.dimensions == MapDimensions::TwoDimensional { rows: rows as usize, cols: cols as usize }
    &&& m.data_type == dt
    &&& m.y_axis_address == Some((o + 4) as u32)
    &&& m.x_axis_address == Some((o + 4 + 2 * rows) as u32)
}

/// Where the cells of the table with header `o` start and end.
pub open spec fn table_data(o: int, rows: int, cols: int) -> int {
    o + 4 + 2 * rows + 2 * cols
}

pub open spec fn table_end(o: int, rows: int, cols: int) -> int {
    table_data(o, rows, cols) + 2 * rows * cols
}

/// The map of the table whose header is at `o`, its descriptive fields unset.
pub fn table_entry(o: usize, rows: usize, cols: usize, dt: DataType) -> (m: DetectedMap)
    requires
        rows <= 64,
        cols <= 64,
        o + 4 + 2 * rows + 2 * cols + 2 * rows * cols <= u32::MAX,
    ensures
        table_fields(m, o as int, rows as int, cols as int, dt),
        m.name is None,
        m.category is None,
        m.subcategory is None,
        m.unit is None,
        m.description is None,
        m.correction_factor is None,
        m.offset is None,
        m.confidence == 0,
        m.x_axis_correction is None,
        m.y_axis_correction is None,
        m.x_axis_offset is None,
        m.y_axis_offset is None,
        m.x_label is None,
        m.y_label is None,
        m.y_axis_inverted is None,
        (m.is_little_endian is None),
{
    assert(rows * cols <= 4096 && 2 * rows * cols == 2 * (rows * cols)) by (nonlinear_arith)
        requires
            rows <= 64,
            cols <= 64,
    ;
    let n = rows * cols;
    let ys = o + 4;
    let xs = ys + 2 * rows;
    let mut m = DetectedMap::new((xs + 2 * cols) as u32, 2 * n, MapDimensions::TwoDimensional { rows, cols }, dt);
    m.y_axis_address = Some(ys as u32);
    m.x_axis_address = Some(xs as u32);
    m
}

/// Whether one of `maps` is at address `a`.
pub fn listed_in(maps: &[DetectedMap], a: u32) -> (r: bool)
    ensures
        r == exists|k: int| 0 <= k < maps@.len() && (#[trigger] maps@[k]).address == a,
{
    let mut k: usize = 0;
    while k < maps.len()
        invariant
            k <= maps@.len(),
            forall|q: int| 0 <= q < k ==> (#[trigger] maps@[q]).address != a,
        decreases maps.len() - k,
    {
        if maps[k].address == a {
            return true;
        }
        k += 1;
    }
    false
}

/// Whether the header `[00 rows][00 cols]` stands at `o`.
fn is_header_at(data: &[u8], o: usize, rows: usize, cols: usize) -> (r: bool)
    requires
        o + 4 <= data@.len(),
    ensures
        r == header_at(data@, o as int, rows as int, cols as int),
{
    data[o] == 0 && data[o + 1] as usize == rows && data[o + 2] == 0 && data[o + 3] as usize == cols
}

// -------------------------------------------------- torque to IQ conversion

/// An engine-speed axis of 10 ..= 20 points from 500 ..= 1500 up to
/// 4000 ..= 5500 rpm, at most 6000, strictly increasing.
pub open spec fn conversion_rpm_axis(v: Seq<u16>) -> bool {
    &&& 10 <= v.len() <= 20
    &&& 500 <= v[0] <= 1500
    &&& 4000 <= v[v.len() - 1] <= 5500
    &&& all_between(v, 0, 6000)
    &&& strictly_increasing(v)
}

/// A torque axis of 10 ..= 20 points from 0 up to 2000 ..= 9000 (tenths of
/// Nm), at most 10000, strictly increasing.
pub open spec fn conversion_torque_axis(v: Seq<u16>) -> bool {
    &&& 10 <= v.len() <= 20
    &&& v[0] == 0
    &&& 2000 <= v[v.len() - 1] <= 9000
    &&& all_between(v, 0, 10000)
    &&& strictly_increasing(v)
}

/// Header and axes of a torque to injection quantity table at `o`.
pub open spec fn conversion_frame(s: Seq<u8>, o: int, rows: int, cols: int) -> bool {
    &&& header_at(s, o, rows, cols)
    &&& table_in(s, o, rows, cols)
    &&& conversion_rpm_axis(y_axis(s, o, rows))
    &&& conversion_torque_axis(x_axis(s, o, rows, cols))
}

/// A torque to injection quantity table whose header is at `o`.
pub open spec fn conversion_table(s: Seq<u8>, o: int, rows: int, cols: int) -> bool {
    &&& conversion_frame(s, o, rows, cols)
    &&& signed_cells_ok(signed_cells(s, o, rows, cols), -500, 15000, 100)
}

/// The shapes searched: 15 rows and 10 ..= 18 columns, 16 rows and 16 ..= 18
/// columns, 12 x 12 and 13 x 13.
pub open spec fn conversion_shape(rows: int, cols: int) -> bool {
    ||| (rows == 15 && 10 <= cols <= 18)
    ||| (rows == 16 && 16 <= cols <= 18)
    ||| (rows == 12 && cols == 12)
    ||| (rows == 13 && cols == 13)
}

/// `m` describes the torque to injection quantity table at `o`.
pub open spec fn conversion_map(m: DetectedMap, o: int, rows: int, cols: int) -> bool {
    &&& table_fields(m, o, rows, cols, DataType::Int16)
    &&& has_text(m.name, "Torque to IQ Conversion"@)
    &&& has_text(m.category, category_name(MapCategory::InjectionSystem))
    &&& has_text(m.unit, "mg/stroke"@)
    &&& m.correction_factor == Some(10_000_000_000i64)
    &&& m.y_axis_correction == Some(FIXED_ONE)
    &&& m.x_axis_correction == Some(100_000_000_000i64)
    &&& has_text(m.y_label, "rpm"@)
    &&& has_text(m.x_label, "Nm"@)
    &&& m.confidence == 950
}

/// `m` is a torque to injection quantity map of the image: its header lies
/// in the data section and in 0x1D0000 .. 0x1E0000 with 100 bytes after it
/// in both, its cells are in 0x1D0000 .. 0x1E0000 and not at an address of `d`.
pub open spec fn conversion_ok(s: Seq<u8>, d: Set<u32>, m: DetectedMap) -> bool {
    let (start, end) = data_section(s.len() as int);
    &&& !d.contains(m.address)
    &&& 0x1D0000 <= m.address < 0x1E0000
    &&& exists|o: int, rows: int, cols: int|
        #![trigger table_fields(m, o, rows, cols, DataType::Int16)]
        start <= o && 0x1D0000 <= o && o + 100 <= end && o + 100 <= 0x1E0000 && o + 100 <= s.len()
            && conversion_shape(rows, cols) && conversion_table(s, o, rows, cols) && conversion_map(m, o, rows, cols)
}

/// Where the conversion tables are searched: from the later of the data
/// section's start and 0x1D0000, to the earliest of its end, 0x1E0000 and
/// the image's end.
pub open spec fn conversion_window(s: Seq<u8>) -> (int, int) {
    let (start, end) = data_section(s.len() as int);
    let lo = if start > 0x1D0000 { start } else { 0x1D0000 };
    let hi0 = if end < 0x1E0000 { end } else { 0x1E0000 };
    (lo, if hi0 < s.len() { hi0 } else { s.len() as int })
}

/// A scanned position of the conversion search: word-aligned in the window,
/// with 100 bytes before its end.
pub open spec fn conversion_scanned(s: Seq<u8>, o: int) -> bool {
    let (lo, hi) = conversion_window(s);
    lo <= o && (o - lo) % 2 == 0 && o + 100 <= hi
}

/// A conversion table of `rows` rows and `cols` columns, not at an address
/// of `d`, has its header at a scanned position `o`.
pub open spec fn conversion_candidate(s: Seq<u8>, d: Set<u32>, rows: int, cols: int, o: int) -> bool {
    &&& conversion_scanned(s, o)
    &&& conversion_shape(rows, cols)
    &&& conversion_table(s, o, rows, cols)
    &&& !d.contains(table_data(o, rows, cols) as u32)
}

/// Position `o` lies inside the axes and cells of a table of `rows` rows
/// found before it at an address of `d` (which the search skips over).
pub open spec fn conversion_skipped(s: Seq<u8>, d: Set<u32>, rows: int, o: int) -> bool {
    exists|h: int, c: int|
        conversion_scanned(s, h) && conversion_shape(rows, c) && h < o < table_end(h, rows, c) && #[trigger] conversion_frame(
            s,
            h,
            rows,
            c,
        ) && d.contains(table_data(h, rows, c) as u32)
}

/// The header of `m` (four bytes before its first axis) is at or before `o`.
pub open spec fn header_by(m: DetectedMap, o: int) -> bool {
    m.y_axis_address matches Some(ya) && ya - 4 <= o
}

/// The conversion tables of `rows` rows have been searched in turn `i`.
pub open spec fn conversion_done(rows: int, i: int) -> bool {
    ||| (i >= 1 && rows == 15)
    ||| (i >= 2 && rows == 16)
    ||| (i >= 3 && rows == 12)
    ||| (i >= 4 && rows == 13)
}

fn is_conversion_frame(data: &[u8], o: usize, rows: usize, cols: usize) -> (r: bool)
    requires
        o + 4 <= data@.len(),
        data@.len() + 0x10000 <= usize::MAX,
        10 <= rows <= 20,
        10 <= cols <= 20,
    ensures
        r == conversion_frame(data@, o as int, rows as int, cols as int),
{
    if !is_header_at(data, o, rows, cols) {
        return false;
    }
    assert(rows * cols <= 400 && 2 * rows * cols == 2 * (rows * cols)) by (nonlinear_arith)
        requires
            rows <= 20,
            cols <= 20,
    ;
    let n = rows * cols;
    let ys = o + 4;
    let xs = ys + 2 * rows;
    let ds = xs + 2 * cols;
    if ds > data.len() || data.len() - ds < 2 * n {
        return false;
    }
    let y = read_words(data, ys, rows);
    if y[0] < 500 || y[0] > 1500 || y[rows - 1] < 4000 || y[rows - 1] > 5500 || !all_in(y.as_slice(), 0, 6000)
        || !is_strictly_increasing(y.as_slice()) {
        return false;
    }
    let x = read_words(data, xs, cols);
    !(x[0] != 0 || x[cols - 1] < 2000 || x[cols - 1] > 9000 || !all_in(x.as_slice(), 0, 10000)
        || !is_strictly_increasing(x.as_slice()))
}

/// The first torque to injection quantity table with `rows` rows and
/// `min_cols ..= max_cols` columns in `max(start, 0x1D0000) .. min(end, 0x1E0000)`.
fn conversion_variant(
    data: &[u8],
    start: usize,
    end: usize,
    rows: usize,
    min_cols: usize,
    max_cols: usize,
    detected: &HashSet<u32>,
) -> (r: Option<DetectedMap>)
    requires
        data@.len() <= u32::MAX,
        data@.len() + 0x10000 <= usize::MAX,
        start == data_section(data@.len() as int).0,
        end == data_section(data@.len() as int).1,
        forall|c: int| min_cols <= c <= max_cols ==> conversion_shape(rows as int, c),
        10 <= min_cols,
        max_cols <= 18,
        12 <= rows <= 16,
    ensures
        r matches Some(m) ==> {
            &&& !detected@.contains(m.address)
            &&& exists|o: int, c: int|
                #![trigger table_fields(m, o, rows as int, c, DataType::Int16)]
                start <= o && 0x1D0000 <= o && o + 100 <= end && o + 100 <= 0x1E0000 && o + 100 <= data@.len()
                    && conversion_shape(rows as int, c) && conversion_table(data@, o, rows as int, c)
                    && conversion_map(m, o, rows as int, c)
        },
        forall|o: int, c: int|
            min_cols <= c <= max_cols && #[trigger] conversion_candidate(data@, detected@, rows as int, c, o) ==> (
            r matches Some(m) && header_by(m, o)) || conversion_skipped(data@, detected@, rows as int, o),
{
    let ghost s = data@;
    let len = data.len();
    let lo = if start > 0x1D0000 { start } else { 0x1D0000 };
    let hi0 = if end < 0x1E0000 { end } else { 0x1E0000 };
    let hi = if hi0 < len { hi0 } else { len };
    let mut o = lo;
    while o <= hi && hi - o >= 100
        invariant
            s == data@,
            len == s.len(),
            len <= u32::MAX,
            len + 0x10000 <= usize::MAX,
            hi <= len,
            hi <= end,
            hi <= 0x1E0000,
            start <= o,
            0x1D0000 <= o,
            forall|c: int| min_cols <= c <= max_cols ==> conversion_shape(rows as int, c),
            10 <= min_cols,
            max_cols <= 18,
            12 <= rows <= 16,
            (lo as int, hi as int) == conversion_window(s),
            lo <= o,
            (o - lo) % 2 == 0,
            forall|q: int, c: int|
                q < o && min_cols <= c <= max_cols && #[trigger] conversion_candidate(s, detected@, rows as int, c, q)
                    ==> conversion_skipped(s, detected@, rows as int, q),
        decreases len - o,
    {
        if data[o] == 0 && data[o + 1] as usize == rows && data[o + 2] == 0 {
            let cols = data[o + 3] as usize;
            if cols >= min_cols && cols <= max_cols && is_conversion_frame(data, o, rows, cols) {
                let m0 = table_entry(o, rows, cols, DataType::Int16);
                if detected.contains(&m0.address) {
                    proof {
                        assert(m0.address + m0.size - o == 2 * (2 + rows + cols + rows * cols)) by (nonlinear_arith)
                            requires
                                m0.address + m0.size == o + 4 + 2 * rows + 2 * cols + 2 * rows * cols,
                        ;
                        assert forall|q: int, c: int|
                            q < m0.address + m0.size && min_cols <= c <= max_cols && #[trigger] conversion_candidate(
                                s,
                                detected@,
                                rows as int,
                                c,
                                q,
                            ) implies conversion_skipped(s, detected@, rows as int, q) by {
                            if q > o {
                                assert(conversion_frame(s, o as int, rows as int, cols as int));
                                assert(conversion_scanned(s, o as int));
                            } else if q == o {
                                assert(s[o + 3] == cols);
                            }
                        }
                    }
                    o = m0.address as usize + m0.size;
                    continue;
                }
                assert(rows * cols <= 400 && 2 * rows * cols == 2 * (rows * cols)) by (nonlinear_arith)
                    requires
                        rows <= 20,
                        cols <= 20,
                ;
                let v = read_signed_words(data, m0.address as usize, rows * cols);
                if !check_signed_cells(v.as_slice(), -500, 15000, 100) {
                    o += 2;
                    continue;
                }
                let mut m = m0;
                m.name = Some(text("Torque to IQ Conversion"));
                m.category = Some(MapCategory::InjectionSystem.display_name());
                m.unit = Some(text("mg/stroke"));
                m.correction_factor = Some(10_000_000_000);
                m.y_axis_correction = Some(FIXED_ONE);
                m.x_axis_correction = Some(100_000_000_000);
                m.y_label = Some(text("rpm"));
                m.x_label = Some(text("Nm"));
                m.confidence = 950;
                assert(conversion_map(m, o as int, rows as int, cols as int));
                assert(header_by(m, o as int));
                return Some(m);
            }
        }
        o += 2;
    }
    None
}

// ----------------------------------------------------------- cranking torque

/// A cranking engine-speed axis of 1 ..= 20 points from at most 500 up to
/// 400 ..= 2000 rpm, at most 2500, never decreasing.
pub open spec fn cranking_rpm_axis(v: Seq<u16>) -> bool {
    &&& 1 <= v.len() <= 20
    &&& v[0] <= 500
    &&& 400 <= v[v.len() - 1] <= 2000
    &&& all_between(v, 0, 2500)
    &&& non_decreasing(v)
}

/// A coolant temperature axis (tenths of kelvin) of 1 ..= 20 points from
/// 2000 ..= 3000 up to 3000 ..= 4500, strictly increasing.
pub open spec fn cranking_temp_axis(v: Seq<u16>) -> bool {
    &&& 1 <= v.len() <= 20
    &&& 2000 <= v[0] <= 3000
    &&& 3000 <= v[v.len() - 1] <= 4500
    &&& strictly_increasing(v)
}

/// Cranking torque cells: at most 5000, not all zero, not constant, and at
/// least a third of them non-zero.
pub open spec fn cranking_cells(v: Seq<u16>) -> bool {
    &&& all_between(v, 0, 5000)
    &&& any_between(v, 1, 65535)
    &&& spread_at_least(v, 1)
    &&& count_between(v, 1, 65535) >= v.len() / 3
}

pub open spec fn cranking_frame(s: Seq<u8>, o: int, rows: int, cols: int) -> bool {
    &&& header_at(s, o, rows, cols)
    &&& table_in(s, o, rows, cols)
    &&& cranking_rpm_axis(y_axis(s, o, rows))
    &&& cranking_temp_axis(x_axis(s, o, rows, cols))
}

pub open spec fn cranking_table(s: Seq<u8>, o: int, rows: int, cols: int) -> bool {
    &&& cranking_frame(s, o, rows, cols)
    &&& cranking_cells(cells(s, o, rows, cols))
}

/// The shapes searched, in turn: 9 x 9, 9 x 10, 9 x 8 and 8 x 9.
pub open spec fn cranking_shape(rows: int, cols: int) -> bool {
    (rows == 9 && 8 <= cols <= 10) || (rows == 8 && cols == 9)
}

pub open spec fn cranking_map(m: DetectedMap, o: int, rows: int, cols: int) -> bool {
    &&& table_fields(m, o, rows, cols, DataType::UInt16)
    &&& has_text(m.name, "Cranking Torque Map"@)
    &&& has_text(m.category, category_name(MapCategory::EngineTorqueRequest))
    &&& has_text(m.unit, "Nm"@)
    &&& m.correction_factor == Some(100_000_000_000i64)
    &&& m.y_axis_correction == Some(FIXED_ONE)
    &&& m.x_axis_correction == Some(100_000_000_000i64)
    &&& m.x_axis_offset == Some(-273_140_000_000_000i64)
    &&& has_text(m.y_label, "rpm"@)
    &&& has_text(m.x_label, "°C"@)
    &&& m.confidence == 920
}

/// `m` is a cranking torque map of `start .. min(end, len)` (with 200 bytes
/// from its header), not at an address of `d`.
pub open spec fn cranking_ok(s: Seq<u8>, start: int, end: int, d: Set<u32>, m: DetectedMap) -> bool {
    &&& !d.contains(m.address)
    &&& exists|o: int, rows: int, cols: int|
        #![trigger table_fields(m, o, rows, cols, DataType::UInt16)]
        start <= o && o + 200 <= end && o + 200 <= s.len() && cranking_shape(rows, cols) && cranking_table(
            s,
            o,
            rows,
            cols,
        ) && cranking_map(m, o, rows, cols)
}

/// The shape `rows x cols` is one of the first `i` shapes searched.
pub open spec fn cranking_done(rows: int, cols: int, i: int) -> bool {
    ||| (i >= 1 && rows == 9 && cols == 9)
    ||| (i >= 2 && rows == 9 && cols == 10)
    ||| (i >= 3 && rows == 9 && cols == 8)
    ||| (i >= 4 && rows == 8 && cols == 9)
}

fn is_cranking_frame(data: &[u8], o: usize, rows: usize, cols: usize) -> (r: bool)
    requires
        o + 4 <= data@.len(),
        data@.len() + 0x10000 <= usize::MAX,
        1 <= rows <= 20,
        1 <= cols <= 20,
    ensures
        r == cranking_frame(data@, o as int, rows as int, cols as int),
{
    if !is_header_at(data, o, rows, cols) {
        return false;
    }
    assert(rows * cols <= 400 && 2 * rows * cols == 2 * (rows * cols)) by (nonlinear_arith)
        requires
            rows <= 20,
            cols <= 20,
    ;
    let n = rows * cols;
    let ys = o + 4;
    let xs = ys + 2 * rows;
    let ds = xs + 2 * cols;
    if ds > data.len() || data.len() - ds < 2 * n {
        return false;
    }
    let y = read_words(data, ys, rows);
    if y[0] > 500 || y[rows - 1] < 400 || y[rows - 1] > 2000 || !all_in(y.as_slice(), 0, 2500) || !is_non_decreasing(
        y.as_slice(),
    ) {
        return false;
    }
    let x = read_words(data, xs, cols);
    !(x[0] < 2000 || x[0] > 3000 || x[cols - 1] < 3000 || x[cols - 1] > 4500 || !is_strictly_increasing(
        x.as_slice(),
    ))
}

/// Whether cranking torque cells `v` pass the checks.
fn is_cranking_cells(v: &[u16]) -> (r: bool)
    requires
        v@.len() > 0,
    ensures
        r == cranking_cells(v@),
{
    all_in(v, 0, 5000) && any_in(v, 1, 65535) && has_spread(v, 1) && count_in(v, 1, 65535) >= v.len() / 3
}

/// The cranking torque maps of one shape in `start .. min(end, len)`; a map
/// in `detected` or already in `out` is skipped over.
fn cranking_variant(
    data: &[u8],
    start: usize,
    end: usize,
    rows: usize,
    cols: usize,
    detected: &HashSet<u32>,
    out: &mut Vec<DetectedMap>,
)
    requires
        data@.len() <= u32::MAX,
        data@.len() + 0x10000 <= usize::MAX,
        cranking_shape(rows as int, cols as int),
    ensures
        final(out)@.len() >= old(out)@.len(),
        forall|k: int| 0 <= k < old(out)@.len() ==> final(out)@[k] == old(out)@[k],
        forall|k: int|
            old(out)@.len() <= k < final(out)@.len() ==> cranking_ok(
                data@,
                start as int,
                end as int,
                detected@,
                #[trigger] final(out)@[k],
            ),
        forall|o: int|
            start <= o && (o - start) % 2 == 0 && o + 200 <= end && o + 200 <= data@.len() && #[trigger] cranking_table(
                data@,
                o,
                rows as int,
                cols as int,
            ) && !detected@.contains(table_data(o, rows as int, cols as int) as u32) ==> listed(
                final(out)@,
                table_data(o, rows as int, cols as int),
            ) || exists|h: int|
                start <= h < o < table_end(h, rows as int, cols as int) && #[trigger] cranking_frame(
                    data@,
                    h,
                    rows as int,
                    cols as int,
                ),
{
    let ghost s = data@;
    let ghost first = out@;
    let len = data.len();
    let lim = if end < len { end } else { len };
    let mut o = start;
    while o <= lim && lim - o >= 200
        invariant
            s == data@,
            len == s.len(),
            len <= u32::MAX,
            len + 0x10000 <= usize::MAX,
            lim <= len,
            lim <= end,
            start <= o,
            cranking_shape(rows as int, cols as int),
            out@.len() >= first.len(),
            forall|k: int| 0 <= k < first.len() ==> out@[k] == first[k],
            forall|k: int|
                first.len() <= k < out@.len() ==> cranking_ok(s, start as int, end as int, detected@, #[trigger] out@[k]),
            (o - start) % 2 == 0,
            forall|q: int|
                start <= q < o && (q - start) % 2 == 0 && q + 200 <= end && q + 200 <= s.len() && #[trigger] cranking_table(
                    s,
                    q,
                    rows as int,
                    cols as int,
                ) && !detected@.contains(table_data(q, rows as int, cols as int) as u32) ==> listed(
                    out@,
                    table_data(q, rows as int, cols as int),
                ) || exists|h: int|
                    start <= h < q < table_end(h, rows as int, cols as int) && #[trigger] cranking_frame(
                        s,
                        h,
                        rows as int,
                        cols as int,
                    ),
        decreases len - o,
    {
        if is_cranking_frame(data, o, rows, cols) {
            let m0 = table_entry(o, rows, cols, DataType::UInt16);
            let next = m0.address as usize + m0.size;
            proof {
                assert(next == table_end(o as int, rows as int, cols as int));
                assert(next - o == 2 * (2 + rows + cols + rows * cols)) by (nonlinear_arith)
                    requires
                        next == o + 4 + 2 * rows + 2 * cols + 2 * rows * cols,
                ;
            }
            if !detected.contains(&m0.address) && !listed_in(out.as_slice(), m0.address) {
                assert(1 <= rows * cols <= 400 && 2 * rows * cols == 2 * (rows * cols)) by (nonlinear_arith)
                    requires
                        1 <= rows <= 20,
                        1 <= cols <= 20,
                ;
                let v = read_words(data, m0.address as usize, rows * cols);
                if !is_cranking_cells(v.as_slice()) {
                    o += 2;
                    continue;
                }
                let mut m = m0;
                m.name = Some(text("Cranking Torque Map"));
                m.category = Some(MapCategory::EngineTorqueRequest.display_name());
                m.unit = Some(text("Nm"));
                m.correction_factor = Some(100_000_000_000);
                m.y_axis_correction = Some(FIXED_ONE);
                m.x_axis_correction = Some(100_000_000_000);
                m.x_axis_offset = Some(-273_140_000_000_000);
                m.y_label = Some(text("rpm"));
                m.x_label = Some(text("°C"));
                m.confidence = 920;
                assert(cranking_map(m, o as int, rows as int, cols as int));
                proof {
                    lemma_listed_last(out@, m);
                }
                out.push(m);
            }
            o = next;
            continue;
        }
        o += 2;
    }
}

// ------------------------------------------------- boost pressure correction

/// A boost pressure axis of 16 or 11 points from 200 ..= 1500 up to
/// 1500 ..= 4000 mbar, strictly increasing.
pub open spec fn boost_axis(v: Seq<u16>) -> bool {
    &&& (v.len() == 16 || v.len() == 11)
    &&& 200 <= v[0] <= 1500
    &&& 1500 <= v[v.len() - 1] <= 4000
    &&& strictly_increasing(v)
}

/// An intake air temperature axis (tenths of kelvin) of 10 points from
/// 2200 ..= 2800 up to 3000 ..= 3600, strictly increasing.
pub open spec fn intake_temp_axis(v: Seq<u16>) -> bool {
    &&& v.len() == 10
    &&& 2200 <= v[0] <= 2800
    &&& 3000 <= v[9] <= 3600
    &&& strictly_increasing(v)
}

/// Boost correction cells: a largest value of 500 ..= 4000, a smallest of
/// 100 ..= 2000, not constant, at least three quarters non-zero.
pub open spec fn boost_cells(v: Seq<u16>) -> bool {
    &&& all_between(v, 100, 4000)
    &&& any_between(v, 500, 65535)
    &&& any_between(v, 0, 2000)
    &&& spread_at_least(v, 1)
    &&& count_between(v, 1, 65535) >= v.len() * 3 / 4
}

pub open spec fn boost_frame(s: Seq<u8>, o: int, rows: int) -> bool {
    &&& header_at(s, o, rows, 10)
    &&& table_in(s, o, rows, 10)
    &&& boost_axis(y_axis(s, o, rows))
    &&& intake_temp_axis(x_axis(s, o, rows, 10))
}

pub open spec fn boost_table(s: Seq<u8>, o: int, rows: int) -> bool {
    &&& boost_frame(s, o, rows)
    &&& boost_cells(cells(s, o, rows, 10))
}

pub open spec fn boost_map(m: DetectedMap, o: int, rows: int) -> bool {
    &&& table_fields(m, o, rows, 10, DataType::UInt16)
    &&& has_text(m.name, "Turbo Boost Pressure Correction"@)
    &&& has_text(m.category, category_name(MapCategory::TurboBoostPressure))
    &&& has_text(m.unit, "mbar"@)
    &&& m.correction_factor == Some(FIXED_ONE)
    &&& m.y_axis_correction == Some(FIXED_ONE)
    &&& m.x_axis_correction == Some(100_000_000_000i64)
    &&& m.x_axis_offset == Some(-273_100_000_000_000i64)
    &&& has_text(m.y_label, "mbar"@)
    &&& has_text(m.x_label, "°C"@)
    &&& m.confidence == 900
}

/// `m` is a boost correction map (16 or 11 rows) of `start .. min(end, len)`
/// with 400 bytes from its header, not at an address of `d`.
pub open spec fn boost_ok(s: Seq<u8>, start: int, end: int, d: Set<u32>, m: DetectedMap) -> bool {
    &&& !d.contains(m.address)
    &&& exists|o: int, rows: int|
        #![trigger table_fields(m, o, rows, 10, DataType::UInt16)]
        start <= o && o + 400 <= end && o + 400 <= s.len() && (rows == 16 || rows == 11) && boost_table(s, o, rows)
            && boost_map(m, o, rows)
}

/// A boost correction table of 16 or 11 rows has its header at `o`.
pub open spec fn boost_at(s: Seq<u8>, o: int) -> bool {
    let rows = s[o + 1] as int;
    (rows == 16 || rows == 11) && boost_table(s, o, rows)
}

/// The header and axes of a boost correction table of 16 or 11 rows are at `h`.
pub open spec fn boost_frame_at(s: Seq<u8>, h: int) -> bool {
    let rows = s[h + 1] as int;
    (rows == 16 || rows == 11) && boost_frame(s, h, rows)
}

fn is_boost_frame(data: &[u8], o: usize, rows: usize) -> (r: bool)
    requires
        o + 4 <= data@.len(),
        data@.len() + 0x10000 <= usize::MAX,
        rows == 16 || rows == 11,
    ensures
        r == boost_frame(data@, o as int, rows as int),
{
    if !is_header_at(data, o, rows, 10) {
        return false;
    }
    let n = rows * 10;
    let ys = o + 4;
    let xs = ys + 2 * rows;
    let ds = xs + 20;
    if ds > data.len() || data.len() - ds < 2 * n {
        return false;
    }
    let y = read_words(data, ys, rows);
    if y[0] < 200 || y[0] > 1500 || y[rows - 1] < 1500 || y[rows - 1] > 4000 || !is_strictly_increasing(y.as_slice()) {
        return false;
    }
    let x = read_words(data, xs, 10);
    !(x[0] < 2200 || x[0] > 2800 || x[9] < 3000 || x[9] > 3600 || !is_strictly_increasing(x.as_slice()))
}

/// Whether boost correction cells `v` pass the checks.
fn is_boost_cells(v: &[u16]) -> (r: bool)
    requires
        v@.len() > 0,
        v@.len() <= 1000,
    ensures
        r == boost_cells(v@),
{
    all_in(v, 100, 4000) && any_in(v, 500, 65535) && any_in(v, 0, 2000) && has_spread(v, 1) && count_in(v, 1, 65535)
        >= v.len() * 3 / 4
}

impl EDC16U31Detector {
    /// At most one torque to injection quantity map: of the first table found
    /// for each shape family (15 x 10..18, 16 x 16..18, 12 x 12, 13 x 13, in
    /// 0x1D0000 .. 0x1E0000 of the data section), the one at the lowest address.
    pub fn detect_torque_to_iq_by_signature(&self, data: &[u8], detected: &HashSet<u32>) -> (r: Vec<DetectedMap>)
        requires
            data@.len() <= u32::MAX,
            data@.len() + 0x10000 <= usize::MAX,
        ensures
            r@.len() <= 1,
            forall|k: int| 0 <= k < r@.len() ==> conversion_ok(data@, detected@, #[trigger] r@[k]),
            forall|o: int, rows: int, cols: int|
                #[trigger] conversion_candidate(data@, detected@, rows, cols, o) && !conversion_skipped(
                    data@,
                    detected@,
                    rows,
                    o,
                ) ==> r@.len() == 1,
    {
        let ghost s = data@;
        let (start, end) = get_data_section_range(data.len());
        let rows: [usize; 4] = [15, 16, 12, 13];
        let min_cols: [usize; 4] = [10, 16, 12, 13];
        let max_cols: [usize; 4] = [18, 18, 12, 13];
        let mut best: Option<DetectedMap> = None;
        let mut i: usize = 0;
        while i < 4
            invariant
                s == data@,
                s.len() <= u32::MAX,
                s.len() + 0x10000 <= usize::MAX,
                start == data_section(s.len() as int).0,
                end == data_section(s.len() as int).1,
                rows@ == seq![15usize, 16, 12, 13],
                min_cols@ == seq![10usize, 16, 12, 13],
                max_cols@ == seq![18usize, 18, 12, 13],
                best matches Some(m) ==> conversion_ok(s, detected@, m),
                i <= 4,
                forall|o: int, rw: int, cl: int|
                    conversion_done(rw, i as int) && #[trigger] conversion_candidate(s, detected@, rw, cl, o)
                        && !conversion_skipped(s, detected@, rw, o) ==> best is Some,
            decreases 4 - i,
        {
            let found = conversion_variant(data, start, end, rows[i], min_cols[i], max_cols[i], detected);
            match found {
                Some(m) => {
                    if 0x1D0000 <= m.address && m.address < 0x1E0000 {
                        let better = match &best {
                            Some(b) => m.address < b.address,
                            None => true,
                        };
                        if better {
                            best = Some(m);
                        }
                    }
                },
                None => {},
            }
            i += 1;
        }
        let mut r: Vec<DetectedMap> = Vec::new();
        match best {
            Some(m) => r.push(m),
            None => {},
        }
        r
    }

    /// The cranking torque maps of `start .. min(end, len)`: shapes 9 x 9,
    /// 9 x 10, 9 x 8 and 8 x 9 in turn, a map found by an earlier shape (or in
    /// `detected`) not reported again. Each shape is scanned word by word
    /// from `start`, so every other table on that alignment is reported, or
    /// lies inside the axes and cells of a table header of its shape found
    /// before it.
    pub fn detect_cranking_torque_maps(&self, data: &[u8], start: usize, end: usize, detected: &HashSet<u32>) -> (r:
        Vec<DetectedMap>)
        requires
            data@.len() <= u32::MAX,
            data@.len() + 0x10000 <= usize::MAX,
        ensures
            forall|k: int| 0 <= k < r@.len() ==> cranking_ok(data@, start as int, end as int, detected@, #[trigger] r@[k]),
            forall|o: int, rows: int, cols: int|
                cranking_shape(rows, cols) && start <= o && (o - start) % 2 == 0 && o + 200 <= end && o + 200
                    <= data@.len() && #[trigger] cranking_table(data@, o, rows, cols) && !detected@.contains(
                    table_data(o, rows, cols) as u32,
                ) ==> listed(r@, table_data(o, rows, cols)) || exists|h: int|
                    start <= h < o < table_end(h, rows, cols) && #[trigger] cranking_frame(data@, h, rows, cols),
    {
        let ghost s = data@;
        let ghost d = detected@;
        let rows: [usize; 4] = [9, 9, 9, 8];
        let cols: [usize; 4] = [9, 10, 8, 9];
        let mut maps: Vec<DetectedMap> = Vec::new();
        let mut i: usize = 0;
        while i < 4
            invariant
                s == data@,
                d == detected@,
                s.len() <= u32::MAX,
                s.len() + 0x10000 <= usize::MAX,
                rows@ == seq![9usize, 9, 9, 8],
                cols@ == seq![9usize, 10, 8, 9],
                i <= 4,
                forall|k: int| 0 <= k < maps@.len() ==> cranking_ok(s, start as int, end as int, d, #[trigger] maps@[k]),
                forall|o: int, rw: int, cl: int|
                    cranking_done(rw, cl, i as int) && start <= o && (o - start) % 2 == 0 && o + 200 <= end && o + 200
                        <= s.len() && #[trigger] cranking_table(s, o, rw, cl) && !d.contains(table_data(o, rw, cl) as u32)
                        ==> listed(maps@, table_data(o, rw, cl)) || exists|h: int|
                        start <= h < o < table_end(h, rw, cl) && #[trigger] cranking_frame(s, h, rw, cl),
            decreases 4 - i,
        {
            let ghost before = maps@;
            cranking_variant(data, start, end, rows[i], cols[i], detected, &mut maps);
            proof {
                assert forall|a: int| listed(before, a) implies #[trigger] listed(maps@, a) by {
                    let k = choose|k: int| 0 <= k < before.len() && (#[trigger] before[k]).address == a;
                    assert(maps@[k] == before[k]);
                }
            }
            i += 1;
        }
        maps
    }

    /// The boost pressure correction maps (16 x 10 or 11 x 10) of
    /// `start .. min(end, len)`; a table found is skipped over as a whole.
    /// The scan goes word by word from `start`, so every other table on that
    /// alignment is reported, or lies inside the axes and cells of a table
    /// header found before it.
    pub fn detect_turbo_boost_correction_maps(
        &self,
        data: &[u8],
        start: usize,
        end: usize,
        detected: &HashSet<u32>,
    ) -> (r: Vec<DetectedMap>)
        requires
            data@.len() <= u32::MAX,
            data@.len() + 0x10000 <= usize::MAX,
        ensures
            forall|k: int| 0 <= k < r@.len() ==> boost_ok(data@, start as int, end as int, detected@, #[trigger] r@[k]),
            forall|o: int|
                start <= o && (o - start) % 2 == 0 && o + 400 <= end && o + 400 <= data@.len() && #[trigger] boost_at(
                    data@,
                    o,
                ) && !detected@.contains(table_data(o, data@[o + 1] as int, 10) as u32) ==> listed(
                    r@,
                    table_data(o, data@[o + 1] as int, 10),
                ) || exists|h: int|
                    start <= h < o < table_end(h, data@[h + 1] as int, 10) && #[trigger] boost_frame_at(data@, h),
    {
        let ghost s = data@;
        let len = data.len();
        let lim = if end < len { end } else { len };
        let mut maps: Vec<DetectedMap> = Vec::new();
        let mut o = start;
        while o <= lim && lim - o >= 400
            invariant
                s == data@,
                len == s.len(),
                len <= u32::MAX,
                len + 0x10000 <= usize::MAX,
                lim <= len,
                lim <= end,
                start <= o,
                (o - start) % 2 == 0,
                forall|k: int| 0 <= k < maps@.len() ==> boost_ok(s, start as int, end as int, detected@, #[trigger] maps@[k]),
                forall|q: int|
                    start <= q < o && (q - start) % 2 == 0 && q + 400 <= end && q + 400 <= s.len() && #[trigger] boost_at(
                        s,
                        q,
                    ) && !detected@.contains(table_data(q, s[q + 1] as int, 10) as u32) ==> listed(
                        maps@,
                        table_data(q, s[q + 1] as int, 10),
                    ) || exists|h: int| start <= h < q < table_end(h, s[h + 1] as int, 10) && #[trigger] boost_frame_at(s, h),
            decreases len - o,
        {
            let rows = data[o + 1] as usize;
            if (rows == 16 || rows == 11) && is_boost_frame(data, o, rows) {
                let m0 = table_entry(o, rows, 10, DataType::UInt16);
                let next = m0.address as usize + m0.size;
                if !detected.contains(&m0.address) {
                    let v = read_words(data, m0.address as usize, rows * 10);
                    if !is_boost_cells(v.as_slice()) {
                        o += 2;
                        continue;
                    }
                    let mut m = m0;
                    m.name = Some(text("Turbo Boost Pressure Correction"));
                    m.category = Some(MapCategory::TurboBoostPressure.display_name());
                    m.unit = Some(text("mbar"));
                    m.correction_factor = Some(FIXED_ONE);
                    m.y_axis_correction = Some(FIXED_ONE);
                    m.x_axis_correction = Some(100_000_000_000);
                    m.x_axis_offset = Some(-273_100_000_000_000);
                    m.y_label = Some(text("mbar"));
                    m.x_label = Some(text("°C"));
                    m.confidence = 900;
                    assert(boost_map(m, o as int, rows as int));
                    proof {
                        lemma_listed_last(maps@, m);
                    }
                    maps.push(m);
                }
                proof {
                    assert(boost_frame_at(s, o as int));
                    assert(next == table_end(o as int, rows as int, 10));
                }
                o = next;
                continue;
            }
            o += 2;
        }
        maps
    }
}

// ------------------------------------------------------------ N75 duty cycle

/// The shapes of the VGT duty cycle tables: 16 rows and 10 ..= 13 columns,
/// 14 x 10, 12 x 10, 13 x 16 and 10 x 16.
pub open spec fn n75_shape(rows: int, cols: int) -> bool {
    ||| (rows == 16 && 10 <= cols <= 13)
    ||| (rows == 14 && cols == 10)
    ||| (rows == 12 && cols == 10)
    ||| (rows == 13 && cols == 16)
    ||| (rows == 10 && cols == 16)
}

/// An engine-speed axis from at most 1500 up to 3500 ..= 5500 rpm, strictly increasing.
pub open spec fn n75_rpm_axis(v: Seq<u16>) -> bool {
    &&& v.len() >= 1
    &&& v[0] <= 1500
    &&& 3500 <= v[v.len() - 1] <= 5500
    &&& strictly_increasing(v)
}

/// An injection quantity axis from at most 7 up to 35 ..= 85 mg, strictly increasing.
pub open spec fn n75_iq_axis(v: Seq<u16>) -> bool {
    &&& v.len() >= 1
    &&& v[0] <= 700
    &&& 3500 <= v[v.len() - 1] <= 8500
    &&& strictly_increasing(v)
}

/// Duty cycle cells (0.012207 % per step): each between -5 % and 125 %, and
/// their average between 30 % and 115 %. For an integer cell `v`,
/// `v * 0.012207 >= -5` holds exactly when `v >= -409`, and
/// `v * 0.012207 <= 125` exactly when `v <= 10240`.
pub open spec fn n75_cells(v: Seq<i16>) -> bool {
    &&& v.len() >= 2
    &&& all_between_signed(v, -409, 10240)
    &&& 30_000_000 * v.len() <= 12207 * sum_signed(v) <= 115_000_000 * v.len()
}

pub open spec fn n75_frame(s: Seq<u8>, o: int, rows: int, cols: int) -> bool {
    &&& header_at(s, o, rows, cols)
    &&& table_in(s, o, rows, cols)
    &&& n75_rpm_axis(y_axis(s, o, rows))
    &&& n75_iq_axis(x_axis(s, o, rows, cols))
}

pub open spec fn n75_map(m: DetectedMap, o: int, rows: int, cols: int) -> bool {
    &&& table_fields(m, o, rows, cols, DataType::Int16)
    &&& has_text(m.name, "N75 Duty Cycle"@)
    &&& has_text(m.category, category_name(MapCategory::TurboBoostPressureControl))
    &&& has_text(m.unit, "%"@)
    &&& m.correction_factor == Some(12_207_000_000i64)
    &&& m.y_axis_correction == Some(FIXED_ONE)
    &&& m.x_axis_correction == Some(10_000_000_000i64)
    &&& has_text(m.y_label, "rpm"@)
    &&& has_text(m.x_label, "mg/stroke"@)
    &&& m.confidence == 920
}

/// `m` is a VGT duty cycle map of the data section (100 bytes from its
/// header inside it), not at an address of `d`.
pub open spec fn n75_ok(s: Seq<u8>, d: Set<u32>, m: DetectedMap) -> bool {
    let (start, end) = data_section(s.len() as int);
    &&& !d.contains(m.address)
    &&& exists|o: int, rows: int, cols: int|
        #![trigger table_fields(m, o, rows, cols, DataType::Int16)]
        start <= o && o + 100 <= end && o + 100 <= s.len() && n75_shape(rows, cols) && n75_frame(s, o, rows, cols)
            && n75_cells(signed_cells(s, o, rows, cols)) && n75_map(m, o, rows, cols)
}

/// A VGT duty cycle table of one of the N75 shapes has its header at `o`.
pub open spec fn n75_at(s: Seq<u8>, o: int) -> bool {
    let rows = s[o + 1] as int;
    let cols = s[o + 3] as int;
    n75_shape(rows, cols) && n75_frame(s, o, rows, cols) && n75_cells(signed_cells(s, o, rows, cols))
}

/// The header and axes of a table of one of the N75 shapes are at `h`.
pub open spec fn n75_frame_at(s: Seq<u8>, h: int) -> bool {
    n75_shape(s[h + 1] as int, s[h + 3] as int) && n75_frame(s, h, s[h + 1] as int, s[h + 3] as int)
}

fn is_n75_frame(data: &[u8], o: usize, rows: usize, cols: usize) -> (r: bool)
    requires
        o + 4 <= data@.len(),
        data@.len() + 0x10000 <= usize::MAX,
        n75_shape(rows as int, cols as int),
    ensures
        r == n75_frame(data@, o as int, rows as int, cols as int),
{
    if !is_header_at(data, o, rows, cols) {
        return false;
    }
    assert(rows * cols <= 256 && 2 * rows * cols == 2 * (rows * cols)) by (nonlinear_arith)
        requires
            rows <= 16,
            cols <= 16,
    ;
    let n = rows * cols;
    let ys = o + 4;
    let xs = ys + 2 * rows;
    let ds = xs + 2 * cols;
    if ds > data.len() || data.len() - ds < 2 * n {
        return false;
    }
    let y = read_words(data, ys, rows);
    if y[0] > 1500 || y[rows - 1] < 3500 || y[rows - 1] > 5500 || !is_strictly_increasing(y.as_slice()) {
        return false;
    }
    let x = read_words(data, xs, cols);
    !(x[0] > 700 || x[cols - 1] < 3500 || x[cols - 1] > 8500 || !is_strictly_increasing(x.as_slice()))
}

fn is_n75_cells(v: &[i16]) -> (r: bool)
    requires
        v@.len() <= 256,
    ensures
        r == n75_cells(v@),
{
    if v.len() < 2 || !all_in_signed(v, -409, 10240) {
        return false;
    }
    let total = sum_of_signed(v);
    proof {
        crate::words::lemma_sum_bounds(v@);
    }
    let n = v.len() as i64;
    30_000_000 * n <= 12207 * total && 12207 * total <= 115_000_000 * n
}

impl EDC16U31Detector {
    /// The VGT duty cycle maps of the data section behind a
    /// `[00 rows][00 cols]` header of one of the N75 shapes; a map found (or
    /// already in `detected`) is skipped over as a whole. The scan goes word
    /// by word from the start of the data section, so every other table on
    /// that alignment is reported, or lies inside the axes and cells of a
    /// table header found before it.
    #[verifier::rlimit(50)]
    pub fn detect_n75_by_signature(&self, data: &[u8], detected: &HashSet<u32>) -> (r: Vec<DetectedMap>)
        requires
            data@.len() <= u32::MAX,
            data@.len() + 0x10000 <= usize::MAX,
        ensures
            forall|k: int| 0 <= k < r@.len() ==> n75_ok(data@, detected@, #[trigger] r@[k]),
            forall|o: int|
                data_section(data@.len() as int).0 <= o && (o - data_section(data@.len() as int).0) % 2 == 0 && o + 100
                    <= data_section(data@.len() as int).1 && o + 100 <= data@.len() && #[trigger] n75_at(data@, o)
                    && !detected@.contains(table_data(o, data@[o + 1] as int, data@[o + 3] as int) as u32) ==> listed(
                    r@,
                    table_data(o, data@[o + 1] as int, data@[o + 3] as int),
                ) || exists|h: int|
                    data_section(data@.len() as int).0 <= h < o < table_end(h, data@[h + 1] as int, data@[h + 3] as int)
                        && #[trigger] n75_frame_at(data@, h),
    {
        let ghost s = data@;
        let (start, end) = get_data_section_range(data.len());
        let len = data.len();
        let lim = if end < len { end } else { len };
        let mut maps: Vec<DetectedMap> = Vec::new();
        let mut o = start;
        while o <= lim && lim - o >= 100
            invariant
                s == data@,
                len == s.len(),
                len <= u32::MAX,
                len + 0x10000 <= usize::MAX,
                start == data_section(s.len() as int).0,
                end == data_section(s.len() as int).1,
                lim <= len,
                lim <= end,
                start <= o,
                (o - start) % 2 == 0,
                forall|k: int| 0 <= k < maps@.len() ==> n75_ok(s, detected@, #[trigger] maps@[k]),
                forall|q: int|
                    start <= q < o && (q - start) % 2 == 0 && q + 100 <= end && q + 100 <= s.len() && #[trigger] n75_at(
                        s,
                        q,
                    ) && !detected@.contains(table_data(q, s[q + 1] as int, s[q + 3] as int) as u32) ==> listed(
                        maps@,
                        table_data(q, s[q + 1] as int, s[q + 3] as int),
                    ) || exists|h: int|
                        start <= h < q < table_end(h, s[h + 1] as int, s[h + 3] as int) && #[trigger] n75_frame_at(s, h),
            decreases len - o,
        {
            let rows = data[o + 1] as usize;
            let cols = data[o + 3] as usize;
            let shape = (rows == 16 && 10 <= cols && cols <= 13) || (rows == 14 && cols == 10) || (rows == 12 && cols
                == 10) || (rows == 13 && cols == 16) || (rows == 10 && cols == 16);
            if shape && is_n75_frame(data, o, rows, cols) {
                let m0 = table_entry(o, rows, cols, DataType::Int16);
                let next = m0.address as usize + m0.size;
                proof {
                    assert(n75_frame_at(s, o as int));
                    assert(next == table_end(o as int, rows as int, cols as int));
                    assert(next - o == 2 * (2 + rows + cols + rows * cols)) by (nonlinear_arith)
                        requires
                            next == o + 4 + 2 * rows + 2 * cols + 2 * rows * cols,
                    ;
                }
                if detected.contains(&m0.address) {
                    o = next;
                    continue;
                }
                assert(rows * cols <= 256 && 2 * rows * cols == 2 * (rows * cols)) by (nonlinear_arith)
                    requires
                        rows <= 16,
                        cols <= 16,
                ;
                let v = read_signed_words(data, m0.address as usize, rows * cols);
                if !is_n75_cells(v.as_slice()) {
                    o += 2;
                    continue;
                }
                let mut m = m0;
                m.name = Some(text("N75 Duty Cycle"));
                m.category = Some(MapCategory::TurboBoostPressureControl.display_name());
                m.unit = Some(text("%"));
                m.correction_factor = Some(12_207_000_000);
                m.y_axis_correction = Some(FIXED_ONE);
                m.x_axis_correction = Some(10_000_000_000);
                m.y_label = Some(text("rpm"));
                m.x_label = Some(text("mg/stroke"));
                m.confidence = 920;
                assert(n75_map(m, o as int, rows as int, cols as int));
                proof {
                    lemma_listed_last(maps@, m);
                }
                maps.push(m);
                o = next;
                continue;
            }
            o += 2;
        }
        maps
    }
}

// --------------------------------------------------------------- SOI limiter

/// The SOI limiter table (14 x 11) behind `[00 0E][00 0B]` at `o`: an
/// engine-speed axis from 300 ..= 600 up to 4500 ..= 5500, never decreasing;
/// an X axis from 2400 ..= 2700 up to 3400 ..= 3700, strictly increasing;
/// cells between 400 and 2000, one of them above 600.
pub open spec fn soi_limiter_table(s: Seq<u8>, o: int) -> bool {
    let y = y_axis(s, o, 14);
    let x = x_axis(s, o, 14, 11);
    let v = cells(s, o, 14, 11);
    &&& header_at(s, o, 14, 11)
    &&& table_in(s, o, 14, 11)
    &&& 300 <= y[0] <= 600
    &&& 4500 <= y[13] <= 5500
    &&& non_decreasing(y)
    &&& 2400 <= x[0] <= 2700
    &&& 3400 <= x[10] <= 3700
    &&& strictly_increasing(x)
    &&& all_between(v, 400, 2000)
    &&& any_between(v, 601, 2000)
}

pub open spec fn soi_limiter_map(m: DetectedMap, o: int) -> bool {
    &&& table_fields(m, o, 14, 11, DataType::UInt16)
    &&& has_text(m.name, "SOI Limiter"@)
    &&& has_text(m.category, category_name(MapCategory::StartOfInjection))
    &&& has_text(m.unit, "deg CrS"@)
    &&& m.correction_factor == Some(23_437_000_000i64)
    &&& m.confidence == 920
    &&& m.x_axis_correction == Some(100_000_000_000i64)
    &&& m.x_axis_offset == Some(-273_100_000_000_000i64)
    &&& m.y_axis_correction == Some(FIXED_ONE)
    &&& has_text(m.x_label, "deg CrS"@)
    &&& has_text(m.y_label, "rpm"@)
}

/// `m` is a SOI limiter of `start .. min(end, len)`, not at an address of `d`.
pub open spec fn soi_limiter_ok(s: Seq<u8>, start: int, end: int, d: Set<u32>, m: DetectedMap) -> bool {
    let o = m.address - 54;
    &&& !d.contains(m.address)
    &&& start <= o
    &&& o + 362 <= end
    &&& soi_limiter_table(s, o)
    &&& soi_limiter_map(m, o)
}

fn is_soi_limiter_table(data: &[u8], o: usize) -> (r: bool)
    requires
        o + 362 <= data@.len(),
        data@.len() + 0x10000 <= usize::MAX,
    ensures
        r == soi_limiter_table(data@, o as int),
{
    if !is_header_at(data, o, 14, 11) {
        return false;
    }
    let y = read_words(data, o + 4, 14);
    if y[0] < 300 || y[0] > 600 || y[13] < 4500 || y[13] > 5500 || !is_non_decreasing(y.as_slice()) {
        return false;
    }
    let x = read_words(data, o + 32, 11);
    if x[0] < 2400 || x[0] > 2700 || x[10] < 3400 || x[10] > 3700 || !is_strictly_increasing(x.as_slice()) {
        return false;
    }
    let v = read_words(data, o + 54, 154);
    all_in(v.as_slice(), 400, 2000) && any_in(v.as_slice(), 601, 2000)
}

impl EDC16U31Detector {
    /// The SOI limiters (14 x 11) of `start .. min(end, len)`; a table found
    /// is skipped over as a whole. The scan goes word by word from `start`,
    /// so every other table on that alignment is reported or lies within one
    /// reported before it.
    pub fn detect_soi_limiter_maps(&self, data: &[u8], start: usize, end: usize, detected: &HashSet<u32>) -> (r: Vec<
        DetectedMap,
    >)
        requires
            data@.len() <= u32::MAX,
            data@.len() + 0x10000 <= usize::MAX,
        ensures
            forall|k: int| 0 <= k < r@.len() ==> soi_limiter_ok(data@, start as int, end as int, detected@, #[trigger] r@[k]),
            forall|o: int|
                start <= o && (o - start) % 2 == 0 && o + 362 <= end && #[trigger] soi_limiter_table(data@, o)
                    && !detected@.contains((o + 54) as u32) ==> table_claimed(r@, o),
    {
        let ghost s = data@;
        let len = data.len();
        let lim = if end < len { end } else { len };
        let mut maps: Vec<DetectedMap> = Vec::new();
        let mut o = start;
        while o <= lim && lim - o >= 362
            invariant
                s == data@,
                len == s.len(),
                len <= u32::MAX,
                len + 0x10000 <= usize::MAX,
                lim <= len,
                lim <= end,
                start <= o,
                (o - start) % 2 == 0,
                forall|k: int| 0 <= k < maps@.len() ==> soi_limiter_ok(s, start as int, end as int, detected@, #[trigger] maps@[k]),
                forall|q: int|
                    start <= q < o && (q - start) % 2 == 0 && q + 362 <= end && #[trigger] soi_limiter_table(s, q)
                        && !detected@.contains((q + 54) as u32) ==> table_claimed(maps@, q),
            decreases len - o,
        {
            if is_soi_limiter_table(data, o) && !detected.contains(&((o + 54) as u32)) {
                let mut m = table_entry(o, 14, 11, DataType::UInt16);
                m.name = Some(text("SOI Limiter"));
                m.category = Some(MapCategory::StartOfInjection.display_name());
                m.unit = Some(text("deg CrS"));
                m.correction_factor = Some(23_437_000_000);
                m.confidence = 920;
                m.x_axis_correction = Some(100_000_000_000);
                m.x_axis_offset = Some(-273_100_000_000_000);
                m.y_axis_correction = Some(FIXED_ONE);
                m.x_label = Some(text("deg CrS"));
                m.y_label = Some(text("rpm"));
                let ghost before = maps@;
                proof {
                    lemma_claimed_grow(before, m);
                }
                maps.push(m);
                proof {
                    assert forall|q: int| o <= q < o + 362 implies table_claimed(maps@, q) by {
                        assert(maps@[before.len() as int] == m);
                        assert(claims(m, q));
                    }
                }
                o = o + 362;
                continue;
            }
            o += 2;
        }
        maps
    }
}

} // verus!
