//! The small smoke limiter by lambda maps (2 x 2 up to 3 x 3): a header
//! `[00 rows][00 cols]`, an engine-speed axis, an air-mass axis, and cells
//! that are mostly in the 500 ..= 5000 range.
use vstd::prelude::*;
use std::collections::HashSet;
use crate::bytes::{be16_seq, read_words};
use crate::model::{DataType, DetectedMap, MapDimensions, has_text, text, FIXED_ONE};
use crate::words::{all_between, all_in, count_between, count_in, is_non_decreasing, non_decreasing};
use super::{data_section, get_data_section_range, EDC16U31Detector};

verus! {

broadcast use vstd::std_specs::hash::group_hash_axioms;

/// The header offsets that are scanned in an image of `len` bytes: every
/// second byte from the start of the data section to 100 bytes before its end.
pub open spec fn lambda_scanned(len: int, o: int) -> bool {
    let (start, end) = data_section(len);
    start <= o && o + 100 < end && (o - start) % 2 == 0
}

/// Rows and columns announced by the header at `o`.
pub open spec fn lambda_rows(s: Seq<u8>, o: int) -> int {
    s[o + 1] as int
}

pub open spec fn lambda_cols(s: Seq<u8>, o: int) -> int {
    s[o + 3] as int
}

/// Address of the cells of the table whose header is at `o`.
pub open spec fn lambda_cells_at(s: Seq<u8>, o: int) -> int {
    o + 4 + 2 * lambda_rows(s, o) + 2 * lambda_cols(s, o)
}

/// The header at `o` announces a small table (2 or 3 rows and columns) that
/// fits in the image.
pub open spec fn lambda_header(s: Seq<u8>, o: int) -> bool {
    let rows = lambda_rows(s, o);
    let cols = lambda_cols(s, o);
    &&& 0 <= o
    &&& o + 4 <= s.len()
    &&& s[o] == 0
    &&& s[o + 2] == 0
    &&& 2 <= rows <= 3
    &&& 2 <= cols <= 3
    &&& lambda_cells_at(s, o) + 2 * rows * cols <= s.len()
}

/// The axes and cells of the table at `o` are those of a smoke limiter by
/// lambda: engine speed 500 ..= 5000 rising by at least 500 (two rows) or
/// 1000 (three rows), air mass 2000 ..= 15000 ending at 5000 or more and
/// rising by at least 2000, and at least 80 % of the cells in 500 ..= 5000.
pub open spec fn lambda_table(s: Seq<u8>, o: int) -> bool {
    let rows = lambda_rows(s, o);
    let cols = lambda_cols(s, o);
    let y = be16_seq(s, o + 4, rows);
    let x = be16_seq(s, o + 4 + 2 * rows, cols);
    let cells = be16_seq(s, lambda_cells_at(s, o), rows * cols);
    &&& lambda_header(s, o)
    &&& all_between(y, 500, 5000)
    &&& non_decreasing(y)
    &&& y[rows - 1] - y[0] >= (if rows == 2 { 500int } else { 1000int })
    &&& all_between(x, 2000, 15000)
    &&& non_decreasing(x)
    &&& x[cols - 1] >= 5000
    &&& x[cols - 1] - x[0] >= 2000
    &&& count_between(cells, 500, 5000) >= rows * cols * 80 / 100
}

/// A smoke limiter by lambda is reported for the header at `o`.
pub open spec fn lambda_wanted(s: Seq<u8>, d: Set<u32>, o: int) -> bool {
    &&& lambda_scanned(s.len() as int, o)
    &&& lambda_table(s, o)
    &&& !d.contains(lambda_cells_at(s, o) as u32)
}

/// `m` describes the smoke limiter by lambda whose header is at `o`.
pub open spec fn lambda_map(s: Seq<u8>, m: DetectedMap, o: int) -> bool {
    let rows = lambda_rows(s, o);
    let cols = lambda_cols(s, o);
    &&& m.address == lambda_cells_at(s, o)
    &&& m.size == 2 * rows * cols
    &&& m.dimensions == MapDimensions::TwoDimensional { rows: rows as usize, cols: cols as usize }
    &&& m.data_type == DataType::Int16
    &&& has_text(m.name, "Smoke Limiter by Lambda"@)
    &&& has_text(m.category, "Smoke Limiter"@)
    &&& m.subcategory is None
    &&& has_text(m.unit, "-"@)
    &&& m.description is None
    &&& m.correction_factor == Some(1_000_000_000i64)
    &&& m.offset == Some(0i64)
    &&& m.confidence == 850
    &&& m.y_axis_address == Some((o + 4) as u32)
    &&& has_text(m.y_label, "rpm"@)
    &&& m.y_axis_correction == Some(FIXED_ONE)
    &&& m.y_axis_offset == Some(0i64)
    &&& m.x_axis_address == Some((o + 4 + 2 * rows) as u32)
    &&& has_text(m.x_label, "mg/stroke"@)
    &&& m.x_axis_correction == Some(100_000_000_000i64)
    &&& m.x_axis_offset == Some(0i64)
    &&& m.y_axis_inverted is None
    &&& m.is_little_endian is None
}

/// Header offset of a reported map (its engine-speed axis is 4 bytes after it).
pub open spec fn header_of(m: DetectedMap) -> int {
    m.y_axis_address->0 - 4
}

fn lambda_entry(o: usize, rows: usize, cols: usize) -> (m: DetectedMap)
    requires
        o + 4 + 2 * rows + 2 * cols + 2 * rows * cols <= u32::MAX,
        2 <= rows <= 3,
        2 <= cols <= 3,
    ensures
        m.address == o + 4 + 2 * rows + 2 * cols,
        m.size == 2 * rows * cols,
        m.dimensions == (MapDimensions::TwoDimensional { rows, cols }),
        m.data_type == DataType::Int16,
        has_text(m.name, "Smoke Limiter by Lambda"@),
        has_text(m.category, "Smoke Limiter"@),
        m.subcategory is None,
        has_text(m.unit, "-"@),
        m.description is None,
        m.correction_factor == Some(1_000_000_000i64),
        m.offset == Some(0i64),
        m.confidence == 850,
        m.y_axis_address == Some((o + 4) as u32),
        has_text(m.y_label, "rpm"@),
        m.y_axis_correction == Some(FIXED_ONE),
        m.y_axis_offset == Some(0i64),
        m.x_axis_address == Some((o + 4 + 2 * rows) as u32),
        has_text(m.x_label, "mg/stroke"@),
        m.x_axis_correction == Some(100_000_000_000i64),
        m.x_axis_offset == Some(0i64),
        m.y_axis_inverted is None,
        (m.is_little_endian is None),
{
    assert(rows * cols <= 9) by (nonlinear_arith)
        requires
            rows <= 3,
            cols <= 3,
    ;
    let n = rows * cols;
    assert(2 * n == 2 * rows * cols) by (nonlinear_arith)
        requires
            n == rows * cols,
    ;
    let ys = o + 4;
    let xs = ys + 2 * rows;
    let mut m = DetectedMap::new(
        (xs + 2 * cols) as u32,
        2 * n,
        MapDimensions::TwoDimensional { rows, cols },
        DataType::Int16,
    );
    m.name = Some(text("Smoke Limiter by Lambda"));
    m.category = Some(text("Smoke Limiter"));
    m.unit = Some(text("-"));
    m.correction_factor = Some(1_000_000_000);
    m.offset = Some(0);
    m.confidence = 850;
    m.y_axis_address = Some(ys as u32);
    m.y_label = Some(text("rpm"));
    m.y_axis_correction = Some(FIXED_ONE);
    m.y_axis_offset = Some(0);
    m.x_axis_address = Some(xs as u32);
    m.x_label = Some(text("mg/stroke"));
    m.x_axis_correction = Some(100_000_000_000);
    m.x_axis_offset = Some(0);
    m
}

/// Whether the header at `o` starts a smoke limiter by lambda table.
fn is_lambda_table(data: &[u8], o: usize) -> (r: bool)
    requires
        o + 4 <= data@.len(),
        data@.len() <= u32::MAX,
        data@.len() + 0x10000 <= usize::MAX,
    ensures
        r == lambda_table(data@, o as int),
{
    let ghost s = data@;
    if data[o] != 0 || data[o + 2] != 0 {
        return false;
    }
    let rows = data[o + 1] as usize;
    let cols = data[o + 3] as usize;
    if rows < 2 || rows > 3 || cols < 2 || cols > 3 {
        return false;
    }
    assert(rows * cols <= 9) by (nonlinear_arith)
        requires
            rows <= 3,
            cols <= 3,
    ;
    let n = rows * cols;
    assert(2 * n == 2 * rows * cols) by (nonlinear_arith)
        requires
            n == rows * cols,
    ;
    let ys = o + 4;
    let xs = ys + 2 * rows;
    let ds = xs + 2 * cols;
    if ds > data.len() || data.len() - ds < 2 * n {
        return false;
    }
    assert(lambda_header(s, o as int));
    let y = read_words(data, ys, rows);
    let y_span_min: u16 = if rows == 2 { 500 } else { 1000 };
    if !all_in(y.as_slice(), 500, 5000) || !is_non_decreasing(y.as_slice()) || y[rows - 1] < y[0]
        || y[rows - 1] - y[0] < y_span_min {
        return false;
    }
    let x = read_words(data, xs, cols);
    if !all_in(x.as_slice(), 2000, 15000) || !is_non_decreasing(x.as_slice()) || x[cols - 1] < 5000
        || x[cols - 1] < x[0] || x[cols - 1] - x[0] < 2000 {
        return false;
    }
    let cells = read_words(data, ds, n);
    let valid = count_in(cells.as_slice(), 500, 5000);
    valid >= n * 80 / 100
}

impl EDC16U31Detector {
    /// The small smoke limiter by lambda maps of the data section, in the
    /// order of their headers; a table whose cells are at an address of
    /// `detected` is left out.
    pub fn detect_small_lambda_maps(&self, data: &[u8], detected: &HashSet<u32>) -> (r: Vec<DetectedMap>)
        requires
            data@.len() <= u32::MAX,
            data@.len() + 0x10000 <= usize::MAX,
        ensures
            forall|k: int|
                0 <= k < r@.len() ==> {
                    let m = #[trigger] r@[k];
                    &&& m.y_axis_address is Some
                    &&& lambda_wanted(data@, detected@, header_of(m))
                    &&& lambda_map(data@, m, header_of(m))
                },
            forall|i: int, j: int|
                0 <= i < j < r@.len() ==> header_of(#[trigger] r@[i]) < header_of(#[trigger] r@[j]),
            forall|o: int|
                #[trigger] lambda_wanted(data@, detected@, o) ==> exists|k: int|
                    0 <= k < r@.len() && header_of(#[trigger] r@[k]) == o,
    {
        let ghost s = data@;
        let ghost d = detected@;
        let (start, end) = get_data_section_range(data.len());
        let stop = if end >= 100 { end - 100 } else { 0 };
        let mut maps: Vec<DetectedMap> = Vec::new();
        let mut o = start;
        while o < stop
            invariant
                s == data@,
                d == detected@,
                s.len() <= u32::MAX,
                s.len() + 0x10000 <= usize::MAX,
                start == data_section(s.len() as int).0,
                end == data_section(s.len() as int).1,
                end <= s.len(),
                stop == (if end >= 100 { end - 100 } else { 0 }),
                start <= o,
                (o - start) % 2 == 0,
                forall|k: int|
                    0 <= k < maps@.len() ==> {
                        let m = #[trigger] maps@[k];
                        &&& m.y_axis_address is Some
                        &&& header_of(m) < o
                        &&& lambda_wanted(s, d, header_of(m))
                        &&& lambda_map(s, m, header_of(m))
                    },
                forall|i: int, j: int|
                    0 <= i < j < maps@.len() ==> header_of(#[trigger] maps@[i]) < header_of(#[trigger] maps@[j]),
                forall|p: int|
                    #[trigger] lambda_wanted(s, d, p) && p < o ==> exists|k: int|
                        0 <= k < maps@.len() && header_of(#[trigger] maps@[k]) == p,
            decreases stop + 2 - o,
        {
            let ghost before = maps@;
            if is_lambda_table(data, o) {
                let rows = data[o + 1] as usize;
                let cols = data[o + 3] as usize;
                let addr = (o + 4 + 2 * rows + 2 * cols) as u32;
                if !detected.contains(&addr) {
                    let m = lambda_entry(o, rows, cols);
                    maps.push(m);
                    assert(header_of(maps@[maps@.len() - 1]) == o);
                }
            }
            proof {
                assert forall|p: int| #[trigger] lambda_wanted(s, d, p) && p < o + 2 implies exists|k: int|
                    0 <= k < maps@.len() && header_of(#[trigger] maps@[k]) == p by {
                    if p < o {
                        let k = choose|k: int| 0 <= k < before.len() && header_of(#[trigger] before[k]) == p;
                        assert(maps@[k] == before[k]);
                    } else if p == o {
                        assert(header_of(maps@[maps@.len() - 1]) == p);
                    } else {
                        assert((p - start) % 2 == 0);
                        assert(false);
                    }
                }
            }
            o += 2;
        }
        proof {
            assert forall|p: int| #[trigger] lambda_wanted(s, d, p) implies exists|k: int|
                0 <= k < maps@.len() && header_of(#[trigger] maps@[k]) == p by {
                assert(p < o);
            }
        }
        maps
    }
}

} // verus!
