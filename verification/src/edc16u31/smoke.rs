//! Smoke limiters: the 16-row IQ limit maps by boost pressure (MAP), by air
//! mass (MAF) and by lambda, and the header-less 8 x 13 limiter by MAP.
use vstd::prelude::*;
use std::collections::HashSet;
use crate::bytes::{be16, be16_seq, bytes_at, matches_bytes, read_u16, read_words};
use crate::model::{DataType, DetectedMap, MapDimensions, has_text, text, FIXED_ONE};
use crate::words::{
    all_between, all_in, any_between, any_in, count_between, count_in, is_non_decreasing,
    is_strictly_increasing, non_decreasing, strictly_increasing, lemma_count_bound,
};
use super::egr::gap;
use super::{EDC16U31Detector, data_section, get_data_section_range};

verus! {

broadcast use vstd::std_specs::hash::group_hash_axioms;

/// The RPM axis of a 16-row smoke limiter: all in 300 to 6000, rising up to
/// its fourteenth point and spanning at least 3000 rpm.
pub open spec fn smoke_rpm_ok(y: Seq<u16>) -> bool {
    &&& y.len() == 16
    &&& all_between(y, 300, 6000)
    &&& non_decreasing(y.take(14))
    &&& y[15] >= y[0] + 3000
}

/// The header of a 16-row smoke limiter is at `o` (inside the scanned part
/// of the data section); gives its number of columns.
pub open spec fn smoke_header(s: Seq<u8>, o: int) -> Option<int> {
    let (st, en) = data_section(s.len() as int);
    if st <= o && o + 600 < en && (o - st) % 2 == 0 && s[o] == 0 && s[o + 1] == 0x10 && s[o + 2] == 0 && (
    s[o + 3] == 11 || s[o + 3] == 12 || s[o + 3] == 13) && smoke_rpm_ok(be16_seq(s, o + 4, 16))
        && non_decreasing(be16_seq(s, o + 36, s[o + 3] as int)) {
        Some(s[o + 3] as int)
    } else {
        None
    }
}

/// The X axis of the limiter at `o` is a boost pressure axis.
pub open spec fn boost_like(x: Seq<u16>) -> bool {
    x[0] <= 1000 && x[x.len() - 1] <= 3000
}

/// The X axis of the limiter at `o` is an air mass axis.
pub open spec fn air_like(x: Seq<u16>) -> bool {
    x[0] >= 2000 && x[x.len() - 1] >= 5000 && 8500 <= x[x.len() - 1] <= 12500
}

/// The fields of an explicit limiter whose header is at `o`.
pub open spec fn smoke_fields(m: DetectedMap, o: int, cols: int) -> bool {
    &&& m.address == o + 36 + 2 * cols
    &&& m.size == 32 * cols
    &&& m.dimensions == MapDimensions::TwoDimensional { rows: 16, cols: cols as usize }
    &&& m.data_type == DataType::Int16
    &&& has_text(m.category, "Smoke Limiter"@)
    &&& m.offset == Some(0i64)
    &&& m.confidence == 920
    &&& m.y_axis_address == Some((o + 4) as u32)
    &&& has_text(m.y_label, "rpm"@)
    &&& m.y_axis_correction == Some(FIXED_ONE)
    &&& m.y_axis_offset == Some(0i64)
    &&& m.x_axis_address == Some((o + 36) as u32)
    &&& m.x_axis_offset == Some(0i64)
}

/// An explicit limiter with its header at `o`, named by its X axis.
pub open spec fn explicit_smoke(s: Seq<u8>, m: DetectedMap, o: int) -> bool {
    match smoke_header(s, o) {
        Some(cols) => {
            let x = be16_seq(s, o + 36, cols);
            let cells = be16_seq(s, o + 36 + 2 * cols, 16 * cols);
            &&& smoke_fields(m, o, cols)
            &&& {
                ||| (boost_like(x) && has_text(m.name, "Smoke Limiter by MAP"@) && has_text(m.unit, "mg/stroke"@)
                    && m.correction_factor == Some(10_000_000_000i64) && has_text(m.x_label, "mbar"@)
                    && m.x_axis_correction == Some(FIXED_ONE))
                ||| (!boost_like(x) && air_like(x) && has_text(m.name, "Smoke Limiter by MAF"@)
                    && has_text(m.unit, "mg/stroke"@) && m.correction_factor == Some(10_000_000_000i64)
                    && has_text(m.x_label, "mg/stroke"@) && m.x_axis_correction == Some(FIXED_ONE))
                ||| (!boost_like(x) && air_like(x) && has_text(m.name, "Smoke Limiter by Lambda"@)
                    && count_between(cells, 500, 2000) >= (16 * cols * 70) / 100 && has_text(m.unit, "-"@)
                    && m.correction_factor == Some(1_000_000_000i64) && has_text(m.x_label, "mg/stroke"@)
                    && m.x_axis_correction == Some(100_000_000_000i64))
            }
        },
        None => false,
    }
}

/// The anchor curve `00 02 00 02 00 00 .. [min] [max]` of a header-less limiter.
pub open spec fn smoke_anchor(s: Seq<u8>, a: int) -> bool {
    &&& bytes_at(s, a, seq![0x00u8, 0x02, 0x00, 0x02, 0x00, 0x00])
    &&& a + 12 <= s.len()
    &&& 500 <= be16(s, a + 8) <= 1500
    &&& be16(s, a + 8) < be16(s, a + 10) <= 3200
}

/// The axes behind the anchor at `a` are those of a header-less 8 x 13
/// limiter by MAP.
pub open spec fn implicit_layout(s: Seq<u8>, a: int) -> bool {
    let y = be16_seq(s, a + 20, 8);
    let x = be16_seq(s, a + 36, 13);
    &&& smoke_anchor(s, a)
    &&& a + 270 <= s.len()
    &&& 1500 <= y[0] <= 3500
    &&& 4000 <= y[7] <= 6300
    &&& strictly_increasing(y)
    &&& x[0] <= 1100
    &&& x[12] <= 3200
    &&& strictly_increasing(x)
}

/// A header-less 8 x 13 limiter by MAP behind the anchor at `a`.
pub open spec fn implicit_smoke(s: Seq<u8>, m: DetectedMap, a: int) -> bool {
    &&& implicit_layout(s, a)
    &&& m.address == a + 62
    &&& m.size == 208
    &&& m.dimensions == MapDimensions::TwoDimensional { rows: 8, cols: 13 }
    &&& m.data_type == DataType::Int16
    &&& has_text(m.name, "Smoke Limiter by MAP"@)
    &&& has_text(m.category, "Smoke Limiter"@)
    &&& has_text(m.unit, "mg/stroke"@)
    &&& m.correction_factor == Some(10_000_000_000i64)
    &&& m.offset == Some(0i64)
    &&& m.confidence == 900
    &&& m.y_axis_address == Some((a + 20) as u32)
    &&& has_text(m.y_label, "rpm"@)
    &&& m.y_axis_correction == Some(FIXED_ONE)
    &&& m.y_axis_offset == Some(0i64)
    &&& m.x_axis_address == Some((a + 36) as u32)
    &&& has_text(m.x_label, "mbar"@)
    &&& m.x_axis_correction == Some(FIXED_ONE)
    &&& m.x_axis_offset == Some(0i64)
}

/// Map `m` is a smoke limiter of the image, not at an address of `d`.
pub open spec fn smoke_ok(s: Seq<u8>, d: Set<u32>, m: DetectedMap) -> bool {
    &&& !d.contains(m.address)
    &&& ((exists|o: int| #[trigger] explicit_smoke(s, m, o)) || (exists|a: int| #[trigger] implicit_smoke(s, m, a)))
}

/// Where the smoke limiter by MAP sits after a limiter by MAF: an explicit
/// 16-row header with 11 to 13 columns, or the anchor of a header-less one.
pub open spec fn smoke_slot(s: Seq<u8>, off: int) -> bool {
    &&& off + 12 <= s.len()
    &&& ((s[off] == 0 && s[off + 1] == 0x10 && s[off + 2] == 0 && 0x0B <= s[off + 3] <= 0x0D)
        || smoke_anchor(s, off))
}

/// Whether a smoke limiter by MAP sits at `off`.
pub fn has_smoke_map_slot(data: &[u8], off: usize) -> (r: bool)
    ensures
        r == smoke_slot(data@, off as int),
{
    if off > data.len() || data.len() - off < 12 {
        return false;
    }
    if data[off] == 0x00 && data[off + 1] == 0x10 && data[off + 2] == 0x00 && 0x0B <= data[off + 3]
        && data[off + 3] <= 0x0D {
        return true;
    }
    anchor_at(data, off)
}

fn anchor_at(data: &[u8], a: usize) -> (r: bool)
    ensures
        r == smoke_anchor(data@, a as int),
{
    if a > data.len() || data.len() - a < 12 {
        return false;
    }
    let pat: [u8; 6] = [0x00, 0x02, 0x00, 0x02, 0x00, 0x00];
    assert(pat@ =~= seq![0x00u8, 0x02, 0x00, 0x02, 0x00, 0x00]);
    if !matches_bytes(data, a, &pat) {
        return false;
    }
    let mn = read_u16(data, a + 8);
    let mx = read_u16(data, a + 10);
    500 <= mn && mn <= 1500 && mn < mx && mx <= 3200
}

/// The header-less 8 x 13 limiter by MAP behind the anchor at `anchor`.
pub fn parse_implicit_smoke_map(data: &[u8], anchor: usize, detected: &HashSet<u32>) -> (r: Option<DetectedMap>)
    requires
        data@.len() <= u32::MAX,
    ensures
        r matches Some(m) ==> implicit_smoke(data@, m, anchor as int) && !detected@.contains(m.address),
        r is None <==> !(implicit_layout(data@, anchor as int) && !detected@.contains((anchor + 62) as u32)),
{
    let len = data.len();
    if anchor > len || len - anchor < 270 {
        return None;
    }
    if !anchor_at(data, anchor) {
        return None;
    }
    let y = read_words(data, anchor + 20, 8);
    if y[0] < 1500 || y[0] > 3500 || y[7] < 4000 || y[7] > 6300 || !is_strictly_increasing(y.as_slice()) {
        return None;
    }
    let x = read_words(data, anchor + 36, 13);
    if x[0] > 1100 || x[12] > 3200 || !is_strictly_increasing(x.as_slice()) {
        return None;
    }
    let d0 = anchor + 62;
    if detected.contains(&(d0 as u32)) {
        return None;
    }
    let mut map = DetectedMap::new(d0 as u32, 208, MapDimensions::TwoDimensional { rows: 8, cols: 13 }, DataType::Int16);
    map.name = Some(text("Smoke Limiter by MAP"));
    map.category = Some(text("Smoke Limiter"));
    map.unit = Some(text("mg/stroke"));
    map.correction_factor = Some(10_000_000_000);
    map.offset = Some(0);
    map.confidence = 900;
    map.y_axis_address = Some((anchor + 20) as u32);
    map.y_label = Some(text("rpm"));
    map.y_axis_correction = Some(FIXED_ONE);
    map.y_axis_offset = Some(0);
    map.x_axis_address = Some((anchor + 36) as u32);
    map.x_label = Some(text("mbar"));
    map.x_axis_correction = Some(FIXED_ONE);
    map.x_axis_offset = Some(0);
    Some(map)
}

/// The word at `off`, or 0 past the end of the image.
pub open spec fn word_at(s: Seq<u8>, off: int) -> u16 {
    if 0 <= off && off + 2 <= s.len() {
        be16(s, off)
    } else {
        0
    }
}

/// The rows and columns of a map (a curve has one column).
pub open spec fn map_shape(m: DetectedMap) -> (int, int) {
    match m.dimensions {
        MapDimensions::TwoDimensional { rows, cols } => (rows as int, cols as int),
        MapDimensions::OneDimensional { length } => (length as int, 1),
    }
}

/// The first and last values of the Y and X axes of a map (0 for an axis
/// it does not have).
pub open spec fn axis_ends_of(s: Seq<u8>, m: DetectedMap) -> (u16, u16, u16, u16) {
    let (rows, cols) = map_shape(m);
    let ya = match m.y_axis_address {
        Some(a) => a as int,
        None => 0,
    };
    let xa = match m.x_axis_address {
        Some(a) => a as int,
        None => 0,
    };
    (
        word_at(s, ya),
        if rows >= 1 { word_at(s, ya + 2 * (rows - 1)) } else { 0 },
        word_at(s, xa),
        if cols >= 1 { word_at(s, xa + 2 * (cols - 1)) } else { 0 },
    )
}

/// A 16-row limiter by MAP has its header at `o`, and its address is not in `d`.
pub open spec fn map_limiter_at(s: Seq<u8>, d: Set<u32>, o: int) -> bool {
    match smoke_header(s, o) {
        Some(cols) => boost_like(be16_seq(s, o + 36, cols)) && !d.contains((o + 36 + 2 * cols) as u32),
        None => false,
    }
}

/// The address of the limiter whose header is at `o`.
pub open spec fn limiter_addr(s: Seq<u8>, o: int) -> int {
    o + 36 + 2 * (s[o + 3] as int)
}

/// The first and last values of the axes of the limiter whose header is at `o`.
pub open spec fn limiter_ends(s: Seq<u8>, o: int) -> (u16, u16, u16, u16) {
    (be16(s, o + 4), be16(s, o + 34), be16(s, o + 36), be16(s, o + 36 + 2 * (s[o + 3] as int - 1)))
}

/// One of `r` is a limiter by MAP within 0x2000 bytes of `a` whose axes
/// start and end as `e`.
pub open spec fn map_twin_listed(s: Seq<u8>, r: Seq<DetectedMap>, a: int, e: (u16, u16, u16, u16)) -> bool {
    exists|k: int|
        0 <= k < r.len() && has_text((#[trigger] r[k]).name, "Smoke Limiter by MAP"@) && gap(r[k].address as int, a)
            <= 0x2000 && axis_ends_of(s, r[k]) == e
}

/// One of `l` is a limiter by MAP at `a` whose axes start and end as `e`.
pub open spec fn exact_item(s: Seq<u8>, l: Seq<(DetectedMap, u8)>, a: int, e: (u16, u16, u16, u16)) -> bool {
    exists|j: int| 0 <= j < l.len() && (#[trigger] l[j]).1 == 0 && l[j].0.address == a && axis_ends_of(s, l[j].0) == e
}

/// One of `l` is a limiter by MAP within 0x2000 bytes of `a` whose axes
/// start and end as `e`.
pub open spec fn twin_item(s: Seq<u8>, l: Seq<(DetectedMap, u8)>, a: int, e: (u16, u16, u16, u16)) -> bool {
    exists|j: int|
        0 <= j < l.len() && (#[trigger] l[j]).1 == 0 && gap(l[j].0.address as int, a) <= 0x2000 && axis_ends_of(
            s,
            l[j].0,
        ) == e
}

/// Reads the word at `off`, or 0 past the end of the image.
fn word_or_zero(data: &[u8], off: usize) -> (r: u16)
    ensures
        r == word_at(data@, off as int),
{
    if off < data.len() && data.len() - off >= 2 {
        read_u16(data, off)
    } else {
        0
    }
}

/// The first and last values of the Y and X axes of a map.
fn axis_ends(data: &[u8], m: &DetectedMap) -> (r: (u16, u16, u16, u16))
    ensures
        r == axis_ends_of(data@, *m),
{
    let (rows, cols) = match m.dimensions {
        MapDimensions::TwoDimensional { rows, cols } => (rows, cols),
        MapDimensions::OneDimensional { length } => (length, 1),
    };
    let ya = match m.y_axis_address {
        Some(a) => a as usize,
        None => 0,
    };
    let xa = match m.x_axis_address {
        Some(a) => a as usize,
        None => 0,
    };
    assert(map_shape(*m) == (rows as int, cols as int));
    let first_y = word_or_zero(data, ya);
    let last_y = if rows >= 1 && rows - 1 <= (usize::MAX - ya) / 2 {
        word_or_zero(data, ya + (rows - 1) * 2)
    } else {
        if rows >= 1 {
            let len = data.len();
            assert(ya + 2 * (rows - 1) + 2 > len) by (nonlinear_arith)
                requires
                    rows - 1 > (usize::MAX - ya) / 2,
                    ya <= usize::MAX,
                    len <= usize::MAX,
            ;
        }
        0
    };
    let first_x = word_or_zero(data, xa);
    let last_x = if cols >= 1 && cols - 1 <= (usize::MAX - xa) / 2 {
        word_or_zero(data, xa + (cols - 1) * 2)
    } else {
        if cols >= 1 {
            let len = data.len();
            assert(xa + 2 * (cols - 1) + 2 > len) by (nonlinear_arith)
                requires
                    cols - 1 > (usize::MAX - xa) / 2,
                    xa <= usize::MAX,
                    len <= usize::MAX,
            ;
        }
        0
    };
    (first_y, last_y, first_x, last_x)
}

/// The number of columns of the 16-row limiter whose header is at `o`, if
/// there is one and its address is not in `detected`.
fn limiter_header_at(data: &[u8], o: usize, detected: &HashSet<u32>) -> (r: Option<usize>)
    requires
        data_section(data@.len() as int).0 <= o,
        o + 600 < data_section(data@.len() as int).1,
        (o - data_section(data@.len() as int).0) % 2 == 0,
        data_section(data@.len() as int).1 <= data@.len() <= u32::MAX,
    ensures
        match r {
            Some(c) => smoke_header(data@, o as int) == Some(c as int) && !detected@.contains(
                (o + 36 + 2 * c) as u32,
            ),
            None => !(smoke_header(data@, o as int) is Some && !detected@.contains(
                (o + 36 + 2 * (data@[o + 3] as int)) as u32,
            )),
        },
{
    let ghost s = data@;
    if data[o] != 0x00 || data[o + 1] != 0x10 || data[o + 2] != 0x00 {
        return None;
    }
    let cols = data[o + 3] as usize;
    if cols != 11 && cols != 12 && cols != 13 {
        return None;
    }
    let data_addr = o + 36 + cols * 2;
    if detected.contains(&(data_addr as u32)) {
        return None;
    }
    let y = read_words(data, o + 4, 16);
    if !all_in(y.as_slice(), 300, 6000) {
        return None;
    }
    let head = vstd::slice::slice_subrange(y.as_slice(), 0, 14);
    assert(head@ =~= y@.take(14));
    if !is_non_decreasing(head) {
        return None;
    }
    if (y[15] as u32) < (y[0] as u32) + 3000 {
        return None;
    }
    let x = read_words(data, o + 36, cols);
    if !is_non_decreasing(x.as_slice()) {
        return None;
    }
    assert(smoke_header(s, o as int) == Some(cols as int));
    Some(cols)
}

impl EDC16U31Detector {
    /// The smoke limiters: each 16-row limiter of the data section, named by
    /// its X axis (boost pressure: by MAP; air mass: by MAF, or by lambda for
    /// the later tables whose cells look like lambda values), and the
    /// header-less 8 x 13 limiter by MAP that follows a limiter by MAF; in
    /// address order, leaving out a limiter (other than by lambda) whose
    /// axes repeat one of the five kept before it within 0x2000 bytes, and
    /// the addresses in `detected`.
    #[verifier::rlimit(60)]
    pub fn detect_iq_limit_maps_by_signature(&self, data: &[u8], detected: &HashSet<u32>) -> (r: Vec<
        DetectedMap,
    >)
        requires
            data@.len() <= u32::MAX,
            data@.len() + 0x10000 <= usize::MAX,
        ensures
            forall|k: int| 0 <= k < r@.len() ==> smoke_ok(data@, detected@, #[trigger] r@[k]),
            forall|i: int, j: int| 0 <= i < j < r@.len() ==> (#[trigger] r@[i]).address <= (#[trigger] r@[j]).address,
            forall|o: int|
                #[trigger] map_limiter_at(data@, detected@, o) ==> map_twin_listed(
                    data@,
                    r@,
                    limiter_addr(data@, o),
                    limiter_ends(data@, o),
                ),
    {
        let ghost s = data@;
        let ghost d = detected@;
        let len = data.len();
        let mut found: Vec<(DetectedMap, u8)> = Vec::new();
        let mut maf_found = false;
        let (scan_start, scan_end) = get_data_section_range(len);
        let hi = if scan_end >= 600 { scan_end - 600 } else { 0 };
        let mut offset = scan_start;
        while offset < hi
            invariant
                s == data@,
                d == detected@,
                len == s.len(),
                len <= u32::MAX,
                len + 0x10000 <= usize::MAX,
                scan_start == data_section(len as int).0,
                scan_end == data_section(len as int).1,
                scan_end <= len,
                hi == (if scan_end >= 600 { scan_end - 600 } else { 0int }),
                scan_start <= offset,
                (offset - scan_start) % 2 == 0,
                forall|k: int|
                    0 <= k < found@.len() ==> smoke_ok(s, d, (#[trigger] found@[k]).0) && found@[k].0.address + 500
                        <= len && found@[k].0.size <= 416,
                forall|k: int| 0 <= k < found@.len() && (#[trigger] found@[k]).1 == 0 ==> has_text(found@[k].0.name, "Smoke Limiter by MAP"@),
                forall|q: int|
                    q < offset && #[trigger] map_limiter_at(s, d, q) ==> exact_item(s, found@, limiter_addr(s, q), limiter_ends(s, q)),
            decreases hi + 2 - offset,
        {
            let ghost o = offset as int;
            let cols = match limiter_header_at(data, offset, detected) {
                Some(c) => c,
                None => {
                    offset += 2;
                    continue;
                },
            };
            let y_addr = offset + 4;
            let x_addr = y_addr + 32;
            let data_addr = x_addr + cols * 2;
            let data_size = 32 * cols;
            let x = read_words(data, x_addr, cols);
            let first_x = x[0];
            let last_x = x[cols - 1];
            let kind: u8;
            if first_x <= 1000 && last_x <= 3000 {
                kind = 0;
            } else if first_x >= 2000 && last_x >= 5000 {
                if last_x < 8500 || last_x > 12500 {
                    offset += 2;
                    continue;
                }
                let total = 16 * cols;
                let cells = read_words(data, data_addr, total);
                let big = any_in(cells.as_slice(), 2501, 65535);
                let high_iq = count_in(cells.as_slice(), 2001, 8000);
                let pair = has_smoke_map_slot(data, data_addr + data_size + 0xE0);
                if pair || big || high_iq > total * 10 / 100 {
                    kind = 1;
                    maf_found = true;
                } else if !maf_found && last_x <= 11000 {
                    kind = 1;
                    maf_found = true;
                } else {
                    kind = 2;
                }
                if kind == 2 {
                    let valid = count_in(cells.as_slice(), 500, 2000);
                    if valid < total * 70 / 100 {
                        offset += 2;
                        continue;
                    }
                }
            } else {
                offset += 2;
                continue;
            }
            let mut map = DetectedMap::new(
                data_addr as u32,
                data_size,
                MapDimensions::TwoDimensional { rows: 16, cols },
                DataType::Int16,
            );
            map.name = Some(
                if kind == 0 {
                    text("Smoke Limiter by MAP")
                } else if kind == 1 {
                    text("Smoke Limiter by MAF")
                } else {
                    text("Smoke Limiter by Lambda")
                },
            );
            map.category = Some(text("Smoke Limiter"));
            if kind == 2 {
                map.unit = Some(text("-"));
                map.correction_factor = Some(1_000_000_000);
            } else {
                map.unit = Some(text("mg/stroke"));
                map.correction_factor = Some(10_000_000_000);
            }
            map.offset = Some(0);
            map.confidence = 920;
            map.y_axis_address = Some(y_addr as u32);
            map.y_label = Some(text("rpm"));
            map.y_axis_correction = Some(FIXED_ONE);
            map.y_axis_offset = Some(0);
            map.x_axis_address = Some(x_addr as u32);
            map.x_label = Some(if kind == 0 { text("mbar") } else { text("mg/stroke") });
            map.x_axis_correction = Some(if kind == 2 { 100_000_000_000 } else { FIXED_ONE });
            map.x_axis_offset = Some(0);
            assert(explicit_smoke(s, map, o));
            let ghost before = found@;
            found.push((map, kind));
            proof {
                assert(found@[before.len() as int] == (map, kind));
                if kind == 0 {
                    assert(boost_like(x@));
                    assert(axis_ends_of(s, map) == limiter_ends(s, o));
                }
                assert forall|q: int|
                    q < offset + 2 && #[trigger] map_limiter_at(s, d, q) implies exact_item(
                    s,
                    found@,
                    limiter_addr(s, q),
                    limiter_ends(s, q),
                ) by {
                    if q < offset {
                        let j = choose|j: int|
                            0 <= j < before.len() && (#[trigger] before[j]).1 == 0 && before[j].0.address == limiter_addr(
                                s,
                                q,
                            ) && axis_ends_of(s, before[j].0) == limiter_ends(s, q);
                        assert(found@[j] == before[j]);
                    } else if q == o {
                        assert(found@[before.len() as int].1 == 0);
                    }
                }
            }
            offset += 2;
        }
        assert forall|q: int| #[trigger] map_limiter_at(s, d, q) implies exact_item(
            s,
            found@,
            limiter_addr(s, q),
            limiter_ends(s, q),
        ) by {
            assert(q < offset);
        }
        let mut implicit: Vec<DetectedMap> = Vec::new();
        let mut k: usize = 0;
        while k < found.len()
            invariant
                s == data@,
                d == detected@,
                len == s.len(),
                len <= u32::MAX,
                len + 0x10000 <= usize::MAX,
                k <= found@.len(),
                forall|j: int|
                    0 <= j < found@.len() ==> smoke_ok(s, d, (#[trigger] found@[j]).0) && found@[j].0.address + 500
                        <= len && found@[j].0.size <= 416,
                forall|j: int| 0 <= j < implicit@.len() ==> smoke_ok(s, d, #[trigger] implicit@[j]),
                forall|j: int| 0 <= j < implicit@.len() ==> has_text((#[trigger] implicit@[j]).name, "Smoke Limiter by MAP"@),
            decreases found.len() - k,
        {
            if found[k].1 == 1 {
                let anchor = found[k].0.address as usize + found[k].0.size + 0xE0;
                match parse_implicit_smoke_map(data, anchor, detected) {
                    Some(imap) => {
                        let a = imap.address;
                        let mut seen = false;
                        let mut j: usize = 0;
                        while j < found.len()
                            invariant
                                j <= found@.len(),
                            decreases found.len() - j,
                        {
                            if found[j].0.address == a {
                                seen = true;
                            }
                            j += 1;
                        }
                        let mut j: usize = 0;
                        while j < implicit.len()
                            invariant
                                j <= implicit@.len(),
                            decreases implicit.len() - j,
                        {
                            if implicit[j].address == a {
                                seen = true;
                            }
                            j += 1;
                        }
                        if !seen {
                            implicit.push(imap);
                        }
                    },
                    None => {},
                }
            }
            k += 1;
        }
        while implicit.len() > 0
            invariant
                forall|j: int| 0 <= j < found@.len() ==> smoke_ok(s, d, (#[trigger] found@[j]).0),
                forall|j: int| 0 <= j < implicit@.len() ==> smoke_ok(s, d, #[trigger] implicit@[j]),
                forall|j: int| 0 <= j < implicit@.len() ==> has_text((#[trigger] implicit@[j]).name, "Smoke Limiter by MAP"@),
                forall|k: int| 0 <= k < found@.len() && (#[trigger] found@[k]).1 == 0 ==> has_text(found@[k].0.name, "Smoke Limiter by MAP"@),
                forall|q: int| #[trigger] map_limiter_at(s, d, q) ==> exact_item(s, found@, limiter_addr(s, q), limiter_ends(s, q)),
            decreases implicit.len(),
        {
            let ghost imp = implicit@;
            let m = implicit.remove(0);
            assert(m == imp[0]);
            assert forall|j: int| 0 <= j < implicit@.len() implies has_text((#[trigger] implicit@[j]).name, "Smoke Limiter by MAP"@) by {
                assert(implicit@[j] == imp[j + 1]);
            }
            let ghost before = found@;
            found.push((m, 0));
            proof {
                assert forall|q: int| #[trigger] map_limiter_at(s, d, q) implies exact_item(s, found@, limiter_addr(s, q), limiter_ends(s, q)) by {
                    let j = choose|j: int|
                        0 <= j < before.len() && (#[trigger] before[j]).1 == 0 && before[j].0.address == limiter_addr(
                            s,
                            q,
                        ) && axis_ends_of(s, before[j].0) == limiter_ends(s, q);
                    assert(found@[j] == before[j]);
                }
            }
        }
        let mut sorted: Vec<(DetectedMap, u8)> = Vec::new();
        while found.len() > 0
            invariant
                forall|j: int| 0 <= j < found@.len() ==> smoke_ok(s, d, (#[trigger] found@[j]).0),
                forall|j: int| 0 <= j < sorted@.len() ==> smoke_ok(s, d, (#[trigger] sorted@[j]).0),
                forall|i: int, j: int|
                    0 <= i < j < sorted@.len() ==> (#[trigger] sorted@[i]).0.address <= (#[trigger] sorted@[j]).0.address,
                forall|k: int| 0 <= k < found@.len() && (#[trigger] found@[k]).1 == 0 ==> has_text(found@[k].0.name, "Smoke Limiter by MAP"@),
                forall|k: int| 0 <= k < sorted@.len() && (#[trigger] sorted@[k]).1 == 0 ==> has_text(sorted@[k].0.name, "Smoke Limiter by MAP"@),
                forall|q: int|
                    #[trigger] map_limiter_at(s, d, q) ==> exact_item(s, found@, limiter_addr(s, q), limiter_ends(s, q)) || exact_item(
                        s,
                        sorted@,
                        limiter_addr(s, q),
                        limiter_ends(s, q),
                    ),
            decreases found.len(),
        {
            let ghost fold = found@;
            let item = found.remove(0);
            assert(item == fold[0]);
            let a = item.0.address;
            let mut p: usize = 0;
            while p < sorted.len() && sorted[p].0.address <= a
                invariant
                    p <= sorted@.len(),
                    forall|j: int| 0 <= j < p ==> (#[trigger] sorted@[j]).0.address <= a,
                decreases sorted.len() - p,
            {
                p += 1;
            }
            let ghost before = sorted@;
            sorted.insert(p, item);
            proof {
                assert forall|i: int, j: int|
                    0 <= i < j < sorted@.len() implies (#[trigger] sorted@[i]).0.address <= (
                    #[trigger] sorted@[j]).0.address by {
                    if j < p {
                    } else if i < p && j == p {
                    } else if i < p {
                        assert(sorted@[j] == before[j - 1]);
                        assert(before[p as int].0.address > a);
                    } else if i == p {
                        assert(sorted@[j] == before[j - 1]);
                        assert(before[p as int].0.address > a);
                    } else {
                        assert(sorted@[i] == before[i - 1]);
                        assert(sorted@[j] == before[j - 1]);
                    }
                }
                assert forall|j: int| 0 <= j < sorted@.len() implies smoke_ok(s, d, (#[trigger] sorted@[j]).0) by {
                    if j < p {
                        assert(sorted@[j] == before[j]);
                    } else if j > p {
                        assert(sorted@[j] == before[j - 1]);
                    }
                }
                assert forall|j: int| 0 <= j < sorted@.len() && (#[trigger] sorted@[j]).1 == 0 implies has_text(
                    sorted@[j].0.name,
                    "Smoke Limiter by MAP"@,
                ) by {
                    if j < p {
                        assert(sorted@[j] == before[j]);
                    } else if j > p {
                        assert(sorted@[j] == before[j - 1]);
                    }
                }
                assert forall|j: int| 0 <= j < found@.len() && (#[trigger] found@[j]).1 == 0 implies has_text(
                    found@[j].0.name,
                    "Smoke Limiter by MAP"@,
                ) by {
                    assert(found@[j] == fold[j + 1]);
                }
                assert forall|q: int| #[trigger] map_limiter_at(s, d, q) implies exact_item(s, found@, limiter_addr(s, q), limiter_ends(s, q)) || exact_item(
                    s,
                    sorted@,
                    limiter_addr(s, q),
                    limiter_ends(s, q),
                ) by {
                    let a = limiter_addr(s, q);
                    let e = limiter_ends(s, q);
                    if exact_item(s, fold, a, e) {
                        let j = choose|j: int|
                            0 <= j < fold.len() && (#[trigger] fold[j]).1 == 0 && fold[j].0.address == a && axis_ends_of(
                                s,
                                fold[j].0,
                            ) == e;
                        if j == 0 {
                            assert(sorted@[p as int] == item);
                        } else {
                            assert(found@[j - 1] == fold[j]);
                        }
                    } else {
                        let j = choose|j: int|
                            0 <= j < before.len() && (#[trigger] before[j]).1 == 0 && before[j].0.address == a
                                && axis_ends_of(s, before[j].0) == e;
                        if j < p {
                            assert(sorted@[j] == before[j]);
                        } else {
                            assert(sorted@[j + 1] == before[j]);
                        }
                    }
                }
            }
        }
        let mut kept: Vec<(DetectedMap, u8)> = Vec::new();
        while sorted.len() > 0
            invariant
                forall|j: int| 0 <= j < sorted@.len() ==> smoke_ok(s, d, (#[trigger] sorted@[j]).0),
                forall|i: int, j: int|
                    0 <= i < j < sorted@.len() ==> (#[trigger] sorted@[i]).0.address <= (#[trigger] sorted@[j]).0.address,
                forall|j: int| 0 <= j < kept@.len() ==> smoke_ok(s, d, (#[trigger] kept@[j]).0),
                forall|i: int, j: int|
                    0 <= i < j < kept@.len() ==> (#[trigger] kept@[i]).0.address <= (#[trigger] kept@[j]).0.address,
                kept@.len() > 0 && sorted@.len() > 0 ==> kept@[kept@.len() - 1].0.address <= sorted@[0].0.address,
                forall|k: int| 0 <= k < sorted@.len() && (#[trigger] sorted@[k]).1 == 0 ==> has_text(sorted@[k].0.name, "Smoke Limiter by MAP"@),
                forall|k: int| 0 <= k < kept@.len() && (#[trigger] kept@[k]).1 == 0 ==> has_text(kept@[k].0.name, "Smoke Limiter by MAP"@),
                forall|q: int| #[trigger] map_limiter_at(s, d, q) ==> exact_item(s, sorted@, limiter_addr(s, q), limiter_ends(s, q)) || twin_item(s, kept@, limiter_addr(s, q), limiter_ends(s, q)),
                s == data@,
            decreases sorted.len(),
        {
            let ghost rest = sorted@;
            let ghost kept0 = kept@;
            let item = sorted.remove(0);
            assert(item == rest[0]);
            proof {
                assert forall|j: int| 0 <= j < sorted@.len() implies item.0.address <= (#[trigger] sorted@[j]).0.address by {
                    assert(sorted@[j] == rest[j + 1]);
                }
            }
            let mut duplicate = false;
            if item.1 != 2 {
                let (fy, ly, fx, lx) = axis_ends(data, &item.0);
                let mut n: usize = 0;
                while n < 5 && n < kept.len()
                    invariant
                        n <= kept@.len(),
                        s == data@,
                        (fy, ly, fx, lx) == axis_ends_of(s, item.0),
                        duplicate ==> exists|j: int|
                            0 <= j < kept@.len() && (#[trigger] kept@[j]).1 == item.1 && gap(
                                kept@[j].0.address as int,
                                item.0.address as int,
                            ) <= 0x2000 && axis_ends_of(s, kept@[j].0) == axis_ends_of(s, item.0),
                    decreases 5 - n,
                {
                    let e = &kept[kept.len() - 1 - n];
                    if e.1 == item.1 {
                        let dist = if item.0.address > e.0.address {
                            item.0.address - e.0.address
                        } else {
                            e.0.address - item.0.address
                        };
                        if dist <= 0x2000 {
                            let (efy, ely, efx, elx) = axis_ends(data, &e.0);
                            if fy == efy && ly == ely && fx == efx && lx == elx {
                                duplicate = true;
                                assert(kept@[kept@.len() - 1 - n] == *e);
                                break;
                            }
                        }
                    }
                    n += 1;
                }
            }
            if !duplicate {
                let ghost before = kept@;
                kept.push(item);
                proof {
                    assert forall|i: int, j: int|
                        0 <= i < j < kept@.len() implies (#[trigger] kept@[i]).0.address <= (#[trigger] kept@[j]).0.address by {
                        if j == kept@.len() - 1 && i < j {
                            assert(kept@[i] == before[i]);
                            if i < before.len() - 1 {
                                assert(before[i].0.address <= before[before.len() - 1].0.address);
                            }
                        }
                    }
                }
            }
            proof {
                assert forall|k: int| 0 <= k < kept@.len() && (#[trigger] kept@[k]).1 == 0 implies has_text(
                    kept@[k].0.name,
                    "Smoke Limiter by MAP"@,
                ) by {
                    if k < kept0.len() {
                        assert(kept@[k] == kept0[k]);
                    } else {
                        assert(kept@[k] == item);
                    }
                }
                assert forall|k: int| 0 <= k < sorted@.len() && (#[trigger] sorted@[k]).1 == 0 implies has_text(
                    sorted@[k].0.name,
                    "Smoke Limiter by MAP"@,
                ) by {
                    assert(sorted@[k] == rest[k + 1]);
                }
                assert forall|q: int| #[trigger] map_limiter_at(s, d, q) implies exact_item(
                    s,
                    sorted@,
                    limiter_addr(s, q),
                    limiter_ends(s, q),
                ) || twin_item(s, kept@, limiter_addr(s, q), limiter_ends(s, q)) by {
                    let a = limiter_addr(s, q);
                    let e = limiter_ends(s, q);
                    if exact_item(s, rest, a, e) {
                        let j = choose|j: int|
                            0 <= j < rest.len() && (#[trigger] rest[j]).1 == 0 && rest[j].0.address == a && axis_ends_of(
                                s,
                                rest[j].0,
                            ) == e;
                        if j == 0 {
                            if duplicate {
                                let jj = choose|jj: int|
                                    0 <= jj < kept@.len() && (#[trigger] kept@[jj]).1 == item.1 && gap(
                                        kept@[jj].0.address as int,
                                        item.0.address as int,
                                    ) <= 0x2000 && axis_ends_of(s, kept@[jj].0) == axis_ends_of(s, item.0);
                                assert(kept@[jj].1 == 0);
                            } else {
                                assert(kept@[kept@.len() - 1] == item);
                            }
                        } else {
                            assert(sorted@[j - 1] == rest[j]);
                        }
                    } else {
                        let j = choose|j: int|
                            0 <= j < kept0.len() && (#[trigger] kept0[j]).1 == 0 && gap(kept0[j].0.address as int, a)
                                <= 0x2000 && axis_ends_of(s, kept0[j].0) == e;
                        assert(kept@[j] == kept0[j]);
                    }
                }
            }
        }
        let mut out: Vec<DetectedMap> = Vec::new();
        while kept.len() > 0
            invariant
                forall|j: int| 0 <= j < kept@.len() ==> smoke_ok(s, d, (#[trigger] kept@[j]).0),
                forall|i: int, j: int|
                    0 <= i < j < kept@.len() ==> (#[trigger] kept@[i]).0.address <= (#[trigger] kept@[j]).0.address,
                forall|j: int| 0 <= j < out@.len() ==> smoke_ok(s, d, #[trigger] out@[j]),
                forall|i: int, j: int|
                    0 <= i < j < out@.len() ==> (#[trigger] out@[i]).address <= (#[trigger] out@[j]).address,
                out@.len() > 0 && kept@.len() > 0 ==> out@[out@.len() - 1].address <= kept@[0].0.address,
                forall|k: int| 0 <= k < kept@.len() && (#[trigger] kept@[k]).1 == 0 ==> has_text(kept@[k].0.name, "Smoke Limiter by MAP"@),
                forall|q: int|
                    #[trigger] map_limiter_at(s, d, q) ==> twin_item(s, kept@, limiter_addr(s, q), limiter_ends(s, q))
                        || map_twin_listed(s, out@, limiter_addr(s, q), limiter_ends(s, q)),
            decreases kept.len(),
        {
            let ghost rest = kept@;
            let (m, _) = kept.remove(0);
            assert(m == rest[0].0);
            proof {
                assert forall|j: int| 0 <= j < kept@.len() implies m.address <= (#[trigger] kept@[j]).0.address by {
                    assert(kept@[j] == rest[j + 1]);
                }
            }
            let ghost before = out@;
            out.push(m);
            proof {
                assert forall|i: int, j: int|
                    0 <= i < j < out@.len() implies (#[trigger] out@[i]).address <= (#[trigger] out@[j]).address by {
                    if j == out@.len() - 1 && i < j {
                        assert(out@[i] == before[i]);
                        if i < before.len() - 1 {
                            assert(before[i].address <= before[before.len() - 1].address);
                        }
                    }
                }
                assert forall|k: int| 0 <= k < kept@.len() && (#[trigger] kept@[k]).1 == 0 implies has_text(
                    kept@[k].0.name,
                    "Smoke Limiter by MAP"@,
                ) by {
                    assert(kept@[k] == rest[k + 1]);
                }
                assert forall|q: int| #[trigger] map_limiter_at(s, d, q) implies twin_item(
                    s,
                    kept@,
                    limiter_addr(s, q),
                    limiter_ends(s, q),
                ) || map_twin_listed(s, out@, limiter_addr(s, q), limiter_ends(s, q)) by {
                    let a = limiter_addr(s, q);
                    let e = limiter_ends(s, q);
                    if twin_item(s, rest, a, e) {
                        let j = choose|j: int|
                            0 <= j < rest.len() && (#[trigger] rest[j]).1 == 0 && gap(rest[j].0.address as int, a)
                                <= 0x2000 && axis_ends_of(s, rest[j].0) == e;
                        if j == 0 {
                            assert(out@[out@.len() - 1] == m);
                        } else {
                            assert(kept@[j - 1] == rest[j]);
                        }
                    } else {
                        let j = choose|j: int|
                            0 <= j < before.len() && has_text((#[trigger] before[j]).name, "Smoke Limiter by MAP"@) && gap(
                                before[j].address as int,
                                a,
                            ) <= 0x2000 && axis_ends_of(s, before[j]) == e;
                        assert(out@[j] == before[j]);
                    }
                }
            }
        }
        out
    }
}

} // verus!
