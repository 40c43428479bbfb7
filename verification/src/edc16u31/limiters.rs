//! Signature-led maps of the limiter family: the MAP sensor linearisation,
//! the torque limiter by atmospheric pressure and engine speed, and the
//! single value gearbox limiter held in the launch control signature.
use vstd::prelude::*;
use std::collections::HashSet;
use crate::bytes::{be16, be16_seq, be16s_seq, bytes_at, read_signed_words, read_u16, read_words};
use crate::model::{
    DataType, DetectedMap, MapCategory, MapDimensions, category_name, has_text, lemma_listed_last, listed, text, FIXED_ONE,
};
use crate::text::{append_decimal, decimal};
use crate::words::{
    all_between, all_in, check_signed_cells, count_between, count_in, is_non_decreasing, is_strictly_increasing,
    non_decreasing, signed_cells_ok, strictly_increasing,
};
use super::EDC16U31Detector;

verus! {

broadcast use {vstd::std_specs::hash::group_hash_axioms, crate::model::lemma_listed_push};

/// The scanned range `start .. min(end, len)` holds `size` bytes from `o`.
pub open spec fn scanned(len: int, start: int, end: int, o: int, size: int) -> bool {
    &&& start <= o
    &&& o + size <= end
    &&& o + size <= len
}

// ---------------------------------------------------------------- MAP sensor

/// A MAP sensor linearisation at `o`: `00 8B`, an upper calibration bound of
/// 900 ..= 1100 within 100 of the upper voltage point, `00 02`, two voltage
/// points (at most 500, then 300 ..= 1500) and two pressures (at most 1000,
/// then 1500 ..= 5000 mbar).
pub open spec fn linearisation_at(s: Seq<u8>, o: int) -> bool {
    let bound = be16(s, o + 2);
    &&& 0 <= o
    &&& o + 14 <= s.len()
    &&& s[o] == 0x00
    &&& s[o + 1] == 0x8B
    &&& 900 <= bound <= 1100
    &&& s[o + 4] == 0x00
    &&& s[o + 5] == 0x02
    &&& -100 <= bound - be16(s, o + 8) <= 100
    &&& be16(s, o + 6) <= 500
    &&& 300 <= be16(s, o + 8) <= 1500
    &&& be16(s, o + 10) <= 1000
    &&& 1500 <= be16(s, o + 12) <= 5000
}

/// `m` is the MAP sensor linearisation whose signature is at `o`.
pub open spec fn linearisation_map(m: DetectedMap, o: int) -> bool {
    &&& m.address == o + 10
    &&& m.size == 4
    &&& m.dimensions == MapDimensions::OneDimensional { length: 2 }
    &&& m.data_type == DataType::UInt16
    &&& has_text(m.name, "MAP Linearization"@)
    &&& has_text(m.category, "MAP Sensor"@)
    &&& has_text(m.unit, "mbar"@)
    &&& m.correction_factor == Some(FIXED_ONE)
    &&& m.x_axis_address == Some((o + 6) as u32)
    &&& m.x_axis_correction == Some(5_000_000_000_000i64)
    &&& has_text(m.x_label, "mV"@)
    &&& m.confidence == 950
}

/// `m` is a MAP sensor linearisation of `start .. min(end, len)`, not at an
/// address of `d`.
pub open spec fn linearisation_ok(s: Seq<u8>, start: int, end: int, d: Set<u32>, m: DetectedMap) -> bool {
    let o = m.address - 10;
    &&& !d.contains(m.address)
    &&& scanned(s.len() as int, start, end, o, 20)
    &&& linearisation_at(s, o)
    &&& linearisation_map(m, o)
}

fn is_linearisation_at(data: &[u8], o: usize) -> (r: bool)
    requires
        o + 14 <= data@.len(),
    ensures
        r == linearisation_at(data@, o as int),
{
    if data[o] != 0x00 || data[o + 1] != 0x8B || data[o + 4] != 0x00 || data[o + 5] != 0x02 {
        return false;
    }
    let bound = read_u16(data, o + 2);
    let mv1 = read_u16(data, o + 6);
    let mv2 = read_u16(data, o + 8);
    let p1 = read_u16(data, o + 10);
    let p2 = read_u16(data, o + 12);
    let close = if bound >= mv2 { bound - mv2 <= 100 } else { mv2 - bound <= 100 };
    900 <= bound && bound <= 1100 && close && mv1 <= 500 && 300 <= mv2 && mv2 <= 1500 && p1 <= 1000 && 1500 <= p2
        && p2 <= 5000
}

fn linearisation_entry(o: usize) -> (m: DetectedMap)
    requires
        o + 14 <= u32::MAX,
    ensures
        linearisation_map(m, o as int),
{
    let mut m = DetectedMap::new(
        (o + 10) as u32,
        4,
        MapDimensions::OneDimensional { length: 2 },
        DataType::UInt16,
    );
    m.name = Some(text("MAP Linearization"));
    m.category = Some(text("MAP Sensor"));
    m.unit = Some(text("mbar"));
    m.correction_factor = Some(FIXED_ONE);
    m.x_axis_address = Some((o + 6) as u32);
    m.x_axis_correction = Some(5_000_000_000_000);
    m.x_label = Some(text("mV"));
    m.confidence = 950;
    m
}

// ----------------------------------------------------------- torque limiter

/// An atmospheric pressure axis: 1 ..= 5 points from 500 ..= 800 up to
/// 800 ..= 1200 mbar, strictly increasing.
pub open spec fn pressure_axis_ok(v: Seq<u16>) -> bool {
    &&& 1 <= v.len() <= 5
    &&& 500 <= v[0] <= 800
    &&& 800 <= v[v.len() - 1] <= 1200
    &&& strictly_increasing(v)
}

/// An engine-speed axis of 15 ..= 25 points from at most 100 up to
/// 4500 ..= 6000 rpm, never decreasing.
pub open spec fn limiter_rpm_axis_ok(v: Seq<u16>) -> bool {
    &&& 15 <= v.len() <= 25
    &&& v[0] <= 100
    &&& 4500 <= v[v.len() - 1] <= 6000
    &&& non_decreasing(v)
}

/// Torque cells: all in -500 ..= 10000, spread over at least 500, at least
/// half of them positive.
pub open spec fn limiter_data_ok(v: Seq<i16>) -> bool {
    signed_cells_ok(v, -500, 10000, 500)
}

/// The table of a torque limiter (`rows` pressures, `cols` speeds) whose
/// axes start at `ys` passes the checks.
pub open spec fn limiter_table(s: Seq<u8>, ys: int, rows: int, cols: int) -> bool {
    &&& ys + 2 * rows + 2 * cols + 2 * rows * cols <= s.len()
    &&& pressure_axis_ok(be16_seq(s, ys, rows))
    &&& limiter_rpm_axis_ok(be16_seq(s, ys + 2 * rows, cols))
    &&& limiter_data_ok(be16s_seq(s, ys + 2 * rows + 2 * cols, rows * cols))
}

/// The PD-style signature `00 00 00 3C 00 64 00 rows 00 cols` at `o`.
pub open spec fn pd_signature(s: Seq<u8>, o: int, rows: int, cols: int) -> bool {
    bytes_at(s, o, seq![0x00u8, 0x00, 0x00, 0x3C, 0x00, 0x64, 0x00, rows as u8, 0x00, cols as u8])
}

/// Three equal non-zero placeholder words then `00 rows 00 cols` at `o`.
pub open spec fn placeholder_signature(s: Seq<u8>, o: int, rows: int, cols: int) -> bool {
    &&& 0 <= o
    &&& o + 10 <= s.len()
    &&& s[o] == s[o + 2]
    &&& s[o] == s[o + 4]
    &&& s[o + 1] == s[o + 3]
    &&& s[o + 1] == s[o + 5]
    &&& !(s[o] == 0 && s[o + 1] == 0)
    &&& s[o + 6] == 0x00
    &&& s[o + 7] == rows
    &&& s[o + 8] == 0x00
    &&& s[o + 9] == cols
}

/// The fields of a torque limiter with axes at `ys`.
pub open spec fn limiter_fields(m: DetectedMap, ys: int, rows: int, cols: int) -> bool {
    &&& m.address == ys + 2 * rows + 2 * cols
    &&& m.size == 2 * rows * cols
    &&& m.dimensions == MapDimensions::TwoDimensional { rows: rows as usize, cols: cols as usize }
    &&& m.data_type == DataType::Int16
    &&& has_text(m.name, "Torque Limiter"@)
    &&& has_text(m.category, category_name(MapCategory::EngineTorqueLimiters))
    &&& has_text(m.unit, "Nm"@)
    &&& m.correction_factor == Some(100_000_000_000i64)
    &&& m.y_axis_address == Some(ys as u32)
    &&& m.x_axis_address == Some((ys + 2 * rows) as u32)
}

/// The description of a PD-style torque limiter with these axis bounds.
pub open spec fn limiter_description(p0: u16, p1: u16, r0: u16, r1: u16) -> Seq<char> {
    "Engine torque limiter by atmospheric pressure and RPM. Pressure: "@ + decimal(p0 as nat) + "-"@
        + decimal(p1 as nat) + " mbar, RPM: "@ + decimal(r0 as nat) + "-"@ + decimal(r1 as nat)
}

/// `m` is a PD-style torque limiter whose signature is at `o`.
pub open spec fn pd_limiter(s: Seq<u8>, m: DetectedMap, o: int, rows: int, cols: int) -> bool {
    let y = be16_seq(s, o + 10, rows);
    let x = be16_seq(s, o + 10 + 2 * rows, cols);
    &&& pd_signature(s, o, rows, cols)
    &&& limiter_table(s, o + 10, rows, cols)
    &&& limiter_fields(m, o + 10, rows, cols)
    &&& has_text(m.description, limiter_description(y[0], y[rows - 1], x[0], x[cols - 1]))
    &&& m.confidence == 0
    &&& m.x_label is None
    &&& m.y_label is None
}

/// `m` is a torque limiter behind a placeholder signature at `o`.
pub open spec fn placeholder_limiter(s: Seq<u8>, m: DetectedMap, o: int, rows: int, cols: int) -> bool {
    &&& placeholder_signature(s, o, rows, cols)
    &&& limiter_table(s, o + 10, rows, cols)
    &&& limiter_fields(m, o + 10, rows, cols)
    &&& m.description is None
    &&& m.x_axis_correction == Some(FIXED_ONE)
    &&& m.y_axis_correction == Some(FIXED_ONE)
    &&& has_text(m.x_label, "rpm"@)
    &&& has_text(m.y_label, "mbar"@)
    &&& m.confidence == 950
}

/// The shapes (pressure rows, speed columns) tried with the PD-style signature.
pub open spec fn pd_shape(rows: int, cols: int) -> bool {
    (rows == 3 && cols == 20) || (rows == 3 && cols == 21) || (rows == 4 && cols == 21) || (rows == 4 && cols == 22)
}

/// The shapes tried with the placeholder signature.
pub open spec fn placeholder_shape(rows: int, cols: int) -> bool {
    ||| (rows == 3 && 21 <= cols <= 25)
    ||| (rows == 4 && (cols == 20 || 22 <= cols <= 25))
}

/// `m` is a torque limiter of the scanned range, not at an address of `d`.
pub open spec fn limiter_ok(s: Seq<u8>, start: int, end: int, d: Set<u32>, m: DetectedMap) -> bool {
    &&& !d.contains(m.address)
    &&& exists|o: int, rows: int, cols: int|
        #![trigger limiter_fields(m, o + 10, rows, cols)]
        scanned(s.len() as int, start, end, o, 10 + 2 * rows + 2 * cols + 2 * rows * cols) && ((pd_shape(rows, cols)
            && pd_limiter(s, m, o, rows, cols)) || (placeholder_shape(rows, cols) && placeholder_limiter(
            s,
            m,
            o,
            rows,
            cols,
        )))
}

/// Bytes taken by a torque limiter of `rows x cols` with its signature.
pub open spec fn limiter_span(rows: int, cols: int) -> int {
    10 + 2 * rows + 2 * cols + 2 * rows * cols
}

/// A torque limiter of `rows x cols` behind the PD-style signature, whose
/// cells are not at an address of `d`, is at the word-aligned position `o`.
pub open spec fn pd_candidate(s: Seq<u8>, d: Set<u32>, start: int, end: int, rows: int, cols: int, o: int) -> bool {
    &&& scanned(s.len() as int, start, end, o, limiter_span(rows, cols))
    &&& (o - start) % 2 == 0
    &&& pd_signature(s, o, rows, cols)
    &&& limiter_table(s, o + 10, rows, cols)
    &&& !d.contains((o + 10 + 2 * rows + 2 * cols) as u32)
}

/// The same behind a placeholder signature.
pub open spec fn placeholder_candidate(s: Seq<u8>, d: Set<u32>, start: int, end: int, rows: int, cols: int, o: int) -> bool {
    &&& scanned(s.len() as int, start, end, o, limiter_span(rows, cols))
    &&& (o - start) % 2 == 0
    &&& placeholder_signature(s, o, rows, cols)
    &&& limiter_table(s, o + 10, rows, cols)
    &&& !d.contains((o + 10 + 2 * rows + 2 * cols) as u32)
}

/// The address of the torque limiter map behind the signature at `o`.
pub open spec fn limiter_map_addr(rows: int, cols: int, o: int) -> int {
    o + 10 + 2 * rows + 2 * cols
}

/// One of the maps of `r` from index `lo` on is at an address of at most `a`.
pub open spec fn some_at_most(r: Seq<DetectedMap>, lo: int, a: int) -> bool {
    exists|k: int| lo <= k < r.len() && (#[trigger] r[k]).address <= a
}

/// A torque limiter of one of the shapes searched, behind either signature.
pub open spec fn limiter_candidate(s: Seq<u8>, d: Set<u32>, start: int, end: int, rows: int, cols: int, o: int) -> bool {
    ||| pd_shape(rows, cols) && pd_candidate(s, d, start, end, rows, cols, o)
    ||| placeholder_shape(rows, cols) && placeholder_candidate(s, d, start, end, rows, cols, o)
}

/// The PD-style shape `rows x cols` is one of the first `i` tried.
pub open spec fn pd_done(rows: int, cols: int, i: int) -> bool {
    ||| (i >= 1 && rows == 3 && cols == 20)
    ||| (i >= 2 && rows == 3 && cols == 21)
    ||| (i >= 3 && rows == 4 && cols == 21)
    ||| (i >= 4 && rows == 4 && cols == 22)
}

/// The placeholder shape `rows x cols` is one of the first `j` tried.
pub open spec fn placeholder_done(rows: int, cols: int, j: int) -> bool {
    ||| (j >= 1 && rows == 4 && cols == 20)
    ||| (j >= 2 && rows == 3 && cols == 21)
    ||| (j >= 3 && rows == 3 && cols == 22)
    ||| (j >= 4 && rows == 4 && cols == 22)
    ||| (j >= 5 && rows == 4 && cols == 23)
    ||| (j >= 6 && rows == 3 && cols == 23)
    ||| (j >= 7 && rows == 3 && cols == 24)
    ||| (j >= 8 && rows == 3 && cols == 25)
    ||| (j >= 9 && rows == 4 && cols == 24)
    ||| (j >= 10 && rows == 4 && cols == 25)
}

/// Whether every check of a torque limiter table with axes at `ys` passes.
fn is_limiter_table(data: &[u8], ys: usize, rows: usize, cols: usize) -> (r: bool)
    requires
        1 <= rows <= 4,
        15 <= cols <= 25,
        ys + 2 * rows + 2 * cols + 2 * rows * cols <= data@.len(),
        data@.len() + 0x10000 <= usize::MAX,
    ensures
        r == limiter_table(data@, ys as int, rows as int, cols as int),
{
    assert(rows * cols <= 100) by (nonlinear_arith)
        requires
            rows <= 4,
            cols <= 25,
    ;
    assert(rows * cols >= 15) by (nonlinear_arith)
        requires
            rows >= 1,
            cols >= 15,
    ;
    let n = rows * cols;
    assert(2 * n == 2 * rows * cols) by (nonlinear_arith)
        requires
            n == rows * cols,
    ;
    let y = read_words(data, ys, rows);
    if y[0] < 500 || y[0] > 800 || y[rows - 1] < 800 || y[rows - 1] > 1200 || !is_strictly_increasing(y.as_slice()) {
        return false;
    }
    let x = read_words(data, ys + 2 * rows, cols);
    if x[0] > 100 || x[cols - 1] < 4500 || x[cols - 1] > 6000 || !is_non_decreasing(x.as_slice()) {
        return false;
    }
    let v = read_signed_words(data, ys + 2 * rows + 2 * cols, n);
    check_signed_cells(v.as_slice(), -500, 10000, 500)
}

fn limiter_entry(ys: usize, rows: usize, cols: usize) -> (m: DetectedMap)
    requires
        1 <= rows <= 4,
        15 <= cols <= 25,
        ys + 2 * rows + 2 * cols + 2 * rows * cols <= u32::MAX,
    ensures
        limiter_fields(m, ys as int, rows as int, cols as int),
        m.description is None,
        m.confidence == 0,
        m.x_axis_correction is None,
        m.y_axis_correction is None,
        m.x_label is None,
        (m.y_label is None),
{
    assert(rows * cols <= 100) by (nonlinear_arith)
        requires
            rows <= 4,
            cols <= 25,
    ;
    let n = rows * cols;
    assert(2 * n == 2 * rows * cols) by (nonlinear_arith)
        requires
            n == rows * cols,
    ;
    let xs = ys + 2 * rows;
    let mut m = DetectedMap::new(
        (xs + 2 * cols) as u32,
        2 * n,
        MapDimensions::TwoDimensional { rows, cols },
        DataType::Int16,
    );
    m.name = Some(text("Torque Limiter"));
    m.category = Some(MapCategory::EngineTorqueLimiters.display_name());
    m.unit = Some(text("Nm"));
    m.correction_factor = Some(100_000_000_000);
    m.y_axis_address = Some(ys as u32);
    m.x_axis_address = Some(xs as u32);
    m
}

/// The first torque limiter of one shape behind the PD-style signature.
fn limiter_pd_shape(
    data: &[u8],
    start: usize,
    end: usize,
    rows: usize,
    cols: usize,
    detected: &HashSet<u32>,
) -> (r: Option<DetectedMap>)
    requires
        data@.len() <= u32::MAX,
        data@.len() + 0x10000 <= usize::MAX,
        pd_shape(rows as int, cols as int),
    ensures
        r matches Some(m) ==> limiter_ok(data@, start as int, end as int, detected@, m),
        forall|o: int|
            #[trigger] pd_candidate(data@, detected@, start as int, end as int, rows as int, cols as int, o) ==> r is Some,
        r is Some ==> exists|o: int| #[trigger] pd_candidate(data@, detected@, start as int, end as int, rows as int, cols as int, o),
        r matches Some(m) ==> forall|o: int|
            #[trigger] pd_candidate(data@, detected@, start as int, end as int, rows as int, cols as int, o) ==> m.address
                <= limiter_map_addr(rows as int, cols as int, o),
{
    let ghost s = data@;
    let len = data.len();
    let lim = if end < len { end } else { len };
    assert(rows * cols <= 100 && 2 * rows * cols == 2 * (rows * cols)) by (nonlinear_arith)
        requires
            rows <= 4,
            cols <= 25,
    ;
    let n = rows * cols;
    let total = 10 + 2 * rows + 2 * cols + 2 * n;
    let mut o = start;
    while o <= lim && lim - o >= total
        invariant
            s == data@,
            len == s.len(),
            len <= u32::MAX,
            len + 0x10000 <= usize::MAX,
            lim <= len,
            lim <= end,
            start <= o,
            pd_shape(rows as int, cols as int),
            total == 10 + 2 * rows + 2 * cols + 2 * rows * cols,
            (o - start) % 2 == 0,
            forall|q: int|
                q < o ==> !#[trigger] pd_candidate(s, detected@, start as int, end as int, rows as int, cols as int, q),
        decreases lim - o,
    {
        let pat: [u8; 10] = [0x00, 0x00, 0x00, 0x3C, 0x00, 0x64, 0x00, rows as u8, 0x00, cols as u8];
        let mut hit = true;
        let mut k: usize = 0;
        while k < 10
            invariant
                k <= 10,
                o + 10 <= s.len(),
                s.len() + 0x10000 <= usize::MAX,
                s == data@,
                hit ==> forall|q: int| 0 <= q < k ==> s[o + q] == pat@[q],
                !hit ==> !pd_signature(s, o as int, rows as int, cols as int),
                pat@ == seq![0x00u8, 0x00, 0x00, 0x3C, 0x00, 0x64, 0x00, rows as u8, 0x00, cols as u8],
            decreases 10 - k,
        {
            if hit && data[o + k] != pat[k] {
                hit = false;
                assert(!pd_signature(s, o as int, rows as int, cols as int));
            }
            k += 1;
        }
        if hit {
            let ys = o + 10;
            let ds = ys + 2 * rows + 2 * cols;
            if !detected.contains(&(ds as u32)) && is_limiter_table(data, ys, rows, cols) {
                let y = read_words(data, ys, rows);
                let x = read_words(data, ys + 2 * rows, cols);
                let mut m = limiter_entry(ys, rows, cols);
                let mut desc = text("Engine torque limiter by atmospheric pressure and RPM. Pressure: ");
                append_decimal(&mut desc, y[0] as u64);
                desc.append("-");
                append_decimal(&mut desc, y[rows - 1] as u64);
                desc.append(" mbar, RPM: ");
                append_decimal(&mut desc, x[0] as u64);
                desc.append("-");
                append_decimal(&mut desc, x[cols - 1] as u64);
                m.description = Some(desc);
                assert(pd_signature(s, o as int, rows as int, cols as int));
                assert(pd_limiter(s, m, o as int, rows as int, cols as int));
                assert(pd_candidate(s, detected@, start as int, end as int, rows as int, cols as int, o as int));
                assert(m.address == limiter_map_addr(rows as int, cols as int, o as int));
                return Some(m);
            }
        }
        o += 2;
    }
    None
}

/// The torque limiters of one shape behind the placeholder signature.
#[verifier::rlimit(50)]
fn limiter_placeholder_shape(
    data: &[u8],
    start: usize,
    end: usize,
    rows: usize,
    cols: usize,
    detected: &HashSet<u32>,
    out: &mut Vec<DetectedMap>,
)
    requires
        data@.len() <= u32::MAX,
        data@.len() + 0x10000 <= usize::MAX,
        placeholder_shape(rows as int, cols as int),
    ensures
        final(out)@.len() >= old(out)@.len(),
        forall|k: int| 0 <= k < old(out)@.len() ==> final(out)@[k] == old(out)@[k],
        forall|k: int|
            old(out)@.len() <= k < final(out)@.len() ==> limiter_ok(
                data@,
                start as int,
                end as int,
                detected@,
                #[trigger] final(out)@[k],
            ),
        forall|o: int|
            #[trigger] placeholder_candidate(data@, detected@, start as int, end as int, rows as int, cols as int, o)
                ==> final(out)@.len() > old(out)@.len(),
        forall|o: int|
            #[trigger] placeholder_candidate(data@, detected@, start as int, end as int, rows as int, cols as int, o)
                ==> some_at_most(final(out)@, old(out)@.len() as int, limiter_map_addr(rows as int, cols as int, o)),
{
    let ghost s = data@;
    let ghost first = out@;
    let len = data.len();
    let lim = if end < len { end } else { len };
    assert(rows * cols <= 100 && 2 * rows * cols == 2 * (rows * cols)) by (nonlinear_arith)
        requires
            rows <= 4,
            cols <= 25,
    ;
    let n = rows * cols;
    let total = 10 + 2 * rows + 2 * cols + 2 * n;
    let mut o = start;
    assert(total == 2 * (5 + rows + cols + rows * cols)) by (nonlinear_arith)
        requires
            total == 10 + 2 * rows + 2 * cols + 2 * n,
            n == rows * cols,
    ;
    while o <= lim && lim - o >= total
        invariant
            s == data@,
            len == s.len(),
            len <= u32::MAX,
            len + 0x10000 <= usize::MAX,
            lim <= len,
            lim <= end,
            start <= o,
            placeholder_shape(rows as int, cols as int),
            total == 2 * (5 + rows + cols + rows * cols),
            total == 10 + 2 * rows + 2 * cols + 2 * rows * cols,
            out@.len() >= first.len(),
            forall|k: int| 0 <= k < first.len() ==> out@[k] == first[k],
            forall|k: int|
                first.len() <= k < out@.len() ==> limiter_ok(s, start as int, end as int, detected@, #[trigger] out@[k]),
            (o - start) % 2 == 0,
            forall|q: int|
                q < o && #[trigger] placeholder_candidate(s, detected@, start as int, end as int, rows as int, cols as int, q)
                    ==> out@.len() > first.len(),
            forall|q: int|
                q < o && #[trigger] placeholder_candidate(s, detected@, start as int, end as int, rows as int, cols as int, q)
                    ==> some_at_most(out@, first.len() as int, limiter_map_addr(rows as int, cols as int, q)),
        decreases lim - o,
    {
        let ghost ob = out@;
        let sig = data[o] == data[o + 2] && data[o] == data[o + 4] && data[o + 1] == data[o + 3] && data[o + 1]
            == data[o + 5] && !(data[o] == 0 && data[o + 1] == 0) && data[o + 6] == 0 && data[o + 7] as usize
            == rows && data[o + 8] == 0 && data[o + 9] as usize == cols;
        if sig {
            let ys = o + 10;
            let ds = ys + 2 * rows + 2 * cols;
            if !detected.contains(&(ds as u32)) && is_limiter_table(data, ys, rows, cols) {
                let mut m = limiter_entry(ys, rows, cols);
                m.x_axis_correction = Some(FIXED_ONE);
                m.y_axis_correction = Some(FIXED_ONE);
                m.x_label = Some(text("rpm"));
                m.y_label = Some(text("mbar"));
                m.confidence = 950;
                assert(placeholder_limiter(s, m, o as int, rows as int, cols as int));
                out.push(m);
                proof {
                    assert(out@[out@.len() - 1] == m);
                    assert forall|q: int|
                        q < o + total && #[trigger] placeholder_candidate(
                            s,
                            detected@,
                            start as int,
                            end as int,
                            rows as int,
                            cols as int,
                            q,
                        ) implies some_at_most(out@, first.len() as int, limiter_map_addr(rows as int, cols as int, q)) by {
                        if q < o {
                            let k = choose|k: int| first.len() <= k < ob.len() && (#[trigger] ob[k]).address
                                <= limiter_map_addr(rows as int, cols as int, q);
                            assert(out@[k] == ob[k]);
                        } else {
                            assert(out@[out@.len() - 1].address <= limiter_map_addr(rows as int, cols as int, q));
                        }
                    }
                }
                o = o + total;
                continue;
            }
        }
        o += 2;
    }
}

impl EDC16U31Detector {
    /// At most one torque limiter: the lowest-address one over every shape
    /// behind the PD-style signature (3 x 20, 3 x 21, 4 x 21, 4 x 22) or
    /// behind a placeholder signature.
    pub fn detect_torque_limiter_maps(&self, data: &[u8], start: usize, end: usize, detected: &HashSet<u32>) -> (r:
        Vec<DetectedMap>)
        requires
            data@.len() <= u32::MAX,
            data@.len() + 0x10000 <= usize::MAX,
        ensures
            r@.len() <= 1,
            forall|k: int| 0 <= k < r@.len() ==> limiter_ok(data@, start as int, end as int, detected@, #[trigger] r@[k]),
            forall|o: int, rows: int, cols: int|
                #[trigger] limiter_candidate(data@, detected@, start as int, end as int, rows, cols, o) ==> r@.len() == 1
                    && r@[0].address <= limiter_map_addr(rows, cols, o),
    {
        let pd_rows: [usize; 4] = [3, 3, 4, 4];
        let pd_cols: [usize; 4] = [20, 21, 21, 22];
        let mut all: Vec<DetectedMap> = Vec::new();
        let mut i: usize = 0;
        while i < 4
            invariant
                i <= 4,
                data@.len() <= u32::MAX,
                data@.len() + 0x10000 <= usize::MAX,
                pd_rows@ == seq![3usize, 3, 4, 4],
                pd_cols@ == seq![20usize, 21, 21, 22],
                forall|k: int| 0 <= k < all@.len() ==> limiter_ok(data@, start as int, end as int, detected@, #[trigger] all@[k]),
                forall|o: int, rw: int, cl: int|
                    pd_done(rw, cl, i as int) && #[trigger] pd_candidate(data@, detected@, start as int, end as int, rw, cl, o)
                        ==> some_at_most(all@, 0, limiter_map_addr(rw, cl, o)),
            decreases 4 - i,
        {
            let ghost ab = all@;
            let found = limiter_pd_shape(data, start, end, pd_rows[i], pd_cols[i], detected);
            match found {
                Some(m) => {
                    all.push(m);
                },
                None => {},
            }
            proof {
                assert forall|o: int, rw: int, cl: int|
                    pd_done(rw, cl, i + 1) && #[trigger] pd_candidate(data@, detected@, start as int, end as int, rw, cl, o)
                        implies some_at_most(all@, 0, limiter_map_addr(rw, cl, o)) by {
                    if pd_done(rw, cl, i as int) {
                        let k = choose|k: int| 0 <= k < ab.len() && (#[trigger] ab[k]).address <= limiter_map_addr(rw, cl, o);
                        assert(all@[k] == ab[k]);
                    } else {
                        assert(rw == pd_rows@[i as int] && cl == pd_cols@[i as int]);
                        assert(all@[ab.len() as int].address <= limiter_map_addr(rw, cl, o));
                    }
                }
            }
            i += 1;
        }
        let ph_rows: [usize; 10] = [4, 3, 3, 4, 4, 3, 3, 3, 4, 4];
        let ph_cols: [usize; 10] = [20, 21, 22, 22, 23, 23, 24, 25, 24, 25];
        let mut j: usize = 0;
        while j < 10
            invariant
                j <= 10,
                data@.len() <= u32::MAX,
                data@.len() + 0x10000 <= usize::MAX,
                ph_rows@ == seq![4usize, 3, 3, 4, 4, 3, 3, 3, 4, 4],
                ph_cols@ == seq![20usize, 21, 22, 22, 23, 23, 24, 25, 24, 25],
                forall|k: int| 0 <= k < all@.len() ==> limiter_ok(data@, start as int, end as int, detected@, #[trigger] all@[k]),
                forall|o: int, rw: int, cl: int|
                    pd_done(rw, cl, 4) && #[trigger] pd_candidate(data@, detected@, start as int, end as int, rw, cl, o)
                        ==> some_at_most(all@, 0, limiter_map_addr(rw, cl, o)),
                forall|o: int, rw: int, cl: int|
                    placeholder_done(rw, cl, j as int) && #[trigger] placeholder_candidate(
                        data@,
                        detected@,
                        start as int,
                        end as int,
                        rw,
                        cl,
                        o,
                    ) ==> some_at_most(all@, 0, limiter_map_addr(rw, cl, o)),
            decreases 10 - j,
        {
            let ghost ab = all@;
            limiter_placeholder_shape(data, start, end, ph_rows[j], ph_cols[j], detected, &mut all);
            proof {
                assert forall|o: int, rw: int, cl: int|
                    pd_done(rw, cl, 4) && #[trigger] pd_candidate(data@, detected@, start as int, end as int, rw, cl, o)
                        implies some_at_most(all@, 0, limiter_map_addr(rw, cl, o)) by {
                    let k = choose|k: int| 0 <= k < ab.len() && (#[trigger] ab[k]).address <= limiter_map_addr(rw, cl, o);
                    assert(all@[k] == ab[k]);
                }
                assert forall|o: int, rw: int, cl: int|
                    placeholder_done(rw, cl, j + 1) && #[trigger] placeholder_candidate(
                        data@,
                        detected@,
                        start as int,
                        end as int,
                        rw,
                        cl,
                        o,
                    ) implies some_at_most(all@, 0, limiter_map_addr(rw, cl, o)) by {
                    if placeholder_done(rw, cl, j as int) {
                        let k = choose|k: int| 0 <= k < ab.len() && (#[trigger] ab[k]).address <= limiter_map_addr(rw, cl, o);
                        assert(all@[k] == ab[k]);
                    } else {
                        assert(rw == ph_rows@[j as int] && cl == ph_cols@[j as int]);
                        let k = choose|k: int| ab.len() <= k < all@.len() && (#[trigger] all@[k]).address <= limiter_map_addr(rw, cl, o);
                    }
                }
            }
            j += 1;
        }
        let mut result: Vec<DetectedMap> = Vec::new();
        if all.len() > 0 {
            let mut best: usize = 0;
            let mut k: usize = 1;
            while k < all.len()
                invariant
                    1 <= k <= all@.len(),
                    best < all@.len(),
                    forall|q: int| 0 <= q < all@.len() ==> limiter_ok(data@, start as int, end as int, detected@, #[trigger] all@[q]),
                    forall|q: int| 0 <= q < k ==> all@[best as int].address <= #[trigger] all@[q].address,
                decreases all.len() - k,
            {
                if all[k].address < all[best].address {
                    best = k;
                }
                k += 1;
            }
            let ghost av = all@;
            let chosen = all.remove(best);
            result.push(chosen);
            proof {
                assert(chosen == av[best as int]);
                assert forall|o: int, rw: int, cl: int|
                    #[trigger] limiter_candidate(data@, detected@, start as int, end as int, rw, cl, o) implies result@.len()
                        == 1 && result@[0].address <= limiter_map_addr(rw, cl, o) by {
                    if pd_shape(rw, cl) && pd_candidate(data@, detected@, start as int, end as int, rw, cl, o) {
                        assert(pd_done(rw, cl, 4));
                    } else {
                        assert(placeholder_done(rw, cl, 10));
                        assert(placeholder_candidate(data@, detected@, start as int, end as int, rw, cl, o));
                    }
                    let q = choose|q: int| 0 <= q < av.len() && (#[trigger] av[q]).address <= limiter_map_addr(rw, cl, o);
                    assert(av[best as int].address <= av[q].address);
                }
            }
        } else {
            proof {
                assert forall|o: int, rw: int, cl: int|
                    #[trigger] limiter_candidate(data@, detected@, start as int, end as int, rw, cl, o) implies false by {
                    if pd_shape(rw, cl) && pd_candidate(data@, detected@, start as int, end as int, rw, cl, o) {
                        assert(pd_done(rw, cl, 4));
                    } else {
                        assert(placeholder_done(rw, cl, 10));
                        assert(placeholder_candidate(data@, detected@, start as int, end as int, rw, cl, o));
                    }
                }
            }
        }
        result
    }

    /// The MAP sensor linearisations of `start .. min(end, len)`; after one
    /// is found the scan moves on 12 bytes, after one already in `detected`
    /// 10 bytes. The scan goes word by word from `start`, so every other
    /// linearisation on that alignment is reported or starts within 12 bytes
    /// after one found before it.
    pub fn detect_map_linearization(&self, data: &[u8], start: usize, end: usize, detected: &HashSet<u32>) -> (r: Vec<
        DetectedMap,
    >)
        requires
            data@.len() <= u32::MAX,
        ensures
            forall|k: int| 0 <= k < r@.len() ==> linearisation_ok(data@, start as int, end as int, detected@, #[trigger] r@[k]),
            forall|o: int|
                scanned(data@.len() as int, start as int, end as int, o, 20) && (o - start) % 2 == 0
                    && #[trigger] linearisation_at(data@, o) && !detected@.contains((o + 10) as u32) ==> listed(
                    r@,
                    o + 10,
                ) || exists|h: int|
                    scanned(data@.len() as int, start as int, end as int, h, 20) && (h - start) % 2 == 0 && h < o < h
                        + 12 && #[trigger] linearisation_at(data@, h),
    {
        let ghost s = data@;
        let len = data.len();
        let lim = if end < len { end } else { len };
        let mut maps: Vec<DetectedMap> = Vec::new();
        let mut o = start;
        while o <= lim && lim - o >= 20
            invariant
                s == data@,
                len == s.len(),
                len <= u32::MAX,
                lim <= len,
                lim <= end,
                start <= o,
                (o - start) % 2 == 0,
                forall|k: int| 0 <= k < maps@.len() ==> linearisation_ok(s, start as int, end as int, detected@, #[trigger] maps@[k]),
                forall|q: int|
                    q < o && scanned(s.len() as int, start as int, end as int, q, 20) && (q - start) % 2 == 0
                        && #[trigger] linearisation_at(s, q) && !detected@.contains((q + 10) as u32) ==> listed(
                        maps@,
                        q + 10,
                    ) || exists|h: int|
                        scanned(s.len() as int, start as int, end as int, h, 20) && (h - start) % 2 == 0 && h < q < h
                            + 12 && #[trigger] linearisation_at(s, h),
            decreases lim - o,
        {
            if is_linearisation_at(data, o) {
                assert(scanned(s.len() as int, start as int, end as int, o as int, 20));
                if detected.contains(&((o + 10) as u32)) {
                    o += 10;
                    continue;
                }
                let m = linearisation_entry(o);
                proof {
                    lemma_listed_last(maps@, m);
                }
                maps.push(m);
                o += 12;
                continue;
            }
            o += 2;
        }
        maps
    }

    /// The single value gearbox limiters held in the U31 launch control
    /// signatures of `start .. min(end, len)` (see [`svgl_ok`]). The scan goes
    /// word by word from `start` and resumes after the table of each valid
    /// block, so every other U31 limiter on that alignment is reported or
    /// lies inside a valid block found before it.
    pub fn detect_launch_control_maps(&self, data: &[u8], start: usize, end: usize, detected: &HashSet<u32>) -> (r: Vec<
        DetectedMap,
    >)
        requires
            data@.len() <= u32::MAX,
            data@.len() + 0x10000 <= usize::MAX,
        ensures
            forall|k: int| 0 <= k < r@.len() ==> svgl_ok(data@, start as int, end as int, detected@, #[trigger] r@[k]),
            forall|o: int|
                scanned(data@.len() as int, start as int, end as int, o, 256) && (o - start) % 2 == 0
                    && #[trigger] launch_u31_at(data@, o) && !launch_u34_at(data@, o) && launch_table(data@, o + 16)
                    && !detected@.contains((o + 56) as u32) && !detected@.contains((o + 10) as u32) ==> listed(
                    r@,
                    o + 10,
                ) || exists|h: int|
                    scanned(data@.len() as int, start as int, end as int, h, 256) && (h - start) % 2 == 0 && h < o
                        < launch_table_start(data@, h) + 240 && #[trigger] launch_block_at(data@, detected@, h),
    {
        let ghost s = data@;
        let len = data.len();
        let lim = if end < len { end } else { len };
        let mut maps: Vec<DetectedMap> = Vec::new();
        let mut o = start;
        while o <= lim && lim - o >= 256
            invariant
                s == data@,
                len == s.len(),
                len <= u32::MAX,
                len + 0x10000 <= usize::MAX,
                lim <= len,
                lim <= end,
                start <= o,
                (o - start) % 2 == 0,
                forall|k: int| 0 <= k < maps@.len() ==> svgl_ok(s, start as int, end as int, detected@, #[trigger] maps@[k]),
                forall|q: int|
                    q < o && scanned(s.len() as int, start as int, end as int, q, 256) && (q - start) % 2 == 0
                        && #[trigger] launch_u31_at(s, q) && !launch_u34_at(s, q) && launch_table(s, q + 16)
                        && !detected@.contains((q + 56) as u32) && !detected@.contains((q + 10) as u32) ==> listed(
                        maps@,
                        q + 10,
                    ) || exists|h: int|
                        scanned(s.len() as int, start as int, end as int, h, 256) && (h - start) % 2 == 0 && h < q
                            < launch_table_start(s, h) + 240 && #[trigger] launch_block_at(s, detected@, h),
            decreases lim - o,
        {
            let u34 = launch_u34_sig(data, o);
            let u31 = !u34 && launch_u31_sig(data, o);
            if u34 || u31 {
                let ys = if u31 { o + 16 } else { o + 12 };
                let ms = ys + 40;
                if detected.contains(&(ms as u32)) || !is_launch_table(data, ys) {
                    o += 2;
                    continue;
                }
                proof {
                    assert(ys == launch_table_start(s, o as int));
                    assert(launch_block_at(s, detected@, o as int));
                    assert(scanned(s.len() as int, start as int, end as int, o as int, 256));
                }
                if u31 && !detected.contains(&((o + 10) as u32)) {
                    let m = svgl_entry(o);
                    assert(svgl_ok(s, start as int, end as int, detected@, m));
                    proof {
                        lemma_listed_last(maps@, m);
                    }
                    maps.push(m);
                }
                o = ms + 200;
                continue;
            }
            o += 2;
        }
        maps
    }
}

// ------------------------------------------------------------ launch control

/// The U34 launch control signature `00 05 00 00 00 32 .. .. 00 0A 00 0A` at `o`.
pub open spec fn launch_u34_at(s: Seq<u8>, o: int) -> bool {
    bytes_at(s, o, seq![0x00u8, 0x05, 0x00, 0x00, 0x00, 0x32]) && bytes_at(s, o + 8, seq![0x00u8, 0x0A, 0x00, 0x0A])
}

/// The U31 launch control signature `00 64 01 90 00 00 00 32 00 32 [svgl] 00 0A 00 0A` at `o`.
pub open spec fn launch_u31_at(s: Seq<u8>, o: int) -> bool {
    &&& bytes_at(s, o, seq![0x00u8, 0x64, 0x01, 0x90, 0x00, 0x00, 0x00, 0x32, 0x00, 0x32])
    &&& bytes_at(s, o + 12, seq![0x00u8, 0x0A, 0x00, 0x0A])
}

/// The 10 x 10 launch control table with axes at `ys`: an engine-speed axis
/// from 0 up to 3500 ..= 7000, a vehicle speed axis from at most 500 up to
/// 10000 ..= 25000, both strictly increasing, and torque cells of at most
/// 50000, at least half of them non-zero.
pub open spec fn launch_table(s: Seq<u8>, ys: int) -> bool {
    let y = be16_seq(s, ys, 10);
    let x = be16_seq(s, ys + 20, 10);
    let cells = be16_seq(s, ys + 40, 100);
    &&& 0 <= ys
    &&& ys + 240 <= s.len()
    &&& y[0] == 0
    &&& 3500 <= y[9] <= 7000
    &&& strictly_increasing(y)
    &&& x[0] <= 500
    &&& 10000 <= x[9] <= 25000
    &&& strictly_increasing(x)
    &&& all_between(cells, 0, 50000)
    &&& count_between(cells, 1, 65535) >= 50
}

/// `m` is the single value gearbox limiter at `o + 10`.
pub open spec fn svgl_map(m: DetectedMap, o: int) -> bool {
    &&& m.address == o + 10
    &&& m.size == 2
    &&& m.dimensions == MapDimensions::OneDimensional { length: 1 }
    &&& m.data_type == DataType::Int16
    &&& has_text(m.name, "Single Value Gearbox Limiter"@)
    &&& has_text(m.category, "Gearbox"@)
    &&& has_text(m.unit, "Nm"@)
    &&& m.correction_factor == Some(100_000_000_000i64)
    &&& m.offset == Some(0i64)
    &&& m.confidence == 930
}

/// `m` is the single value gearbox limiter of a valid U31 launch control
/// block of the scanned range whose table is not in `d`, and is not itself in `d`.
pub open spec fn svgl_ok(s: Seq<u8>, start: int, end: int, d: Set<u32>, m: DetectedMap) -> bool {
    let o = m.address - 10;
    &&& !d.contains(m.address)
    &&& scanned(s.len() as int, start, end, o, 256)
    &&& launch_u31_at(s, o)
    &&& launch_table(s, o + 16)
    &&& !d.contains((o + 56) as u32)
    &&& svgl_map(m, o)
}

/// Where the table of the launch control block at `h` starts.
pub open spec fn launch_table_start(s: Seq<u8>, h: int) -> int {
    if launch_u34_at(s, h) {
        h + 12
    } else {
        h + 16
    }
}

/// A launch control block (either signature) whose table passes the checks
/// and is not in `d` starts at `h`; the scan resumes after its table.
pub open spec fn launch_block_at(s: Seq<u8>, d: Set<u32>, h: int) -> bool {
    &&& launch_u34_at(s, h) || launch_u31_at(s, h)
    &&& launch_table(s, launch_table_start(s, h))
    &&& !d.contains((launch_table_start(s, h) + 40) as u32)
}

fn launch_u34_sig(data: &[u8], o: usize) -> (r: bool)
    requires
        o + 16 <= data@.len(),
    ensures
        r == launch_u34_at(data@, o as int),
{
    let r = data[o] == 0x00 && data[o + 1] == 0x05 && data[o + 2] == 0x00 && data[o + 3] == 0x00 && data[o + 4] == 0x00
        && data[o + 5] == 0x32 && data[o + 8] == 0x00 && data[o + 9] == 0x0A && data[o + 10] == 0x00 && data[o + 11]
        == 0x0A;
    proof {
        let s = data@;
        if !r {
            if !(s[o + 0] == 0x00 && s[o + 1] == 0x05 && s[o + 2] == 0x00 && s[o + 3] == 0x00 && s[o + 4] == 0x00
                && s[o + 5] == 0x32) {
                let p = seq![0x00u8, 0x05, 0x00, 0x00, 0x00, 0x32];
                assert(!(forall|k: int| 0 <= k < p.len() ==> s[o + k] == p[k])) by {
                    if s[o + 0] != 0x00 { assert(s[o + 0] != p[0]); }
                    else if s[o + 1] != 0x05 { assert(s[o + 1] != p[1]); }
                    else if s[o + 2] != 0x00 { assert(s[o + 2] != p[2]); }
                    else if s[o + 3] != 0x00 { assert(s[o + 3] != p[3]); }
                    else if s[o + 4] != 0x00 { assert(s[o + 4] != p[4]); }
                    else { assert(s[o + 5] != p[5]); }
                }
            } else {
                let p = seq![0x00u8, 0x0A, 0x00, 0x0A];
                assert(!(forall|k: int| 0 <= k < p.len() ==> s[o + 8 + k] == p[k])) by {
                    if s[o + 8] != 0x00 { assert(s[o + 8 + 0] != p[0]); }
                    else if s[o + 9] != 0x0A { assert(s[o + 8 + 1] != p[1]); }
                    else if s[o + 10] != 0x00 { assert(s[o + 8 + 2] != p[2]); }
                    else { assert(s[o + 8 + 3] != p[3]); }
                }
            }
        }
    }
    r
}

fn launch_u31_sig(data: &[u8], o: usize) -> (r: bool)
    requires
        o + 16 <= data@.len(),
        data@.len() + 0x10000 <= usize::MAX,
    ensures
        r == launch_u31_at(data@, o as int),
{
    let head: [u8; 10] = [0x00, 0x64, 0x01, 0x90, 0x00, 0x00, 0x00, 0x32, 0x00, 0x32];
    let tail: [u8; 4] = [0x00, 0x0A, 0x00, 0x0A];
    let mut k: usize = 0;
    while k < 10
        invariant
            k <= 10,
            o + 16 <= data@.len(),
            data@.len() + 0x10000 <= usize::MAX,
            head@ == seq![0x00u8, 0x64, 0x01, 0x90, 0x00, 0x00, 0x00, 0x32, 0x00, 0x32],
            forall|q: int| 0 <= q < k ==> data@[o + q] == head@[q],
        decreases 10 - k,
    {
        if data[o + k] != head[k] {
            return false;
        }
        k += 1;
    }
    let mut k: usize = 0;
    while k < 4
        invariant
            k <= 4,
            o + 16 <= data@.len(),
            data@.len() + 0x10000 <= usize::MAX,
            tail@ == seq![0x00u8, 0x0A, 0x00, 0x0A],
            forall|q: int| 0 <= q < k ==> data@[o + 12 + q] == tail@[q],
            bytes_at(data@, o as int, seq![0x00u8, 0x64, 0x01, 0x90, 0x00, 0x00, 0x00, 0x32, 0x00, 0x32]),
        decreases 4 - k,
    {
        if data[o + 12 + k] != tail[k] {
            return false;
        }
        k += 1;
    }
    true
}

/// Whether the launch control table with axes at `ys` passes the checks.
fn is_launch_table(data: &[u8], ys: usize) -> (r: bool)
    requires
        data@.len() + 0x10000 <= usize::MAX,
    ensures
        r == launch_table(data@, ys as int),
{
    if ys > data.len() || data.len() - ys < 240 {
        return false;
    }
    let y = read_words(data, ys, 10);
    if y[0] != 0 || y[9] < 3500 || y[9] > 7000 || !is_strictly_increasing(y.as_slice()) {
        return false;
    }
    let x = read_words(data, ys + 20, 10);
    if x[0] > 500 || x[9] < 10000 || x[9] > 25000 || !is_strictly_increasing(x.as_slice()) {
        return false;
    }
    let cells = read_words(data, ys + 40, 100);
    all_in(cells.as_slice(), 0, 50000) && count_in(cells.as_slice(), 1, 65535) >= 50
}

fn svgl_entry(o: usize) -> (m: DetectedMap)
    requires
        o + 12 <= u32::MAX,
    ensures
        svgl_map(m, o as int),
{
    let mut m = DetectedMap::new((o + 10) as u32, 2, MapDimensions::OneDimensional { length: 1 }, DataType::Int16);
    m.name = Some(text("Single Value Gearbox Limiter"));
    m.category = Some(text("Gearbox"));
    m.unit = Some(text("Nm"));
    m.correction_factor = Some(100_000_000_000);
    m.offset = Some(0);
    m.confidence = 930;
    m
}

} // verus!
