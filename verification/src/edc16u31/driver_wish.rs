//! Driver's wish maps: one per driving program, either each behind its own
//! `[rows][pedal points]` header and axes (kept when strict or in a chain of
//! at least three), or sharing one engine-speed axis and one pedal axis ahead
//! of a program selector.
use vstd::prelude::*;
use std::collections::HashSet;
use crate::bytes::{be16, be16_seq, be16s, read_i16, read_u16, read_words};
use crate::model::{
    DataType, DetectedMap, MapCategory, MapDimensions, category_name, has_text, lemma_listed_last, listed, text, FIXED_ONE,
};
use crate::words::{is_strictly_increasing, strictly_increasing};
use super::axis_scan::{create_detected_map, templated_map};
use super::templates::MapType;
use super::{scan_limit, EDC16U31Detector};

verus! {

broadcast use {vstd::std_specs::hash::group_hash_axioms, crate::model::lemma_listed_push};

/// Bytes `a .. a + n` of `s` are all zero.
pub open spec fn all_zero(s: Seq<u8>, a: int, n: int) -> bool {
    forall|k: int| a <= k < a + n ==> #[trigger] s[k] == 0
}

/// A driver's wish block with its own header at `h`, inside `.. lim`: `rows`
/// (12 ..= 16) engine-speed points from at most 600 up to 3500 ..= 6500,
/// `cols` (8 or 9) pedal points from at most 500 up to 7500 ..= 10200, both
/// strictly increasing, and a first cell that is not negative.
pub open spec fn dw_block(s: Seq<u8>, lim: int, h: int) -> bool {
    let rows = be16(s, h) as int;
    let cols = be16(s, h + 2) as int;
    let y = be16_seq(s, h + 4, rows);
    let x = be16_seq(s, h + 4 + 2 * rows, cols);
    &&& 0 <= h
    &&& h + 4 < lim
    &&& lim <= s.len()
    &&& 12 <= rows <= 16
    &&& 8 <= cols <= 9
    &&& h + 4 + 2 * rows + 2 * cols + 2 * rows * cols <= lim
    &&& y[0] <= 600
    &&& 3500 <= y[rows - 1] <= 6500
    &&& strictly_increasing(y)
    &&& x[0] <= 500
    &&& 7500 <= x[cols - 1] <= 10200
    &&& strictly_increasing(x)
    &&& be16s(s, h + 4 + 2 * rows + 2 * cols) >= 0
}

/// The map of the block at `h`.
pub open spec fn dw_block_map(s: Seq<u8>, m: DetectedMap, h: int) -> bool {
    let rows = be16(s, h) as int;
    let cols = be16(s, h + 2) as int;
    let ms = h + 4 + 2 * rows + 2 * cols;
    &&& !all_zero(s, ms, 2 * rows * cols)
    &&& templated_map(m, MapType::DriverWish, ms, rows, cols, h + 4, h + 4 + 2 * rows, 1100)
}

/// The block at `b` follows the block at `a`: its header lies at most 96
/// bytes after the end of the cells of `a`.
pub open spec fn dw_linked(s: Seq<u8>, lim: int, a: int, b: int) -> bool {
    &&& dw_block(s, lim, a)
    &&& dw_block(s, lim, b)
    &&& dw_end(s, a) <= b <= dw_end(s, a) + 96
}

/// The blocks at `a`, `b` and `c` follow each other.
pub open spec fn dw_run3(s: Seq<u8>, lim: int, a: int, b: int, c: int) -> bool {
    dw_linked(s, lim, a, b) && dw_linked(s, lim, b, c)
}

/// The block at `h` belongs to a chain of at least three blocks.
pub open spec fn dw_chained(s: Seq<u8>, lim: int, h: int) -> bool {
    exists|a: int, b: int|
        #![trigger dw_run3(s, lim, a, b, h)]
        #![trigger dw_run3(s, lim, a, h, b)]
        #![trigger dw_run3(s, lim, h, a, b)]
        dw_run3(s, lim, a, b, h) || dw_run3(s, lim, a, h, b) || dw_run3(s, lim, h, a, b)
}

/// `m` is the map of a driver's wish block with its own header, found in
/// `start .. min(end, len)`, strict or in a chain of at least three blocks,
/// its cells not all zero and not at an address of `d`.
pub open spec fn dw_ok(s: Seq<u8>, start: int, end: int, d: Set<u32>, m: DetectedMap) -> bool {
    let h = m.y_axis_address->0 - 4;
    &&& m.y_axis_address is Some
    &&& !d.contains(m.address)
    &&& start <= h
    &&& dw_block(s, scan_limit(s, end), h)
    &&& dw_block_map(s, m, h)
    &&& (dw_strict(s, h) || dw_chained(s, scan_limit(s, end), h))
}

/// Where the cells of the block at `h` start and end.
pub open spec fn dw_ms(s: Seq<u8>, h: int) -> int {
    h + 4 + 2 * (be16(s, h) as int) + 2 * (be16(s, h + 2) as int)
}

pub open spec fn dw_end(s: Seq<u8>, h: int) -> int {
    dw_ms(s, h) + 2 * (be16(s, h) as int) * (be16(s, h + 2) as int)
}

/// The block at `h` is strict: its speed axis starts at 0 and its eighth
/// pedal point is exactly 10000.
pub open spec fn dw_strict(s: Seq<u8>, h: int) -> bool {
    be16(s, h + 4) == 0 && be16(s, h + 4 + 2 * (be16(s, h) as int) + 14) == 10000
}

/// Position `o` lies inside the axes and cells of a block found before it.
pub open spec fn dw_inside(s: Seq<u8>, lim: int, start: int, o: int) -> bool {
    exists|h: int| start <= h < o < dw_end(s, h) && (h - start) % 2 == 0 && #[trigger] dw_block(s, lim, h)
}

/// A block found in the first pass.
struct DwCandidate {
    header: usize,
    rows: usize,
    cols: usize,
    map_start: usize,
    map_size: usize,
    strict: bool,
    empty: bool,
}

/// Whether a driver's wish block with its own header stands at `h`.
fn is_dw_block(data: &[u8], lim: usize, h: usize) -> (r: bool)
    requires
        lim <= data@.len(),
        data@.len() + 0x10000 <= usize::MAX,
        h + 4 < lim,
    ensures
        r == dw_block(data@, lim as int, h as int),
{
    let rows = read_u16(data, h) as usize;
    let cols = read_u16(data, h + 2) as usize;
    if rows < 12 || rows > 16 || cols < 8 || cols > 9 {
        return false;
    }
    assert(96 <= rows * cols <= 144 && 2 * rows * cols == 2 * (rows * cols)) by (nonlinear_arith)
        requires
            12 <= rows <= 16,
            8 <= cols <= 9,
    ;
    let ms = h + 4 + 2 * rows + 2 * cols;
    if ms > lim || lim - ms < 2 * rows * cols {
        return false;
    }
    let y = read_words(data, h + 4, rows);
    if y[0] > 600 || y[rows - 1] < 3500 || y[rows - 1] > 6500 || !is_strictly_increasing(y.as_slice()) {
        return false;
    }
    let x = read_words(data, h + 4 + 2 * rows, cols);
    if x[0] > 500 || x[cols - 1] < 7500 || x[cols - 1] > 10200 || !is_strictly_increasing(x.as_slice()) {
        return false;
    }
    read_i16(data, ms) >= 0
}

/// Whether bytes `a .. a + n` of `data` are all zero.
fn is_all_zero(data: &[u8], a: usize, n: usize) -> (r: bool)
    requires
        a + n <= data@.len(),
        data@.len() + 0x10000 <= usize::MAX,
    ensures
        r == all_zero(data@, a as int, n as int),
{
    let mut k: usize = 0;
    while k < n
        invariant
            k <= n,
            a + n <= data@.len(),
            data@.len() + 0x10000 <= usize::MAX,
            forall|q: int| a <= q < a + k ==> #[trigger] data@[q] == 0,
        decreases n - k,
    {
        if data[a + k] != 0 {
            return false;
        }
        k += 1;
    }
    true
}

/// The program selector at marker `m`: `[8A 00][count]`, `count` (2 ..= 8)
/// strictly increasing engine-speed thresholds (the first at most 2000, the
/// last at most 8000), then `count` entries `[id ≤ 10][00]`.
pub open spec fn selector_at(s: Seq<u8>, m: int) -> bool {
    let count = be16(s, m + 2) as int;
    let axis = be16_seq(s, m + 4, count);
    let entries = m + 4 + 2 * count;
    &&& 0 <= m
    &&& m + 4 <= s.len()
    &&& s[m] == 0x8A
    &&& s[m + 1] == 0x00
    &&& 2 <= count <= 8
    &&& entries + 2 * count <= s.len()
    &&& axis[0] <= 2000
    &&& axis[count - 1] <= 8000
    &&& strictly_increasing(axis)
    &&& forall|i: int| 0 <= i < count ==> #[trigger] entry_ok(s, entries, i)
}

/// Program entry `i` of the entries at `e` is `[id ≤ 10][00]`.
pub open spec fn entry_ok(s: Seq<u8>, e: int, i: int) -> bool {
    s[e + 2 * i] <= 10 && s[e + 2 * i + 1] == 0
}

/// Program entry `i` of the entries at `e` is `[i][00]`.
pub open spec fn entry_is(s: Seq<u8>, e: int, i: int) -> bool {
    s[e + 2 * i] == i && s[e + 2 * i + 1] == 0
}

/// `mp` is the program selector map of the marker at `m`.
pub open spec fn selector_map(s: Seq<u8>, mp: DetectedMap, m: int) -> bool {
    let count = be16(s, m + 2) as int;
    &&& mp.address == m + 4 + 2 * count
    &&& mp.size == 2 * count
    &&& mp.dimensions == MapDimensions::OneDimensional { length: count as usize }
    &&& mp.data_type == DataType::Int16
    &&& has_text(mp.name, "Driver Wish Selector"@)
    &&& has_text(mp.category, category_name(MapCategory::EngineTorqueRequest))
    &&& has_text(mp.unit, "[-]"@)
    &&& mp.correction_factor == Some(FIXED_ONE)
    &&& mp.confidence == 900
    &&& mp.is_little_endian == Some(true)
    &&& mp.x_axis_address == Some((m + 4) as u32)
    &&& has_text(mp.x_label, "rpm"@)
    &&& mp.x_axis_correction == Some(FIXED_ONE)
}

/// The program selector at marker `m`, if one stands there.
pub fn dw_selector_at(data: &[u8], m: usize) -> (r: Option<DetectedMap>)
    requires
        data@.len() <= u32::MAX,
        data@.len() + 0x10000 <= usize::MAX,
    ensures
        r is Some <==> selector_at(data@, m as int),
        r matches Some(mp) ==> selector_map(data@, mp, m as int),
{
    let ghost s = data@;
    if m > data.len() || data.len() - m < 4 || data[m] != 0x8A || data[m + 1] != 0x00 {
        return None;
    }
    let count = read_u16(data, m + 2) as usize;
    if count < 2 || count > 8 {
        return None;
    }
    let entries = m + 4 + 2 * count;
    if entries > data.len() || data.len() - entries < 2 * count {
        return None;
    }
    let axis = read_words(data, m + 4, count);
    if axis[0] > 2000 || axis[count - 1] > 8000 || !is_strictly_increasing(axis.as_slice()) {
        return None;
    }
    let mut i: usize = 0;
    while i < count
        invariant
            s == data@,
            i <= count,
            count <= 8,
            count == be16(s, m + 2),
            entries == m + 4 + 2 * count,
            entries + 2 * count <= s.len(),
            s.len() + 0x10000 <= usize::MAX,
            forall|q: int| 0 <= q < i ==> #[trigger] entry_ok(s, entries as int, q),
        decreases count - i,
    {
        if data[entries + 2 * i] > 10 || data[entries + 2 * i + 1] != 0 {
            proof {
                let e = m + 4 + 2 * (be16(s, m + 2) as int);
                assert(e == entries);
                assert(!entry_ok(s, e, i as int));
            }
            return None;
        }
        i += 1;
    }
    let mut mp = DetectedMap::new(entries as u32, 2 * count, MapDimensions::OneDimensional { length: count }, DataType::Int16);
    mp.name = Some(text("Driver Wish Selector"));
    mp.category = Some(MapCategory::EngineTorqueRequest.display_name());
    mp.unit = Some(text("[-]"));
    mp.correction_factor = Some(FIXED_ONE);
    mp.confidence = 900;
    mp.is_little_endian = Some(true);
    mp.x_axis_address = Some((m + 4) as u32);
    mp.x_label = Some(text("rpm"));
    mp.x_axis_correction = Some(FIXED_ONE);
    Some(mp)
}

/// Marker position `m` is searched for a selector before the cluster header
/// at `c`: less than 250 bytes before it (and past 0), at most 4 bytes before it.
pub open spec fn selector_window(c: int, m: int) -> bool {
    (if c >= 250 { c - 250 } else { 0 }) < m <= c - 4
}

/// The program selector whose marker lies less than 250 bytes before a
/// cluster header (searched backwards from 4 bytes before it).
pub fn detect_dw_selector_before(data: &[u8], cluster_header: usize) -> (r: Option<DetectedMap>)
    requires
        data@.len() <= u32::MAX,
        data@.len() + 0x10000 <= usize::MAX,
    ensures
        r matches Some(mp) ==> exists|m: int|
            cluster_header - 250 < m <= cluster_header - 4 && selector_at(data@, m) && #[trigger] selector_map(
                data@,
                mp,
                m,
            ) && selector_window(cluster_header as int, m) && forall|q: int|
                m < q <= cluster_header - 4 ==> !#[trigger] selector_at(data@, q),
        r is None <==> forall|m: int| selector_window(cluster_header as int, m) ==> !#[trigger] selector_at(data@, m),
{
    let lo = if cluster_header >= 250 { cluster_header - 250 } else { 0 };
    let mut m = if cluster_header >= 4 { cluster_header - 4 } else { 0 };
    while m > lo
        invariant
            lo < m + 1,
            m <= cluster_header,
            cluster_header < 4 ==> m == 0,
            cluster_header >= 4 ==> m <= cluster_header - 4,
            lo == (if cluster_header >= 250 { cluster_header - 250 } else { 0 }),
            data@.len() <= u32::MAX,
            data@.len() + 0x10000 <= usize::MAX,
            forall|q: int| m < q <= cluster_header - 4 ==> !#[trigger] selector_at(data@, q),
        decreases m,
    {
        match dw_selector_at(data, m) {
            Some(mp) => {
                assert(cluster_header - 250 < m <= cluster_header - 4);
                assert(selector_window(cluster_header as int, m as int));
                assert(selector_map(data@, mp, m as int));
                return Some(mp);
            },
            None => {},
        }
        m -= 1;
    }
    None
}

// ------------------------------------------------------------- shared axes

/// A shared-axes block: `[00 10]` and sixteen engine-speed points from 0 up
/// to 3500 ..= 6500 at `o`; `[00 08]` and eight pedal points from at most 500
/// up to exactly 10000 at `ps - 2`, within 64 bytes after the engine-speed
/// axis; the selector marker at `mk`, within 64 bytes after the pedal axis,
/// with `count` entries `[i][00]` for `i` in `0 .. count`; and `count + 1`
/// maps of 256 bytes from `mk + 36 + 4 * count`, all inside `.. lim`.
pub open spec fn shared_block(s: Seq<u8>, lim: int, o: int, ps: int, mk: int) -> bool {
    let y = be16_seq(s, o + 2, 16);
    let x = be16_seq(s, ps, 8);
    let count = be16(s, mk + 2) as int;
    let entries = mk + 4 + 2 * count;
    &&& 0 <= o
    &&& lim <= s.len()
    &&& o + 386 <= lim
    &&& be16(s, o) == 16
    &&& y[0] == 0
    &&& 3500 <= y[15] <= 6500
    &&& strictly_increasing(y)
    &&& o + 34 <= ps - 2 < o + 34 + 64
    &&& (ps - 2 - o - 34) % 2 == 0
    &&& ps + 16 <= lim
    &&& be16(s, ps - 2) == 8
    &&& x[0] <= 500
    &&& x[7] == 10000
    &&& strictly_increasing(x)
    &&& ps + 16 <= mk < ps + 16 + 64
    &&& mk + 4 <= lim
    &&& s[mk] == 0x8A
    &&& s[mk + 1] == 0x00
    &&& 2 <= count <= 8
    &&& entries + 2 * count <= lim
    &&& forall|i: int| 0 <= i < count ==> #[trigger] entry_is(s, entries, i)
    &&& mk + 36 + 4 * count + 256 * (count + 1) <= lim
}

/// `m` is program `i` (cells not all zero) of the shared-axes block at
/// `o`, `ps`, `mk`.
pub open spec fn shared_program(s: Seq<u8>, m: DetectedMap, o: int, ps: int, mk: int, i: int) -> bool {
    let ms = mk + 36 + 4 * (be16(s, mk + 2) as int) + 256 * i;
    &&& 0 <= i <= be16(s, mk + 2)
    &&& !all_zero(s, ms, 256)
    &&& templated_map(m, MapType::DriverWish, ms, 16, 8, o + 2, ps, 1100)
}

/// `m` is one of the maps of a shared-axes block of `start .. min(end, len)`:
/// a program whose cells are not all zero, or the program selector; not at
/// an address of `d`.
pub open spec fn shared_ok(s: Seq<u8>, start: int, end: int, d: Set<u32>, m: DetectedMap) -> bool {
    &&& !d.contains(m.address)
    &&& exists|o: int, ps: int, mk: int|
        #![trigger shared_block(s, scan_limit(s, end), o, ps, mk)]
        start <= o && shared_block(s, scan_limit(s, end), o, ps, mk) && ((exists|i: int| #[trigger]
            shared_program(s, m, o, ps, mk, i)) || (selector_at(s, mk) && selector_map(s, m, mk)))
}

/// A pedal axis of eight points (from at most 500 up to exactly 10000,
/// strictly increasing) starts at `ps`, behind its `[00 08]` header.
pub open spec fn pedal_ok(s: Seq<u8>, lim: int, ps: int) -> bool {
    let x = be16_seq(s, ps, 8);
    &&& 2 <= ps
    &&& ps + 16 <= lim
    &&& be16(s, ps - 2) == 8
    &&& x[0] <= 500
    &&& x[7] == 10000
    &&& strictly_increasing(x)
}

/// `ps` is the first pedal axis on the word alignment of the engine-speed
/// axis at `ys`, its header within 64 bytes after that axis.
pub open spec fn first_pedal(s: Seq<u8>, lim: int, ys: int, ps: int) -> bool {
    &&& ys + 32 <= ps - 2 < ys + 96
    &&& (ps - 2 - ys - 32) % 2 == 0
    &&& pedal_ok(s, lim, ps)
    &&& forall|q: int| ys + 32 <= q < ps - 2 && (q - ys - 32) % 2 == 0 ==> !#[trigger] pedal_ok(s, lim, q + 2)
}

/// A selector marker `[8A 00][count]` with its entries `[i][00]` is at `m`.
pub open spec fn marker_ok(s: Seq<u8>, lim: int, m: int) -> bool {
    let count = be16(s, m + 2) as int;
    let entries = m + 4 + 2 * count;
    &&& 0 <= m
    &&& m + 4 <= lim
    &&& s[m] == 0x8A
    &&& s[m + 1] == 0x00
    &&& 2 <= count <= 8
    &&& entries + 2 * count <= lim
    &&& forall|i: int| 0 <= i < count ==> #[trigger] entry_is(s, entries, i)
}

/// `mk` is the first marker within 64 bytes after the pedal axis at `ps`.
pub open spec fn first_marker(s: Seq<u8>, lim: int, ps: int, mk: int) -> bool {
    &&& ps + 16 <= mk < ps + 80
    &&& marker_ok(s, lim, mk)
    &&& forall|m: int| ps + 16 <= m < mk ==> !#[trigger] marker_ok(s, lim, m)
}

proof fn lemma_first_pedal_unique(s: Seq<u8>, lim: int, ys: int, a: int, b: int)
    requires
        first_pedal(s, lim, ys, a),
        first_pedal(s, lim, ys, b),
    ensures
        a == b,
{
    if a < b {
        assert(!pedal_ok(s, lim, (a - 2) + 2));
    } else if b < a {
        assert(!pedal_ok(s, lim, (b - 2) + 2));
    }
}

proof fn lemma_first_marker_unique(s: Seq<u8>, lim: int, ps: int, a: int, b: int)
    requires
        first_marker(s, lim, ps, a),
        first_marker(s, lim, ps, b),
    ensures
        a == b,
{
    if a < b {
        assert(!marker_ok(s, lim, a));
    } else if b < a {
        assert(!marker_ok(s, lim, b));
    }
}

/// The address of program `i` of the block whose selector marker is at `mk`.
pub open spec fn program_addr(s: Seq<u8>, mk: int, i: int) -> int {
    mk + 36 + 4 * (be16(s, mk + 2) as int) + 256 * i
}

/// The programs of the block whose marker is at `mk` end before `lim`.
pub open spec fn block_fits(s: Seq<u8>, lim: int, mk: int) -> bool {
    program_addr(s, mk, be16(s, mk + 2) as int + 1) <= lim
}

/// Program `i` of the block whose marker is at `mk` has cells that are not
/// all zero, and its address is not in `d`.
pub open spec fn live_program(s: Seq<u8>, d: Set<u32>, mk: int, i: int) -> bool {
    &&& 0 <= i <= be16(s, mk + 2)
    &&& !d.contains(program_addr(s, mk, i) as u32)
    &&& !all_zero(s, program_addr(s, mk, i), 256)
}

/// A shared-axes block with a program to report has its engine-speed axis
/// header at `o`, on the word alignment of the scan from `start`.
pub open spec fn shared_at(s: Seq<u8>, d: Set<u32>, start: int, lim: int, o: int) -> bool {
    &&& start <= o
    &&& (o - start) % 2 == 0
    &&& o + 386 <= lim
    &&& exists|ps: int, mk: int|
        #![trigger first_marker(s, lim, ps, mk)]
        first_pedal(s, lim, o + 2, ps) && first_marker(s, lim, ps, mk) && shared_block(s, lim, o, ps, mk)
            && block_fits(s, lim, mk) && exists|i: int| #[trigger] live_program(s, d, mk, i)
}

/// The first such block of the scan.
pub open spec fn first_shared(s: Seq<u8>, d: Set<u32>, start: int, lim: int, o: int) -> bool {
    &&& shared_at(s, d, start, lim, o)
    &&& forall|p: int| p < o ==> !#[trigger] shared_at(s, d, start, lim, p)
}

/// The programs to report of the first block below `bound` are listed in `r`.
pub open spec fn shared_first_listed(s: Seq<u8>, d: Set<u32>, start: int, lim: int, r: Seq<DetectedMap>, bound: int) -> bool {
    forall|o: int, ps: int, mk: int, i: int|
        #![trigger first_shared(s, d, start, lim, o), first_marker(s, lim, ps, mk), live_program(s, d, mk, i)]
        first_shared(s, d, start, lim, o) && o < bound && first_pedal(s, lim, o + 2, ps) && first_marker(
            s,
            lim,
            ps,
            mk,
        ) && live_program(s, d, mk, i) ==> listed(r, program_addr(s, mk, i))
}

proof fn lemma_shared_grow(
    s: Seq<u8>,
    d: Set<u32>,
    start: int,
    lim: int,
    a: Seq<DetectedMap>,
    b: Seq<DetectedMap>,
    bound: int,
)
    requires
        shared_first_listed(s, d, start, lim, a, bound),
        forall|x: int| listed(a, x) ==> #[trigger] listed(b, x),
    ensures
        shared_first_listed(s, d, start, lim, b, bound),
{
    assert forall|o: int, ps: int, mk: int, i: int|
        #![trigger first_shared(s, d, start, lim, o), first_marker(s, lim, ps, mk), live_program(s, d, mk, i)]
        first_shared(s, d, start, lim, o) && o < bound && first_pedal(s, lim, o + 2, ps) && first_marker(
            s,
            lim,
            ps,
            mk,
        ) && live_program(s, d, mk, i) implies listed(b, program_addr(s, mk, i)) by {
        assert(listed(a, program_addr(s, mk, i)));
    }
}

proof fn lemma_shared_step(
    s: Seq<u8>,
    d: Set<u32>,
    start: int,
    lim: int,
    r: Seq<DetectedMap>,
    o: int,
    found: bool,
)
    requires
        shared_first_listed(s, d, start, lim, r, o),
        !found ==> (o - start) % 2 == 0 && !shared_at(s, d, start, lim, o),
        found ==> exists|p: int| p < o && #[trigger] shared_at(s, d, start, lim, p),
    ensures
        shared_first_listed(s, d, start, lim, r, o + 2),
{
    assert forall|q: int| o <= q < o + 2 implies !#[trigger] first_shared(s, d, start, lim, q) by {
        if found {
            let p = choose|p: int| p < o && #[trigger] shared_at(s, d, start, lim, p);
            assert(shared_at(s, d, start, lim, p));
        }
    }
}

/// The pedal axis of a shared-axes block: the first `[00 08]` header within
/// 64 bytes after the engine-speed axis at `ys` whose eight points pass.
fn find_pedal(data: &[u8], lim: usize, ys: usize) -> (r: Option<usize>)
    requires
        lim <= data@.len(),
        data@.len() + 0x10000 <= usize::MAX,
        ys + 32 <= lim,
    ensures
        r matches Some(ps) ==> {
            let x = be16_seq(data@, ps as int, 8);
            &&& ys + 32 <= ps - 2 < ys + 32 + 64
            &&& (ps - 2 - ys - 32) % 2 == 0
            &&& ps + 16 <= lim
            &&& be16(data@, ps - 2) == 8
            &&& x[0] <= 500
            &&& x[7] == 10000
            &&& strictly_increasing(x)
        },
        r matches Some(ps) ==> first_pedal(data@, lim as int, ys as int, ps as int),
        r is None ==> forall|ps: int| !#[trigger] first_pedal(data@, lim as int, ys as int, ps),
{
    let mut q = ys + 32;
    while q <= lim && lim - q >= 18 && q < ys + 96
        invariant
            lim <= data@.len(),
            data@.len() + 0x10000 <= usize::MAX,
            ys + 32 <= q,
            (q - ys - 32) % 2 == 0,
            forall|t: int| ys + 32 <= t < q && (t - ys - 32) % 2 == 0 ==> !#[trigger] pedal_ok(data@, lim as int, t + 2),
        decreases ys + 96 - q,
    {
        if read_u16(data, q) == 8 {
            let x = read_words(data, q + 2, 8);
            if x[0] <= 500 && x[7] == 10000 && is_strictly_increasing(x.as_slice()) {
                assert(pedal_ok(data@, lim as int, q + 2));
                return Some(q + 2);
            }
        }
        q += 2;
    }
    proof {
        assert forall|ps: int| !#[trigger] first_pedal(data@, lim as int, ys as int, ps) by {
            if first_pedal(data@, lim as int, ys as int, ps) {
                assert(!pedal_ok(data@, lim as int, (ps - 2) + 2));
            }
        }
    }
    None
}

/// The selector marker of a shared-axes block: the first `[8A 00][count]`
/// within 64 bytes after the pedal axis at `ps` whose entries are `[i][00]`.
fn find_marker(data: &[u8], lim: usize, ps: usize) -> (r: Option<usize>)
    requires
        lim <= data@.len(),
        data@.len() + 0x10000 <= usize::MAX,
        ps + 16 <= lim,
    ensures
        r matches Some(mk) ==> {
            let count = be16(data@, mk + 2) as int;
            let entries = mk + 4 + 2 * count;
            &&& ps + 16 <= mk < ps + 16 + 64
            &&& mk + 4 <= lim
            &&& data@[mk as int] == 0x8A
            &&& data@[mk + 1] == 0x00
            &&& 2 <= count <= 8
            &&& entries + 2 * count <= lim
            &&& forall|i: int| 0 <= i < count ==> #[trigger] entry_is(data@, entries, i)
        },
        r matches Some(mk) ==> first_marker(data@, lim as int, ps as int, mk as int),
        r is None ==> forall|mk: int| !#[trigger] first_marker(data@, lim as int, ps as int, mk),
{
    let ghost s = data@;
    let mut m = ps + 16;
    while m <= lim && lim - m >= 4 && m < ps + 80
        invariant
            s == data@,
            lim <= s.len(),
            s.len() + 0x10000 <= usize::MAX,
            ps + 16 <= m,
            forall|t: int| ps + 16 <= t < m ==> !#[trigger] marker_ok(s, lim as int, t),
        decreases ps + 80 - m,
    {
        if data[m] == 0x8A && data[m + 1] == 0x00 {
            let count = read_u16(data, m + 2) as usize;
            if 2 <= count && count <= 8 && m + 4 + 2 * count <= lim && lim - (m + 4 + 2 * count) >= 2 * count {
                let entries = m + 4 + 2 * count;
                let mut ok = true;
                let mut i: usize = 0;
                while i < count
                    invariant
                        s == data@,
                        i <= count,
                        count <= 8,
                        entries + 2 * count <= lim,
                        lim <= s.len(),
                        ok ==> forall|q: int| 0 <= q < i ==> #[trigger] entry_is(s, entries as int, q),
                        !ok ==> exists|q: int| 0 <= q < i && !#[trigger] entry_is(s, entries as int, q),
                    decreases count - i,
                {
                    if data[entries + 2 * i] as usize != i || data[entries + 2 * i + 1] != 0 {
                        ok = false;
                        assert(!entry_is(s, entries as int, i as int));
                    }
                    i += 1;
                }
                if ok {
                    assert(marker_ok(s, lim as int, m as int));
                    return Some(m);
                }
            }
        }
        m += 1;
    }
    proof {
        assert forall|mk: int| !#[trigger] first_marker(s, lim as int, ps as int, mk) by {
            if first_marker(s, lim as int, ps as int, mk) {
                assert(!marker_ok(s, lim as int, mk));
            }
        }
    }
    None
}

/// Two blocks that follow each other in a run are linked.
proof fn lemma_link(s: Seq<u8>, lim: int, x: DwCandidate, y: DwCandidate)
    requires
        dw_block(s, lim, x.header as int),
        dw_block(s, lim, y.header as int),
        x.rows == be16(s, x.header as int),
        x.cols == be16(s, x.header + 2),
        x.map_start == x.header + 4 + 2 * x.rows + 2 * x.cols,
        x.map_size == 2 * x.rows * x.cols,
        x.map_start + x.map_size <= y.header <= x.map_start + x.map_size + 96,
    ensures
        dw_linked(s, lim, x.header as int, y.header as int),
{
    assert(dw_end(s, x.header as int) == x.map_start + x.map_size);
}

/// A block of a run of at least three linked blocks is chained.
proof fn lemma_chained(s: Seq<u8>, lim: int, x: DwCandidate, y: DwCandidate, z: DwCandidate, pos: int)
    requires
        0 <= pos < 3,
        dw_linked(s, lim, x.header as int, y.header as int),
        dw_linked(s, lim, y.header as int, z.header as int),
    ensures
        dw_chained(s, lim, (if pos == 0 { x } else if pos == 1 { y } else { z }).header as int),
{
    let (a, b, c) = (x.header as int, y.header as int, z.header as int);
    assert(dw_run3(s, lim, a, b, c));
}

impl EDC16U31Detector {
    /// The driver's wish maps with their own header in `start .. min(end, len)`:
    /// every block found (see [`dw_block`]) is skipped over as a whole; of
    /// the blocks whose cells are not all zero, those that are strict (speed
    /// axis from 0, pedal point 8 at exactly 10000) or belong to a chain of
    /// at least three (each header at most 96 bytes after the previous
    /// block's end) are reported, unless their address is in `detected`.
    pub fn detect_driver_wish_maps(&self, data: &[u8], start: usize, end: usize, detected: &HashSet<u32>) -> (r: Vec<
        DetectedMap,
    >)
        requires
            data@.len() <= u32::MAX,
            data@.len() + 0x10000 <= usize::MAX,
        ensures
            forall|k: int| 0 <= k < r@.len() ==> dw_ok(data@, start as int, end as int, detected@, #[trigger] r@[k]),
            forall|o: int|
                start <= o && (o - start) % 2 == 0 && #[trigger] dw_block(data@, scan_limit(data@, end as int), o)
                    && dw_strict(data@, o) && !all_zero(data@, dw_ms(data@, o), dw_end(data@, o) - dw_ms(data@, o))
                    && !detected@.contains(dw_ms(data@, o) as u32) ==> listed(r@, dw_ms(data@, o)) || dw_inside(
                    data@,
                    scan_limit(data@, end as int),
                    start as int,
                    o,
                ),
    {
        let ghost s = data@;
        let len = data.len();
        let lim = if end < len { end } else { len };
        let mut cands: Vec<DwCandidate> = Vec::new();
        let mut o = start;
        while o < lim && lim - o > 4
            invariant
                s == data@,
                len == s.len(),
                len <= u32::MAX,
                len + 0x10000 <= usize::MAX,
                lim == (if end < len { end } else { len }),
                start <= o,
                forall|k: int|
                    0 <= k < cands@.len() ==> {
                        let c = #[trigger] cands@[k];
                        &&& start <= c.header
                        &&& dw_block(s, lim as int, c.header as int)
                        &&& c.rows == be16(s, c.header as int)
                        &&& c.cols == be16(s, c.header + 2)
                        &&& c.map_start == c.header + 4 + 2 * c.rows + 2 * c.cols
                        &&& c.map_size == 2 * c.rows * c.cols
                        &&& c.empty == all_zero(s, c.map_start as int, c.map_size as int)
                        &&& c.map_start + c.map_size <= lim
                        &&& c.strict == dw_strict(s, c.header as int)
                    },
                (o - start) % 2 == 0,
                forall|a: int, b: int|
                    0 <= a < b < cands@.len() ==> (#[trigger] cands@[a]).map_start + cands@[a].map_size <= (
                    #[trigger] cands@[b]).header,
                forall|k: int| 0 <= k < cands@.len() ==> (#[trigger] cands@[k]).map_start + cands@[k].map_size <= o,
                forall|q: int|
                    start <= q < o && (q - start) % 2 == 0 && #[trigger] dw_block(s, lim as int, q) ==> (exists|k: int|
                        0 <= k < cands@.len() && (#[trigger] cands@[k]).header == q) || dw_inside(s, lim as int, start as int, q),
            decreases len - o,
        {
            if is_dw_block(data, lim, o) {
                let rows = read_u16(data, o) as usize;
                let cols = read_u16(data, o + 2) as usize;
                assert(2 * rows * cols == 2 * (rows * cols)) by (nonlinear_arith);
                let ms = o + 4 + 2 * rows + 2 * cols;
                let size = 2 * rows * cols;
                let y0 = read_u16(data, o + 4);
                let p7 = read_u16(data, o + 4 + 2 * rows + 14);
                let strict = y0 == 0 && p7 == 10000;
                let empty = is_all_zero(data, ms, size);
                let ghost before = cands@;
                cands.push(DwCandidate { header: o, rows, cols, map_start: ms, map_size: size, strict, empty });
                proof {
                    assert(cands@[before.len() as int].header == o);
                    assert(ms + size - o == 2 * (2 + rows + cols + rows * cols)) by (nonlinear_arith)
                        requires
                            ms == o + 4 + 2 * rows + 2 * cols,
                            size == 2 * rows * cols,
                    ;
                    assert(ms + size == dw_end(s, o as int));
                    assert forall|q: int|
                        start <= q < ms + size && (q - start) % 2 == 0 && #[trigger] dw_block(s, lim as int, q) implies (exists|k: int|
                            0 <= k < cands@.len() && (#[trigger] cands@[k]).header == q) || dw_inside(s, lim as int, start as int, q) by {
                        if q < o {
                            if exists|k: int| 0 <= k < before.len() && (#[trigger] before[k]).header == q {
                                let k = choose|k: int| 0 <= k < before.len() && (#[trigger] before[k]).header == q;
                                assert(cands@[k] == before[k]);
                            }
                        } else if q > o {
                            assert(dw_block(s, lim as int, o as int));
                        }
                    }
                }
                o = ms + size;
                continue;
            }
            o += 2;
        }
        let mut maps: Vec<DetectedMap> = Vec::new();
        let mut i: usize = 0;
        while i < cands.len()
            invariant
                s == data@,
                len == s.len(),
                len <= u32::MAX,
                len + 0x10000 <= usize::MAX,
                lim == (if end < len { end } else { len }),
                forall|k: int|
                    0 <= k < cands@.len() ==> {
                        let c = #[trigger] cands@[k];
                        &&& start <= c.header
                        &&& dw_block(s, lim as int, c.header as int)
                        &&& c.rows == be16(s, c.header as int)
                        &&& c.cols == be16(s, c.header + 2)
                        &&& c.map_start == c.header + 4 + 2 * c.rows + 2 * c.cols
                        &&& c.map_size == 2 * c.rows * c.cols
                        &&& c.empty == all_zero(s, c.map_start as int, c.map_size as int)
                        &&& c.map_start + c.map_size <= lim
                        &&& c.strict == dw_strict(s, c.header as int)
                    },
                forall|k: int| 0 <= k < maps@.len() ==> dw_ok(s, start as int, end as int, detected@, #[trigger] maps@[k]),
                i <= cands@.len(),
                forall|a: int, b: int|
                    0 <= a < b < cands@.len() ==> (#[trigger] cands@[a]).map_start + cands@[a].map_size <= (
                    #[trigger] cands@[b]).header,
                forall|q: int|
                    0 <= q < i && (#[trigger] cands@[q]).strict && !cands@[q].empty && !detected@.contains(
                        cands@[q].map_start as u32,
                    ) ==> listed(maps@, cands@[q].map_start as int),
            decreases cands.len() - i,
        {
            let mut j = i;
            while j + 1 < cands.len() && cands[j + 1].header <= cands[j].map_start + cands[j].map_size + 96
                invariant
                    i <= j < cands@.len(),
                    forall|q: int|
                        i <= q < j ==> cands@[q + 1].header <= (#[trigger] cands@[q]).map_start + cands@[q].map_size + 96,
                    forall|k: int|
                        0 <= k < cands@.len() ==> (#[trigger] cands@[k]).map_start + cands@[k].map_size <= lim,
                    lim <= len,
                    len <= u32::MAX,
                    len + 0x10000 <= usize::MAX,
                decreases cands.len() - j,
            {
                j += 1;
            }
            let keep_all = j - i + 1 >= 3;
            let mut k = i;
            while k <= j
                invariant
                    s == data@,
                    len == s.len(),
                    len <= u32::MAX,
                    lim == (if end < len { end } else { len }),
                    i <= k <= j + 1,
                    j < cands.len(),
                    keep_all == (j - i + 1 >= 3),
                    forall|q: int|
                        i <= q < j ==> cands@[q + 1].header <= (#[trigger] cands@[q]).map_start + cands@[q].map_size + 96,
                    forall|a: int, b: int|
                        0 <= a < b < cands@.len() ==> (#[trigger] cands@[a]).map_start + cands@[a].map_size <= (
                        #[trigger] cands@[b]).header,
                    forall|q: int|
                        0 <= q < cands@.len() ==> {
                            let c = #[trigger] cands@[q];
                            &&& start <= c.header
                            &&& dw_block(s, lim as int, c.header as int)
                            &&& c.rows == be16(s, c.header as int)
                            &&& c.cols == be16(s, c.header + 2)
                            &&& c.map_start == c.header + 4 + 2 * c.rows + 2 * c.cols
                            &&& c.map_size == 2 * c.rows * c.cols
                            &&& c.empty == all_zero(s, c.map_start as int, c.map_size as int)
                            &&& c.map_start + c.map_size <= lim
                            &&& c.strict == dw_strict(s, c.header as int)
                        },
                    forall|q: int| 0 <= q < maps@.len() ==> dw_ok(s, start as int, end as int, detected@, #[trigger] maps@[q]),
                    forall|q: int|
                        0 <= q < k && (#[trigger] cands@[q]).strict && !cands@[q].empty && !detected@.contains(
                            cands@[q].map_start as u32,
                        ) ==> listed(maps@, cands@[q].map_start as int),
                decreases j + 1 - k,
            {
                let c = &cands[k];
                if !c.empty && (keep_all || c.strict) && !detected.contains(&(c.map_start as u32)) {
                    let m = create_detected_map(
                        MapType::DriverWish,
                        c.map_start,
                        c.rows,
                        c.cols,
                        c.header + 4,
                        c.header + 4 + 2 * c.rows,
                        1100,
                    );
                    assert(dw_block_map(s, m, c.header as int));
                    proof {
                        lemma_listed_last(maps@, m);
                        if !cands@[k as int].strict {
                            let kk = k as int;
                            let f = if kk >= i + 2 { kk - 2 } else { i as int };
                            let (x, y, z) = (cands@[f], cands@[f + 1], cands@[f + 2]);
                            assert(y.header <= x.map_start + x.map_size + 96);
                            assert(z.header <= y.map_start + y.map_size + 96);
                            lemma_link(s, lim as int, x, y);
                            lemma_link(s, lim as int, y, z);
                            lemma_chained(s, lim as int, x, y, z, kk - f);
                        }
                    }
                    maps.push(m);
                }
                k += 1;
            }
            i = j + 1;
        }
        maps
    }

    /// The driver's wish maps of the shared-axes layout in
    /// `start .. min(end, len)` (see [`shared_block`]): the programs whose cells
    /// are not all zero, and, when there is one, the program selector; a
    /// block with a program reported is skipped over as a whole.
    pub fn detect_driver_wish_shared_axes(
        &self,
        data: &[u8],
        start: usize,
        end: usize,
        detected: &HashSet<u32>,
    ) -> (r: Vec<DetectedMap>)
        requires
            data@.len() <= u32::MAX,
            data@.len() + 0x10000 <= usize::MAX,
        ensures
            forall|k: int| 0 <= k < r@.len() ==> shared_ok(data@, start as int, end as int, detected@, #[trigger] r@[k]),
            shared_first_listed(
                data@,
                detected@,
                start as int,
                scan_limit(data@, end as int),
                r@,
                scan_limit(data@, end as int),
            ),
    {
        let ghost s = data@;
        let ghost d = detected@;
        let len = data.len();
        let lim = if end < len { end } else { len };
        let ghost l = lim as int;
        let ghost st = start as int;
        let ghost mut found = false;
        let mut maps: Vec<DetectedMap> = Vec::new();
        let mut o = start;
        while o <= lim && lim - o >= 386
            invariant
                s == data@,
                d == detected@,
                len == s.len(),
                len <= u32::MAX,
                len + 0x10000 <= usize::MAX,
                lim == scan_limit(s, end as int),
                l == lim,
                st == start,
                start <= o,
                forall|k: int| 0 <= k < maps@.len() ==> shared_ok(s, start as int, end as int, detected@, #[trigger] maps@[k]),
                !found ==> (o - st) % 2 == 0,
                !found ==> forall|p: int| p < o ==> !#[trigger] shared_at(s, d, st, l, p),
                found ==> exists|p: int| p < o && #[trigger] shared_at(s, d, st, l, p),
                shared_first_listed(s, d, st, l, maps@, o as int),
            decreases len - o,
        {
            if read_u16(data, o) != 16 {
                proof {
                    lemma_shared_step(s, d, st, l, maps@, o as int, found);
                }
                o += 2;
                continue;
            }
            let y = read_words(data, o + 2, 16);
            if y[0] != 0 || y[15] < 3500 || y[15] > 6500 || !is_strictly_increasing(y.as_slice()) {
                proof {
                    lemma_shared_step(s, d, st, l, maps@, o as int, found);
                }
                o += 2;
                continue;
            }
            let ps = match find_pedal(data, lim, o + 2) {
                Some(p) => p,
                None => {
                    proof {
                        lemma_shared_step(s, d, st, l, maps@, o as int, found);
                    }
                    o += 2;
                    continue;
                },
            };
            let mk = match find_marker(data, lim, ps) {
                Some(m) => m,
                None => {
                    proof {
                        if !found {
                            assert forall|ps2: int, mk2: int| !(first_pedal(s, l, o + 2, ps2) && #[trigger] first_marker(s, l, ps2, mk2)) by {
                                if first_pedal(s, l, o + 2, ps2) {
                                    lemma_first_pedal_unique(s, l, o + 2, ps as int, ps2);
                                }
                            }
                        }
                        lemma_shared_step(s, d, st, l, maps@, o as int, found);
                    }
                    o += 2;
                    continue;
                },
            };
            let count = read_u16(data, mk + 2) as usize;
            let first = mk + 36 + 4 * count;
            let n = count + 1;
            if first > lim || lim - first < 256 * n {
                proof {
                    if !found {
                        assert forall|ps2: int, mk2: int|
                            first_pedal(s, l, o + 2, ps2) && #[trigger] first_marker(s, l, ps2, mk2) implies !block_fits(
                            s,
                            l,
                            mk2,
                        ) by {
                            lemma_first_pedal_unique(s, l, o + 2, ps as int, ps2);
                            lemma_first_marker_unique(s, l, ps as int, mk as int, mk2);
                        }
                    }
                    lemma_shared_step(s, d, st, l, maps@, o as int, found);
                }
                o += 2;
                continue;
            }
            assert(shared_block(s, lim as int, o as int, ps as int, mk as int));
            assert(block_fits(s, l, mk as int));
            let ghost mb = maps@;
            let mut added: usize = 0;
            let mut i: usize = 0;
            while i < n
                invariant
                    s == data@,
                    d == detected@,
                    len == s.len(),
                    len <= u32::MAX,
                    lim == scan_limit(s, end as int),
                    l == lim,
                    start <= o,
                    shared_block(s, lim as int, o as int, ps as int, mk as int),
                    count == be16(s, mk + 2),
                    n == count + 1,
                    first == mk + 36 + 4 * count,
                    first + 256 * n <= lim,
                    i <= n,
                    added <= i,
                    len + 0x10000 <= usize::MAX,
                    forall|k: int| 0 <= k < maps@.len() ==> shared_ok(s, start as int, end as int, detected@, #[trigger] maps@[k]),
                    shared_first_listed(s, d, st, l, maps@, o as int),
                    forall|x: int| listed(mb, x) ==> #[trigger] listed(maps@, x),
                    added == 0 ==> forall|j: int| 0 <= j < i ==> !#[trigger] live_program(s, d, mk as int, j),
                    added > 0 ==> exists|j: int| 0 <= j < i && #[trigger] live_program(s, d, mk as int, j),
                    forall|j: int| 0 <= j < i && #[trigger] live_program(s, d, mk as int, j) ==> listed(maps@, program_addr(s, mk as int, j)),
                decreases n - i,
            {
                let ms = first + 256 * i;
                let ghost before = maps@;
                assert(ms == program_addr(s, mk as int, i as int));
                if !detected.contains(&(ms as u32)) && !is_all_zero(data, ms, 256) {
                    assert(live_program(s, d, mk as int, i as int));
                    let m = create_detected_map(MapType::DriverWish, ms, 16, 8, o + 2, ps, 1100);
                    assert(shared_program(s, m, o as int, ps as int, mk as int, i as int));
                    maps.push(m);
                    proof {
                        lemma_listed_last(before, m);
                        lemma_shared_grow(s, d, st, l, before, maps@, o as int);
                    }
                    added += 1;
                }
                i += 1;
            }
            if added > 0 {
                let ghost ma = maps@;
                match dw_selector_at(data, mk) {
                    Some(sel) => {
                        if !detected.contains(&sel.address) {
                            maps.push(sel);
                            proof {
                                lemma_shared_grow(s, d, st, l, ma, maps@, o as int);
                            }
                        }
                    },
                    None => {},
                }
                let ghost old_o = o as int;
                proof {
                    let ghost is_first = !found;
                    if !found {
                        let j = choose|j: int| 0 <= j < n && #[trigger] live_program(s, d, mk as int, j);
                        assert(first_pedal(s, l, o + 2, ps as int) && first_marker(s, l, ps as int, mk as int));
                        assert(live_program(s, d, mk as int, j));
                        assert(shared_block(s, l, old_o, ps as int, mk as int));
                        assert(block_fits(s, l, mk as int));
                        assert(st <= old_o && (old_o - st) % 2 == 0 && old_o + 386 <= l);
                        assert(shared_at(s, d, st, l, old_o));
                        assert(first_shared(s, d, st, l, old_o));
                    }
                    assert forall|o2: int, ps2: int, mk2: int, i2: int|
                        #![trigger first_shared(s, d, st, l, o2), first_marker(s, l, ps2, mk2), live_program(s, d, mk2, i2)]
                        first_shared(s, d, st, l, o2) && o2 < first + 256 * n && first_pedal(s, l, o2 + 2, ps2)
                            && first_marker(s, l, ps2, mk2) && live_program(s, d, mk2, i2) implies listed(
                        maps@,
                        program_addr(s, mk2, i2),
                    ) by {
                        if o2 < old_o {
                            assert(listed(mb, program_addr(s, mk2, i2)));
                        } else if o2 == old_o {
                            lemma_first_pedal_unique(s, l, o2 + 2, ps as int, ps2);
                            lemma_first_marker_unique(s, l, ps as int, mk as int, mk2);
                            assert(listed(ma, program_addr(s, mk2, i2)));
                        } else {
                            if found {
                                let p = choose|p: int| p < old_o && #[trigger] shared_at(s, d, st, l, p);
                                assert(shared_at(s, d, st, l, p));
                            } else {
                                assert(shared_at(s, d, st, l, old_o));
                            }
                        }
                    }
                    assert(exists|p: int| p <= old_o && #[trigger] shared_at(s, d, st, l, p)) by {
                        if found {
                            let p = choose|p: int| p < old_o && #[trigger] shared_at(s, d, st, l, p);
                            assert(shared_at(s, d, st, l, p));
                        } else {
                            assert(shared_at(s, d, st, l, old_o));
                        }
                    }
                }
                o = first + 256 * n;
                proof {
                    found = true;
                }
                continue;
            }
            proof {
                if !found {
                    assert forall|ps2: int, mk2: int, i2: int|
                        first_pedal(s, l, o + 2, ps2) && #[trigger] first_marker(s, l, ps2, mk2) implies !#[trigger] live_program(
                        s,
                        d,
                        mk2,
                        i2,
                    ) by {
                        lemma_first_pedal_unique(s, l, o + 2, ps as int, ps2);
                        lemma_first_marker_unique(s, l, ps as int, mk as int, mk2);
                        if 0 <= i2 <= count {
                            assert(!live_program(s, d, mk as int, i2));
                        }
                    }
                    assert(!shared_at(s, d, st, l, o as int));
                }
                lemma_shared_step(s, d, st, l, maps@, o as int, found);
            }
            o += 2;
        }
        maps
    }
}

} // verus!
