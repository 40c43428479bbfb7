//! The injection duration block: the duration selector (`5 4 3 2 1 0` in
//! little-endian words), the chain of duration maps after it, and the 6 x 4
//! minimum injection break map near the block.
use vstd::prelude::*;
use std::collections::HashSet;
use crate::bytes::{be16, be16_seq, bytes_at, read_u16, read_words};
use crate::model::{DataType, DetectedMap, MapCategory, MapDimensions, category_name, has_text, text, FIXED_ONE};
use crate::text::{two_digits, numbered2};
use crate::words::{all_between, all_in, is_non_decreasing, is_strictly_increasing, non_decreasing, strictly_increasing};
use super::{data_section, get_data_section_range, EDC16U31Detector};

verus! {

broadcast use vstd::std_specs::hash::group_hash_axioms;

/// The selector pattern: the words 5, 4, 3, 2, 1, 0 in little-endian.
pub open spec fn selector_pattern() -> Seq<u8> {
    seq![0x05u8, 0x00, 0x04, 0x00, 0x03, 0x00, 0x02, 0x00, 0x01, 0x00, 0x00, 0x00]
}

/// The header `[00 0A][00 0A]` of the first duration map.
pub open spec fn first_header() -> Seq<u8> {
    seq![0x00u8, 0x0A, 0x00, 0x0A]
}

/// A duration selector at `o`, followed by the first duration header directly
/// (gap 0) or after 4 bytes (gap 4).
pub open spec fn duration_selector_at(s: Seq<u8>, o: int, gap: int) -> bool {
    &&& bytes_at(s, o, selector_pattern())
    &&& (gap == 0 ==> bytes_at(s, o + 12, first_header()))
    &&& (gap == 4 ==> !bytes_at(s, o + 12, first_header()) && bytes_at(s, o + 16, first_header()))
    &&& (gap == 0 || gap == 4)
}

/// `m` is the duration selector at `o`.
pub open spec fn duration_selector_map(m: DetectedMap, o: int) -> bool {
    &&& m.address == o
    &&& m.size == 12
    &&& m.dimensions == MapDimensions::OneDimensional { length: 6 }
    &&& m.data_type == DataType::UInt16
    &&& has_text(m.name, "Duration Selector"@)
    &&& has_text(m.category, category_name(MapCategory::InjectionSystem))
    &&& m.confidence == 950
    &&& has_text(m.unit, "[-]"@)
    &&& m.correction_factor == Some(FIXED_ONE)
    &&& m.is_little_endian == Some(true)
}

fn pattern_at(data: &[u8], o: usize, pat: &[u8]) -> (r: bool)
    requires
        o + pat@.len() <= data@.len(),
        data@.len() + 0x10000 <= usize::MAX,
    ensures
        r == bytes_at(data@, o as int, pat@),
{
    let mut k: usize = 0;
    while k < pat.len()
        invariant
            k <= pat@.len(),
            o + pat@.len() <= data@.len(),
            data@.len() + 0x10000 <= usize::MAX,
            forall|q: int| 0 <= q < k ==> data@[o + q] == pat@[q],
        decreases pat.len() - k,
    {
        if data[o + k] != pat[k] {
            return false;
        }
        k += 1;
    }
    true
}

// --------------------------------------------------------- duration maps

/// A duration map header: 9 ..= 20 rows and 8 ..= 15 columns.
pub open spec fn duration_header(s: Seq<u8>, o: int) -> bool {
    &&& 0 <= o
    &&& o + 4 <= s.len()
    &&& 9 <= be16(s, o) <= 20
    &&& 8 <= be16(s, o + 2) <= 15
}

/// The axes of the duration map whose header is at `o`: engine speed from at
/// most 2000 up to 2000 ..= 8000, injection quantity from at most 2000 up to
/// 2000 ..= 10000, both never decreasing.
pub open spec fn duration_axes(s: Seq<u8>, o: int) -> bool {
    let rows = be16(s, o) as int;
    let cols = be16(s, o + 2) as int;
    let y = be16_seq(s, o + 4, rows);
    let x = be16_seq(s, o + 4 + 2 * rows, cols);
    &&& y[0] <= 2000
    &&& 2000 <= y[rows - 1] <= 8000
    &&& non_decreasing(y)
    &&& x[0] <= 2000
    &&& 2000 <= x[cols - 1] <= 10000
    &&& non_decreasing(x)
}

/// The name of duration map `idx` of a block: "Duration 00" to "Duration 05",
/// then "Duration (Dynamic)".
pub open spec fn duration_name(idx: int) -> Seq<char> {
    if idx <= 5 {
        "Duration "@ + two_digits(idx as nat)
    } else {
        "Duration (Dynamic)"@
    }
}

/// `m` is duration map `idx` whose header is at `o`.
pub open spec fn duration_map(s: Seq<u8>, m: DetectedMap, o: int, idx: int) -> bool {
    let rows = be16(s, o) as int;
    let cols = be16(s, o + 2) as int;
    &&& m.address == o + 4 + 2 * rows + 2 * cols
    &&& m.size == 2 * rows * cols
    &&& m.dimensions == MapDimensions::TwoDimensional { rows: rows as usize, cols: cols as usize }
    &&& m.data_type == DataType::Int16
    &&& has_text(m.name, duration_name(idx))
    &&& has_text(m.category, category_name(MapCategory::InjectionSystem))
    &&& has_text(m.unit, "deg CrS"@)
    &&& m.correction_factor == Some(23_427_000_000i64)
    &&& m.y_axis_address == Some((o + 4) as u32)
    &&& m.x_axis_address == Some((o + 4 + 2 * rows) as u32)
    &&& m.y_axis_correction == Some(FIXED_ONE)
    &&& m.x_axis_correction == Some(10_000_000_000i64)
    &&& has_text(m.y_label, "rpm"@)
    &&& has_text(m.x_label, "mg/stroke"@)
    &&& m.confidence == 920
}

/// `m` is duration map `idx` (0 ..= 9) of a block whose selector is at `sel`:
/// its header lies after the selector, announces a map that fits in the
/// image, its axes pass, and its address is not in `d`.
pub open spec fn duration_ok(s: Seq<u8>, sel: int, d: Set<u32>, m: DetectedMap, o: int, idx: int) -> bool {
    let rows = be16(s, o) as int;
    let cols = be16(s, o + 2) as int;
    &&& sel + 12 <= o
    &&& 0 <= idx < 10
    &&& duration_header(s, o)
    &&& o + 4 + 2 * rows + 2 * cols + 2 * rows * cols <= s.len()
    &&& duration_axes(s, o)
    &&& !d.contains(m.address)
    &&& duration_map(s, m, o, idx)
}

/// Where the first header of the block whose selector is at `sel` stands:
/// directly after the selector or 4 bytes later.
pub open spec fn duration_start(s: Seq<u8>, sel: int) -> Option<int> {
    if sel + 20 > s.len() {
        None
    } else if bytes_at(s, sel + 12, first_header()) {
        Some(sel + 12)
    } else if bytes_at(s, sel + 16, first_header()) {
        Some(sel + 16)
    } else {
        None
    }
}

/// The map whose header is at `o` fits in the image, its axes pass and its
/// address is not in `d`.
pub open spec fn duration_passes(s: Seq<u8>, d: Set<u32>, o: int) -> bool {
    let rows = be16(s, o) as int;
    let cols = be16(s, o + 2) as int;
    &&& duration_header(s, o)
    &&& o + 4 + 2 * rows + 2 * cols + 2 * rows * cols <= s.len()
    &&& duration_axes(s, o)
    &&& !d.contains((o + 4 + 2 * rows + 2 * cols) as u32)
}

/// `m` is one of the duration maps of the block whose selector is at `sel`.
pub open spec fn in_duration_block(s: Seq<u8>, sel: int, d: Set<u32>, m: DetectedMap) -> bool {
    exists|o: int, idx: int| #[trigger] duration_ok(s, sel, d, m, o, idx)
}

fn is_duration_header(data: &[u8], o: usize) -> (r: bool)
    requires
        o + 4 <= data@.len(),
        data@.len() + 0x10000 <= usize::MAX,
    ensures
        r == duration_header(data@, o as int),
{
    let rows = read_u16(data, o);
    let cols = read_u16(data, o + 2);
    9 <= rows && rows <= 20 && 8 <= cols && cols <= 15
}

fn are_duration_axes(data: &[u8], o: usize) -> (r: bool)
    requires
        duration_header(data@, o as int),
        o + 4 + 2 * be16(data@, o as int) + 2 * be16(data@, o + 2) <= data@.len(),
        data@.len() + 0x10000 <= usize::MAX,
    ensures
        r == duration_axes(data@, o as int),
{
    let rows = read_u16(data, o) as usize;
    let cols = read_u16(data, o + 2) as usize;
    let y = read_words(data, o + 4, rows);
    let x = read_words(data, o + 4 + 2 * rows, cols);
    !(y[0] > 2000 || y[rows - 1] < 2000 || y[rows - 1] > 8000 || !is_non_decreasing(y.as_slice()) || x[0] > 2000
        || x[cols - 1] < 2000 || x[cols - 1] > 10000 || !is_non_decreasing(x.as_slice()))
}

fn duration_entry(data: &[u8], o: usize, idx: usize) -> (m: DetectedMap)
    requires
        duration_header(data@, o as int),
        o + 4 + 2 * be16(data@, o as int) + 2 * be16(data@, o + 2) + 2 * be16(data@, o as int) * be16(
            data@,
            o + 2,
        ) <= u32::MAX,
        idx < 10,
    ensures
        duration_map(data@, m, o as int, idx as int),
{
    let rows = read_u16(data, o) as usize;
    let cols = read_u16(data, o + 2) as usize;
    assert(rows * cols <= 300 && 2 * rows * cols == 2 * (rows * cols)) by (nonlinear_arith)
        requires
            rows <= 20,
            cols <= 15,
    ;
    let ys = o + 4;
    let xs = ys + 2 * rows;
    let name = if idx <= 5 {
        numbered2("Duration ", idx as u64)
    } else {
        text("Duration (Dynamic)")
    };
    proof {
        reveal_strlit("Duration ");
    }
    let mut m = DetectedMap::new(
        (xs + 2 * cols) as u32,
        2 * (rows * cols),
        MapDimensions::TwoDimensional { rows, cols },
        DataType::Int16,
    );
    m.name = Some(name);
    m.category = Some(MapCategory::InjectionSystem.display_name());
    m.unit = Some(text("deg CrS"));
    m.correction_factor = Some(23_427_000_000);
    m.y_axis_address = Some(ys as u32);
    m.x_axis_address = Some(xs as u32);
    m.y_axis_correction = Some(FIXED_ONE);
    m.x_axis_correction = Some(10_000_000_000);
    m.y_label = Some(text("rpm"));
    m.x_label = Some(text("mg/stroke"));
    m.confidence = 920;
    m
}

// ------------------------------------------------------- minimum break map

/// The 6 x 4 minimum injection break map behind `[00 06][00 04]` at `i`:
/// engine speed from 500 ..= 2000 up to 2500 ..= 4500 and injection quantity
/// from at most 600 up to at most 1500, both strictly increasing, and cells
/// all in 200 ..= 3500.
pub open spec fn min_break_at(s: Seq<u8>, i: int) -> bool {
    let y = be16_seq(s, i + 4, 6);
    let x = be16_seq(s, i + 16, 4);
    &&& 0 <= i
    &&& i + 72 <= s.len()
    &&& bytes_at(s, i, seq![0x00u8, 0x06, 0x00, 0x04])
    &&& 500 <= y[0] <= 2000
    &&& strictly_increasing(y)
    &&& 2500 <= y[5] <= 4500
    &&& x[0] <= 600
    &&& strictly_increasing(x)
    &&& x[3] <= 1500
    &&& all_between(be16_seq(s, i + 24, 24), 200, 3500)
}

pub open spec fn min_break_map(m: DetectedMap, i: int) -> bool {
    &&& m.address == i + 24
    &&& m.size == 48
    &&& m.dimensions == MapDimensions::TwoDimensional { rows: 6, cols: 4 }
    &&& m.data_type == DataType::Int16
    &&& has_text(m.name, "Duration min. injection break after main injection"@)
    &&& has_text(m.category, category_name(MapCategory::InjectionSystem))
    &&& has_text(m.unit, "deg CrS"@)
    &&& m.correction_factor == Some(23_427_000_000i64)
    &&& m.y_axis_address == Some((i + 4) as u32)
    &&& has_text(m.y_label, "rpm"@)
    &&& m.y_axis_correction == Some(FIXED_ONE)
    &&& m.x_axis_address == Some((i + 16) as u32)
    &&& has_text(m.x_label, "mg/stroke"@)
    &&& m.x_axis_correction == Some(10_000_000_000i64)
    &&& m.confidence == 900
}

fn is_min_break_at(data: &[u8], i: usize) -> (r: bool)
    requires
        i + 72 <= data@.len(),
        data@.len() + 0x10000 <= usize::MAX,
    ensures
        r == min_break_at(data@, i as int),
{
    let head: [u8; 4] = [0x00, 0x06, 0x00, 0x04];
    assert(head@ =~= seq![0x00u8, 0x06, 0x00, 0x04]);
    if !pattern_at(data, i, &head) {
        return false;
    }
    let y = read_words(data, i + 4, 6);
    if y[0] < 500 || y[0] > 2000 || !is_strictly_increasing(y.as_slice()) || y[5] < 2500 || y[5] > 4500 {
        return false;
    }
    let x = read_words(data, i + 16, 4);
    if x[0] > 600 || !is_strictly_increasing(x.as_slice()) || x[3] > 1500 {
        return false;
    }
    let v = read_words(data, i + 24, 24);
    all_in(v.as_slice(), 200, 3500)
}

/// A duration selector, with or without the 4-byte gap, is at `o`.
pub open spec fn selector_any(s: Seq<u8>, o: int) -> bool {
    duration_selector_at(s, o, 0) || duration_selector_at(s, o, 4)
}

/// Position `o` is at or within 20 bytes after a selector of `r`.
pub open spec fn selector_claimed(r: Seq<(u32, DetectedMap)>, o: int) -> bool {
    exists|k: int| 0 <= k < r.len() && (#[trigger] r[k]).0 <= o < r[k].0 + 20
}

impl EDC16U31Detector {
    /// The duration selectors of the data section, each with its address;
    /// after one is found the scan moves past the selector, the gap and the
    /// first header.
    pub fn detect_duration_selector(&self, data: &[u8]) -> (r: Vec<(u32, DetectedMap)>)
        requires
            data@.len() <= u32::MAX,
            data@.len() + 0x10000 <= usize::MAX,
        ensures
            forall|k: int|
                0 <= k < r@.len() ==> {
                    let (a, m) = #[trigger] r@[k];
                    let (start, end) = data_section(data@.len() as int);
                    &&& start <= a
                    &&& a + 20 <= end
                    &&& a + 20 <= data@.len()
                    &&& (duration_selector_at(data@, a as int, 0) || duration_selector_at(data@, a as int, 4))
                    &&& duration_selector_map(m, a as int)
                },
            forall|i: int, j: int| 0 <= i < j < r@.len() ==> (#[trigger] r@[i]).0 < (#[trigger] r@[j]).0,
            forall|o: int|
                data_section(data@.len() as int).0 <= o && (o - data_section(data@.len() as int).0) % 2 == 0 && o + 20
                    <= data_section(data@.len() as int).1 && o + 20 <= data@.len() && #[trigger] selector_any(data@, o)
                    ==> selector_claimed(r@, o),
    {
        let ghost s = data@;
        let (start, end) = get_data_section_range(data.len());
        let len = data.len();
        let lim = if end < len { end } else { len };
        let pat: [u8; 12] = [0x05, 0x00, 0x04, 0x00, 0x03, 0x00, 0x02, 0x00, 0x01, 0x00, 0x00, 0x00];
        let head: [u8; 4] = [0x00, 0x0A, 0x00, 0x0A];
        assert(pat@ =~= selector_pattern());
        assert(head@ =~= first_header());
        let mut out: Vec<(u32, DetectedMap)> = Vec::new();
        let mut o = start;
        while o <= lim && lim - o >= 20
            invariant
                s == data@,
                len == s.len(),
                len <= u32::MAX,
                len + 0x10000 <= usize::MAX,
                start == data_section(len as int).0,
                end == data_section(len as int).1,
                lim <= len,
                lim <= end,
                start <= o,
                pat@ == selector_pattern(),
                head@ == first_header(),
                forall|k: int|
                    0 <= k < out@.len() ==> {
                        let (a, m) = #[trigger] out@[k];
                        &&& start <= a
                        &&& a + 20 <= end
                        &&& a + 20 <= s.len()
                        &&& a < o
                        &&& (duration_selector_at(s, a as int, 0) || duration_selector_at(s, a as int, 4))
                        &&& duration_selector_map(m, a as int)
                    },
                forall|i: int, j: int| 0 <= i < j < out@.len() ==> (#[trigger] out@[i]).0 < (#[trigger] out@[j]).0,
                (o - start) % 2 == 0,
                forall|q: int|
                    start <= q < o && (q - start) % 2 == 0 && q + 20 <= end && q + 20 <= s.len() && #[trigger] selector_any(
                        s,
                        q,
                    ) ==> selector_claimed(out@, q),
            decreases len - o,
        {
            if pattern_at(data, o, &pat) {
                let gap: usize = if pattern_at(data, o + 12, &head) {
                    0
                } else if pattern_at(data, o + 16, &head) {
                    4
                } else {
                    1
                };
                if gap != 1 {
                    let mut m = DetectedMap::new(o as u32, 12, MapDimensions::OneDimensional { length: 6 }, DataType::UInt16);
                    m.name = Some(text("Duration Selector"));
                    m.category = Some(MapCategory::InjectionSystem.display_name());
                    m.confidence = 950;
                    m.unit = Some(text("[-]"));
                    m.correction_factor = Some(FIXED_ONE);
                    m.is_little_endian = Some(true);
                    assert(duration_selector_at(s, o as int, gap as int));
                    let ghost before = out@;
                    out.push((o as u32, m));
                    proof {
                        assert(out@[before.len() as int].0 == o);
                        assert forall|q: int|
                            start <= q < o + 16 + gap && (q - start) % 2 == 0 && q + 20 <= end && q + 20 <= s.len()
                                && #[trigger] selector_any(s, q) implies selector_claimed(out@, q) by {
                            if q < o {
                                assert(selector_claimed(before, q));
                                let k = choose|k: int| 0 <= k < before.len() && (#[trigger] before[k]).0 <= q < before[k].0 + 20;
                                assert(out@[k] == before[k]);
                            } else {
                                assert(out@[before.len() as int].0 <= q < out@[before.len() as int].0 + 20);
                            }
                        }
                    }
                    o = o + 16 + gap;
                    continue;
                }
            }
            o += 2;
        }
        out
    }

    /// The duration maps of the block whose selector is at `selector_addr`:
    /// from the first header (directly after the selector or 4 bytes later),
    /// up to ten maps, each header followed, after its map, by the next
    /// header within 512 bytes; a map whose address is in `detected` is
    /// skipped, and the block ends at the first header, map or axis that
    /// does not pass.
    pub fn detect_duration_block_maps(&self, data: &[u8], selector_addr: u32, detected: &HashSet<u32>) -> (r: Vec<
        DetectedMap,
    >)
        requires
            data@.len() <= u32::MAX,
            data@.len() + 0x10000 <= usize::MAX,
        ensures
            r@.len() <= 10,
            forall|k: int| 0 <= k < r@.len() ==> in_duration_block(data@, selector_addr as int, detected@, #[trigger] r@[k]),
            forall|i: int, j: int| 0 <= i < j < r@.len() ==> (#[trigger] r@[i]).address < (#[trigger] r@[j]).address,
            match duration_start(data@, selector_addr as int) {
                Some(f) => duration_passes(data@, detected@, f) ==> r@.len() >= 1 && duration_map(data@, r@[0], f, 0),
                None => r@.len() == 0,
            },
    {
        let ghost s = data@;
        let ghost d = detected@;
        let len = data.len();
        let mut maps: Vec<DetectedMap> = Vec::new();
        if selector_addr as u64 + 20 > len as u64 {
            return maps;
        }
        let ghost f = duration_start(s, selector_addr as int);
        let base = selector_addr as usize + 12;
        let head: [u8; 4] = [0x00, 0x0A, 0x00, 0x0A];
        let mut cur = if pattern_at(data, base, &head) {
            base
        } else if pattern_at(data, base + 4, &head) {
            base + 4
        } else {
            return maps;
        };
        let mut idx: usize = 0;
        while idx < 10
            invariant
                s == data@,
                d == detected@,
                len == s.len(),
                len <= u32::MAX,
                len + 0x10000 <= usize::MAX,
                selector_addr + 12 <= cur,
                idx <= 10,
                maps@.len() <= idx,
                forall|k: int| 0 <= k < maps@.len() ==> in_duration_block(s, selector_addr as int, d, #[trigger] maps@[k]),
                forall|k: int| 0 <= k < maps@.len() ==> (#[trigger] maps@[k]).address < cur,
                forall|i: int, j: int| 0 <= i < j < maps@.len() ==> (#[trigger] maps@[i]).address < (#[trigger] maps@[j]).address,
                f is Some && duration_passes(s, d, f->0) && idx > 0 ==> maps@.len() >= 1 && duration_map(s, maps@[0], f->0, 0),
                f is Some,
                idx == 0 ==> f == Some(cur as int),
            ensures
                maps@.len() <= 10,
                forall|k: int| 0 <= k < maps@.len() ==> in_duration_block(s, selector_addr as int, d, #[trigger] maps@[k]),
                forall|i: int, j: int| 0 <= i < j < maps@.len() ==> (#[trigger] maps@[i]).address < (#[trigger] maps@[j]).address,
                f is Some && duration_passes(s, d, f->0) ==> maps@.len() >= 1 && duration_map(s, maps@[0], f->0, 0),
            decreases 10 - idx,
        {
            if cur > len || len - cur < 4 || !is_duration_header(data, cur) {
                break;
            }
            let rows = read_u16(data, cur) as usize;
            let cols = read_u16(data, cur + 2) as usize;
            assert(72 <= rows * cols <= 300 && 2 * rows * cols == 2 * (rows * cols)) by (nonlinear_arith)
                requires
                    9 <= rows <= 20,
                    8 <= cols <= 15,
            ;
            let ms = cur + 4 + 2 * rows + 2 * cols;
            let size = 2 * (rows * cols);
            if ms > len || len - ms < size {
                break;
            }
            if detected.contains(&(ms as u32)) {
                cur = ms + size;
                idx += 1;
                continue;
            }
            if !are_duration_axes(data, cur) {
                break;
            }
            let m = duration_entry(data, cur, idx);
            assert(duration_ok(s, selector_addr as int, d, m, cur as int, idx as int));
            maps.push(m);
            cur = ms + size;
            idx += 1;
            let scan_end = if cur + 512 < len - 4 { cur + 512 } else { len - 4 };
            let mut found = false;
            while cur < scan_end
                invariant
                    s == data@,
                    len == s.len(),
                    len + 0x10000 <= usize::MAX,
                    scan_end <= len - 4,
                    selector_addr + 12 <= cur,
                    forall|k: int| 0 <= k < maps@.len() ==> (#[trigger] maps@[k]).address < cur,
                decreases scan_end + 2 - cur,
            {
                if is_duration_header(data, cur) {
                    found = true;
                    break;
                }
                cur += 2;
            }
            if !found {
                break;
            }
        }
        maps
    }

    /// The 6 x 4 minimum injection break map: the first one behind its header
    /// in `win_lo .. min(win_hi, len - 72)` whose address is not in `detected`.
    pub fn detect_duration_min_break(&self, data: &[u8], win_lo: usize, win_hi: usize, detected: &HashSet<u32>) -> (r:
        Option<DetectedMap>)
        requires
            data@.len() <= u32::MAX,
            data@.len() + 0x10000 <= usize::MAX,
        ensures
            r matches Some(m) ==> {
                let i = m.address - 24;
                &&& win_lo <= i < win_hi
                &&& min_break_at(data@, i)
                &&& !detected@.contains(m.address)
                &&& min_break_map(m, i)
            },
            forall|i: int|
                win_lo <= i < win_hi && (i - win_lo) % 2 == 0 && i + 72 < data@.len() && #[trigger] min_break_at(
                    data@,
                    i,
                ) && !detected@.contains((i + 24) as u32) ==> (r matches Some(m) && m.address - 24 <= i),
    {
        let len = data.len();
        let cap = if len >= 72 { len - 72 } else { 0 };
        let hi = if win_hi < cap { win_hi } else { cap };
        let mut i = win_lo;
        while i < hi
            invariant
                len == data@.len(),
                len <= u32::MAX,
                len + 0x10000 <= usize::MAX,
                hi <= cap,
                cap == (if len >= 72 { len - 72 } else { 0 }),
                hi <= win_hi,
                win_lo <= i,
                (i - win_lo) % 2 == 0,
                forall|q: int|
                    win_lo <= q < i && (q - win_lo) % 2 == 0 && #[trigger] min_break_at(data@, q) ==> detected@.contains(
                        (q + 24) as u32,
                    ),
            decreases hi + 2 - i,
        {
            if is_min_break_at(data, i) && !detected.contains(&((i + 24) as u32)) {
                let mut m = DetectedMap::new(
                    (i + 24) as u32,
                    48,
                    MapDimensions::TwoDimensional { rows: 6, cols: 4 },
                    DataType::Int16,
                );
                m.name = Some(text("Duration min. injection break after main injection"));
                m.category = Some(MapCategory::InjectionSystem.display_name());
                m.unit = Some(text("deg CrS"));
                m.correction_factor = Some(23_427_000_000);
                m.y_axis_address = Some((i + 4) as u32);
                m.y_label = Some(text("rpm"));
                m.y_axis_correction = Some(FIXED_ONE);
                m.x_axis_address = Some((i + 16) as u32);
                m.x_label = Some(text("mg/stroke"));
                m.x_axis_correction = Some(10_000_000_000);
                m.confidence = 900;
                return Some(m);
            }
            i += 2;
        }
        None
    }
}

} // verus!
