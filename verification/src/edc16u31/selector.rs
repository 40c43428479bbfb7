//! The SOI selector: a 1 x 10 little-endian curve over a water temperature
//! axis that follows a block of ten start of injection maps.
//!
//! A block starts at a listed map address `a` when the ten maps of the block
//! are all listed: either every 448 bytes, or with the last `n` (1 ..= 5)
//! maps each preceded by 64 bytes of interleaved metadata.
use vstd::prelude::*;
use crate::bytes::{be16_seq, le16_seq, read_words, read_words_le};
use crate::model::{DataType, DetectedMap, MapCategory, MapDimensions, category_name, has_text, text, FIXED_ONE};
use crate::words::{all_between, all_in, is_non_decreasing, is_strictly_increasing, non_decreasing, rises_at, strictly_increasing};
use super::EDC16U31Detector;

verus! {

/// `x` is one of the addresses of `a`.
pub open spec fn listed(a: Seq<u32>, x: int) -> bool {
    exists|j: int| 0 <= j < a.len() && a[j] == x
}

/// Address of map `i` (0 ..= 9) of a block at `addr` whose last `ic` maps
/// carry 64 bytes of metadata each (`ic == 0`: no metadata).
pub open spec fn block_map_address(addr: int, ic: int, i: int) -> int {
    let contiguous = 10 - ic;
    if i < contiguous {
        addr + 448 * i
    } else {
        addr + 448 * contiguous + 512 * (i - contiguous) + 64
    }
}

/// The ten maps of a block at `addr` with `ic` interleaved maps are listed.
pub open spec fn block_listed(a: Seq<u32>, addr: int, ic: int) -> bool {
    forall|i: int| 0 <= i < 10 ==> #[trigger] listed(a, block_map_address(addr, ic, i))
}

/// A block of ten start of injection maps starts at `addr`.
pub open spec fn block_start(a: Seq<u32>, addr: int) -> bool {
    exists|ic: int| 0 <= ic <= 5 && #[trigger] block_listed(a, addr, ic)
}

/// Number of words of `v` that are greater than the word before them.
pub open spec fn rise_count(v: Seq<u16>) -> nat
    decreases v.len(),
{
    if v.len() <= 1 {
        0
    } else {
        rise_count(v.drop_last()) + if v[v.len() - 2] < v[v.len() - 1] {
            1nat
        } else {
            0nat
        }
    }
}

/// Selector values: all in 0 ..= 9, starting at 0, never decreasing, with at
/// least five different values (a non-decreasing curve has one value more
/// than it has rises).
pub open spec fn selector_values_ok(v: Seq<u16>) -> bool {
    &&& all_between(v, 0, 9)
    &&& non_decreasing(v)
    &&& v[0] == 0
    &&& rise_count(v) >= 4
}

/// At `off` stands the `00 0A` header of a selector: a strictly increasing
/// water temperature axis of ten big-endian values in 2300 ..= 3800, then ten
/// little-endian selector values.
pub open spec fn selector_at(s: Seq<u8>, off: int) -> bool {
    &&& 0 <= off
    &&& off + 42 < s.len()
    &&& s[off] == 0x00
    &&& s[off + 1] == 0x0A
    &&& all_between(be16_seq(s, off + 2, 10), 2300, 3800)
    &&& strictly_increasing(be16_seq(s, off + 2, 10))
    &&& selector_values_ok(le16_seq(s, off + 22, 10))
}

/// The offsets searched for the selector of the block at `b`: every second
/// byte from 4480 bytes after `b`, over 520 bytes, and not within the last
/// 42 bytes of the image.
pub open spec fn in_window(len: int, b: int, off: int) -> bool {
    &&& b + 4480 <= off
    &&& off < b + 4480 + 520
    &&& off + 42 < len
    &&& (off - b - 4480) % 2 == 0
}

/// `off` is the first offset of the window of `b` that holds a selector.
pub open spec fn selector_found(s: Seq<u8>, b: int, off: int) -> bool {
    &&& in_window(s.len() as int, b, off)
    &&& selector_at(s, off)
    &&& forall|p: int| #[trigger] in_window(s.len() as int, b, p) && p < off ==> !selector_at(s, p)
}

/// Offset of the `00 0A` header of a reported selector.
pub open spec fn selector_header(m: DetectedMap) -> int {
    m.x_axis_address->0 - 2
}

/// `m` is the selector whose header is at `off`.
pub open spec fn selector_map(m: DetectedMap, off: int) -> bool {
    &&& m.address == off + 22
    &&& m.size == 20
    &&& m.dimensions == MapDimensions::OneDimensional { length: 10 }
    &&& m.data_type == DataType::UInt16
    &&& has_text(m.name, "SOI Selector"@)
    &&& has_text(m.category, category_name(MapCategory::StartOfInjection))
    &&& has_text(m.unit, "[-]"@)
    &&& m.correction_factor == Some(FIXED_ONE)
    &&& m.offset == Some(0i64)
    &&& m.confidence == 950
    &&& m.x_axis_address == Some((off + 2) as u32)
    &&& has_text(m.x_label, "Water temp [°C]"@)
    &&& m.x_axis_correction == Some(100_000_000_000i64)
    &&& m.x_axis_offset == Some(-273_140_000_000_000i64)
    &&& m.is_little_endian == Some(true)
    &&& m.y_axis_address is None
}

/// Whether `x` is one of the addresses of `a`.
pub fn is_listed(a: &[u32], x: u64) -> (r: bool)
    ensures
        r == listed(a@, x as int),
{
    let mut j: usize = 0;
    while j < a.len()
        invariant
            j <= a@.len(),
            forall|k: int| 0 <= k < j ==> a@[k] != x,
        decreases a.len() - j,
    {
        if a[j] as u64 == x {
            return true;
        }
        j += 1;
    }
    false
}

/// Whether the ten maps of a block at `addr` with `ic` interleaved maps are listed.
fn is_block_listed(a: &[u32], addr: u32, ic: u64) -> (r: bool)
    requires
        ic <= 5,
    ensures
        r == block_listed(a@, addr as int, ic as int),
{
    let contiguous: u64 = 10 - ic;
    let mut i: u64 = 0;
    while i < 10
        invariant
            i <= 10,
            ic <= 5,
            contiguous == 10 - ic,
            forall|k: int| 0 <= k < i ==> #[trigger] listed(a@, block_map_address(addr as int, ic as int, k)),
        decreases 10 - i,
    {
        let expected: u64 = if i < contiguous {
            addr as u64 + 448 * i
        } else {
            addr as u64 + 448 * contiguous + 512 * (i - contiguous) + 64
        };
        assert(expected == block_map_address(addr as int, ic as int, i as int));
        if !is_listed(a, expected) {
            return false;
        }
        i += 1;
    }
    true
}

/// Whether a block of ten start of injection maps starts at `addr`.
pub fn is_block_start(a: &[u32], addr: u32) -> (r: bool)
    ensures
        r == block_start(a@, addr as int),
{
    let mut ic: u64 = 0;
    while ic <= 5
        invariant
            ic <= 6,
            forall|k: int| 0 <= k < ic ==> !#[trigger] block_listed(a@, addr as int, k),
        decreases 6 - ic,
    {
        if is_block_listed(a, addr, ic) {
            return true;
        }
        ic += 1;
    }
    false
}

/// Number of words of `v` greater than the word before them.
fn count_rises(v: &[u16]) -> (r: usize)
    ensures
        r == rise_count(v@),
{
    let mut c: usize = 0;
    let mut i: usize = 1;
    if v.len() == 0 {
        return 0;
    }
    while i < v.len()
        invariant
            1 <= i <= v@.len(),
            c == rise_count(v@.take(i as int)),
            c < i,
        decreases v.len() - i,
    {
        assert(v@.take(i + 1).drop_last() =~= v@.take(i as int));
        if v[i - 1] < v[i] {
            c += 1;
        }
        i += 1;
    }
    assert(v@.take(v@.len() as int) =~= v@);
    c
}

/// Whether a selector header stands at `off`.
fn is_selector_at(data: &[u8], off: usize) -> (r: bool)
    requires
        data@.len() + 0x10000 <= usize::MAX,
    ensures
        r == selector_at(data@, off as int),
{
    if off >= data.len() || data.len() - off <= 42 {
        return false;
    }
    if data[off] != 0x00 || data[off + 1] != 0x0A {
        return false;
    }
    let temps = read_words(data, off + 2, 10);
    if !all_in(temps.as_slice(), 2300, 3800) || !is_strictly_increasing(temps.as_slice()) {
        return false;
    }
    let sel = read_words_le(data, off + 22, 10);
    all_in(sel.as_slice(), 0, 9) && is_non_decreasing(sel.as_slice()) && sel[0] == 0 && count_rises(
        sel.as_slice(),
    ) >= 4
}

fn selector_entry(off: usize) -> (m: DetectedMap)
    requires
        off + 42 <= u32::MAX,
    ensures
        selector_map(m, off as int),
{
    let mut m = DetectedMap::new(
        (off + 22) as u32,
        20,
        MapDimensions::OneDimensional { length: 10 },
        DataType::UInt16,
    );
    m.name = Some(text("SOI Selector"));
    m.category = Some(MapCategory::StartOfInjection.display_name());
    m.unit = Some(text("[-]"));
    m.correction_factor = Some(FIXED_ONE);
    m.offset = Some(0);
    m.confidence = 950;
    m.x_axis_address = Some((off + 2) as u32);
    m.x_label = Some(text("Water temp [°C]"));
    m.x_axis_correction = Some(100_000_000_000);
    m.x_axis_offset = Some(-273_140_000_000_000);
    m.is_little_endian = Some(true);
    m
}

/// The first offset of the window of the block at `b` that holds a selector.
fn find_selector(data: &[u8], b: u32) -> (r: Option<usize>)
    requires
        data@.len() <= u32::MAX,
        data@.len() + 0x10000 <= usize::MAX,
    ensures
        match r {
            Some(off) => selector_found(data@, b as int, off as int),
            None => forall|p: int| #[trigger] in_window(data@.len() as int, b as int, p) ==> !selector_at(data@, p),
        },
{
    let ghost s = data@;
    let len = data.len();
    if b as u64 + 4480 >= len as u64 {
        return None;
    }
    let start = b as usize + 4480;
    let cap = if len > 42 { len - 42 } else { 0 };
    let end = if start + 520 < cap { start + 520 } else { cap };
    let mut off = start;
    while off < end
        invariant
            s == data@,
            len == s.len(),
            len + 0x10000 <= usize::MAX,
            start == b + 4480,
            start < len,
            cap == (if len > 42 { len - 42 } else { 0 }),
            end == (if start + 520 < cap { (start + 520) as int } else { cap as int }),
            start <= off,
            (off - start) % 2 == 0,
            forall|p: int| #[trigger] in_window(len as int, b as int, p) && p < off ==> !selector_at(s, p),
        decreases end + 2 - off,
    {
        if is_selector_at(data, off) {
            return Some(off);
        }
        off += 2;
    }
    None
}

impl EDC16U31Detector {
    /// The SOI selector after each block of ten start of injection maps
    /// among `detected_soi_addresses`: for each block start (each address
    /// counted once), the first selector header of its search window.
    pub fn detect_soi_selector_by_signature(&self, data: &[u8], detected_soi_addresses: &[u32]) -> (r: Vec<
        DetectedMap,
    >)
        requires
            data@.len() <= u32::MAX,
            data@.len() + 0x10000 <= usize::MAX,
        ensures
            r@.len() <= detected_soi_addresses@.len(),
            forall|k: int|
                0 <= k < r@.len() ==> {
                    let m = #[trigger] r@[k];
                    &&& m.x_axis_address is Some
                    &&& selector_map(m, selector_header(m))
                    &&& exists|b: int|
                        listed(detected_soi_addresses@, b) && block_start(detected_soi_addresses@, b)
                            && #[trigger] selector_found(data@, b, selector_header(m))
                },
            forall|b: int, off: int|
                listed(detected_soi_addresses@, b) && block_start(detected_soi_addresses@, b)
                    && #[trigger] selector_found(data@, b, off) ==> exists|k: int|
                    0 <= k < r@.len() && selector_header(#[trigger] r@[k]) == off,
    {
        let ghost s = data@;
        let ghost a = detected_soi_addresses@;
        let mut starts: Vec<u32> = Vec::new();
        let mut j: usize = 0;
        while j < detected_soi_addresses.len()
            invariant
                a == detected_soi_addresses@,
                j <= a.len(),
                starts@.len() <= j,
                forall|k: int| 0 <= k < starts@.len() ==> listed(a, #[trigger] starts@[k] as int) && block_start(a, starts@[k] as int),
                forall|i: int|
                    0 <= i < j && block_start(a, #[trigger] a[i] as int) ==> listed(starts@, a[i] as int),
            decreases a.len() - j,
        {
            let addr = detected_soi_addresses[j];
            let ghost before = starts@;
            if is_block_start(detected_soi_addresses, addr) && !is_listed(starts.as_slice(), addr as u64) {
                starts.push(addr);
                assert(starts@[starts@.len() - 1] == addr);
            }
            proof {
                assert forall|i: int|
                    0 <= i < j + 1 && block_start(a, #[trigger] a[i] as int) implies listed(starts@, a[i] as int) by {
                    if i < j {
                        let w = choose|w: int| 0 <= w < before.len() && before[w] == a[i];
                        assert(starts@[w] == before[w]);
                    } else if !listed(before, a[i] as int) {
                        assert(starts@[starts@.len() - 1] == a[i]);
                    } else {
                        let w = choose|w: int| 0 <= w < before.len() && before[w] == a[i];
                        assert(starts@[w] == before[w]);
                    }
                }
            }
            j += 1;
        }
        let mut maps: Vec<DetectedMap> = Vec::new();
        let mut t: usize = 0;
        while t < starts.len()
            invariant
                s == data@,
                a == detected_soi_addresses@,
                s.len() <= u32::MAX,
                s.len() + 0x10000 <= usize::MAX,
                t <= starts@.len(),
                starts@.len() <= a.len(),
                maps@.len() <= t,
                forall|k: int| 0 <= k < starts@.len() ==> listed(a, #[trigger] starts@[k] as int) && block_start(a, starts@[k] as int),
                forall|k: int|
                    0 <= k < maps@.len() ==> {
                        let m = #[trigger] maps@[k];
                        &&& m.x_axis_address is Some
                        &&& selector_map(m, selector_header(m))
                        &&& exists|b: int|
                            listed(a, b) && block_start(a, b) && #[trigger] selector_found(s, b, selector_header(m))
                    },
                forall|i: int, off: int|
                    0 <= i < t && #[trigger] selector_found(s, starts@[i] as int, off) ==> exists|k: int|
                        0 <= k < maps@.len() && selector_header(#[trigger] maps@[k]) == off,
            decreases starts.len() - t,
        {
            let b = starts[t];
            let ghost before = maps@;
            let found = find_selector(data, b);
            match found {
                Some(off) => {
                    let m = selector_entry(off);
                    maps.push(m);
                    assert(selector_header(maps@[maps@.len() - 1]) == off);
                    assert(selector_found(s, b as int, selector_header(m)));
                },
                None => {},
            }
            proof {
                assert forall|i: int, off: int|
                    0 <= i < t + 1 && #[trigger] selector_found(s, starts@[i] as int, off) implies exists|k: int|
                        0 <= k < maps@.len() && selector_header(#[trigger] maps@[k]) == off by {
                    if i < t {
                        let k = choose|k: int| 0 <= k < before.len() && selector_header(#[trigger] before[k]) == off;
                        assert(maps@[k] == before[k]);
                    } else {
                        match found {
                            Some(o) => {
                                lemma_first_unique(s, b as int, o as int);
                                assert(selector_header(maps@[maps@.len() - 1]) == off);
                            },
                            None => {
                                assert(in_window(s.len() as int, b as int, off));
                            },
                        }
                    }
                }
            }
            t += 1;
        }
        proof {
            assert forall|b: int, off: int|
                listed(a, b) && block_start(a, b) && #[trigger] selector_found(s, b, off) implies exists|k: int|
                0 <= k < maps@.len() && selector_header(#[trigger] maps@[k]) == off by {
                let jj = choose|jj: int| 0 <= jj < a.len() && a[jj] == b;
                assert(block_start(a, a[jj] as int));
                assert(listed(starts@, a[jj] as int));
                let i = choose|i: int| 0 <= i < starts@.len() && starts@[i] == a[jj];
                assert(selector_found(s, starts@[i] as int, off));
            }
        }
        maps
    }
}

/// The first selector of a window is unique.
proof fn lemma_first_unique(s: Seq<u8>, b: int, off: int)
    requires
        selector_found(s, b, off),
    ensures
        forall|p: int| #[trigger] selector_found(s, b, p) ==> p == off,
{
    assert forall|p: int| #[trigger] selector_found(s, b, p) implies p == off by {
        if p < off {
            assert(in_window(s.len() as int, b, p));
        } else if p > off {
            assert(in_window(s.len() as int, b, off));
        }
    }
}

} // verus!
