//! Start of injection blocks: ten 16 x 14 maps sharing one pair of axes,
//! stored after the maps as `[16] [RPM axis] [14] [IQ axis]`, with the
//! dynamic maps found around the block.
use vstd::prelude::*;
use std::collections::HashSet;
use crate::bytes::{be16, be16_seq, be16s_seq, read_u16, read_words, read_signed_words};
use crate::model::{
    DataType, DetectedMap, MapCategory, MapDimensions, category_name, has_text, lemma_listed_last, lemma_listed_prefix,
    listed, text, FIXED_ONE,
};
use crate::text::{numbered2, two_digits};
use crate::words::{
    all_between_signed, all_in_signed, any_between_signed, any_in_signed, count_between_signed,
    count_in_signed, lemma_count_bound_signed,
};
use super::axes::{is_valid_soi_iq_axis, is_valid_soi_rpm_axis, soi_iq_ok, soi_rpm_ok};
use super::EDC16U31Detector;

verus! {

broadcast use {vstd::std_specs::hash::group_hash_axioms, crate::model::lemma_listed_push};

/// The shared axes of a block start at `o`: `[16] [16 RPM] [14] [14 IQ]`.
pub open spec fn soi_metadata(s: Seq<u8>, o: int) -> bool {
    &&& 0 <= o
    &&& o + 66 <= s.len()
    &&& be16(s, o) == 16
    &&& soi_rpm_ok(be16_seq(s, o + 2, 16))
    &&& be16(s, o + 34) == 14
    &&& soi_iq_ok(be16_seq(s, o + 36, 14))
}

/// The `ic` maps before the shared axes each carry their own axes header
/// `[00 10] [00 0E]`, 512 bytes apart.
pub open spec fn interleave_ok(s: Seq<u8>, o: int, ic: int) -> bool {
    forall|t: int|
        0 <= t < ic ==> o - 512 * (t + 1) >= 0 && #[trigger] be16(s, o - 512 * (t + 1)) == 0x10 && be16(
            s,
            o - 512 * (t + 1) + 2,
        ) == 0x0E
}

/// The cells of the 16 x 14 map at `a`.
pub open spec fn soi_cells(s: Seq<u8>, a: int) -> Seq<i16> {
    be16s_seq(s, a, 224)
}

/// A map of a block holds plausible injection angles.
pub open spec fn soi_block_map_ok(s: Seq<u8>, a: int) -> bool {
    all_between_signed(soi_cells(s, a), -2000, 2500) && any_between_signed(soi_cells(s, a), -499, 32767)
}

/// Number of plausible maps among the first `k` maps of the block at `bs`.
pub open spec fn soi_good_maps(s: Seq<u8>, bs: int, k: int) -> nat
    decreases k,
{
    if k <= 0 {
        0
    } else {
        soi_good_maps(s, bs, k - 1) + if soi_block_map_ok(s, bs + 448 * (k - 1)) {
            1nat
        } else {
            0nat
        }
    }
}

/// The ten maps of the block at `bs` lie in the image past 0x30000 and at
/// least six of them are plausible.
pub open spec fn soi_block_valid(s: Seq<u8>, bs: int) -> bool {
    &&& 0x30000 <= bs
    &&& bs + 4480 <= s.len()
    &&& soi_good_maps(s, bs, 10) >= 6
}

/// Address of map `i` of the block at `bs` whose last `ic` maps carry their
/// own axes header.
pub open spec fn soi_main_address(bs: int, ic: int, i: int) -> int {
    if i < 10 - ic {
        bs + 448 * i
    } else {
        bs + 448 * (10 - ic) + 512 * (i - (10 - ic)) + 64
    }
}

/// The fields shared by all injection maps, with the given axes.
pub open spec fn soi_fields(m: DetectedMap, x_axis: int, y_axis: int) -> bool {
    &&& m.size == 448
    &&& m.dimensions == MapDimensions::TwoDimensional { rows: 16, cols: 14 }
    &&& m.data_type == DataType::Int16
    &&& has_text(m.category, category_name(MapCategory::StartOfInjection))
    &&& has_text(m.unit, "deg CrS"@)
    &&& m.correction_factor == Some(23_437_000_000i64)
    &&& m.x_axis_address == Some(x_axis as u32)
    &&& m.y_axis_address == Some(y_axis as u32)
    &&& m.x_axis_correction == Some(10_000_000_000i64)
    &&& m.y_axis_correction == Some(FIXED_ONE)
    &&& has_text(m.x_label, "mg/stroke"@)
    &&& has_text(m.y_label, "rpm"@)
    &&& m.y_axis_inverted == Some(true)
}

/// Map `m` is map `i` of the block whose shared axes are at `o`.
pub open spec fn soi_main(s: Seq<u8>, m: DetectedMap, o: int, ic: int, i: int) -> bool {
    let bs = o - 4480 - 64 * ic;
    let a = soi_main_address(bs, ic, i);
    &&& 0 <= ic <= 5
    &&& 0 <= i < 10
    &&& interleave_ok(s, o, ic)
    &&& soi_block_valid(s, bs)
    &&& m.address == a
    &&& has_text(m.name, "Start of injection "@ + two_digits(i as nat))
    &&& m.confidence == 920
    &&& if i < 10 - ic {
        soi_fields(m, o + 36, o + 2)
    } else {
        soi_fields(m, a - 28, a - 60)
    }
}

/// The data of a dynamic map found before a block.
pub open spec fn soi_pre_ok(s: Seq<u8>, a: int) -> bool {
    let v = soi_cells(s, a);
    &&& !all_between_signed(v, 0, 0)
    &&& count_between_signed(v, 200, 700) >= 112
    &&& count_between_signed(v, 50, 1000) >= 179
    &&& count_between_signed(v, 1201, 32767) + count_between_signed(v, -32768, -1) <= 6
    &&& count_between_signed(v.take(16), 200, 700) >= 12
    &&& all_between_signed(v.take(16), 50, 1200)
}

/// The data of a dynamic map found after a block.
pub open spec fn soi_post_ok(s: Seq<u8>, a: int) -> bool {
    let v = soi_cells(s, a);
    &&& !all_between_signed(v, 0, 0)
    &&& count_between_signed(v, 100, 1000) >= 134
    &&& count_between_signed(v, 1501, 32767) + count_between_signed(v, -32768, -501) <= 11
}

/// Map `m` is a dynamic injection map of the block whose axes are at `o`.
pub open spec fn soi_dynamic(s: Seq<u8>, m: DetectedMap, o: int) -> bool {
    &&& m.address + 448 <= s.len()
    &&& (soi_pre_ok(s, m.address as int) || soi_post_ok(s, m.address as int))
    &&& has_text(m.name, "Start of injection Dynamic"@)
    &&& m.confidence == 880
    &&& soi_fields(m, o + 36, o + 2)
}

/// Map `m` belongs to a block of the image and is not at an address of `d`.
pub open spec fn soi_ok(s: Seq<u8>, d: Set<u32>, m: DetectedMap) -> bool {
    &&& !d.contains(m.address)
    &&& exists|o: int|
        #[trigger] soi_metadata(s, o) && (soi_dynamic(s, m, o) || exists|ic: int, i: int| #[trigger]
            soi_main(s, m, o, ic, i))
}

/// How many of the maps before the shared axes at `c` carry their own axes
/// header, counting from the `n`-th (five at most).
pub open spec fn interleave_from(s: Seq<u8>, c: int, n: int) -> int
    decreases 5 - n,
{
    if n >= 5 || c <= 512 {
        0
    } else if be16(s, c - 512) == 0x10 && be16(s, c - 510) == 0x0E {
        1 + interleave_from(s, c - 512, n + 1)
    } else {
        0
    }
}

/// How many of the maps of the block whose shared axes are at `o` carry
/// their own axes header.
pub open spec fn interleave_count(s: Seq<u8>, o: int) -> int {
    interleave_from(s, o, 0)
}

/// The first map of the block whose shared axes are at `o`.
pub open spec fn block_start(s: Seq<u8>, o: int) -> int {
    o - 4480 - 64 * interleave_count(s, o)
}

/// A block announced by shared axes at `o` that the scan from `start` to
/// `lim` looks at, whose ten maps form a block.
pub open spec fn soi_candidate(s: Seq<u8>, start: int, lim: int, o: int) -> bool {
    &&& start <= o
    &&& (o - start) % 2 == 0
    &&& o + 4580 <= lim
    &&& soi_metadata(s, o)
    &&& soi_block_valid(s, block_start(s, o))
}

/// The first such block of the scan.
pub open spec fn first_soi(s: Seq<u8>, start: int, lim: int, o: int) -> bool {
    &&& soi_candidate(s, start, lim, o)
    &&& forall|p: int| p < o ==> !#[trigger] soi_candidate(s, start, lim, p)
}

/// The address of map `i` of the block whose shared axes are at `o`.
pub open spec fn block_map_address(s: Seq<u8>, o: int, i: int) -> int {
    soi_main_address(block_start(s, o), interleave_count(s, o), i)
}

/// Each map of the first block of the scan below `bound` whose address is
/// not in `d` is listed in `r`.
pub open spec fn first_listed(s: Seq<u8>, d: Set<u32>, start: int, lim: int, r: Seq<DetectedMap>, bound: int) -> bool {
    forall|o: int, i: int|
        first_soi(s, start, lim, o) && o < bound && 0 <= i < 10 && !d.contains(
            #[trigger] block_map_address(s, o, i) as u32,
        ) ==> listed(r, block_map_address(s, o, i))
}

proof fn lemma_first_listed_grow(
    s: Seq<u8>,
    d: Set<u32>,
    start: int,
    lim: int,
    a: Seq<DetectedMap>,
    b: Seq<DetectedMap>,
    bound: int,
)
    requires
        first_listed(s, d, start, lim, a, bound),
        forall|x: int| listed(a, x) ==> #[trigger] listed(b, x),
    ensures
        first_listed(s, d, start, lim, b, bound),
{
    assert forall|o: int, i: int|
        first_soi(s, start, lim, o) && o < bound && 0 <= i < 10 && !d.contains(
            #[trigger] block_map_address(s, o, i) as u32,
        ) implies listed(b, block_map_address(s, o, i)) by {
        assert(listed(a, block_map_address(s, o, i)));
    }
}

/// Whether the shared axes of a block start at `o`.
fn soi_metadata_at(data: &[u8], o: usize) -> (r: bool)
    requires
        o + 66 <= data@.len(),
    ensures
        r == soi_metadata(data@, o as int),
{
    let _n = data.len();
    if read_u16(data, o) != 16 || read_u16(data, o + 34) != 14 {
        return false;
    }
    let rpm = read_words(data, o + 2, 16);
    if !is_valid_soi_rpm_axis(rpm.as_slice()) {
        return false;
    }
    let iq = read_words(data, o + 36, 14);
    is_valid_soi_iq_axis(iq.as_slice())
}

/// Whether the map at `a` holds plausible injection angles.
fn soi_map_plausible(data: &[u8], a: usize) -> (r: bool)
    requires
        a + 448 <= data@.len(),
    ensures
        r == soi_block_map_ok(data@, a as int),
{
    let v = read_signed_words(data, a, 224);
    all_in_signed(v.as_slice(), -2000, 2500) && any_in_signed(v.as_slice(), -499, 32767)
}

/// Whether the ten maps from `bs` form a block.
fn soi_block_at(data: &[u8], bs: usize) -> (r: bool)
    requires
        data@.len() + 0x10000 <= usize::MAX,
    ensures
        r == soi_block_valid(data@, bs as int),
{
    if bs > data.len() || data.len() - bs < 4480 || bs < 0x30000 {
        return false;
    }
    let n = data.len();
    let mut good: usize = 0;
    let mut i: usize = 0;
    while i < 10
        invariant
            i <= 10,
            n == data@.len(),
            bs + 4480 <= data@.len(),
            good == soi_good_maps(data@, bs as int, i as int),
            good <= i,
        decreases 10 - i,
    {
        if soi_map_plausible(data, bs + 448 * i) {
            good += 1;
        }
        i += 1;
    }
    good >= 6
}

/// Whether the map at `a` looks like a dynamic map before a block.
fn soi_pre_at(data: &[u8], a: usize) -> (r: bool)
    requires
        a + 448 <= data@.len(),
    ensures
        r == soi_pre_ok(data@, a as int),
{
    let v = read_signed_words(data, a, 224);
    if all_in_signed(v.as_slice(), 0, 0) {
        return false;
    }
    proof {
        lemma_count_bound_signed(v@, 1201, 32767);
        lemma_count_bound_signed(v@, -32768, -1);
    }
    let first = vstd::slice::slice_subrange(v.as_slice(), 0, 16);
    assert(first@ =~= v@.take(16));
    count_in_signed(v.as_slice(), 200, 700) >= 112 && count_in_signed(v.as_slice(), 50, 1000) >= 179
        && count_in_signed(v.as_slice(), 1201, 32767) + count_in_signed(v.as_slice(), -32768, -1) <= 6
        && count_in_signed(first, 200, 700) >= 12 && all_in_signed(first, 50, 1200)
}

/// Whether the map at `a` looks like a dynamic map after a block.
fn soi_post_at(data: &[u8], a: usize) -> (r: bool)
    requires
        a + 448 <= data@.len(),
    ensures
        r == soi_post_ok(data@, a as int),
{
    let v = read_signed_words(data, a, 224);
    if all_in_signed(v.as_slice(), 0, 0) {
        return false;
    }
    proof {
        lemma_count_bound_signed(v@, 1501, 32767);
        lemma_count_bound_signed(v@, -32768, -501);
    }
    count_in_signed(v.as_slice(), 100, 1000) >= 134 && count_in_signed(v.as_slice(), 1501, 32767)
        + count_in_signed(v.as_slice(), -32768, -501) <= 11
}

/// An injection map at `addr` with the given name, axes and confidence.
fn soi_map(addr: usize, name: String, x_axis: usize, y_axis: usize, confidence: u32) -> (m: DetectedMap)
    requires
        addr <= u32::MAX,
        x_axis <= u32::MAX,
        y_axis <= u32::MAX,
    ensures
        m.address == addr,
        m.name == Some(name),
        m.confidence == confidence,
        soi_fields(m, x_axis as int, y_axis as int),
{
    let mut m = DetectedMap::new(addr as u32, 448, MapDimensions::TwoDimensional { rows: 16, cols: 14 }, DataType::Int16);
    m.name = Some(name);
    m.category = Some(MapCategory::StartOfInjection.display_name());
    m.unit = Some(text("deg CrS"));
    m.correction_factor = Some(23_437_000_000);
    m.confidence = confidence;
    m.x_axis_address = Some(x_axis as u32);
    m.y_axis_address = Some(y_axis as u32);
    m.x_axis_correction = Some(10_000_000_000);
    m.y_axis_correction = Some(FIXED_ONE);
    m.x_label = Some(text("mg/stroke"));
    m.y_label = Some(text("rpm"));
    m.y_axis_inverted = Some(true);
    m
}

/// `[bs, be)` starts inside `[es, ee)`, ends inside it, or contains it.
pub open spec fn block_meets(bs: int, be: int, es: int, ee: int) -> bool {
    (es <= bs < ee) || (es < be <= ee) || (bs <= es && be >= ee)
}

/// Whether `[bs, be)` meets one of the protected block ranges.
fn meets_range(ranges: &Vec<(usize, usize)>, bs: usize, be: usize) -> (r: bool)
    ensures
        r == exists|k: int|
            0 <= k < ranges@.len() && block_meets(bs as int, be as int, (#[trigger] ranges@[k]).0 as int, ranges@[k].1 as int),
{
    let mut k: usize = 0;
    while k < ranges.len()
        invariant
            k <= ranges@.len(),
            forall|j: int|
                0 <= j < k ==> !block_meets(bs as int, be as int, (#[trigger] ranges@[j]).0 as int, ranges@[j].1 as int),
        decreases ranges.len() - k,
    {
        let (es, ee) = ranges[k];
        if (bs >= es && bs < ee) || (be > es && be <= ee) || (bs <= es && be >= ee) {
            return true;
        }
        k += 1;
    }
    false
}

impl EDC16U31Detector {
    /// The Start of injection blocks between `start` and `end`: for each
    /// block (announced by its shared axes and made of ten plausible maps),
    /// the dynamic maps stored before it, its ten maps "Start of injection
    /// 00" to "09", and the dynamic maps stored after its axes; blocks that
    /// overlap one found before and addresses in `detected` are left out.
    pub fn detect_soi_blocks(&self, data: &[u8], start: usize, end: usize, detected: &HashSet<u32>) -> (r:
        Vec<DetectedMap>)
        requires
            data@.len() <= u32::MAX,
            data@.len() + 0x10000 <= usize::MAX,
        ensures
            forall|k: int| 0 <= k < r@.len() ==> soi_ok(data@, detected@, #[trigger] r@[k]),
            forall|o: int, i: int|
                first_soi(data@, start as int, if end < data@.len() { end as int } else { data@.len() as int }, o)
                    && 0 <= i < 10 && !detected@.contains(#[trigger] block_map_address(data@, o, i) as u32)
                    ==> listed(r@, block_map_address(data@, o, i)),
    {
        let ghost s = data@;
        let ghost d = detected@;
        let len = data.len();
        let lim = if end < len { end } else { len };
        let mut maps: Vec<DetectedMap> = Vec::new();
        let mut ranges: Vec<(usize, usize)> = Vec::new();
        let mut offset = start;
        while offset <= lim && lim - offset >= 4580
            invariant
                s == data@,
                d == detected@,
                len == s.len(),
                len <= u32::MAX,
                len + 0x10000 <= usize::MAX,
                lim <= len,
                forall|k: int| 0 <= k < maps@.len() ==> soi_ok(s, d, #[trigger] maps@[k]),
                lim == (if end < len { end as int } else { len as int }),
                start <= offset,
                ranges@.len() == 0 ==> (offset - start) % 2 == 0,
                ranges@.len() == 0 ==> forall|p: int| p < offset ==> !#[trigger] soi_candidate(s, start as int, lim as int, p),
                ranges@.len() > 0 ==> exists|p: int| p < offset && #[trigger] soi_candidate(s, start as int, lim as int, p),
                first_listed(s, d, start as int, lim as int, maps@, offset as int),
            decreases lim - offset,
        {
            if !soi_metadata_at(data, offset) {
                proof {
                    assert(!soi_candidate(s, start as int, lim as int, offset as int));
                    assert forall|o: int, i: int|
                        first_soi(s, start as int, lim as int, o) && o < offset + 2 && 0 <= i < 10 && !d.contains(
                            #[trigger] block_map_address(s, o, i) as u32,
                        ) implies listed(maps@, block_map_address(s, o, i)) by {
                        assert(o != offset);
                    }
                }
                offset += 2;
                continue;
            }
            let mut ic: usize = 0;
            let mut check = offset;
            while check > 512 && ic < 5
                invariant
                    s == data@,
                    ic <= 5,
                    check + 512 * ic == offset,
                    offset + 66 <= len,
                    len == s.len(),
                    interleave_ok(s, offset as int, ic as int),
                    ic + interleave_from(s, check as int, ic as int) == interleave_count(s, offset as int),
                ensures
                    ic <= 5,
                    check + 512 * ic == offset,
                    interleave_ok(s, offset as int, ic as int),
                    ic == interleave_count(s, offset as int),
                decreases check,
            {
                let p = check - 512;
                if read_u16(data, p) == 0x10 && read_u16(data, p + 2) == 0x0E {
                    proof {
                        assert forall|t: int| 0 <= t < ic + 1 implies offset - 512 * (t + 1) >= 0
                            && #[trigger] be16(s, offset - 512 * (t + 1)) == 0x10 && be16(
                            s,
                            offset - 512 * (t + 1) + 2,
                        ) == 0x0E by {
                            if t == ic {
                                assert(offset - 512 * (t + 1) == p);
                            }
                        }
                        assert(interleave_ok(s, offset as int, (ic + 1) as int));
                    }
                    ic += 1;
                    check = p;
                } else {
                    break;
                }
            }
            let total = 4480 + ic * 64;
            let bs = if offset >= total { offset - total } else { 0 };
            let be = bs + 4700;
            if meets_range(&ranges, bs, be) {
                proof {
                    let p = choose|p: int| p < offset && #[trigger] soi_candidate(s, start as int, lim as int, p);
                    assert forall|o: int, i: int|
                        first_soi(s, start as int, lim as int, o) && o < offset + 2 && 0 <= i < 10 && !d.contains(
                            #[trigger] block_map_address(s, o, i) as u32,
                        ) implies listed(maps@, block_map_address(s, o, i)) by {
                        if o == offset {
                            assert(!soi_candidate(s, start as int, lim as int, p));
                        }
                    }
                }
                offset += 2;
                continue;
            }
            if !soi_block_at(data, bs) {
                proof {
                    assert(!soi_candidate(s, start as int, lim as int, offset as int));
                    assert forall|o: int, i: int|
                        first_soi(s, start as int, lim as int, o) && o < offset + 2 && 0 <= i < 10 && !d.contains(
                            #[trigger] block_map_address(s, o, i) as u32,
                        ) implies listed(maps@, block_map_address(s, o, i)) by {
                        assert(o != offset);
                    }
                }
                offset += 2;
                continue;
            }
            assert(bs == offset - 4480 - 64 * ic);
            let ghost was_empty = ranges@.len() == 0;
            proof {
                if was_empty {
                    assert(soi_candidate(s, start as int, lim as int, offset as int));
                    assert(first_soi(s, start as int, lim as int, offset as int));
                } else {
                    let p = choose|p: int| p < offset && #[trigger] soi_candidate(s, start as int, lim as int, p);
                    assert(!first_soi(s, start as int, lim as int, offset as int));
                }
            }
            ranges.push((bs, be));
            let ya = offset + 2;
            let xa = offset + 36;
            let mut grid: Vec<usize> = Vec::new();
            let mut k: usize = 1;
            while k <= 5
                invariant
                    1 <= k <= 6,
                    s == data@,
                    len == s.len(),
                    bs + 4480 <= len,
                    forall|j: int| 0 <= j < grid@.len() ==> (#[trigger] grid@[j]) + 448 <= len && soi_pre_ok(s, grid@[j] as int),
                decreases 6 - k,
            {
                if bs < k * 448 {
                    break;
                }
                let p = bs - k * 448;
                if !soi_pre_at(data, p) {
                    break;
                }
                grid.push(p);
                k += 1;
            }
            let mut pre: Vec<DetectedMap> = Vec::new();
            let mut g = grid.len();
            while g > 0
                invariant
                    g <= grid@.len(),
                    s == data@,
                    d == detected@,
                    len == s.len(),
                    len <= u32::MAX,
                    offset + 66 <= len,
                    soi_metadata(s, offset as int),
                    xa == offset + 36,
                    ya == offset + 2,
                    forall|j: int| 0 <= j < grid@.len() ==> (#[trigger] grid@[j]) + 448 <= len && soi_pre_ok(s, grid@[j] as int),
                    forall|j: int| 0 <= j < pre@.len() ==> soi_ok(s, d, #[trigger] pre@[j]),
                decreases g,
            {
                g -= 1;
                let p = grid[g];
                if !detected.contains(&(p as u32)) {
                    let m = soi_map(p, text("Start of injection Dynamic"), xa, ya, 880);
                    assert(soi_dynamic(s, m, offset as int));
                    pre.push(m);
                }
            }
            if pre.len() == 0 {
                let scan_start = if bs > 2752 { bs - 2752 } else { 0 };
                let mut first_found = false;
                let mut pos = scan_start;
                while pos < bs
                    invariant
                        s == data@,
                        d == detected@,
                        len == s.len(),
                        len + 0x10000 <= usize::MAX,
                        len <= u32::MAX,
                        bs + 4480 <= len,
                        offset + 66 <= len,
                        soi_metadata(s, offset as int),
                        xa == offset + 36,
                        ya == offset + 2,
                        pre@.len() <= 5,
                        forall|j: int| 0 <= j < pre@.len() ==> soi_ok(s, d, #[trigger] pre@[j]),
                    decreases bs + 448 - pos,
                {
                    if pos + 448 > len {
                        break;
                    }
                    if soi_pre_at(data, pos) {
                        first_found = true;
                        let overlaps_main = pos + 448 > bs;
                        if !detected.contains(&(pos as u32)) && pre.len() < 5 && !overlaps_main {
                            let m = soi_map(pos, text("Start of injection Dynamic"), xa, ya, 880);
                            assert(soi_dynamic(s, m, offset as int));
                            pre.push(m);
                        }
                        pos += 448;
                    } else if first_found {
                        let gap_start = pos;
                        let mut found_more = false;
                        let mut gap = pos + 2;
                        while !found_more && gap + 448 <= bs && gap < gap_start + 512
                            invariant
                                s == data@,
                                gap > gap_start,
                                gap <= bs + 2,
                                gap_start < bs,
                                bs + 4480 <= len,
                                len == s.len(),
                                len + 0x10000 <= usize::MAX,
                                found_more ==> gap + 448 <= bs,
                            decreases bs + 1 - gap + if found_more { 0int } else { 1int },
                        {
                            if gap + 448 <= len && soi_pre_at(data, gap) {
                                found_more = true;
                            } else {
                                gap += 2;
                            }
                        }
                        if !found_more {
                            break;
                        }
                        pos = gap;
                    } else {
                        pos += 2;
                    }
                }
            }
            let ghost before = maps@;
            let ghost pre_view = pre@;
            maps.append(&mut pre);
            assert forall|k: int| 0 <= k < maps@.len() implies soi_ok(s, d, #[trigger] maps@[k]) by {
                if k >= before.len() {
                    assert(maps@[k] == pre_view[k - before.len()]);
                }
            }
            proof {
                assert(maps@ == before + pre_view);
                lemma_listed_prefix(before, maps@);
                lemma_first_listed_grow(s, d, start as int, lim as int, before, maps@, offset as int);
            }
            let contiguous = 10 - ic;
            let mut i: usize = 0;
            while i < 10
                invariant
                    i <= 10,
                    ic <= 5,
                    s == data@,
                    d == detected@,
                    contiguous == 10 - ic,
                    len == s.len(),
                    len <= u32::MAX,
                    bs == offset - 4480 - 64 * ic,
                    offset + 66 <= len,
                    soi_metadata(s, offset as int),
                    interleave_ok(s, offset as int, ic as int),
                    soi_block_valid(s, bs as int),
                    xa == offset + 36,
                    ya == offset + 2,
                    forall|k: int| 0 <= k < maps@.len() ==> soi_ok(s, d, #[trigger] maps@[k]),
                    first_listed(s, d, start as int, lim as int, maps@, offset as int),
                    ic == interleave_count(s, offset as int),
                    first_soi(s, start as int, lim as int, offset as int) == was_empty,
                    was_empty ==> forall|j: int|
                        0 <= j < i && !d.contains(#[trigger] block_map_address(s, offset as int, j) as u32) ==> listed(
                            maps@,
                            block_map_address(s, offset as int, j),
                        ),
                decreases 10 - i,
            {
                let ghost mb = maps@;
                let addr = if i < contiguous {
                    bs + i * 448
                } else {
                    bs + contiguous * 448 + (i - contiguous) * 512 + 64
                };
                assert(addr == soi_main_address(bs as int, ic as int, i as int));
                if !detected.contains(&(addr as u32)) {
                    let (mx, my) = if i >= contiguous {
                        (addr - 28, addr - 60)
                    } else {
                        (xa, ya)
                    };
                    let m = soi_map(addr, numbered2("Start of injection ", i as u64), mx, my, 920);
                    assert(soi_main(s, m, offset as int, ic as int, i as int));
                    maps.push(m);
                    proof {
                        lemma_listed_last(mb, m);
                        lemma_first_listed_grow(s, d, start as int, lim as int, mb, maps@, offset as int);
                    }
                }
                assert(block_map_address(s, offset as int, i as int) == addr);
                i += 1;
            }
            assert(first_listed(s, d, start as int, lim as int, maps@, offset + 1));
            let dynamic_start = offset + 106;
            let mut count: usize = 0;
            let mut t: usize = 0;
            while t < 5
                invariant
                    t <= 5,
                    s == data@,
                    d == detected@,
                    count <= t,
                    len == s.len(),
                    len <= u32::MAX,
                    len + 0x10000 <= usize::MAX,
                    dynamic_start == offset + 106,
                    offset + 66 <= len,
                    soi_metadata(s, offset as int),
                    xa == offset + 36,
                    ya == offset + 2,
                    forall|k: int| 0 <= k < maps@.len() ==> soi_ok(s, d, #[trigger] maps@[k]),
                    first_listed(s, d, start as int, lim as int, maps@, offset + 1),
                decreases 5 - t,
            {
                let ghost mb = maps@;
                let a = dynamic_start + t * 448;
                if a + 448 > len {
                    break;
                }
                if !soi_post_at(data, a) {
                    break;
                }
                if !detected.contains(&(a as u32)) {
                    let m = soi_map(a, text("Start of injection Dynamic"), xa, ya, 880);
                    assert(soi_dynamic(s, m, offset as int));
                    maps.push(m);
                    proof {
                        lemma_first_listed_grow(s, d, start as int, lim as int, mb, maps@, offset + 1);
                    }
                    count += 1;
                }
                t += 1;
            }
            let ghost old_offset = offset as int;
            offset = dynamic_start + count * 448 + 448;
            proof {
                assert forall|o: int, i: int|
                    first_soi(s, start as int, lim as int, o) && o < offset && 0 <= i < 10 && !d.contains(
                        #[trigger] block_map_address(s, o, i) as u32,
                    ) implies listed(maps@, block_map_address(s, o, i)) by {
                    if o > old_offset {
                        if was_empty {
                            assert(soi_candidate(s, start as int, lim as int, old_offset));
                        } else {
                            let p = choose|p: int| p < old_offset && #[trigger] soi_candidate(s, start as int, lim as int, p);
                            assert(soi_candidate(s, start as int, lim as int, p));
                        }
                    }
                }
                assert(exists|p: int| p < offset && #[trigger] soi_candidate(s, start as int, lim as int, p)) by {
                    if was_empty {
                        assert(soi_candidate(s, start as int, lim as int, old_offset));
                    } else {
                        let p = choose|p: int| p < old_offset && #[trigger] soi_candidate(s, start as int, lim as int, p);
                        assert(soi_candidate(s, start as int, lim as int, p));
                    }
                }
            }
        }
        proof {
            assert forall|o: int, i: int|
                first_soi(s, start as int, lim as int, o) && 0 <= i < 10 && !d.contains(
                    #[trigger] block_map_address(s, o, i) as u32,
                ) implies listed(maps@, block_map_address(s, o, i)) by {
                assert(o + 4580 <= lim);
            }
        }
        maps
    }
}

} // verus!
