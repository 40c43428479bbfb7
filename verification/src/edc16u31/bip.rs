//! The BIP (begin of injection period) blocks: a fuel temperature
//! correction curve, the basic characteristic by rail pressure, then the
//! 10 x 10 multiple correction, each within a short distance of the last.
use vstd::prelude::*;
use std::collections::HashSet;
use crate::bytes::{be16_seq, be16s_seq, read_u16, read_words, read_signed_words};
use crate::model::{
    DataType, DetectedMap, MapCategory, MapDimensions, category_name, has_text, lemma_listed_last, listed, text, FIXED_ONE,
};
use crate::words::{all_between, all_in, is_strictly_increasing, strictly_increasing};
use super::stagex::{rises_signed_at, rising_signed};
use super::{EDC16U31Detector, data_section, get_data_section_range};

verus! {

broadcast use {vstd::std_specs::hash::group_hash_axioms, crate::model::lemma_listed_push};

/// `[00 06]`, six fuel temperatures and six factors at `o`.
pub open spec fn bip_part1(s: Seq<u8>, o: int, end: int) -> bool {
    let t = be16_seq(s, o + 2, 6);
    &&& 0 <= o
    &&& o + 26 <= end <= s.len()
    &&& s[o] == 0
    &&& s[o + 1] == 6
    &&& 2000 <= t[0] <= 3000
    &&& 2500 <= t[5] <= 4000
    &&& strictly_increasing(t)
    &&& all_between(be16_seq(s, o + 14, 6), 3000, 5500)
}

/// `[00 0A]`, ten rail pressures and ten falling times at `p`.
pub open spec fn bip_part2(s: Seq<u8>, p: int, end: int) -> bool {
    let pr = be16_seq(s, p + 2, 10);
    let tm = be16_seq(s, p + 22, 10);
    &&& 0 <= p
    &&& p + 42 <= end <= s.len()
    &&& s[p] == 0
    &&& s[p + 1] == 0x0A
    &&& 100 <= pr[0] <= 800
    &&& 600 <= pr[9] <= 2500
    &&& strictly_increasing(pr)
    &&& all_between(tm, 200, 4000)
    &&& tm[0] > tm[9]
}

/// `[00 0A]`, two axes of ten and 100 factors at `q`.
pub open spec fn bip_part3(s: Seq<u8>, q: int, end: int) -> bool {
    let a1 = be16_seq(s, q + 2, 10);
    &&& 0 <= q
    &&& q + 242 <= end <= s.len()
    &&& s[q] == 0
    &&& s[q + 1] == 0x0A
    &&& a1[0] <= 1000
    &&& strictly_increasing(a1)
    &&& rising_signed(be16s_seq(s, q + 22, 10))
    &&& all_between(be16_seq(s, q + 42, 100), 2000, 6500)
}

/// A BIP block: its parts at `o`, `p` and `q`.
pub open spec fn bip_block(s: Seq<u8>, o: int, p: int, q: int) -> bool {
    let end = data_section(s.len() as int).1;
    &&& bip_part1(s, o, end)
    &&& o + 26 <= p < o + 26 + 0x40
    &&& bip_part2(s, p, end)
    &&& p + 42 <= q < p + 42 + 0x200
    &&& bip_part3(s, q, end)
}

/// Map `m` is one of the three maps of a BIP block, not at an address of `d`.
pub open spec fn bip_ok(s: Seq<u8>, d: Set<u32>, m: DetectedMap) -> bool {
    &&& !d.contains(m.address)
    &&& m.data_type == DataType::UInt16
    &&& has_text(m.category, category_name(MapCategory::InjectionSystem))
    &&& m.confidence == 880
    &&& exists|o: int, p: int, q: int|
        #[trigger] bip_block(s, o, p, q) && {
            ||| (m.address == o + 14 && m.size == 12 && m.dimensions == MapDimensions::OneDimensional { length: 6 }
                && has_text(m.name, "BIP Fuel Temp Correction"@) && has_text(m.unit, "-"@) && m.correction_factor
                == Some(244_140_625i64) && m.x_axis_address == Some((o + 2) as u32) && has_text(m.x_label, "°C"@)
                && m.x_axis_correction == Some(100_000_000_000i64) && m.x_axis_offset == Some(-273_140_000_000_000i64))
            ||| (m.address == p + 22 && m.size == 20 && m.dimensions == MapDimensions::OneDimensional { length: 10 }
                && has_text(m.name, "BIP Basic Characteristic"@) && has_text(m.unit, "µs"@) && m.correction_factor
                == Some(FIXED_ONE) && m.x_axis_address == Some((p + 2) as u32) && has_text(m.x_label, "bar"@)
                && m.x_axis_correction == Some(FIXED_ONE))
            ||| (m.address == q + 42 && m.size == 200 && m.dimensions == MapDimensions::TwoDimensional {
                rows: 10,
                cols: 10,
            } && has_text(m.name, "BIP Multiple Correction"@) && has_text(m.unit, "-"@) && m.correction_factor
                == Some(244_140_625i64) && m.y_axis_address == Some((q + 2) as u32) && has_text(m.y_label, "raw"@)
                && m.y_axis_correction == Some(FIXED_ONE) && m.x_axis_address == Some((q + 22) as u32) && has_text(
                m.x_label,
                "raw"@,
            ) && m.x_axis_correction == Some(FIXED_ONE))
        }
}

/// `p` is the first basic characteristic on the word alignment of the
/// curve at `o`, within 0x40 bytes after it.
pub open spec fn first_part2(s: Seq<u8>, o: int, p: int) -> bool {
    let end = data_section(s.len() as int).1;
    &&& o + 26 <= p < o + 26 + 0x40
    &&& (p - o) % 2 == 0
    &&& bip_part2(s, p, end)
    &&& forall|x: int| o + 26 <= x < p && (x - o) % 2 == 0 ==> !#[trigger] bip_part2(s, x, end)
}

/// `q` is the first multiple correction on the word alignment of the
/// characteristic at `p`, within 0x200 bytes after it.
pub open spec fn first_part3(s: Seq<u8>, p: int, q: int) -> bool {
    let end = data_section(s.len() as int).1;
    &&& p + 42 <= q < p + 42 + 0x200
    &&& (q - p) % 2 == 0
    &&& bip_part3(s, q, end)
    &&& forall|x: int| p + 42 <= x < q && (x - p) % 2 == 0 ==> !#[trigger] bip_part3(s, x, end)
}

/// A BIP block as the scan finds it: the curve at the word-aligned
/// position `o` of the data section, its first characteristic at `p` and
/// that one's first multiple correction at `q`.
pub open spec fn bip_found(s: Seq<u8>, o: int, p: int, q: int) -> bool {
    let (start, end) = data_section(s.len() as int);
    &&& start <= o
    &&& (o - start) % 2 == 0
    &&& bip_part1(s, o, end)
    &&& first_part2(s, o, p)
    &&& first_part3(s, p, q)
}

/// The maps of the block at `o`, `p`, `q` that are not in `d` are in `r`.
pub open spec fn bip_listed(d: Set<u32>, r: Seq<DetectedMap>, o: int, p: int, q: int) -> bool {
    &&& (!d.contains((o + 14) as u32) ==> listed(r, o + 14))
    &&& (!d.contains((p + 22) as u32) ==> listed(r, p + 22))
    &&& (!d.contains((q + 42) as u32) ==> listed(r, q + 42))
}

/// Position `o` lies before the end of a block found before it.
pub open spec fn bip_inside(s: Seq<u8>, o: int) -> bool {
    exists|o2: int, p2: int, q2: int| o2 < o < q2 + 242 && #[trigger] bip_found(s, o2, p2, q2)
}

proof fn lemma_first_unique(s: Seq<u8>, o: int)
    ensures
        forall|a: int, b: int| first_part2(s, o, a) && first_part2(s, o, b) ==> a == b,
        forall|a: int, b: int| first_part3(s, o, a) && first_part3(s, o, b) ==> a == b,
{
}

fn bip_part1_at(data: &[u8], o: usize, end: usize) -> (r: bool)
    requires
        end <= data@.len(),
    ensures
        r == bip_part1(data@, o as int, end as int),
{
    if o > end || end - o < 26 || data[o] != 0 || data[o + 1] != 6 {
        return false;
    }
    let t = read_words(data, o + 2, 6);
    if t[0] < 2000 || t[0] > 3000 || t[5] < 2500 || t[5] > 4000 || !is_strictly_increasing(t.as_slice()) {
        return false;
    }
    let f = read_words(data, o + 14, 6);
    all_in(f.as_slice(), 3000, 5500)
}

fn bip_part2_at(data: &[u8], p: usize, end: usize) -> (r: bool)
    requires
        end <= data@.len(),
    ensures
        r == bip_part2(data@, p as int, end as int),
{
    if p > end || end - p < 42 || data[p] != 0 || data[p + 1] != 0x0A {
        return false;
    }
    let pr = read_words(data, p + 2, 10);
    if pr[0] < 100 || pr[0] > 800 || pr[9] < 600 || pr[9] > 2500 || !is_strictly_increasing(pr.as_slice()) {
        return false;
    }
    let tm = read_words(data, p + 22, 10);
    all_in(tm.as_slice(), 200, 4000) && tm[0] > tm[9]
}

fn bip_part3_at(data: &[u8], q: usize, end: usize) -> (r: bool)
    requires
        end <= data@.len(),
    ensures
        r == bip_part3(data@, q as int, end as int),
{
    if q > end || end - q < 242 || data[q] != 0 || data[q + 1] != 0x0A {
        return false;
    }
    let a1 = read_words(data, q + 2, 10);
    if a1[0] > 1000 || !is_strictly_increasing(a1.as_slice()) {
        return false;
    }
    let a2 = read_signed_words(data, q + 22, 10);
    assert(a2@ == be16s_seq(data@, q as int + 22, 10));
    let mut k: usize = 1;
    while k < 10
        invariant
            1 <= k <= 10,
            a2@.len() == 10,
            a2@ == be16s_seq(data@, q as int + 22, 10),
            forall|j: int| 0 < j < k ==> #[trigger] rises_signed_at(a2@, j),
        decreases 10 - k,
    {
        if a2[k - 1] >= a2[k] {
            assert(!rises_signed_at(a2@, k as int));
            return false;
        }
        k += 1;
    }
    let v = read_words(data, q + 42, 100);
    all_in(v.as_slice(), 2000, 6500)
}

/// The begin of injection period maps `r` found in the image `s`, leaving out the addresses of `d`,
/// as the scan states them.
pub open spec fn bip_post(s: Seq<u8>, d: Set<u32>, r: Seq<DetectedMap>) -> bool {
    &&& (forall|k: int| 0 <= k < r.len() ==> bip_ok(s, d, #[trigger] r[k]))
    &&& (forall|o: int, p: int, q: int|
                #[trigger] bip_found(s, o, p, q) ==> bip_listed(d, r, o, p, q) || bip_inside(s, o))
}

impl EDC16U31Detector {
    /// The BIP blocks of the data section: for each fuel temperature curve
    /// followed within 0x40 bytes by a basic characteristic and that within
    /// 0x200 bytes by a multiple correction, its three maps (those at an
    /// address of `detected` left out).
    pub fn detect_bip_maps(&self, data: &[u8], detected: &HashSet<u32>) -> (r: Vec<DetectedMap>)
        requires
            data@.len() <= u32::MAX,
            data@.len() + 0x10000 <= usize::MAX,
        ensures
            bip_post(data@, detected@, r@),
    {
        let ghost s = data@;
        let ghost d = detected@;
        let len = data.len();
        let mut maps: Vec<DetectedMap> = Vec::new();
        let (scan_start, scan_end) = get_data_section_range(len);
        let mut offset = scan_start;
        while offset < scan_end && scan_end - offset > 26
            invariant
                s == data@,
                d == detected@,
                len == s.len(),
                len <= u32::MAX,
                len + 0x10000 <= usize::MAX,
                scan_start == data_section(len as int).0,
                scan_end == data_section(len as int).1,
                scan_end <= len,
                forall|k: int| 0 <= k < maps@.len() ==> bip_ok(s, d, #[trigger] maps@[k]),
                scan_start <= offset,
                (offset - scan_start) % 2 == 0,
                forall|o: int, p: int, q: int|
                    o < offset && #[trigger] bip_found(s, o, p, q) ==> bip_listed(d, maps@, o, p, q) || bip_inside(s, o),
            decreases scan_end - offset,
        {
            proof {
                lemma_first_unique(s, offset as int);
            }
            if !bip_part1_at(data, offset, scan_end) {
                offset += 2;
                continue;
            }
            let p1_end = offset + 26;
            let mut part2: Option<usize> = None;
            let mut p = p1_end;
            while p < scan_end && scan_end - p >= 42 && p < p1_end + 0x40
                invariant_except_break
                    part2 is None,
                invariant
                    s == data@,
                    scan_end <= len,
                    len == s.len(),
                    len + 0x10000 <= usize::MAX,
                    p >= p1_end,
                    p1_end == offset + 26,
                    (p - offset) % 2 == 0,
                    scan_end == data_section(len as int).1,
                    part2 matches Some(x) ==> p1_end <= x < p1_end + 0x40 && bip_part2(s, x as int, scan_end as int),
                    part2 matches Some(x) ==> first_part2(s, offset as int, x as int),
                    part2 is None ==> forall|x: int|
                        p1_end <= x < p && (x - offset) % 2 == 0 ==> !#[trigger] bip_part2(s, x, scan_end as int),
                ensures
                    part2 matches Some(x) ==> p1_end <= x < p1_end + 0x40 && bip_part2(s, x as int, scan_end as int),
                    part2 matches Some(x) ==> first_part2(s, offset as int, x as int),
                    part2 is None ==> forall|x: int| !#[trigger] first_part2(s, offset as int, x),
                decreases scan_end - p,
            {
                if bip_part2_at(data, p, scan_end) {
                    part2 = Some(p);
                    break;
                }
                p += 2;
            }
            let p2 = match part2 {
                Some(x) => x,
                None => {
                    offset += 2;
                    continue;
                },
            };
            let p2_end = p2 + 42;
            let mut part3: Option<usize> = None;
            let mut q = p2_end;
            while q < scan_end && scan_end - q >= 242 && q < p2_end + 0x200
                invariant_except_break
                    part3 is None,
                invariant
                    s == data@,
                    scan_end <= len,
                    len == s.len(),
                    len + 0x10000 <= usize::MAX,
                    q >= p2_end,
                    p2_end == p2 + 42,
                    (q - p2) % 2 == 0,
                    scan_end == data_section(len as int).1,
                    part3 matches Some(x) ==> p2_end <= x < p2_end + 0x200 && bip_part3(s, x as int, scan_end as int),
                    part3 matches Some(x) ==> first_part3(s, p2 as int, x as int),
                    part3 is None ==> forall|x: int|
                        p2_end <= x < q && (x - p2) % 2 == 0 ==> !#[trigger] bip_part3(s, x, scan_end as int),
                ensures
                    part3 matches Some(x) ==> p2_end <= x < p2_end + 0x200 && bip_part3(s, x as int, scan_end as int),
                    part3 matches Some(x) ==> first_part3(s, p2 as int, x as int),
                    part3 is None ==> forall|x: int| !#[trigger] first_part3(s, p2 as int, x),
                decreases scan_end - q,
            {
                if bip_part3_at(data, q, scan_end) {
                    part3 = Some(q);
                    break;
                }
                q += 2;
            }
            let p3 = match part3 {
                Some(x) => x,
                None => {
                    offset += 2;
                    continue;
                },
            };
            assert(bip_block(s, offset as int, p2 as int, p3 as int));
            assert(bip_found(s, offset as int, p2 as int, p3 as int));
            let ghost entry = maps@;
            let d1 = offset + 14;
            let d2 = p2 + 22;
            let d3 = p3 + 42;
            if !detected.contains(&(d1 as u32)) {
                let mut m = DetectedMap::new(d1 as u32, 12, MapDimensions::OneDimensional { length: 6 }, DataType::UInt16);
                m.name = Some(text("BIP Fuel Temp Correction"));
                m.category = Some(MapCategory::InjectionSystem.display_name());
                m.unit = Some(text("-"));
                m.correction_factor = Some(244_140_625);
                m.confidence = 880;
                m.x_axis_address = Some((offset + 2) as u32);
                m.x_label = Some(text("°C"));
                m.x_axis_correction = Some(100_000_000_000);
                m.x_axis_offset = Some(-273_140_000_000_000);
                assert(bip_ok(s, d, m));
                proof {
                    lemma_listed_last(maps@, m);
                }
                maps.push(m);
            }
            if !detected.contains(&(d2 as u32)) {
                let mut m = DetectedMap::new(d2 as u32, 20, MapDimensions::OneDimensional { length: 10 }, DataType::UInt16);
                m.name = Some(text("BIP Basic Characteristic"));
                m.category = Some(MapCategory::InjectionSystem.display_name());
                m.unit = Some(text("µs"));
                m.correction_factor = Some(FIXED_ONE);
                m.confidence = 880;
                m.x_axis_address = Some((p2 + 2) as u32);
                m.x_label = Some(text("bar"));
                m.x_axis_correction = Some(FIXED_ONE);
                assert(bip_ok(s, d, m));
                proof {
                    lemma_listed_last(maps@, m);
                }
                maps.push(m);
            }
            if !detected.contains(&(d3 as u32)) {
                let mut m = DetectedMap::new(d3 as u32, 200, MapDimensions::TwoDimensional { rows: 10, cols: 10 }, DataType::UInt16);
                m.name = Some(text("BIP Multiple Correction"));
                m.category = Some(MapCategory::InjectionSystem.display_name());
                m.unit = Some(text("-"));
                m.correction_factor = Some(244_140_625);
                m.confidence = 880;
                m.y_axis_address = Some((p3 + 2) as u32);
                m.y_label = Some(text("raw"));
                m.y_axis_correction = Some(FIXED_ONE);
                m.x_axis_address = Some((p3 + 22) as u32);
                m.x_label = Some(text("raw"));
                m.x_axis_correction = Some(FIXED_ONE);
                assert(bip_ok(s, d, m));
                proof {
                    lemma_listed_last(maps@, m);
                }
                maps.push(m);
            }
            proof {
                assert forall|a: int| listed(entry, a) implies listed(maps@, a) by {
                    let k = choose|k: int| 0 <= k < entry.len() && (#[trigger] entry[k]).address == a;
                    assert(maps@[k] == entry[k]);
                }
                assert(bip_listed(d, maps@, offset as int, p2 as int, p3 as int));
                assert forall|o: int, p: int, q: int|
                    o < d3 + 200 && #[trigger] bip_found(s, o, p, q) implies bip_listed(d, maps@, o, p, q) || bip_inside(
                        s,
                        o,
                    ) by {
                    if o < offset {
                        if bip_listed(d, entry, o, p, q) {
                        }
                    } else if o == offset {
                        assert(p == p2 && q == p3);
                    } else {
                        assert(bip_found(s, offset as int, p2 as int, p3 as int));
                    }
                }
            }
            offset = d3 + 200;
        }
        maps
    }
}

} // verus!
