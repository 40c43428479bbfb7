//! Single-value maps found by fixed byte signatures: the RPM limiter (SVRL),
//! the boost limiter (SVBL) and the maximum vehicle speed values.
use vstd::prelude::*;
use std::collections::HashSet;
use crate::bytes::{be16, bytes_at, matches_bytes, read_u16};
use crate::model::{DataType, DetectedMap, MapCategory, MapDimensions, category_name, has_text, text, FIXED_ONE};
use crate::text::{decimal, numbered};
use super::axis_scan::distinct_addresses;
use super::{EDC16U31Detector, data_section, get_data_section_range};

verus! {

broadcast use vstd::std_specs::hash::group_hash_axioms;

/// The descending selector sequence 5, 4, 3, 2, 1, 0 (little-endian words).
pub open spec fn selector_pattern() -> Seq<u8> {
    seq![0x05u8, 0x00, 0x04, 0x00, 0x03, 0x00, 0x02, 0x00, 0x01, 0x00, 0x00, 0x00]
}

/// A scalar map with the given name, unit and display factor.
pub open spec fn scalar_map(
    m: DetectedMap,
    addr: int,
    name: Seq<char>,
    unit: Seq<char>,
    factor: i64,
    confidence: u32,
) -> bool {
    &&& m.address == addr
    &&& m.size == 2
    &&& m.dimensions == MapDimensions::OneDimensional { length: 1 }
    &&& m.data_type == DataType::Int16
    &&& has_text(m.name, name)
    &&& has_text(m.unit, unit)
    &&& m.correction_factor == Some(factor)
    &&& m.confidence == confidence
}

fn scalar(addr: u32, name: &str, unit: &str, factor: i64, confidence: u32) -> (m: DetectedMap)
    ensures
        scalar_map(m, addr as int, name@, unit@, factor, confidence),
        m.category is None,
        m.offset is None,
{
    let mut m = DetectedMap::new(addr, 2, MapDimensions::OneDimensional { length: 1 }, DataType::Int16);
    m.name = Some(text(name));
    m.unit = Some(text(unit));
    m.correction_factor = Some(factor);
    m.confidence = confidence;
    m
}

/// Where the SVRL sits for a selector signature at `o`.
pub open spec fn svrl_pos(o: int) -> int {
    if o >= 16 {
        o - 16
    } else {
        0
    }
}

/// The selector signature at `o` announces an SVRL (value at most 6500 rpm).
pub open spec fn svrl_hit(s: Seq<u8>, start: int, o: int) -> bool {
    &&& bytes_at(s, o, selector_pattern())
    &&& svrl_pos(o) >= start
    &&& svrl_pos(o) + 2 <= s.len()
    &&& be16(s, svrl_pos(o)) <= 6500
}

/// The scan bound of the SVRL search.
pub open spec fn svrl_scan_end(s: Seq<u8>) -> int {
    let e = data_section(s.len() as int).1;
    if e >= 12 {
        e - 12
    } else {
        0
    }
}

/// Position of the boost limit table tail: the value, then 00 00 | 00 0A | 00 0A,
/// after three identical 20-byte lines.
pub open spec fn svbl_tail(s: Seq<u8>, o: int) -> bool {
    &&& 80 <= o
    &&& o + 8 <= s.len()
    &&& 1500 <= be16(s, o) <= 6200
    &&& be16(s, o + 2) == 0
    &&& be16(s, o + 4) == 10
    &&& be16(s, o + 6) == 10
    &&& forall|k: int| 0 <= k < 20 ==> #[trigger] s[o - 40 + k] == s[o - 20 + k] && s[o - 60 + k]
        == s[o - 20 + k]
}

/// The constant low-boost curve core that older calibrations share.
pub open spec fn svbl_core() -> Seq<u8> {
    seq![0x06u8, 0x06, 0x06, 0x40, 0x06, 0x61, 0x06, 0xB8, 0x07, 0x3A]
}

/// The `t` words from `at` all equal `v`.
pub open spec fn repeated(s: Seq<u8>, at: int, v: u16, t: int) -> bool {
    forall|k: int| 0 <= k < t ==> #[trigger] be16(s, at + 2 * k) == v
}

/// An SVBL at `a`, announced by the low-boost core at `o` and a run of `t`
/// repeated maximum-boost words.
pub open spec fn svbl_after_core(s: Seq<u8>, o: int, t: int, a: int) -> bool {
    let rs = o + 10;
    let v = be16(s, rs);
    let after = rs + 2 * t;
    &&& bytes_at(s, o, svbl_core())
    &&& 1500 <= v <= 6200
    &&& 4 <= t <= 9
    &&& repeated(s, rs, v, t)
    &&& after + 5 <= s.len()
    &&& ((1 <= be16(s, after) <= 6200 && s[after + 2] == 0 && s[after + 3] == 0 && s[after + 4]
        == 0 && a == after) || (be16(s, after) == 0 && t >= 5 && s[after] == 0 && s[after + 1]
        == 0 && s[after + 2] == 0 && a == rs + 2 * (t - 1)))
}

/// An SVBL found by either signature.
pub open spec fn svbl_at(s: Seq<u8>, a: int) -> bool {
    ||| (data_section(s.len() as int).0 <= a && svbl_tail(s, a))
    ||| exists|o: int, t: int| #[trigger] svbl_after_core(s, o, t, a)
}

impl EDC16U31Detector {
    /// The RPM limiter: the big-endian word 16 bytes before the first
    /// selector signature 05 00 04 00 03 00 02 00 01 00 00 00 of the data
    /// section whose value is at most 6500.
    pub fn detect_svrl_by_signature(&self, data: &[u8]) -> (r: Vec<DetectedMap>)
        requires
            data@.len() <= u32::MAX,
        ensures
            r@.len() <= 1,
            r@.len() == 0 <==> !exists|o: int|
                data_section(data@.len() as int).0 <= o < svrl_scan_end(data@) && #[trigger] svrl_hit(
                    data@,
                    data_section(data@.len() as int).0,
                    o,
                ),
            r@.len() == 1 ==> exists|o: int|
                {
                    &&& data_section(data@.len() as int).0 <= o < svrl_scan_end(data@)
                    &&& #[trigger] svrl_hit(data@, data_section(data@.len() as int).0, o)
                    &&& scalar_map(r@[0], svrl_pos(o), "SVRL - RPM Limiter"@, "RPM"@, FIXED_ONE, 1000)
                    &&& forall|o2: int|
                        data_section(data@.len() as int).0 <= o2 < o ==> !svrl_hit(
                            data@,
                            data_section(data@.len() as int).0,
                            o2,
                        )
                },
            r@.len() == 1 ==> has_text(r@[0].category, category_name(MapCategory::MaximumRpmLimiter)),
    {
        let mut maps: Vec<DetectedMap> = Vec::new();
        let signature: [u8; 12] = [0x05, 0x00, 0x04, 0x00, 0x03, 0x00, 0x02, 0x00, 0x01, 0x00, 0x00, 0x00];
        assert(signature@ =~= selector_pattern());
        let (scan_start, scan_end) = get_data_section_range(data.len());
        let hi = if scan_end >= 12 { scan_end - 12 } else { 0 };
        let mut offset = scan_start;
        while offset < hi
            invariant
                scan_start <= offset,
                scan_start == data_section(data@.len() as int).0,
                hi == svrl_scan_end(data@),
                hi <= data@.len(),
                signature@ == selector_pattern(),
                data@.len() <= u32::MAX,
                maps@.len() == 0,
                forall|o2: int| scan_start <= o2 < offset ==> !svrl_hit(data@, scan_start as int, o2),
            decreases hi - offset,
        {
            if matches_bytes(data, offset, &signature) {
                let svrl_offset = if offset >= 16 { offset - 16 } else { 0 };
                if svrl_offset >= scan_start && svrl_offset + 2 <= data.len() {
                    let value = read_u16(data, svrl_offset);
                    if value <= 6500 {
                        let mut map = scalar(svrl_offset as u32, "SVRL - RPM Limiter", "RPM", FIXED_ONE, 1000);
                        map.category = Some(MapCategory::MaximumRpmLimiter.display_name());
                        map.offset = Some(0);
                        maps.push(map);
                        assert(svrl_hit(data@, scan_start as int, offset as int));
                        return maps;
                    }
                }
            }
            offset += 1;
        }
        maps
    }

    /// The maximum boost pressure scalars: every value that ends a boost limit
    /// table (three identical 20-byte lines, then the value and 00 00 00 0A 00 0A),
    /// then those that follow the constant low-boost curve core of older calibrations.
    pub fn detect_svbl_by_signature(&self, data: &[u8]) -> (r: Vec<DetectedMap>)
        requires
            data@.len() <= u32::MAX,
        ensures
            forall|k: int|
                0 <= k < r@.len() ==> {
                    &&& svbl_at(data@, r@[k].address as int)
                    &&& scalar_map(
                        #[trigger] r@[k],
                        r@[k].address as int,
                        "SVBL - Max Boost Pressure"@,
                        "mbar"@,
                        FIXED_ONE,
                        1000,
                    )
                    &&& has_text(r@[k].category, category_name(MapCategory::TurboBoostPressure))
                },
            forall|o: int|
                data_section(data@.len() as int).0 <= o < data_section(data@.len() as int).1 - 8
                    && #[trigger] svbl_tail(data@, o) ==> exists|k: int|
                    0 <= k < r@.len() && r@[k].address == o,
            distinct_addresses(r@),
    {
        let mut maps: Vec<DetectedMap> = Vec::new();
        let (scan_start, scan_end) = get_data_section_range(data.len());
        let ghost s = data@;
        let ghost start = scan_start as int;
        let hi = if scan_end >= 8 { scan_end - 8 } else { 0 };
        let mut offset = scan_start;
        while offset < hi
            invariant
                scan_start <= offset,
                start == scan_start,
                s == data@,
                scan_start == data_section(data@.len() as int).0,
                scan_end == data_section(data@.len() as int).1,
                hi == (if scan_end >= 8 { scan_end - 8 } else { 0 }),
                scan_end <= data@.len(),
                data@.len() <= u32::MAX,
                forall|k: int|
                    0 <= k < maps@.len() ==> {
                        &&& svbl_at(s, maps@[k].address as int)
                        &&& scalar_map(
                            #[trigger] maps@[k],
                            maps@[k].address as int,
                            "SVBL - Max Boost Pressure"@,
                            "mbar"@,
                            FIXED_ONE,
                            1000,
                        )
                        &&& has_text(maps@[k].category, category_name(MapCategory::TurboBoostPressure))
                    },
                forall|o: int|
                    scan_start <= o < offset && #[trigger] svbl_tail(s, o) ==> exists|k: int|
                        0 <= k < maps@.len() && maps@[k].address == o,
                distinct_addresses(maps@),
                forall|k: int| 0 <= k < maps@.len() ==> (#[trigger] maps@[k]).address < offset,
            decreases hi - offset,
        {
            let value = read_u16(data, offset);
            if 1500 <= value && value <= 6200 && read_u16(data, offset + 2) == 0 && read_u16(
                data,
                offset + 4,
            ) == 10 && read_u16(data, offset + 6) == 10 && offset >= 80 {
                let mut same = true;
                let mut k: usize = 0;
                while k < 20
                    invariant
                        k <= 20,
                        80 <= offset,
                        offset + 8 <= data@.len(),
                        same ==> forall|j: int|
                            0 <= j < k ==> #[trigger] data@[offset - 40 + j] == data@[offset - 20
                                + j] && data@[offset - 60 + j] == data@[offset - 20 + j],
                        !same ==> !svbl_tail(data@, offset as int),
                    decreases 20 - k,
                {
                    if data[offset - 40 + k] != data[offset - 20 + k] || data[offset - 60 + k]
                        != data[offset - 20 + k] {
                        same = false;
                    }
                    k += 1;
                }
                if same {
                    assert(svbl_tail(s, offset as int));
                    let mut map = scalar(offset as u32, "SVBL - Max Boost Pressure", "mbar", FIXED_ONE, 1000);
                    map.category = Some(MapCategory::TurboBoostPressure.display_name());
                    map.offset = Some(0);
                    let ghost before = maps@;
                    maps.push(map);
                    assert(maps@[maps@.len() - 1].address == offset);
                    assert forall|i: int, j: int| 0 <= i < j < maps@.len() implies (#[trigger] maps@[i]).address
                        != (#[trigger] maps@[j]).address by {
                        if j < before.len() {
                            assert(maps@[i] == before[i] && maps@[j] == before[j]);
                        } else {
                            assert(maps@[i] == before[i]);
                        }
                    }
                    assert forall|o: int|
                        scan_start <= o < offset + 1 && #[trigger] svbl_tail(s, o) implies exists|k: int|
                            0 <= k < maps@.len() && maps@[k].address == o by {
                        if o < offset {
                            let k = choose|k: int| 0 <= k < before.len() && before[k].address == o;
                            assert(maps@[k] == before[k]);
                        } else {
                            assert(maps@[maps@.len() - 1].address == o);
                        }
                    }
                }
            } else {
                assert(!svbl_tail(s, offset as int));
            }
            offset += 1;
        }
        let core: [u8; 10] = [0x06, 0x06, 0x06, 0x40, 0x06, 0x61, 0x06, 0xB8, 0x07, 0x3A];
        assert(core@ =~= svbl_core());
        let hi2 = if scan_end >= 34 { scan_end - 34 } else { 0 };
        let mut offset = scan_start;
        while offset < hi2
            invariant
                scan_start <= offset,
                s == data@,
                scan_start == data_section(data@.len() as int).0,
                scan_end == data_section(data@.len() as int).1,
                hi2 == (if scan_end >= 34 { scan_end - 34 } else { 0 }),
                scan_end <= data@.len(),
                core@ == svbl_core(),
                data@.len() <= u32::MAX,
                forall|k: int|
                    0 <= k < maps@.len() ==> {
                        &&& svbl_at(s, maps@[k].address as int)
                        &&& scalar_map(
                            #[trigger] maps@[k],
                            maps@[k].address as int,
                            "SVBL - Max Boost Pressure"@,
                            "mbar"@,
                            FIXED_ONE,
                            1000,
                        )
                        &&& has_text(maps@[k].category, category_name(MapCategory::TurboBoostPressure))
                    },
                forall|o: int|
                    scan_start <= o < data_section(data@.len() as int).1 - 8 && #[trigger] svbl_tail(
                        s,
                        o,
                    ) ==> exists|k: int| 0 <= k < maps@.len() && maps@[k].address == o,
                distinct_addresses(maps@),
            decreases hi2 - offset,
        {
            if matches_bytes(data, offset, &core) {
                let run_start = offset + 10;
                let v = read_u16(data, run_start);
                if 1500 <= v && v <= 6200 {
                    let mut t: usize = 1;
                    while t < 10 && (t + 1) * 2 <= data.len() - run_start && read_u16(
                        data,
                        run_start + t * 2,
                    ) == v
                        invariant
                            1 <= t <= 10,
                            run_start == offset + 10,
                            run_start + 2 <= data@.len(),
                            offset < hi2,
                            hi2 <= data@.len(),
                            v == be16(data@, run_start as int),
                            repeated(data@, run_start as int, v, t as int),
                        decreases 10 - t,
                    {
                        t += 1;
                    }
                    let after = run_start + t * 2;
                    if 4 <= t && t <= 9 && 5 <= data.len() - after {
                        let candidate = read_u16(data, after);
                        let found: Option<usize> = if candidate > 0 && candidate <= 6200
                            && data[after + 2] == 0 && data[after + 3] == 0 && data[after + 4]
                            == 0 {
                            Some(after)
                        } else if candidate == 0 && t >= 5 && data[after] == 0 && data[after + 1]
                            == 0 && data[after + 2] == 0 {
                            Some(run_start + (t - 1) * 2)
                        } else {
                            None
                        };
                        if let Some(svbl_offset) = found {
                            assert(svbl_after_core(data@, offset as int, t as int, svbl_offset as int));
                            let mut seen = false;
                            let mut j: usize = 0;
                            while j < maps.len()
                                invariant
                                    j <= maps@.len(),
                                    seen == exists|q: int| 0 <= q < j && (#[trigger] maps@[q]).address == svbl_offset as u32,
                                decreases maps.len() - j,
                            {
                                if maps[j].address == svbl_offset as u32 {
                                    seen = true;
                                }
                                j += 1;
                            }
                            if !seen {
                                let mut map = scalar(
                                    svbl_offset as u32,
                                    "SVBL - Max Boost Pressure",
                                    "mbar",
                                    FIXED_ONE,
                                    1000,
                                );
                                map.category = Some(MapCategory::TurboBoostPressure.display_name());
                                map.offset = Some(0);
                                let ghost before = maps@;
                                maps.push(map);
                                assert forall|i: int, j: int| 0 <= i < j < maps@.len() implies (#[trigger] maps@[i]).address
                                    != (#[trigger] maps@[j]).address by {
                                    if j < before.len() {
                                        assert(maps@[i] == before[i] && maps@[j] == before[j]);
                                    } else {
                                        assert(maps@[i] == before[i]);
                                    }
                                }
                                assert forall|o: int|
                                    scan_start <= o < data_section(data@.len() as int).1 - 8
                                        && #[trigger] svbl_tail(s, o) implies exists|k: int|
                                        0 <= k < maps@.len() && maps@[k].address == o by {
                                    let k = choose|k: int| 0 <= k < before.len() && before[k].address == o;
                                    assert(maps@[k] == before[k]);
                                }
                            }
                        }
                    }
                }
            }
            offset += 1;
        }
        maps
    }
}

} // verus!
