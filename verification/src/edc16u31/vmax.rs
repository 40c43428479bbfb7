//! Maximum vehicle speed values, found by the fixed calibration structure
//! that surrounds them (hysteresis constants and disabled placeholders
//! survive tuning, so the values themselves are only loosely bounded).
use vstd::prelude::*;
use std::collections::HashSet;
use crate::bytes::{be16, bytes_at, matches_bytes, read_u16};
use crate::model::{DataType, DetectedMap, MapDimensions, has_text, text, FIXED_ONE};
use crate::text::{decimal, numbered};
use super::{EDC16U31Detector, data_section, get_data_section_range};

verus! {

broadcast use vstd::std_specs::hash::group_hash_axioms;

/// `a - b`, or 0 where that would be negative.
pub open spec fn sat_sub(a: int, b: int) -> int {
    if a >= b {
        a - b
    } else {
        0
    }
}

/// Zone 1: `01 F4 1B 58`, then speeds 4, 14 and 16 bytes after the marker.
pub open spec fn zone1_at(s: Seq<u8>, o: int, a: int) -> bool {
    &&& bytes_at(s, o, seq![0x01u8, 0xF4, 0x1B, 0x58])
    &&& (a == o + 4 || a == o + 14 || a == o + 16)
    &&& a + 2 <= s.len()
    &&& 15000 <= be16(s, a) <= 35000
}

/// Zone 2: `03 E8 00 00 00 00 [v] 00 00 2F FD 01 F4 [v]`.
pub open spec fn zone2_at(s: Seq<u8>, o: int, a: int) -> bool {
    &&& o + 16 <= s.len()
    &&& bytes_at(s, o, seq![0x03u8, 0xE8, 0x00, 0x00, 0x00, 0x00])
    &&& bytes_at(s, o + 8, seq![0x00u8, 0x00, 0x2F, 0xFD, 0x01, 0xF4])
    &&& (a == o + 6 || a == o + 14)
    &&& be16(s, a) >= 5000
}

/// Zone 4: `01 F4 7F FF [v] [v] 00 00 FF FE FF FF [v]`.
pub open spec fn zone4_at(s: Seq<u8>, o: int, a: int) -> bool {
    &&& o + 16 <= s.len()
    &&& bytes_at(s, o, seq![0x01u8, 0xF4, 0x7F, 0xFF])
    &&& bytes_at(s, o + 8, seq![0x00u8, 0x00, 0xFF, 0xFE, 0xFF, 0xFF])
    &&& (a == o + 4 || a == o + 6 || a == o + 14)
    &&& be16(s, a) >= 5000
}

/// Zone 4b: `7F FF 01 F4 7F FF [v] 7F FF 00 00 00 00 00 00 [v]`.
pub open spec fn duo_at(s: Seq<u8>, o: int, a: int) -> bool {
    &&& o + 18 <= s.len()
    &&& bytes_at(s, o, seq![0x7Fu8, 0xFF, 0x01, 0xF4, 0x7F, 0xFF])
    &&& bytes_at(s, o + 8, seq![0x7Fu8, 0xFF])
    &&& bytes_at(s, o + 10, seq![0x00u8, 0x00, 0x00, 0x00, 0x00, 0x00])
    &&& (a == o + 6 || a == o + 16)
    &&& be16(s, a) >= 5000
    &&& be16(s, a) != 0x7FFF
}

/// The fixed suffix that follows a single speed value in zone 5.
pub open spec fn single_suffix() -> Seq<u8> {
    seq![0x7Fu8, 0xFF, 0x00, 0xFA, 0x00, 0xFA, 0x03, 0x84, 0x01, 0xF4, 0x01, 0xF4, 0x01, 0xF4]
}

/// Zone 5: `[v]` directly before the fixed suffix.
pub open spec fn single_at(s: Seq<u8>, o: int, a: int) -> bool {
    &&& o >= 2
    &&& bytes_at(s, o, single_suffix())
    &&& a == o - 2
    &&& be16(s, a) >= 5000
    &&& be16(s, a) != 0x7FFF
}

/// Zone 3: a 0x5682 marker 10 or 6 bytes before `[v] 00 00 00 00 00 00 FF FF`.
pub open spec fn marker_at(s: Seq<u8>, o: int, a: int) -> bool {
    &&& o >= 14
    &&& o + 10 <= s.len()
    &&& (be16(s, o - 10) == 0x5682 || be16(s, o - 6) == 0x5682)
    &&& a == o
    &&& 15000 <= be16(s, o) <= 35000
    &&& be16(s, o + 2) == 0
    &&& be16(s, o + 4) == 0
    &&& be16(s, o + 6) == 0
    &&& be16(s, o + 8) == 0xFFFF
}

/// The end of the zone 3 scan.
pub open spec fn marker_end(len: int) -> int {
    let e = data_section(len).1;
    if e < 0x1F5000 {
        e
    } else {
        0x1F5000
    }
}

pub open spec fn in_zone1(s: Seq<u8>, a: int) -> bool {
    exists|o: int|
        0x1E0000 <= o < sat_sub(data_section(s.len() as int).1, 30) && #[trigger] zone1_at(s, o, a)
}

pub open spec fn in_zone2(s: Seq<u8>, a: int) -> bool {
    exists|o: int|
        0x1E0000 <= o < sat_sub(data_section(s.len() as int).1, 20) && #[trigger] zone2_at(s, o, a)
}

pub open spec fn in_zone4(s: Seq<u8>, a: int) -> bool {
    exists|o: int|
        0x1E0000 <= o < sat_sub(data_section(s.len() as int).1, 20) && #[trigger] zone4_at(s, o, a)
}

pub open spec fn in_duo(s: Seq<u8>, a: int) -> bool {
    exists|o: int|
        0x1C0000 <= o < sat_sub(data_section(s.len() as int).1, 20) && #[trigger] duo_at(s, o, a)
}

pub open spec fn in_single(s: Seq<u8>, a: int) -> bool {
    exists|o: int|
        0x1C0000 <= o < sat_sub(data_section(s.len() as int).1, 16) && #[trigger] single_at(s, o, a)
}

pub open spec fn in_marker(s: Seq<u8>, a: int) -> bool {
    exists|o: int| 0x1F3000 <= o < sat_sub(marker_end(s.len() as int), 20) && #[trigger] marker_at(s, o, a)
}

/// The word at `a` is a maximum speed, found with confidence `c` (thousandths).
pub open spec fn vmax_at(s: Seq<u8>, a: int, c: int) -> bool {
    ||| (c == 950 && in_zone1(s, a))
    ||| (c == 970 && in_zone2(s, a))
    ||| (c == 950 && in_zone4(s, a))
    ||| (c == 950 && in_duo(s, a))
    ||| (c == 930 && in_single(s, a))
    ||| (c == 900 && in_marker(s, a))
}

/// Every zone 2 block `03 E8 00 00 00 00 [v1] 00 00 2F FD 01 F4 [v2]` that
/// starts in the scanned range carries two speeds: the word 6 bytes in and
/// the word 14 bytes in are each a maximum speed (confidence 0.97) when it
/// is at least 5000, so both are reported unless taken before.
pub proof fn lemma_zone2_both_speeds(s: Seq<u8>, o: int, v1: u16, v2: u16)
    requires
        0x1E0000 <= o < sat_sub(data_section(s.len() as int).1, 20),
        o + 16 <= s.len(),
        s.subrange(o, o + 16) == seq![
            0x03u8, 0xE8, 0x00, 0x00, 0x00, 0x00, (v1 / 256) as u8, (v1 % 256) as u8,
            0x00, 0x00, 0x2F, 0xFD, 0x01, 0xF4, (v2 / 256) as u8, (v2 % 256) as u8,
        ],
    ensures
        v1 >= 5000 ==> vmax_at(s, o + 6, 970),
        v2 >= 5000 ==> vmax_at(s, o + 14, 970),
{
    let w = s.subrange(o, o + 16);
    assert forall|k: int| 0 <= k < 16 implies s[o + k] == w[k] by {}
    assert(bytes_at(s, o, seq![0x03u8, 0xE8, 0x00, 0x00, 0x00, 0x00])) by {
        assert forall|k: int| 0 <= k < 6 implies s[o + k] == seq![0x03u8, 0xE8, 0x00, 0x00, 0x00, 0x00][k] by {
            assert(s[o + k] == w[k]);
        }
    }
    assert(bytes_at(s, o + 8, seq![0x00u8, 0x00, 0x2F, 0xFD, 0x01, 0xF4])) by {
        assert forall|k: int| 0 <= k < 6 implies s[o + 8 + k] == seq![0x00u8, 0x00, 0x2F, 0xFD, 0x01, 0xF4][k] by {
            assert(s[o + 8 + k] == w[8 + k]);
        }
    }
    assert(s[o + 6] == w[6] && s[o + 7] == w[7] && s[o + 14] == w[14] && s[o + 15] == w[15]);
    assert(be16(s, o + 6) == v1);
    assert(be16(s, o + 14) == v2);
    if v1 >= 5000 {
        assert(zone2_at(s, o, o + 6));
    }
    if v2 >= 5000 {
        assert(zone2_at(s, o, o + 14));
    }
}

/// Every zone 1 marker `01 F4 1B 58` that starts in the scanned range is
/// followed by three speed slots, 4, 14 and 16 bytes after it: each word
/// there from 15000 to 35000 (inside the image) is a maximum speed.
pub proof fn lemma_zone1_three_speeds(s: Seq<u8>, o: int)
    requires
        0x1E0000 <= o < sat_sub(data_section(s.len() as int).1, 30),
        o + 4 <= s.len(),
        s.subrange(o, o + 4) == seq![0x01u8, 0xF4, 0x1B, 0x58],
    ensures
        forall|a: int|
            (a == o + 4 || a == o + 14 || a == o + 16) && a + 2 <= s.len() && 15000 <= #[trigger] be16(s, a)
                <= 35000 ==> vmax_at(s, a, 950),
{
    assert(bytes_at(s, o, seq![0x01u8, 0xF4, 0x1B, 0x58])) by {
        assert forall|k: int| 0 <= k < 4 implies s[o + k] == seq![0x01u8, 0xF4, 0x1B, 0x58][k] by {
            assert(s[o + k] == s.subrange(o, o + 4)[k]);
        }
    }
    assert forall|a: int|
        (a == o + 4 || a == o + 14 || a == o + 16) && a + 2 <= s.len() && 15000 <= #[trigger] be16(s, a) <= 35000
            implies vmax_at(s, a, 950) by {
        assert(zone1_at(s, o, a));
    }
}

/// Every zone 4 block `01 F4 7F FF [v1] [v2] 00 00 FF FE FF FF [v3]` that
/// starts in the scanned range carries three speeds: the words 4, 6 and 14
/// bytes in are each a maximum speed when at least 5000.
pub proof fn lemma_zone4_three_speeds(s: Seq<u8>, o: int, v1: u16, v2: u16, v3: u16)
    requires
        0x1E0000 <= o < sat_sub(data_section(s.len() as int).1, 20),
        o + 16 <= s.len(),
        s.subrange(o, o + 16) == seq![
            0x01u8, 0xF4, 0x7F, 0xFF, (v1 / 256) as u8, (v1 % 256) as u8, (v2 / 256) as u8, (v2 % 256) as u8,
            0x00, 0x00, 0xFF, 0xFE, 0xFF, 0xFF, (v3 / 256) as u8, (v3 % 256) as u8,
        ],
    ensures
        v1 >= 5000 ==> vmax_at(s, o + 4, 950),
        v2 >= 5000 ==> vmax_at(s, o + 6, 950),
        v3 >= 5000 ==> vmax_at(s, o + 14, 950),
{
    let w = s.subrange(o, o + 16);
    assert(bytes_at(s, o, seq![0x01u8, 0xF4, 0x7F, 0xFF])) by {
        assert forall|k: int| 0 <= k < 4 implies s[o + k] == seq![0x01u8, 0xF4, 0x7F, 0xFF][k] by {
            assert(s[o + k] == w[k]);
        }
    }
    assert(bytes_at(s, o + 8, seq![0x00u8, 0x00, 0xFF, 0xFE, 0xFF, 0xFF])) by {
        assert forall|k: int| 0 <= k < 6 implies s[o + 8 + k] == seq![0x00u8, 0x00, 0xFF, 0xFE, 0xFF, 0xFF][k] by {
            assert(s[o + 8 + k] == w[8 + k]);
        }
    }
    assert(s[o + 4] == w[4] && s[o + 5] == w[5] && s[o + 6] == w[6] && s[o + 7] == w[7]);
    assert(s[o + 14] == w[14] && s[o + 15] == w[15]);
    assert(be16(s, o + 4) == v1);
    assert(be16(s, o + 6) == v2);
    assert(be16(s, o + 14) == v3);
    if v1 >= 5000 {
        assert(zone4_at(s, o, o + 4));
    }
    if v2 >= 5000 {
        assert(zone4_at(s, o, o + 6));
    }
    if v3 >= 5000 {
        assert(zone4_at(s, o, o + 14));
    }
}

/// Every zone 4b block `7F FF 01 F4 7F FF [v1] 7F FF 00 00 00 00 00 00 [v2]`
/// that starts in the scanned range carries two speeds: the words 6 and 16
/// bytes in are each a maximum speed when at least 5000 and not the 0x7FFF
/// placeholder.
pub proof fn lemma_duo_two_speeds(s: Seq<u8>, o: int, v1: u16, v2: u16)
    requires
        0x1C0000 <= o < sat_sub(data_section(s.len() as int).1, 20),
        o + 18 <= s.len(),
        s.subrange(o, o + 18) == seq![
            0x7Fu8, 0xFF, 0x01, 0xF4, 0x7F, 0xFF, (v1 / 256) as u8, (v1 % 256) as u8, 0x7F, 0xFF,
            0x00, 0x00, 0x00, 0x00, 0x00, 0x00, (v2 / 256) as u8, (v2 % 256) as u8,
        ],
    ensures
        v1 >= 5000 && v1 != 0x7FFF ==> vmax_at(s, o + 6, 950),
        v2 >= 5000 && v2 != 0x7FFF ==> vmax_at(s, o + 16, 950),
{
    let w = s.subrange(o, o + 18);
    assert(bytes_at(s, o, seq![0x7Fu8, 0xFF, 0x01, 0xF4, 0x7F, 0xFF])) by {
        assert forall|k: int| 0 <= k < 6 implies s[o + k] == seq![0x7Fu8, 0xFF, 0x01, 0xF4, 0x7F, 0xFF][k] by {
            assert(s[o + k] == w[k]);
        }
    }
    assert(bytes_at(s, o + 8, seq![0x7Fu8, 0xFF])) by {
        assert forall|k: int| 0 <= k < 2 implies s[o + 8 + k] == seq![0x7Fu8, 0xFF][k] by {
            assert(s[o + 8 + k] == w[8 + k]);
        }
    }
    assert(bytes_at(s, o + 10, seq![0x00u8, 0x00, 0x00, 0x00, 0x00, 0x00])) by {
        assert forall|k: int| 0 <= k < 6 implies s[o + 10 + k] == seq![0x00u8, 0x00, 0x00, 0x00, 0x00, 0x00][k] by {
            assert(s[o + 10 + k] == w[10 + k]);
        }
    }
    assert(s[o + 6] == w[6] && s[o + 7] == w[7] && s[o + 16] == w[16] && s[o + 17] == w[17]);
    assert(be16(s, o + 6) == v1);
    assert(be16(s, o + 16) == v2);
    if v1 >= 5000 && v1 != 0x7FFF {
        assert(duo_at(s, o, o + 6));
    }
    if v2 >= 5000 && v2 != 0x7FFF {
        assert(duo_at(s, o, o + 16));
    }
}

/// The speed map numbered `n`.
pub open spec fn vmax_map(m: DetectedMap, n: nat) -> bool {
    &&& m.size == 2
    &&& m.dimensions == MapDimensions::OneDimensional { length: 1 }
    &&& m.data_type == DataType::Int16
    &&& has_text(m.name, "Maximum Vehicle Speed "@ + decimal(n))
    &&& has_text(m.category, "Maximum Vehicle Speed"@)
    &&& has_text(m.unit, "km/h"@)
    &&& m.correction_factor == Some(10_000_000_000i64)
    &&& m.offset is None
}

/// `a` is the address of an entry of `f`.
pub open spec fn listed(f: Seq<(u32, u32)>, a: u32) -> bool {
    exists|k: int| 0 <= k < f.len() && (#[trigger] f[k]).0 == a
}

/// The entries of `f` are in strictly increasing address order.
pub open spec fn by_address(f: Seq<(u32, u32)>) -> bool {
    forall|i: int, j: int| 0 <= i < j < f.len() ==> (#[trigger] f[i]).0 < (#[trigger] f[j]).0
}

/// Every entry of `f` is a speed with its confidence, not detected before.
pub open spec fn entries_ok(s: Seq<u8>, d: Set<u32>, f: Seq<(u32, u32)>) -> bool {
    forall|k: int|
        0 <= k < f.len() ==> vmax_at(s, (#[trigger] f[k]).0 as int, f[k].1 as int) && !d.contains(
            f[k].0,
        )
}

/// Adds the speed at `a` to the address-ordered list, unless it is listed
/// already or belongs to a map detected before.
fn add_speed(
    found: &mut Vec<(u32, u32)>,
    detected: &HashSet<u32>,
    a: u32,
    c: u32,
    Ghost(s): Ghost<Seq<u8>>,
)
    requires
        by_address(old(found)@),
        entries_ok(s, detected@, old(found)@),
        vmax_at(s, a as int, c as int),
    ensures
        by_address(final(found)@),
        entries_ok(s, detected@, final(found)@),
        forall|x: u32|
            listed(final(found)@, x) <==> (listed(old(found)@, x) || (x == a && !detected@.contains(
                a,
            ))),
{
    if detected.contains(&a) {
        return ;
    }
    let mut p: usize = 0;
    while p < found.len() && found[p].0 < a
        invariant
            p <= found@.len(),
            forall|j: int| 0 <= j < p ==> (#[trigger] found@[j]).0 < a,
        decreases found.len() - p,
    {
        p += 1;
    }
    if p < found.len() && found[p].0 == a {
        return ;
    }
    let ghost before = found@;
    found.insert(p, (a, c));
    proof {
        assert(found@ == before.insert(p as int, (a, c)));
        assert forall|i: int, j: int| 0 <= i < j < found@.len() implies (#[trigger] found@[i]).0 < (
        #[trigger] found@[j]).0 by {
            if j < p {
            } else if i < p && j == p {
            } else if i < p {
                assert(found@[j] == before[j - 1]);
                assert(before[p as int].0 > a);
            } else if i == p {
                assert(found@[j] == before[j - 1]);
                assert(before[p as int].0 > a);
            } else {
                assert(found@[i] == before[i - 1]);
                assert(found@[j] == before[j - 1]);
            }
        }
        assert forall|k: int| 0 <= k < found@.len() implies vmax_at(
            s,
            (#[trigger] found@[k]).0 as int,
            found@[k].1 as int,
        ) && !detected@.contains(found@[k].0) by {
            if k < p {
                assert(found@[k] == before[k]);
            } else if k > p {
                assert(found@[k] == before[k - 1]);
            }
        }
        assert(before == old(found)@);
        assert forall|x: u32|
            #[trigger] listed(found@, x) <==> (listed(before, x) || (x == a && !detected@.contains(a))) by {
            if listed(before, x) {
                let k = choose|k: int| 0 <= k < before.len() && (#[trigger] before[k]).0 == x;
                if k < p {
                    assert(found@[k] == before[k]);
                } else {
                    assert(found@[k + 1] == before[k]);
                }
            }
            if x == a {
                assert(found@[p as int].0 == a);
            }
            if listed(found@, x) {
                let k = choose|k: int| 0 <= k < found@.len() && (#[trigger] found@[k]).0 == x;
                if k < p {
                    assert(found@[k] == before[k]);
                } else if k > p {
                    assert(found@[k] == before[k - 1]);
                }
            }
        }
    }
}

/// Zone 1 of the speed scan.
fn speeds_zone1(data: &[u8], found: &mut Vec<(u32, u32)>, detected: &HashSet<u32>)
    requires
        data@.len() <= u32::MAX,
        by_address(old(found)@),
        entries_ok(data@, detected@, old(found)@),
    ensures
        by_address(final(found)@),
        entries_ok(data@, detected@, final(found)@),
        forall|x: u32| listed(old(found)@, x) ==> listed(final(found)@, x),
        forall|a: u32| in_zone1(data@, a as int) && !detected@.contains(a) ==> listed(final(found)@, a),
{
    let ghost s = data@;
    let (_start, end) = get_data_section_range(data.len());
    let hi = if end >= 30 { end - 30 } else { 0 };
    let pat: [u8; 4] = [0x01, 0xF4, 0x1B, 0x58];
    assert(pat@ =~= seq![0x01u8, 0xF4, 0x1B, 0x58]);
    let ghost first = found@;
    let mut offset: usize = 0x1E0000;
    while offset < hi
        invariant
            s == data@,
            data@.len() <= u32::MAX,
            hi == sat_sub(data_section(s.len() as int).1, 30),
            hi == 0 || hi + 30 <= s.len(),
            0x1E0000 <= offset,
            pat@ == seq![0x01u8, 0xF4, 0x1B, 0x58],
            by_address(found@),
            entries_ok(s, detected@, found@),
            forall|x: u32| listed(first, x) ==> listed(found@, x),
            forall|o: int, a: u32|
                0x1E0000 <= o < offset && #[trigger] zone1_at(s, o, a as int) && !detected@.contains(a)
                    ==> listed(found@, a),
        decreases hi - offset,
    {
        if matches_bytes(data, offset, &pat) {
            let ghost at_start = found@;
            let addrs: [usize; 3] = [offset + 4, offset + 14, offset + 16];
            let mut t: usize = 0;
            while t < 3
                invariant
                    s == data@,
                    data@.len() <= u32::MAX,
                    0x1E0000 <= offset < hi,
                    hi == sat_sub(data_section(s.len() as int).1, 30),
                    hi + 30 <= s.len(),
                    bytes_at(s, offset as int, seq![0x01u8, 0xF4, 0x1B, 0x58]),
                    addrs@ == seq![(offset + 4) as usize, (offset + 14) as usize, (offset + 16) as usize],
                    t <= 3,
                    by_address(found@),
                    entries_ok(s, detected@, found@),
                    forall|x: u32| listed(at_start, x) ==> listed(found@, x),
                    forall|i: int|
                        0 <= i < t && zone1_at(s, offset as int, #[trigger] addrs@[i] as int)
                            && !detected@.contains(addrs@[i] as u32) ==> listed(
                            found@,
                            addrs@[i] as u32,
                        ),
                decreases 3 - t,
            {
                let a = addrs[t];
                if a + 2 <= data.len() {
                    let v = read_u16(data, a);
                    if 15000 <= v && v <= 35000 {
                        assert(zone1_at(s, offset as int, a as int));
                        assert(in_zone1(s, a as int));
                        add_speed(found, detected, a as u32, 950, Ghost(s));
                    }
                }
                t += 1;
            }
            assert forall|o: int, a: u32|
                0x1E0000 <= o < offset + 1 && #[trigger] zone1_at(s, o, a as int)
                    && !detected@.contains(a) implies listed(found@, a) by {
                if o == offset {
                    if a == offset + 4 {
                        assert(addrs@[0] == a);
                    } else if a == offset + 14 {
                        assert(addrs@[1] == a);
                    } else {
                        assert(addrs@[2] == a);
                    }
                }
            }
        }
        offset += 1;
    }
}

/// Zone 2 of the speed scan.
fn speeds_zone2(data: &[u8], found: &mut Vec<(u32, u32)>, detected: &HashSet<u32>)
    requires
        data@.len() <= u32::MAX,
        by_address(old(found)@),
        entries_ok(data@, detected@, old(found)@),
    ensures
        by_address(final(found)@),
        entries_ok(data@, detected@, final(found)@),
        forall|x: u32| listed(old(found)@, x) ==> listed(final(found)@, x),
        forall|a: u32| in_zone2(data@, a as int) && !detected@.contains(a) ==> listed(final(found)@, a),
{
    let ghost s = data@;
    let (_start, end) = get_data_section_range(data.len());
    let hi = if end >= 20 { end - 20 } else { 0 };
    let pat: [u8; 6] = [0x03, 0xE8, 0x00, 0x00, 0x00, 0x00];
    let inner: [u8; 6] = [0x00, 0x00, 0x2F, 0xFD, 0x01, 0xF4];
    assert(pat@ =~= seq![0x03u8, 0xE8, 0x00, 0x00, 0x00, 0x00]);
    assert(inner@ =~= seq![0x00u8, 0x00, 0x2F, 0xFD, 0x01, 0xF4]);
    let ghost first = found@;
    let mut offset: usize = 0x1E0000;
    while offset < hi
        invariant
            s == data@,
            data@.len() <= u32::MAX,
            hi == sat_sub(data_section(s.len() as int).1, 20),
            hi == 0 || hi + 20 <= s.len(),
            0x1E0000 <= offset,
            pat@ == seq![0x03u8, 0xE8, 0x00, 0x00, 0x00, 0x00],
            inner@ == seq![0x00u8, 0x00, 0x2F, 0xFD, 0x01, 0xF4],
            by_address(found@),
            entries_ok(s, detected@, found@),
            forall|x: u32| listed(first, x) ==> listed(found@, x),
            forall|o: int, a: u32|
                0x1E0000 <= o < offset && #[trigger] zone2_at(s, o, a as int) && !detected@.contains(a)
                    ==> listed(found@, a),
        decreases hi - offset,
    {
        if offset + 16 <= data.len() && matches_bytes(data, offset, &pat) && matches_bytes(
            data,
            offset + 8,
            &inner,
        ) {
            let ghost at_start = found@;
            let a1 = offset + 6;
            let v1 = read_u16(data, a1);
            if v1 >= 5000 {
                assert(zone2_at(s, offset as int, a1 as int));
                assert(in_zone2(s, a1 as int));
                add_speed(found, detected, a1 as u32, 970, Ghost(s));
            }
            let a2 = offset + 14;
            let v2 = read_u16(data, a2);
            if v2 >= 5000 {
                assert(zone2_at(s, offset as int, a2 as int));
                assert(in_zone2(s, a2 as int));
                add_speed(found, detected, a2 as u32, 970, Ghost(s));
            }
            assert(forall|x: u32| listed(at_start, x) ==> listed(found@, x));
        }
        offset += 1;
    }
}

/// Zone 4 of the speed scan.
fn speeds_zone4(data: &[u8], found: &mut Vec<(u32, u32)>, detected: &HashSet<u32>)
    requires
        data@.len() <= u32::MAX,
        by_address(old(found)@),
        entries_ok(data@, detected@, old(found)@),
    ensures
        by_address(final(found)@),
        entries_ok(data@, detected@, final(found)@),
        forall|x: u32| listed(old(found)@, x) ==> listed(final(found)@, x),
        forall|a: u32| in_zone4(data@, a as int) && !detected@.contains(a) ==> listed(final(found)@, a),
{
    let ghost s = data@;
    let (_start, end) = get_data_section_range(data.len());
    let hi = if end >= 20 { end - 20 } else { 0 };
    let pat: [u8; 4] = [0x01, 0xF4, 0x7F, 0xFF];
    let inner: [u8; 6] = [0x00, 0x00, 0xFF, 0xFE, 0xFF, 0xFF];
    assert(pat@ =~= seq![0x01u8, 0xF4, 0x7F, 0xFF]);
    assert(inner@ =~= seq![0x00u8, 0x00, 0xFF, 0xFE, 0xFF, 0xFF]);
    let ghost first = found@;
    let mut offset: usize = 0x1E0000;
    while offset < hi
        invariant
            s == data@,
            data@.len() <= u32::MAX,
            hi == sat_sub(data_section(s.len() as int).1, 20),
            hi == 0 || hi + 20 <= s.len(),
            0x1E0000 <= offset,
            pat@ == seq![0x01u8, 0xF4, 0x7F, 0xFF],
            inner@ == seq![0x00u8, 0x00, 0xFF, 0xFE, 0xFF, 0xFF],
            by_address(found@),
            entries_ok(s, detected@, found@),
            forall|x: u32| listed(first, x) ==> listed(found@, x),
            forall|o: int, a: u32|
                0x1E0000 <= o < offset && #[trigger] zone4_at(s, o, a as int) && !detected@.contains(a)
                    ==> listed(found@, a),
        decreases hi - offset,
    {
        if offset + 16 <= data.len() && matches_bytes(data, offset, &pat) && matches_bytes(
            data,
            offset + 8,
            &inner,
        ) {
            let ghost at_start = found@;
            let addrs: [usize; 3] = [offset + 4, offset + 6, offset + 14];
            let mut t: usize = 0;
            while t < 3
                invariant
                    s == data@,
                    data@.len() <= u32::MAX,
                    0x1E0000 <= offset < hi,
                    hi == sat_sub(data_section(s.len() as int).1, 20),
                    hi + 20 <= s.len(),
                    offset + 16 <= s.len(),
                    bytes_at(s, offset as int, seq![0x01u8, 0xF4, 0x7F, 0xFF]),
                    bytes_at(s, offset + 8, seq![0x00u8, 0x00, 0xFF, 0xFE, 0xFF, 0xFF]),
                    addrs@ == seq![(offset + 4) as usize, (offset + 6) as usize, (offset + 14) as usize],
                    t <= 3,
                    by_address(found@),
                    entries_ok(s, detected@, found@),
                    forall|x: u32| listed(at_start, x) ==> listed(found@, x),
                    forall|i: int|
                        0 <= i < t && zone4_at(s, offset as int, #[trigger] addrs@[i] as int)
                            && !detected@.contains(addrs@[i] as u32) ==> listed(
                            found@,
                            addrs@[i] as u32,
                        ),
                decreases 3 - t,
            {
                let a = addrs[t];
                let v = read_u16(data, a);
                if v >= 5000 {
                    assert(zone4_at(s, offset as int, a as int));
                    assert(in_zone4(s, a as int));
                    add_speed(found, detected, a as u32, 950, Ghost(s));
                }
                t += 1;
            }
            assert forall|o: int, a: u32|
                0x1E0000 <= o < offset + 1 && #[trigger] zone4_at(s, o, a as int)
                    && !detected@.contains(a) implies listed(found@, a) by {
                if o == offset {
                    if a == offset + 4 {
                        assert(addrs@[0] == a);
                    } else if a == offset + 6 {
                        assert(addrs@[1] == a);
                    } else {
                        assert(addrs@[2] == a);
                    }
                }
            }
        }
        offset += 1;
    }
}

/// Zone 4b of the speed scan.
fn speeds_duo(data: &[u8], found: &mut Vec<(u32, u32)>, detected: &HashSet<u32>)
    requires
        data@.len() <= u32::MAX,
        by_address(old(found)@),
        entries_ok(data@, detected@, old(found)@),
    ensures
        by_address(final(found)@),
        entries_ok(data@, detected@, final(found)@),
        forall|x: u32| listed(old(found)@, x) ==> listed(final(found)@, x),
        forall|a: u32| in_duo(data@, a as int) && !detected@.contains(a) ==> listed(final(found)@, a),
{
    let ghost s = data@;
    let (_start, end) = get_data_section_range(data.len());
    let hi = if end >= 20 { end - 20 } else { 0 };
    let sig: [u8; 6] = [0x7F, 0xFF, 0x01, 0xF4, 0x7F, 0xFF];
    let mid: [u8; 2] = [0x7F, 0xFF];
    let zeros: [u8; 6] = [0x00, 0x00, 0x00, 0x00, 0x00, 0x00];
    assert(sig@ =~= seq![0x7Fu8, 0xFF, 0x01, 0xF4, 0x7F, 0xFF]);
    assert(mid@ =~= seq![0x7Fu8, 0xFF]);
    assert(zeros@ =~= seq![0x00u8, 0x00, 0x00, 0x00, 0x00, 0x00]);
    let ghost first = found@;
    let mut offset: usize = 0x1C0000;
    while offset < hi
        invariant
            s == data@,
            data@.len() <= u32::MAX,
            hi == sat_sub(data_section(s.len() as int).1, 20),
            hi == 0 || hi + 20 <= s.len(),
            0x1C0000 <= offset,
            sig@ == seq![0x7Fu8, 0xFF, 0x01, 0xF4, 0x7F, 0xFF],
            mid@ == seq![0x7Fu8, 0xFF],
            zeros@ == seq![0x00u8, 0x00, 0x00, 0x00, 0x00, 0x00],
            by_address(found@),
            entries_ok(s, detected@, found@),
            forall|x: u32| listed(first, x) ==> listed(found@, x),
            forall|o: int, a: u32|
                0x1C0000 <= o < offset && #[trigger] duo_at(s, o, a as int) && !detected@.contains(a)
                    ==> listed(found@, a),
        decreases hi - offset,
    {
        if offset + 18 <= data.len() && matches_bytes(data, offset, &sig) && matches_bytes(
            data,
            offset + 8,
            &mid,
        ) && matches_bytes(data, offset + 10, &zeros) {
            let ghost at_start = found@;
            let a1 = offset + 6;
            let v1 = read_u16(data, a1);
            if v1 >= 5000 && v1 != 0x7FFF {
                assert(duo_at(s, offset as int, a1 as int));
                assert(in_duo(s, a1 as int));
                add_speed(found, detected, a1 as u32, 950, Ghost(s));
            }
            let a2 = offset + 16;
            let v2 = read_u16(data, a2);
            if v2 >= 5000 && v2 != 0x7FFF {
                assert(duo_at(s, offset as int, a2 as int));
                assert(in_duo(s, a2 as int));
                add_speed(found, detected, a2 as u32, 950, Ghost(s));
            }
            assert(forall|x: u32| listed(at_start, x) ==> listed(found@, x));
        }
        offset += 1;
    }
}

/// Zone 5 of the speed scan.
fn speeds_single(data: &[u8], found: &mut Vec<(u32, u32)>, detected: &HashSet<u32>)
    requires
        data@.len() <= u32::MAX,
        by_address(old(found)@),
        entries_ok(data@, detected@, old(found)@),
    ensures
        by_address(final(found)@),
        entries_ok(data@, detected@, final(found)@),
        forall|x: u32| listed(old(found)@, x) ==> listed(final(found)@, x),
        forall|a: u32| in_single(data@, a as int) && !detected@.contains(a) ==> listed(final(found)@, a),
{
    let ghost s = data@;
    let (_start, end) = get_data_section_range(data.len());
    let hi = if end >= 16 { end - 16 } else { 0 };
    let suffix: [u8; 14] = [
        0x7F, 0xFF, 0x00, 0xFA, 0x00, 0xFA, 0x03, 0x84, 0x01, 0xF4, 0x01, 0xF4, 0x01, 0xF4,
    ];
    assert(suffix@ =~= single_suffix());
    let ghost first = found@;
    let mut offset: usize = 0x1C0000;
    while offset < hi
        invariant
            s == data@,
            data@.len() <= u32::MAX,
            hi == sat_sub(data_section(s.len() as int).1, 16),
            hi == 0 || hi + 16 <= s.len(),
            0x1C0000 <= offset,
            suffix@ == single_suffix(),
            by_address(found@),
            entries_ok(s, detected@, found@),
            forall|x: u32| listed(first, x) ==> listed(found@, x),
            forall|o: int, a: u32|
                0x1C0000 <= o < offset && #[trigger] single_at(s, o, a as int) && !detected@.contains(a)
                    ==> listed(found@, a),
        decreases hi - offset,
    {
        if offset >= 2 && matches_bytes(data, offset, &suffix) {
            let a = offset - 2;
            let v = read_u16(data, a);
            if v >= 5000 && v != 0x7FFF {
                assert(single_at(s, offset as int, a as int));
                assert(in_single(s, a as int));
                add_speed(found, detected, a as u32, 930, Ghost(s));
            }
        }
        offset += 1;
    }
}

/// Zone 3 of the speed scan.
fn speeds_marker(data: &[u8], found: &mut Vec<(u32, u32)>, detected: &HashSet<u32>)
    requires
        data@.len() <= u32::MAX,
        by_address(old(found)@),
        entries_ok(data@, detected@, old(found)@),
    ensures
        by_address(final(found)@),
        entries_ok(data@, detected@, final(found)@),
        forall|x: u32| listed(old(found)@, x) ==> listed(final(found)@, x),
        forall|a: u32| in_marker(data@, a as int) && !detected@.contains(a) ==> listed(final(found)@, a),
{
    let ghost s = data@;
    let (_start, scan_end) = get_data_section_range(data.len());
    let end = if scan_end < 0x1F5000 { scan_end } else { 0x1F5000 };
    let hi = if end >= 20 { end - 20 } else { 0 };
    let ghost first = found@;
    let mut offset: usize = 0x1F3000;
    while offset < hi
        invariant
            s == data@,
            data@.len() <= u32::MAX,
            hi == sat_sub(marker_end(s.len() as int), 20),
            hi == 0 || hi + 20 <= s.len(),
            0x1F3000 <= offset,
            by_address(found@),
            entries_ok(s, detected@, found@),
            forall|x: u32| listed(first, x) ==> listed(found@, x),
            forall|o: int, a: u32|
                0x1F3000 <= o < offset && #[trigger] marker_at(s, o, a as int) && !detected@.contains(a)
                    ==> listed(found@, a),
        decreases hi - offset,
    {
        let m1 = read_u16(data, offset - 10);
        let m2 = read_u16(data, offset - 6);
        if m1 == 0x5682 || m2 == 0x5682 {
            let v = read_u16(data, offset);
            if 15000 <= v && v <= 35000 && read_u16(data, offset + 2) == 0 && read_u16(
                data,
                offset + 4,
            ) == 0 && read_u16(data, offset + 6) == 0 && read_u16(data, offset + 8) == 0xFFFF {
                assert(marker_at(s, offset as int, offset as int));
                assert(in_marker(s, offset as int));
                add_speed(found, detected, offset as u32, 900, Ghost(s));
            }
        }
        offset += 1;
    }
}

impl EDC16U31Detector {
    /// The maximum vehicle speed values (km/h x 100), in address order and
    /// numbered from 1, leaving out the addresses of maps detected before.
    pub fn detect_maximum_vehicle_speed(&self, data: &[u8], detected_addresses: &HashSet<u32>) -> (r:
        Vec<DetectedMap>)
        requires
            data@.len() <= u32::MAX,
        ensures
            forall|i: int, j: int|
                0 <= i < j < r@.len() ==> (#[trigger] r@[i]).address < (#[trigger] r@[j]).address,
            forall|k: int|
                0 <= k < r@.len() ==> {
                    &&& vmax_at(data@, (#[trigger] r@[k]).address as int, r@[k].confidence as int)
                    &&& !detected_addresses@.contains(r@[k].address)
                    &&& vmax_map(r@[k], (k + 1) as nat)
                },
            forall|a: u32, c: int|
                vmax_at(data@, a as int, c) && !detected_addresses@.contains(a) ==> exists|k: int|
                    0 <= k < r@.len() && (#[trigger] r@[k]).address == a,
    {
        let ghost s = data@;
        let mut found: Vec<(u32, u32)> = Vec::new();
        speeds_zone1(data, &mut found, detected_addresses);
        speeds_zone2(data, &mut found, detected_addresses);
        speeds_zone4(data, &mut found, detected_addresses);
        speeds_duo(data, &mut found, detected_addresses);
        speeds_single(data, &mut found, detected_addresses);
        speeds_marker(data, &mut found, detected_addresses);
        let mut maps: Vec<DetectedMap> = Vec::new();
        let mut i: usize = 0;
        while i < found.len()
            invariant
                s == data@,
                i <= found@.len(),
                maps@.len() == i,
                by_address(found@),
                entries_ok(s, detected_addresses@, found@),
                forall|k: int|
                    0 <= k < i ==> (#[trigger] maps@[k]).address == found@[k].0 && maps@[k].confidence
                        == found@[k].1 && vmax_map(maps@[k], (k + 1) as nat),
            decreases found.len() - i,
        {
            let (a, c) = found[i];
            let mut m = DetectedMap::new(a, 2, MapDimensions::OneDimensional { length: 1 }, DataType::Int16);
            m.name = Some(numbered("Maximum Vehicle Speed ", (i + 1) as u64));
            m.category = Some(text("Maximum Vehicle Speed"));
            m.unit = Some(text("km/h"));
            m.correction_factor = Some(10_000_000_000);
            m.confidence = c;
            maps.push(m);
            i += 1;
        }
        proof {
            assert forall|a: u32, c: int|
                vmax_at(s, a as int, c) && !detected_addresses@.contains(a) implies exists|k: int|
                    0 <= k < maps@.len() && (#[trigger] maps@[k]).address == a by {
                assert(listed(found@, a));
                let k = choose|k: int| 0 <= k < found@.len() && (#[trigger] found@[k]).0 == a;
                assert(maps@[k].address == a);
            }
        }
        maps
    }
}

} // verus!
