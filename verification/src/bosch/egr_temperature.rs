//! The EGR temperature compensation map of the EDC15 (little-endian data).
//!
//! The map is announced by a header of two axes: `[id] 05 00` then five
//! engine speeds, `[xx] C1 06 00` then six temperatures (kelvin x 10), and
//! the 5 x 6 map follows at 30 bytes from the header.
use vstd::prelude::*;
use std::collections::HashSet;
use crate::bytes::{le16, le16_seq, read_u16_le, read_words_le};
use crate::model::{DataType, DetectedMap, MapDimensions, has_text, text, FIXED_ONE};
use crate::words::{all_between, all_in, is_strictly_increasing, strictly_increasing};
use super::drop_addresses;

verus! {

broadcast use vstd::std_specs::hash::group_hash_axioms;

/// A header of the EGR temperature map starts at `sig`.
pub open spec fn egr_temp_at(s: Seq<u8>, sig: int) -> bool {
    let y = le16_seq(s, sig + 4, 5);
    let x = le16_seq(s, sig + 18, 6);
    &&& 0 <= sig
    &&& sig + 90 <= s.len()
    &&& (s[sig + 1] == 0xEC || s[sig + 1] == 0xEA || s[sig + 1] == 0xDA || s[sig + 1] == 0xC0)
    &&& le16(s, sig + 2) == 5
    &&& y[0] <= 1500
    &&& strictly_increasing(y)
    &&& all_between(y, 0, 6500)
    &&& s[sig + 15] == 0xC1
    &&& le16(s, sig + 16) == 6
    &&& strictly_increasing(x)
    &&& x[0] >= 1500
    &&& x[5] <= 5000
    &&& x[5] - x[0] >= 100
}

/// The Y-axis identifier of the header may be any of 0xEC, 0xEA, 0xDA and
/// 0xC0: two images that differ only in that byte, each holding one of the
/// four, have a header at `sig` alike, and one holding another value has
/// none there.
pub proof fn lemma_egr_axis_ids(s: Seq<u8>, t: Seq<u8>, sig: int)
    requires
        s.len() == t.len(),
        0 <= sig,
        sig + 1 < s.len(),
        forall|i: int| 0 <= i < s.len() && i != sig + 1 ==> s[i] == t[i],
        s[sig + 1] == 0xEC || s[sig + 1] == 0xEA || s[sig + 1] == 0xDA || s[sig + 1] == 0xC0,
    ensures
        (t[sig + 1] == 0xEC || t[sig + 1] == 0xEA || t[sig + 1] == 0xDA || t[sig + 1] == 0xC0) ==> (
        egr_temp_at(s, sig) <==> egr_temp_at(t, sig)),
        !(t[sig + 1] == 0xEC || t[sig + 1] == 0xEA || t[sig + 1] == 0xDA || t[sig + 1] == 0xC0)
            ==> !egr_temp_at(t, sig),
{
    if sig + 90 <= s.len() {
        assert(le16_seq(s, sig + 4, 5) =~= le16_seq(t, sig + 4, 5));
        assert(le16_seq(s, sig + 18, 6) =~= le16_seq(t, sig + 18, 6));
        assert(le16(s, sig + 2) == le16(t, sig + 2));
        assert(le16(s, sig + 16) == le16(t, sig + 16));
    }
}

/// The end of the header positions that are scanned: every position whose
/// map ends inside the image.
pub open spec fn egr_scan_end(len: int) -> int {
    if len >= 90 {
        len - 89
    } else {
        0
    }
}

/// `a` is the address of an EGR temperature map of the image.
pub open spec fn egr_map_address(s: Seq<u8>, a: u32) -> bool {
    a >= 30 && a - 30 < egr_scan_end(s.len() as int) && egr_temp_at(s, a - 30)
}

/// The EGR temperature map described by the header at `sig`.
pub open spec fn egr_temp_map(m: DetectedMap, sig: int) -> bool {
    &&& m.address == sig + 30
    &&& m.size == 60
    &&& m.dimensions == MapDimensions::TwoDimensional { rows: 5, cols: 6 }
    &&& m.data_type == DataType::UInt16
    &&& has_text(m.name, "EGR temperature map"@)
    &&& has_text(m.category, "EGR"@)
    &&& has_text(m.subcategory, "EGR"@)
    &&& m.correction_factor == Some(FIXED_ONE)
    &&& m.offset is None
    &&& m.unit is None
    &&& m.x_axis_address == Some((sig + 18) as u32)
    &&& m.y_axis_address == Some((sig + 4) as u32)
    &&& m.x_axis_correction == Some(100_000_000_000i64)
    &&& m.x_axis_offset == Some(-273_000_000_000_000i64)
    &&& m.y_axis_correction == Some(FIXED_ONE)
    &&& m.y_axis_offset is None
    &&& has_text(m.x_label, "Temperature (°C)"@)
    &&& has_text(m.y_label, "Engine speed (rpm)"@)
    &&& m.y_axis_inverted == Some(true)
    &&& m.is_little_endian is None
    &&& has_text(
        m.description,
        "EGR compensation by temperature | X: Temperature (°C) | Y: Engine speed (rpm)"@,
    )
    &&& m.confidence == 950
}

/// The maps of `maps` that are not at an EGR temperature map address.
pub open spec fn outside_egr(s: Seq<u8>, maps: Seq<DetectedMap>) -> Seq<DetectedMap> {
    maps.filter(|m: DetectedMap| !egr_map_address(s, m.address))
}

/// Whether the header of an EGR temperature map starts at `sig`.
pub fn matches_at(data: &[u8], sig: usize) -> (r: bool)
    ensures
        r == egr_temp_at(data@, sig as int),
{
    if sig > data.len() || data.len() - sig < 90 {
        return false;
    }
    let hi = data[sig + 1];
    if !(hi == 0xEC || hi == 0xEA || hi == 0xDA || hi == 0xC0) {
        return false;
    }
    if read_u16_le(data, sig + 2) != 5 {
        return false;
    }
    let y = read_words_le(data, sig + 4, 5);
    if y[0] > 1500 || !is_strictly_increasing(y.as_slice()) || !all_in(y.as_slice(), 0, 6500) {
        return false;
    }
    if data[sig + 15] != 0xC1 || read_u16_le(data, sig + 16) != 6 {
        return false;
    }
    let x = read_words_le(data, sig + 18, 6);
    if !is_strictly_increasing(x.as_slice()) {
        return false;
    }
    if x[0] < 1500 || x[5] > 5000 || (x[5] as u32) < (x[0] as u32) + 100 {
        return false;
    }
    true
}

fn egr_map(sig: usize) -> (m: DetectedMap)
    requires
        sig + 90 <= u32::MAX,
    ensures
        egr_temp_map(m, sig as int),
{
    let mut map = DetectedMap::new(
        (sig + 30) as u32,
        60,
        MapDimensions::TwoDimensional { rows: 5, cols: 6 },
        DataType::UInt16,
    );
    map.name = Some(text("EGR temperature map"));
    map.category = Some(text("EGR"));
    map.subcategory = Some(text("EGR"));
    map.correction_factor = Some(FIXED_ONE);
    map.x_axis_address = Some((sig + 18) as u32);
    map.y_axis_address = Some((sig + 4) as u32);
    map.x_axis_correction = Some(100_000_000_000);
    map.x_axis_offset = Some(-273_000_000_000_000);
    map.y_axis_correction = Some(FIXED_ONE);
    map.x_label = Some(text("Temperature (°C)"));
    map.y_label = Some(text("Engine speed (rpm)"));
    map.y_axis_inverted = Some(true);
    map.description = Some(
        text("EGR compensation by temperature | X: Temperature (°C) | Y: Engine speed (rpm)"),
    );
    map.confidence = 950;
    map
}

/// Adds the EGR temperature map of every structure found, the last one whose
/// map ends exactly at the end of the image included (a map already listed
/// at the same address is replaced) and records the addresses.
pub fn detect_egr_temperature(
    data: &[u8],
    maps: &mut Vec<DetectedMap>,
    detected_addresses: &mut HashSet<u32>,
)
    requires
        data@.len() <= u32::MAX,
    ensures
        final(maps)@.len() >= outside_egr(data@, old(maps)@).len(),
        final(maps)@.subrange(0, outside_egr(data@, old(maps)@).len() as int) == outside_egr(
            data@,
            old(maps)@,
        ),
        forall|j: int|
            outside_egr(data@, old(maps)@).len() <= j < final(maps)@.len() ==> egr_map_address(
                data@,
                (#[trigger] final(maps)@[j]).address,
            ) && egr_temp_map(final(maps)@[j], final(maps)@[j].address - 30),
        forall|i: int, j: int|
            outside_egr(data@, old(maps)@).len() <= i < j < final(maps)@.len() ==> (
            #[trigger] final(maps)@[i]).address < (#[trigger] final(maps)@[j]).address,
        forall|a: u32|
            egr_map_address(data@, a) ==> exists|j: int|
                outside_egr(data@, old(maps)@).len() <= j < final(maps)@.len() && (
                #[trigger] final(maps)@[j]).address == a,
        forall|a: u32|
            #[trigger] final(detected_addresses)@.contains(a) <==> (old(detected_addresses)@.contains(a)
                || egr_map_address(data@, a)),
{
    let ghost s = data@;
    let mut found: Vec<DetectedMap> = Vec::new();
    let mut addrs: Vec<u32> = Vec::new();
    let end = if data.len() >= 90 { data.len() - 89 } else { 0 };
    let mut sig: usize = 0;
    while sig < end
        invariant
            s == data@,
            s.len() <= u32::MAX,
            end == egr_scan_end(s.len() as int),
            found@.len() == addrs@.len(),
            forall|j: int|
                0 <= j < found@.len() ==> (#[trigger] found@[j]).address == addrs@[j]
                    && egr_map_address(s, addrs@[j]) && egr_temp_map(found@[j], addrs@[j] - 30),
            forall|j: int| 0 <= j < addrs@.len() ==> #[trigger] addrs@[j] < sig + 30,
            forall|i: int, j: int| 0 <= i < j < addrs@.len() ==> (#[trigger] addrs@[i]) < (#[trigger] addrs@[j]),
            forall|a: u32| egr_map_address(s, a) && a < sig + 30 ==> #[trigger] addrs@.contains(a),
        decreases end - sig,
    {
        let ghost before = addrs@;
        if matches_at(data, sig) {
            let m = egr_map(sig);
            found.push(m);
            addrs.push((sig + 30) as u32);
            assert(addrs@[addrs@.len() - 1] == sig + 30);
        }
        proof {
            assert forall|a: u32| egr_map_address(s, a) && a < sig + 31 implies #[trigger] addrs@.contains(a) by {
                if a == sig + 30 {
                    assert(addrs@[addrs@.len() - 1] == a);
                } else {
                    assert(before.contains(a));
                    let i = choose|i: int| 0 <= i < before.len() && before[i] == a;
                    assert(addrs@[i] == before[i]);
                }
            }
        }
        sig += 1;
    }
    let ghost kept_pred = |m: DetectedMap| !addrs@.contains(m.address);
    let ghost old_maps = maps@;
    drop_addresses(maps, &addrs);
    proof {
        assert forall|a: u32| egr_map_address(s, a) <==> addrs@.contains(a) by {
            if addrs@.contains(a) {
                let j = choose|j: int| 0 <= j < addrs@.len() && addrs@[j] == a;
                assert(found@[j].address == addrs@[j]);
            }
        }
        assert(kept_pred =~= (|m: DetectedMap| !egr_map_address(s, m.address)));
        assert(maps@ == outside_egr(s, old_maps));
    }
    let ghost kept = maps@;
    let ghost new_maps = found@;
    maps.append(&mut found);
    proof {
        assert(maps@.subrange(0, kept.len() as int) =~= kept);
        assert forall|j: int| kept.len() <= j < maps@.len() implies maps@[j] == new_maps[j - kept.len()] by {}
        assert forall|a: u32| egr_map_address(s, a) implies exists|j: int|
            kept.len() <= j < maps@.len() && (#[trigger] maps@[j]).address == a by {
            let i = choose|i: int| 0 <= i < addrs@.len() && addrs@[i] == a;
            assert(maps@[kept.len() + i] == new_maps[i]);
        }
    }
    let ghost first = detected_addresses@;
    let mut k: usize = 0;
    while k < addrs.len()
        invariant
            k <= addrs@.len(),
            forall|a: u32|
                #[trigger] detected_addresses@.contains(a) <==> (first.contains(a) || exists|i: int|
                    0 <= i < k && addrs@[i] == a),
        decreases addrs.len() - k,
    {
        detected_addresses.insert(addrs[k]);
        k += 1;
        proof {
            assert forall|a: u32| #[trigger] detected_addresses@.contains(a) <==> (first.contains(a)
                || exists|i: int| 0 <= i < k && addrs@[i] == a) by {
                if a == addrs@[k - 1] {
                    assert(addrs@[k - 1] == a);
                }
            }
        }
    }
    proof {
        assert forall|a: u32| #[trigger] detected_addresses@.contains(a) <==> (first.contains(a)
            || egr_map_address(s, a)) by {
            if egr_map_address(s, a) {
                assert(addrs@.contains(a));
                let i = choose|i: int| 0 <= i < addrs@.len() && addrs@[i] == a;
            }
        }
    }
}

} // verus!
