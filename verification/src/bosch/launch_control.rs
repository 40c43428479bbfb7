//! The launch control map of the EDC15 (little-endian data).
//!
//! When launch control is active, the map header holds a 14-step vehicle
//! speed axis (0, 20, ... 260) after a count word `0E 00` (or `00 0E`), and
//! the 14 x 25 map follows at 86 bytes from the header.
use vstd::prelude::*;
use std::collections::HashSet;
use crate::bytes::{le16_seq, read_u16_le};
use crate::model::{DataType, DetectedMap, MapDimensions, has_text, text, FIXED_ONE};
use super::drop_addresses;

verus! {

broadcast use vstd::std_specs::hash::group_hash_axioms;

/// The vehicle speed steps of an active launch control map.
pub open spec fn speed_steps() -> Seq<u16> {
    seq![0u16, 20, 40, 60, 80, 100, 120, 140, 160, 180, 200, 220, 240, 260]
}

/// The header of an active launch control map starts at `sig`.
pub open spec fn launch_at(s: Seq<u8>, sig: int) -> bool {
    &&& 0 <= sig
    &&& sig + 786 <= s.len()
    &&& ((s[sig + 2] == 0x00 && s[sig + 3] == 0x0E) || (s[sig + 2] == 0x0E && s[sig + 3] == 0x00))
    &&& le16_seq(s, sig + 4, 14) == speed_steps()
}

/// The end of the header positions that are scanned: every position whose
/// map ends inside the image.
pub open spec fn launch_scan_end(len: int) -> int {
    if len >= 786 {
        len - 785
    } else {
        0
    }
}

/// `a` is the address of a launch control map of the image.
pub open spec fn launch_map_address(s: Seq<u8>, a: u32) -> bool {
    a >= 86 && a - 86 < launch_scan_end(s.len() as int) && launch_at(s, a - 86)
}

/// The launch control map described by the header at `sig`.
pub open spec fn launch_map(m: DetectedMap, sig: int) -> bool {
    &&& m.address == sig + 86
    &&& m.size == 700
    &&& m.dimensions == MapDimensions::TwoDimensional { rows: 14, cols: 25 }
    &&& m.data_type == DataType::UInt16
    &&& has_text(m.name, "Launch control map"@)
    &&& has_text(m.category, "Launch control"@)
    &&& has_text(m.subcategory, "Launch control"@)
    &&& m.correction_factor == Some(10_000_000_000i64)
    &&& m.offset is None
    &&& has_text(m.unit, "mg/st"@)
    &&& m.x_axis_address == Some((sig + 36) as u32)
    &&& m.y_axis_address == Some((sig + 4) as u32)
    &&& m.x_axis_correction == Some(FIXED_ONE)
    &&& m.x_axis_offset is None
    &&& m.y_axis_correction == Some(156_250_000_000i64)
    &&& m.y_axis_offset is None
    &&& has_text(m.x_label, "Engine speed (rpm)"@)
    &&& has_text(m.y_label, "Vehicle speed (km/h)"@)
    &&& m.y_axis_inverted == Some(true)
    &&& m.is_little_endian is None
    &&& has_text(m.description, "IQ limit | X: Engine speed (rpm) | Y: Vehicle speed (km/h)"@)
    &&& m.confidence == 980
}

/// The maps of `maps` that are not at a launch control map address.
pub open spec fn outside_launch(s: Seq<u8>, maps: Seq<DetectedMap>) -> Seq<DetectedMap> {
    maps.filter(|m: DetectedMap| !launch_map_address(s, m.address))
}

/// Whether the header of an active launch control map starts at `sig`.
pub fn is_active_at(data: &[u8], sig: usize) -> (r: bool)
    ensures
        r == launch_at(data@, sig as int),
{
    if sig > data.len() || data.len() - sig < 786 {
        return false;
    }
    let h2 = data[sig + 2];
    let h3 = data[sig + 3];
    if !((h2 == 0x00 && h3 == 0x0E) || (h2 == 0x0E && h3 == 0x00)) {
        return false;
    }
    let steps: [u16; 14] = [0, 20, 40, 60, 80, 100, 120, 140, 160, 180, 200, 220, 240, 260];
    assert(steps@ =~= speed_steps());
    let n = data.len();
    let mut i: usize = 0;
    while i < 14
        invariant
            i <= 14,
            n == data@.len(),
            sig + 786 <= data@.len(),
            steps@ == speed_steps(),
            forall|k: int| 0 <= k < i ==> #[trigger] le16_seq(data@, sig + 4, 14)[k] == steps@[k],
        decreases 14 - i,
    {
        if read_u16_le(data, sig + 4 + i * 2) != steps[i] {
            assert(le16_seq(data@, sig + 4, 14)[i as int] != speed_steps()[i as int]);
            return false;
        }
        i += 1;
    }
    assert(le16_seq(data@, sig + 4, 14) =~= speed_steps());
    true
}

fn launch_control_map(sig: usize) -> (m: DetectedMap)
    requires
        sig + 786 <= u32::MAX,
    ensures
        launch_map(m, sig as int),
{
    let mut map = DetectedMap::new(
        (sig + 86) as u32,
        700,
        MapDimensions::TwoDimensional { rows: 14, cols: 25 },
        DataType::UInt16,
    );
    map.name = Some(text("Launch control map"));
    map.category = Some(text("Launch control"));
    map.subcategory = Some(text("Launch control"));
    map.correction_factor = Some(10_000_000_000);
    map.unit = Some(text("mg/st"));
    map.x_axis_address = Some((sig + 36) as u32);
    map.y_axis_address = Some((sig + 4) as u32);
    map.x_axis_correction = Some(FIXED_ONE);
    map.y_axis_correction = Some(156_250_000_000);
    map.x_label = Some(text("Engine speed (rpm)"));
    map.y_label = Some(text("Vehicle speed (km/h)"));
    map.y_axis_inverted = Some(true);
    map.description = Some(text("IQ limit | X: Engine speed (rpm) | Y: Vehicle speed (km/h)"));
    map.confidence = 980;
    map
}

/// Adds the launch control map of every active instance, the last one whose
/// map ends exactly at the end of the image included (a map already
/// listed at the same address is replaced) and records the addresses.
pub fn detect_launch_control(
    data: &[u8],
    maps: &mut Vec<DetectedMap>,
    detected_addresses: &mut HashSet<u32>,
)
    requires
        data@.len() <= u32::MAX,
    ensures
        final(maps)@.len() >= outside_launch(data@, old(maps)@).len(),
        final(maps)@.subrange(0, outside_launch(data@, old(maps)@).len() as int) == outside_launch(
            data@,
            old(maps)@,
        ),
        forall|j: int|
            outside_launch(data@, old(maps)@).len() <= j < final(maps)@.len() ==> launch_map_address(
                data@,
                (#[trigger] final(maps)@[j]).address,
            ) && launch_map(final(maps)@[j], final(maps)@[j].address - 86),
        forall|i: int, j: int|
            outside_launch(data@, old(maps)@).len() <= i < j < final(maps)@.len() ==> (
            #[trigger] final(maps)@[i]).address < (#[trigger] final(maps)@[j]).address,
        forall|a: u32|
            launch_map_address(data@, a) ==> exists|j: int|
                outside_launch(data@, old(maps)@).len() <= j < final(maps)@.len() && (
                #[trigger] final(maps)@[j]).address == a,
        forall|a: u32|
            #[trigger] final(detected_addresses)@.contains(a) <==> (old(detected_addresses)@.contains(a)
                || launch_map_address(data@, a)),
{
    let ghost s = data@;
    let mut found: Vec<DetectedMap> = Vec::new();
    let mut addrs: Vec<u32> = Vec::new();
    let end = if data.len() >= 786 { data.len() - 785 } else { 0 };
    let mut sig: usize = 0;
    while sig < end
        invariant
            s == data@,
            s.len() <= u32::MAX,
            end == launch_scan_end(s.len() as int),
            found@.len() == addrs@.len(),
            forall|j: int|
                0 <= j < found@.len() ==> (#[trigger] found@[j]).address == addrs@[j]
                    && launch_map_address(s, addrs@[j]) && launch_map(found@[j], addrs@[j] - 86),
            forall|j: int| 0 <= j < addrs@.len() ==> #[trigger] addrs@[j] < sig + 86,
            forall|i: int, j: int| 0 <= i < j < addrs@.len() ==> (#[trigger] addrs@[i]) < (#[trigger] addrs@[j]),
            forall|a: u32| launch_map_address(s, a) && a < sig + 86 ==> #[trigger] addrs@.contains(a),
        decreases end - sig,
    {
        let ghost before = addrs@;
        if is_active_at(data, sig) {
            let m = launch_control_map(sig);
            found.push(m);
            addrs.push((sig + 86) as u32);
            assert(addrs@[addrs@.len() - 1] == sig + 86);
        }
        proof {
            assert forall|a: u32| launch_map_address(s, a) && a < sig + 87 implies #[trigger] addrs@.contains(a) by {
                if a == sig + 86 {
                    assert(addrs@[addrs@.len() - 1] == a);
                } else {
                    assert(before.contains(a));
                    let i = choose|i: int| 0 <= i < before.len() && before[i] == a;
                    assert(addrs@[i] == before[i]);
                }
            }
        }
        sig += 1;
    }
    let ghost kept_pred = |m: DetectedMap| !addrs@.contains(m.address);
    let ghost old_maps = maps@;
    drop_addresses(maps, &addrs);
    proof {
        assert forall|a: u32| launch_map_address(s, a) <==> addrs@.contains(a) by {
            if addrs@.contains(a) {
                let j = choose|j: int| 0 <= j < addrs@.len() && addrs@[j] == a;
                assert(found@[j].address == addrs@[j]);
            }
        }
        assert(kept_pred =~= (|m: DetectedMap| !launch_map_address(s, m.address)));
        assert(maps@ == outside_launch(s, old_maps));
    }
    let ghost kept = maps@;
    let ghost new_maps = found@;
    maps.append(&mut found);
    proof {
        assert(maps@.subrange(0, kept.len() as int) =~= kept);
        assert forall|j: int| kept.len() <= j < maps@.len() implies maps@[j] == new_maps[j - kept.len()] by {}
        assert forall|a: u32| launch_map_address(s, a) implies exists|j: int|
            kept.len() <= j < maps@.len() && (#[trigger] maps@[j]).address == a by {
            let i = choose|i: int| 0 <= i < addrs@.len() && addrs@[i] == a;
            assert(maps@[kept.len() + i] == new_maps[i]);
        }
    }
    let ghost first = detected_addresses@;
    let mut k: usize = 0;
    while k < addrs.len()
        invariant
            k <= addrs@.len(),
            forall|a: u32|
                #[trigger] detected_addresses@.contains(a) <==> (first.contains(a) || exists|i: int|
                    0 <= i < k && addrs@[i] == a),
        decreases addrs.len() - k,
    {
        detected_addresses.insert(addrs[k]);
        k += 1;
        proof {
            assert forall|a: u32| #[trigger] detected_addresses@.contains(a) <==> (first.contains(a)
                || exists|i: int| 0 <= i < k && addrs@[i] == a) by {
                if a == addrs@[k - 1] {
                    assert(addrs@[k - 1] == a);
                }
            }
        }
    }
    proof {
        assert forall|a: u32| #[trigger] detected_addresses@.contains(a) <==> (first.contains(a)
            || launch_map_address(s, a)) by {
            if launch_map_address(s, a) {
                assert(addrs@.contains(a));
                let i = choose|i: int| 0 <= i < addrs@.len() && addrs@[i] == a;
            }
        }
    }
}

} // verus!
