//! The smoke limitation switches of the EDC16 (U1, U31, U34).
//!
//! Five one-byte switches are stored side by side:
//!
//! ```text
//!   [T] [BP] 00 02 00 [L] [S] [MM] 0a dd 00
//! ```
//!
//! Two of them are reported: `L` (0 = lambda calculation, 1 = MAF or MAP
//! smoke maps) and `MM` (0 = MAF, 1 = MAP). The pattern accepts 0 or 1 in
//! each switch byte: `[0|1] 00 02 00 [0|1] 00 [0|1] 0A DD 00`.
use vstd::prelude::*;
use std::collections::HashSet;
use crate::model::{DataType, DetectedMap, MapDimensions, has_text, text, FIXED_ONE};

verus! {

broadcast use vstd::std_specs::hash::group_hash_axioms;

/// The switch pattern starts at `i`.
pub open spec fn smoke_at(s: Seq<u8>, i: int) -> bool {
    &&& 0 <= i
    &&& i + 10 <= s.len()
    &&& s[i] <= 1
    &&& s[i + 1] == 0x00
    &&& s[i + 2] == 0x02
    &&& s[i + 3] == 0x00
    &&& s[i + 4] <= 1
    &&& s[i + 5] == 0x00
    &&& s[i + 6] <= 1
    &&& s[i + 7] == 0x0A
    &&& s[i + 8] == 0xDD
    &&& s[i + 9] == 0x00
}

/// Every occurrence of `[BP] 00 02 00 [L] 00 [MM] 0A DD 00` is an occurrence
/// of the pattern, whatever 0 or 1 each of the three switch bytes holds, so
/// the lambda switch at +4 and the MAP / MAF switch at +6 are reported
/// (unless their addresses are taken).
pub proof fn lemma_smoke_any_switches(s: Seq<u8>, i: int, bp: u8, l: u8, mm: u8)
    requires
        0 <= i,
        i + 10 <= s.len(),
        bp <= 1,
        l <= 1,
        mm <= 1,
        s.subrange(i, i + 10) == seq![bp, 0x00u8, 0x02, 0x00, l, 0x00, mm, 0x0A, 0xDD, 0x00],
    ensures
        smoke_at(s, i),
{
    let w = seq![bp, 0x00u8, 0x02, 0x00, l, 0x00, mm, 0x0A, 0xDD, 0x00];
    assert forall|k: int| 0 <= k < 10 implies s[i + k] == w[k] by {
        assert(s.subrange(i, i + 10)[k] == s[i + k]);
    }
    assert(s[i] == w[0] && s[i + 1] == w[1] && s[i + 2] == w[2] && s[i + 3] == w[3] && s[i + 4] == w[4]);
    assert(s[i + 5] == w[5] && s[i + 6] == w[6] && s[i + 7] == w[7] && s[i + 8] == w[8] && s[i + 9] == w[9]);
}

/// A one-byte switch map with the given name and description.
pub open spec fn switch_map(m: DetectedMap, a: u32, name: Seq<char>, description: Seq<char>) -> bool {
    &&& m.address == a
    &&& m.size == 1
    &&& m.dimensions == MapDimensions::TwoDimensional { rows: 1, cols: 1 }
    &&& m.data_type == DataType::UInt8
    &&& has_text(m.name, name)
    &&& has_text(m.category, "Smoke limitation"@)
    &&& has_text(m.description, description)
    &&& has_text(m.unit, "-"@)
    &&& m.correction_factor == Some(FIXED_ONE)
    &&& m.offset == Some(0i64)
    &&& m.confidence == 950
    &&& m.x_axis_address is None
    &&& m.y_axis_address is None
    &&& m.subcategory is None
    &&& m.x_axis_correction is None
    &&& m.y_axis_correction is None
    &&& m.x_axis_offset is None
    &&& m.y_axis_offset is None
    &&& m.x_label is None
    &&& m.y_label is None
    &&& m.y_axis_inverted is None
    &&& m.is_little_endian is None
}

/// The lambda / smoke maps switch of the pattern at `m.address - 4`.
pub open spec fn lambda_switch(s: Seq<u8>, m: DetectedMap) -> bool {
    &&& m.address >= 4
    &&& smoke_at(s, m.address - 4)
    &&& switch_map(
        m,
        m.address,
        "Lambda/smoke maps switch"@,
        "Smoke limitation source: 0 = lambda calculation, 1 = MAF or MAP smoke maps"@,
    )
}

/// The MAP / MAF switch of the pattern at `m.address - 6`.
pub open spec fn maf_switch(s: Seq<u8>, m: DetectedMap) -> bool {
    &&& m.address >= 6
    &&& smoke_at(s, m.address - 6)
    &&& switch_map(m, m.address, "MAP/MAF switch"@, "Sensor used by the smoke limitation: 0 = MAF, 1 = MAP"@)
}

/// Two occurrences of the pattern lie at least three bytes apart.
proof fn lemma_smoke_apart(s: Seq<u8>, p: int, i: int)
    requires
        smoke_at(s, p),
        smoke_at(s, i),
        p < i,
    ensures
        i >= p + 3,
{
    if i == p + 1 {
        assert(s[i + 2] == s[p + 3]);
    } else if i == p + 2 {
        assert(s[i] == s[p + 2]);
    }
}

/// The switch `m` belongs to an occurrence of the pattern before `i`.
pub open spec fn switch_before(s: Seq<u8>, m: DetectedMap, i: int) -> bool {
    ||| (m.address >= 4 && smoke_at(s, m.address - 4) && m.address - 4 < i)
    ||| (m.address >= 6 && smoke_at(s, m.address - 6) && m.address - 6 < i)
}

/// `a` is the address of one of the first `n` maps of `maps`.
pub open spec fn address_among(maps: Seq<DetectedMap>, n: int, a: u32) -> bool {
    exists|k: int| 0 <= k < n && (#[trigger] maps[k]).address == a
}

/// Adds a switch at `at`, unless that address is taken by a map or by the set.
fn push_switch(
    maps: &mut Vec<DetectedMap>,
    detected_addresses: &mut HashSet<u32>,
    at: usize,
    name: &str,
    description: &str,
)
    requires
        at <= u32::MAX,
    ensures
        ({
            let a = at as u32;
            if old(detected_addresses)@.contains(a) || address_among(old(maps)@, old(maps)@.len() as int, a) {
                &&& final(maps)@ == old(maps)@
                &&& final(detected_addresses)@ == old(detected_addresses)@
            } else {
                &&& final(maps)@.len() == old(maps)@.len() + 1
                &&& final(maps)@.subrange(0, old(maps)@.len() as int) == old(maps)@
                &&& switch_map(final(maps)@.last(), a, name@, description@)
                &&& final(detected_addresses)@ == old(detected_addresses)@.insert(a)
            }
        }),
{
    let addr = at as u32;
    if detected_addresses.contains(&addr) {
        return ;
    }
    let mut k: usize = 0;
    while k < maps.len()
        invariant
            k <= maps@.len(),
            maps@ == old(maps)@,
            detected_addresses@ == old(detected_addresses)@,
            addr == at as u32,
            forall|j: int| 0 <= j < k ==> (#[trigger] maps@[j]).address != addr,
        decreases maps.len() - k,
    {
        if maps[k].address == addr {
            assert(address_among(maps@, maps@.len() as int, addr));
            return ;
        }
        k += 1;
    }
    let mut map = DetectedMap::new(addr, 1, MapDimensions::TwoDimensional { rows: 1, cols: 1 }, DataType::UInt8);
    map.name = Some(text(name));
    map.category = Some(text("Smoke limitation"));
    map.description = Some(text(description));
    map.unit = Some(text("-"));
    map.correction_factor = Some(FIXED_ONE);
    map.offset = Some(0);
    map.confidence = 950;
    detected_addresses.insert(addr);
    let ghost before = maps@;
    maps.push(map);
    assert(maps@.subrange(0, before.len() as int) =~= before);
}

/// Adds the lambda / smoke maps switch and the MAP / MAF switch of every
/// occurrence of the pattern (one per calibration block), except at
/// addresses already taken.
#[verifier::spinoff_prover]
#[verifier::rlimit(100)]
pub fn detect_smoke_switches(
    data: &[u8],
    maps: &mut Vec<DetectedMap>,
    detected_addresses: &mut HashSet<u32>,
)
    requires
        data@.len() <= u32::MAX,
    ensures
        final(maps)@.len() >= old(maps)@.len(),
        final(maps)@.subrange(0, old(maps)@.len() as int) == old(maps)@,
        forall|k: int|
            old(maps)@.len() <= k < final(maps)@.len() ==> (lambda_switch(data@, #[trigger] final(maps)@[k])
                || maf_switch(data@, final(maps)@[k])) && !old(detected_addresses)@.contains(
                final(maps)@[k].address,
            ),
        forall|k: int, l: int|
            0 <= k < l < final(maps)@.len() && l >= old(maps)@.len() ==> (#[trigger] final(maps)@[k]).address
                != (#[trigger] final(maps)@[l]).address,
        forall|k: int, l: int|
            old(maps)@.len() <= k < l < final(maps)@.len() ==> (#[trigger] final(maps)@[k]).address < (
            #[trigger] final(maps)@[l]).address,
        forall|a: u32|
            #[trigger] final(detected_addresses)@.contains(a) <==> (old(detected_addresses)@.contains(a)
                || exists|k: int|
                old(maps)@.len() <= k < final(maps)@.len() && (#[trigger] final(maps)@[k]).address == a),
        forall|i: int|
            #[trigger] smoke_at(data@, i) ==> {
                &&& (final(detected_addresses)@.contains((i + 4) as u32) || address_among(
                    old(maps)@,
                    old(maps)@.len() as int,
                    (i + 4) as u32,
                ))
                &&& (final(detected_addresses)@.contains((i + 6) as u32) || address_among(
                    old(maps)@,
                    old(maps)@.len() as int,
                    (i + 6) as u32,
                ))
            },
{
    let ghost s = data@;
    let ghost m0 = maps@;
    let ghost d0 = detected_addresses@;
    let ghost n0 = maps@.len();
    if data.len() < 10 {
        return ;
    }
    let last = data.len() - 10;
    let mut i: usize = 0;
    while i <= last
        invariant
            s == data@,
            s.len() <= u32::MAX,
            last + 10 == s.len(),
            maps@.len() >= n0,
            n0 == m0.len(),
            maps@.subrange(0, n0 as int) == m0,
            forall|k: int|
                n0 <= k < maps@.len() ==> (lambda_switch(s, #[trigger] maps@[k]) || maf_switch(
                    s,
                    maps@[k],
                )) && !d0.contains(maps@[k].address),
            forall|k: int, l: int|
                0 <= k < l < maps@.len() && l >= n0 ==> (#[trigger] maps@[k]).address != (
                #[trigger] maps@[l]).address,
            forall|a: u32|
                #[trigger] detected_addresses@.contains(a) <==> (d0.contains(a) || exists|k: int|
                    n0 <= k < maps@.len() && (#[trigger] maps@[k]).address == a),
            forall|j: int|
                0 <= j < i && #[trigger] smoke_at(s, j) ==> (detected_addresses@.contains((j + 4) as u32)
                    || address_among(m0, n0 as int, (j + 4) as u32)) && (detected_addresses@.contains(
                    (j + 6) as u32,
                ) || address_among(m0, n0 as int, (j + 6) as u32)),
            forall|k: int| n0 <= k < maps@.len() ==> switch_before(s, #[trigger] maps@[k], i as int),
            forall|k: int, l: int|
                n0 <= k < l < maps@.len() ==> (#[trigger] maps@[k]).address < (#[trigger] maps@[l]).address,
        decreases last + 1 - i,
    {
        if data[i] <= 1 && data[i + 1] == 0x00 && data[i + 2] == 0x02 && data[i + 3] == 0x00
            && data[i + 4] <= 1 && data[i + 5] == 0x00 && data[i + 6] <= 1 && data[i + 7] == 0x0A
            && data[i + 8] == 0xDD && data[i + 9] == 0x00 {
            assert(smoke_at(s, i as int));
            let ghost d1 = detected_addresses@;
            let ghost ms1 = maps@;
            proof {
                assert forall|k: int| n0 <= k < ms1.len() implies (#[trigger] ms1[k]).address < i + 4 by {
                    let m = ms1[k];
                    if m.address >= 4 && smoke_at(s, m.address - 4) && m.address - 4 < i {
                        lemma_smoke_apart(s, m.address - 4, i as int);
                    } else {
                        lemma_smoke_apart(s, m.address - 6, i as int);
                    }
                }
            }
            push_switch(
                maps,
                detected_addresses,
                i + 4,
                "Lambda/smoke maps switch",
                "Smoke limitation source: 0 = lambda calculation, 1 = MAF or MAP smoke maps",
            );
            proof {
                lemma_step(s, m0, d0, n0 as int, ms1, d1, maps@, detected_addresses@, (i + 4) as u32);
                if maps@.len() > ms1.len() {
                    assert(lambda_switch(s, maps@[maps@.len() - 1]));
                }
            }
            let ghost d2 = detected_addresses@;
            let ghost ms2 = maps@;
            push_switch(
                maps,
                detected_addresses,
                i + 6,
                "MAP/MAF switch",
                "Sensor used by the smoke limitation: 0 = MAF, 1 = MAP",
            );
            proof {
                lemma_step(s, m0, d0, n0 as int, ms2, d2, maps@, detected_addresses@, (i + 6) as u32);
                if maps@.len() > ms2.len() {
                    assert(maf_switch(s, maps@[maps@.len() - 1]));
                }
                assert forall|k: int| n0 <= k < maps@.len() implies switch_before(s, #[trigger] maps@[k], i + 1) by {
                    if k < ms1.len() {
                        assert(maps@[k] == ms1[k]);
                    } else if k < ms2.len() {
                        assert(maps@[k] == ms2[k]);
                    }
                }
                assert forall|k: int, l: int|
                    n0 <= k < l < maps@.len() implies (#[trigger] maps@[k]).address < (#[trigger] maps@[l]).address by {
                    if l < ms1.len() {
                        assert(maps@[k] == ms1[k] && maps@[l] == ms1[l]);
                    } else if l < ms2.len() {
                        assert(maps@[l] == ms2[l] && ms2[l].address == i + 4);
                        assert(maps@[k] == ms2[k] && ms2[k] == ms1[k]);
                    } else {
                        assert(maps@[l].address == i + 6);
                        if k < ms1.len() {
                            assert(maps@[k] == ms2[k] && ms2[k] == ms1[k]);
                        } else {
                            assert(maps@[k] == ms2[k] && ms2[k].address == i + 4);
                        }
                    }
                }
            }
        }
        i += 1;
    }
}

/// What one call of `push_switch` keeps of the loop's invariant.
proof fn lemma_step(
    s: Seq<u8>,
    m0: Seq<DetectedMap>,
    d0: Set<u32>,
    n0: int,
    before: Seq<DetectedMap>,
    d_before: Set<u32>,
    after: Seq<DetectedMap>,
    d_after: Set<u32>,
    a: u32,
)
    requires
        n0 == m0.len(),
        before.len() >= n0,
        before.subrange(0, n0) == m0,
        forall|k: int, l: int|
            0 <= k < l < before.len() && l >= n0 ==> (#[trigger] before[k]).address != (
            #[trigger] before[l]).address,
        forall|x: u32|
            #[trigger] d_before.contains(x) <==> (d0.contains(x) || exists|k: int|
                n0 <= k < before.len() && (#[trigger] before[k]).address == x),
        if d_before.contains(a) || address_among(before, before.len() as int, a) {
            after == before && d_after == d_before
        } else {
            &&& after.len() == before.len() + 1
            &&& after.subrange(0, before.len() as int) == before
            &&& after.last().address == a
            &&& d_after == d_before.insert(a)
        },
    ensures
        after.len() >= before.len(),
        after.subrange(0, n0) == m0,
        forall|k: int| 0 <= k < before.len() ==> after[k] == before[k],
        after.len() > before.len() ==> after.len() == before.len() + 1 && after.last().address == a
            && !d0.contains(a),
        forall|k: int, l: int|
            0 <= k < l < after.len() && l >= n0 ==> (#[trigger] after[k]).address != (
            #[trigger] after[l]).address,
        forall|x: u32|
            #[trigger] d_after.contains(x) <==> (d0.contains(x) || exists|k: int|
                n0 <= k < after.len() && (#[trigger] after[k]).address == x),
        d_after.contains(a) || address_among(m0, n0, a),
        forall|x: u32| d_before.contains(x) ==> d_after.contains(x),
{
    if d_before.contains(a) || address_among(before, before.len() as int, a) {
        if !d_before.contains(a) {
            let k = choose|k: int| 0 <= k < before.len() && (#[trigger] before[k]).address == a;
            if k >= n0 {
                assert(d_before.contains(a));
            } else {
                assert(before.subrange(0, n0)[k] == before[k]);
            }
        }
    } else {
        assert forall|k: int| 0 <= k < before.len() implies after[k] == before[k] by {
            assert(after.subrange(0, before.len() as int)[k] == after[k]);
        }
        assert(after.subrange(0, n0) =~= m0) by {
            assert forall|k: int| 0 <= k < n0 implies after.subrange(0, n0)[k] == m0[k] by {
                assert(before.subrange(0, n0)[k] == before[k]);
            }
        }
        assert forall|k: int, l: int|
            0 <= k < l < after.len() && l >= n0 implies (#[trigger] after[k]).address != (
            #[trigger] after[l]).address by {
            if l == before.len() {
                assert(after[l].address == a);
                assert(after[k] == before[k]);
            } else {
                assert(after[k] == before[k]);
                assert(after[l] == before[l]);
            }
        }
        assert forall|x: u32|
            #[trigger] d_after.contains(x) <==> (d0.contains(x) || exists|k: int|
                n0 <= k < after.len() && (#[trigger] after[k]).address == x) by {
            if x == a {
                assert(after[before.len() as int].address == a);
            }
            if exists|k: int| n0 <= k < after.len() && (#[trigger] after[k]).address == x {
                let k = choose|k: int| n0 <= k < after.len() && (#[trigger] after[k]).address == x;
                if k < before.len() {
                    assert(after[k] == before[k]);
                }
            }
            if exists|k: int| n0 <= k < before.len() && (#[trigger] before[k]).address == x {
                let k = choose|k: int| n0 <= k < before.len() && (#[trigger] before[k]).address == x;
                assert(after[k] == before[k]);
            }
        }
    }
}

} // verus!
