//! The whole detection of an image: every scan in turn, a map kept only when
//! its byte range meets none of the ranges already claimed; then the start
//! of injection maps are kept only inside complete blocks (ten maps, a
//! selector and a limiter), and names and descriptions are finished.
use vstd::prelude::*;
use std::collections::HashSet;
use crate::model::{DetectedMap, MapDimensions, has_text, text};
use crate::text::{digit_at, text_eq, text_starts_with};
use super::selector::is_block_start;
use super::templates::MapType;
use super::scalars::{svbl_at, svbl_tail};
use super::{data_section, get_data_section_range, overlaps, ranges_meet, EDC16U31Detector};
use super::claims::{
    begins_with, lemma_begins_kept, lemma_claim_step, lemma_kept_to_end, lemma_named_plain,
    lemma_shown_kept, lemma_smoke_plain, lemma_smoke_stage, lemma_vmax_stage, plain, smoke_shown, vmax_shown,
    lambda_shown, lemma_lambda_stage, lemma_soi_limiter_stage, lemma_svrl_stage, soi_limiter_shown, svrl_shown,
};
use super::lambda::{header_of, lambda_map};
use super::region::{region_post, turbo_post};
use super::axis_scan::axis_post;
use super::claims::{all_plain, lemma_plain_grow};
use super::duration::{duration_name, duration_ok, in_duration_block};
use super::late::{
    addresses_start, dyn_table, lemma_backed_add, lemma_backed_dyn, lemma_backed_from, lemma_backed_push, lemma_claim_one,
    lemma_duration_plain, lemma_literal_plain, lemma_start_push, ranges_backed, lemma_record_step, lemma_stagex_found,
    lemma_gearbox_found, lemma_fuel_found, lemma_egr_found, lemma_idle_found, lemma_egt_found, lemma_bip_found,
    lemma_late_shown, lemma_late_shown2, lemma_late_moves, lemma_empty_shown, all_nd, lemma_axis_nd, lemma_nd_grow,
    lemma_plain_nd, lemma_region_nd, lemma_selector_nd, axis_shown, lemma_axis_shown,
    lemma_kept_or_soi, lemma_empty_axis, lemma_scan_stage, turbo_shown, region_shown,
    lemma_regions_shown, lemma_empty_regions, lemma_kept_or_soi2, lemma_pre_final, not_soi_named, soi_table,
    axis_pre, turbo_pre, region_pre, lemma_axis_names, lemma_pre_grows, placed, scan_shown, stagex_shown, gearbox_shown, fuel_shown, egr_shown, idle_shown, egt_shown,
    bip_shown,
};
use super::vmax::vmax_map;
use crate::text::decimal;

verus! {

broadcast use vstd::std_specs::hash::group_hash_axioms;

/// The bytes `[address, address + size)` of a map (the end wraps as a
/// 32-bit address).
pub open spec fn range_of(m: DetectedMap) -> (u32, u32) {
    (m.address, m.address.wrapping_add(m.size as u32))
}

/// The name of the minimum injection break map.
pub open spec fn min_break_name() -> Seq<char> {
    "Duration min. injection break after main injection"@
}

/// `m` is the minimum injection break map, the one map added without a
/// check of its range.
pub open spec fn is_min_break(m: DetectedMap) -> bool {
    has_text(m.name, min_break_name())
}

/// No map of `maps` meets a map before it, unless it is the minimum
/// injection break map.
pub open spec fn apart(maps: Seq<DetectedMap>) -> bool {
    forall|i: int, j: int|
        0 <= i < j < maps.len() && !is_min_break(#[trigger] maps[j]) ==> !ranges_meet(
            range_of(#[trigger] maps[i]),
            range_of(maps[j]),
        )
}

/// The range of every map of `maps` is claimed in `ranges`.
pub open spec fn covered(maps: Seq<DetectedMap>, ranges: Seq<(u32, u32)>) -> bool {
    forall|k: int| 0 <= k < maps.len() ==> ranges.contains(range_of(#[trigger] maps[k]))
}

/// `m` has a description whenever it has a unit and both axis labels.
pub open spec fn described(m: DetectedMap) -> bool {
    (m.unit is Some && m.x_label is Some && m.y_label is Some) ==> m.description is Some
}

/// The display name of a boost-family map, aligned on the other families.
pub open spec fn normalized_name(n: Seq<char>) -> Seq<char> {
    if n == "Boost Target"@ || n == "Boost Target Map"@ {
        "Boost target map"@
    } else if n == "Boost Target 2"@ {
        "Boost target map 2"@
    } else if n == "Boost Limiter"@ || n == "Boost Limiter (Altitude)"@ {
        "Boost limit map"@
    } else if n == "N75 Duty Cycle"@ {
        "N75 duty cycle"@
    } else if n == "SVBL - Max Boost Pressure"@ || n == "Max Boost Pressure"@ {
        "SVBL (Single value boost limiter)"@
    } else if n == "Turbo Boost Pressure Correction"@ {
        "Boost correction by temperature"@
    } else {
        n
    }
}

/// A name that the finished list never shows: the raw boost-family names,
/// the unnumbered dynamic start of injection name and the dynamic duration
/// name.
pub open spec fn raw_name(n: Seq<char>) -> bool {
    ||| n == "Boost Target"@
    ||| n == "Boost Target Map"@
    ||| n == "Boost Target 2"@
    ||| n == "Boost Limiter"@
    ||| n == "Boost Limiter (Altitude)"@
    ||| n == "N75 Duty Cycle"@
    ||| n == "SVBL - Max Boost Pressure"@
    ||| n == "Max Boost Pressure"@
    ||| n == "Turbo Boost Pressure Correction"@
    ||| n == "Start of injection Dynamic"@
    ||| n == "Duration (Dynamic)"@
}

/// No map of `r` carries a raw name.
pub open spec fn names_finished(r: Seq<DetectedMap>) -> bool {
    forall|k: int| 0 <= k < r.len() ==> match (#[trigger] r[k]).name {
        Some(n) => !raw_name(n@),
        None => true,
    }
}

proof fn lemma_normalized_finished(n: Seq<char>)
    requires
        n != "Start of injection Dynamic"@,
        n != "Duration (Dynamic)"@,
    ensures
        !raw_name(normalized_name(n)),
{
    reveal_strlit("Duration (Dynamic)");
    assert("Duration (Dynamic)"@.len() == 18);
    reveal_strlit("Boost Target");
    reveal_strlit("Boost Target Map");
    reveal_strlit("Boost Target 2");
    reveal_strlit("Boost Limiter");
    reveal_strlit("Boost Limiter (Altitude)");
    reveal_strlit("N75 Duty Cycle");
    reveal_strlit("SVBL - Max Boost Pressure");
    reveal_strlit("Max Boost Pressure");
    reveal_strlit("Turbo Boost Pressure Correction");
    reveal_strlit("Start of injection Dynamic");
    reveal_strlit("Boost target map");
    reveal_strlit("Boost target map 2");
    reveal_strlit("Boost limit map");
    reveal_strlit("N75 duty cycle");
    reveal_strlit("SVBL (Single value boost limiter)");
    reveal_strlit("Boost correction by temperature");
    assert("Boost Target"@.len() == 12);
    assert("Boost Target Map"@.len() == 16);
    assert("Boost Target 2"@.len() == 14);
    assert("Boost Limiter"@.len() == 13);
    assert("Boost Limiter (Altitude)"@.len() == 24);
    assert("N75 Duty Cycle"@.len() == 14);
    assert("SVBL - Max Boost Pressure"@.len() == 25);
    assert("Max Boost Pressure"@.len() == 18);
    assert("Turbo Boost Pressure Correction"@.len() == 31);
    assert("Start of injection Dynamic"@.len() == 26);
    let m = normalized_name(n);
    if m == "Boost target map"@ {
        assert(m.len() == 16);
        assert(m[6] != "Boost Target Map"@[6]);
    } else if m == "Boost target map 2"@ {
        assert(m.len() == 18);
        assert(m[0] != "Max Boost Pressure"@[0]);
    } else if m == "Boost limit map"@ {
        assert(m.len() == 15);
    } else if m == "N75 duty cycle"@ {
        assert(m.len() == 14);
        assert(m[4] != "N75 Duty Cycle"@[4]);
        assert(m[0] != "Boost Target 2"@[0]);
    } else if m == "SVBL (Single value boost limiter)"@ {
        assert(m.len() == 33);
    } else if m == "Boost correction by temperature"@ {
        assert(m.len() == 31);
        assert(m[0] != "Turbo Boost Pressure Correction"@[0]);
    }
}

/// What the last three steps of the detection keep: the finished names, and
/// the maximum boost pressure scalar under its finished name.
proof fn lemma_finish(
    s: Seq<u8>,
    a1: Seq<DetectedMap>,
    a2: Seq<DetectedMap>,
    pre: Seq<DetectedMap>,
    fin: Seq<DetectedMap>,
    has: bool,
    w2: int,
    svm: DetectedMap,
)
    requires
        a2.len() == a1.len(),
        pre.len() == a2.len(),
        fin.len() == pre.len(),
        forall|k: int| 0 <= k < a2.len() ==> same_but_name(a1[k], #[trigger] a2[k]),
        forall|k: int|
            0 <= k < a2.len() ==> if has_text(a1[k].name, "Start of injection Dynamic"@) {
                has_text((#[trigger] a2[k]).name, "Start of injection (Dynamic)"@)
            } else {
                a2[k].name == a1[k].name
            },
        forall|k: int| 0 <= k < pre.len() ==> range_of(#[trigger] pre[k]) == range_of(a2[k]) && pre[k].name == a2[k].name,
        forall|k: int|
            0 <= k < fin.len() ==> {
                let (a, b) = (pre[k], #[trigger] fin[k]);
                &&& same_but_name(a, b)
                &&& (a.name is None ==> b.name is None)
                &&& (a.name matches Some(n) ==> has_text(b.name, normalized_name(n@)))
            },
        has ==> 0 <= w2 < a1.len() && a1[w2] == svm && svbl_at(s, svm.address as int) && has_text(
            svm.name,
            "SVBL - Max Boost Pressure"@,
        ),
        forall|k: int| 0 <= k < a1.len() ==> !has_text((#[trigger] a1[k]).name, "Duration (Dynamic)"@),
    ensures
        names_finished(fin),
        has ==> has_svbl_map(s, fin) && has_svbl_scalar(s, fin),
{
    reveal_strlit("SVBL - Max Boost Pressure");
    reveal_strlit("Start of injection Dynamic");
    reveal_strlit("Start of injection (Dynamic)");
    assert("Start of injection (Dynamic)"@.len() != "Start of injection Dynamic"@.len());
    if has {
        reveal_strlit("Boost Target");
        reveal_strlit("Boost Target Map");
        reveal_strlit("Boost Target 2");
        reveal_strlit("Boost Limiter");
        reveal_strlit("Boost Limiter (Altitude)");
        reveal_strlit("N75 Duty Cycle");
        assert("SVBL - Max Boost Pressure"@.len() == 25);
        assert("Boost Target"@.len() == 12);
        assert("Boost Target Map"@.len() == 16);
        assert("Boost Target 2"@.len() == 14);
        assert("Boost Limiter"@.len() == 13);
        assert("Boost Limiter (Altitude)"@.len() == 24);
        assert("N75 Duty Cycle"@.len() == 14);
        assert(normalized_name("SVBL - Max Boost Pressure"@) == "SVBL (Single value boost limiter)"@);
        assert("SVBL - Max Boost Pressure"@.len() != "Start of injection Dynamic"@.len());
        assert(a2[w2].name == a1[w2].name);
        assert(pre[w2].name == a1[w2].name);
        assert(same_but_name(pre[w2], fin[w2]));
        assert(range_of(pre[w2]) == range_of(a2[w2]));
        assert(fin[w2].address == svm.address);
        assert(has_text(fin[w2].name, "SVBL (Single value boost limiter)"@));
    }
    assert forall|k: int| 0 <= k < fin.len() implies match (#[trigger] fin[k]).name {
        Some(n) => !raw_name(n@),
        None => true,
    } by {
        assert(pre[k].name == a2[k].name);
        if fin[k].name is Some {
            let n0 = pre[k].name->0;
            assert(n0@ != "Start of injection Dynamic"@);
            reveal_strlit("Duration (Dynamic)");
            reveal_strlit("Start of injection (Dynamic)");
            assert(n0@ != "Duration (Dynamic)"@) by {
                if has_text(a1[k].name, "Start of injection Dynamic"@) {
                    assert("Start of injection (Dynamic)"@[0] == 'S');
                } else {
                    assert(!has_text(a1[k].name, "Duration (Dynamic)"@));
                }
            }
            lemma_normalized_finished(n0@);
        }
    }
}

/// `b` is `a` with at most its name changed.
pub open spec fn same_but_name(a: DetectedMap, b: DetectedMap) -> bool {
    &&& b.address == a.address
    &&& b.size == a.size
    &&& b.dimensions == a.dimensions
    &&& b.data_type == a.data_type
    &&& b.category == a.category
    &&& b.subcategory == a.subcategory
    &&& b.unit == a.unit
    &&& b.description == a.description
    &&& b.correction_factor == a.correction_factor
    &&& b.offset == a.offset
    &&& b.confidence == a.confidence
    &&& b.x_axis_address == a.x_axis_address
    &&& b.y_axis_address == a.y_axis_address
    &&& b.x_axis_correction == a.x_axis_correction
    &&& b.y_axis_correction == a.y_axis_correction
    &&& b.x_axis_offset == a.x_axis_offset
    &&& b.y_axis_offset == a.y_axis_offset
    &&& b.x_label == a.x_label
    &&& b.y_label == a.y_label
    &&& b.y_axis_inverted == a.y_axis_inverted
    &&& b.is_little_endian == a.is_little_endian
}

/// The range of a map.
fn map_range(m: &DetectedMap) -> (r: (u32, u32))
    ensures
        r == range_of(*m),
{
    (m.address, m.address.wrapping_add(m.size as u32))
}

proof fn lemma_literals_differ()
    ensures
        min_break_name() != "Boost target map"@,
        min_break_name() != "Boost target map 2"@,
        min_break_name() != "Boost limit map"@,
        min_break_name() != "N75 duty cycle"@,
        min_break_name() != "SVBL (Single value boost limiter)"@,
        min_break_name() != "Boost correction by temperature"@,
        min_break_name() != "Boost Target"@,
        min_break_name() != "Boost Target Map"@,
        min_break_name() != "Boost Target 2"@,
        min_break_name() != "Boost Limiter"@,
        min_break_name() != "Boost Limiter (Altitude)"@,
        min_break_name() != "N75 Duty Cycle"@,
        min_break_name() != "SVBL - Max Boost Pressure"@,
        min_break_name() != "Max Boost Pressure"@,
        min_break_name() != "Turbo Boost Pressure Correction"@,
        min_break_name() != "Start of injection Dynamic"@,
        min_break_name() != "Start of injection (Dynamic)"@,
        min_break_name() != "Duration 06"@,
{
    reveal_strlit("Duration min. injection break after main injection");
    assert("Duration min. injection break after main injection"@.len() == 50);
    reveal_strlit("Boost target map");
    assert("Boost target map"@.len() == 16);
    reveal_strlit("Boost target map 2");
    assert("Boost target map 2"@.len() == 18);
    reveal_strlit("Boost limit map");
    assert("Boost limit map"@.len() == 15);
    reveal_strlit("N75 duty cycle");
    assert("N75 duty cycle"@.len() == 14);
    reveal_strlit("SVBL (Single value boost limiter)");
    assert("SVBL (Single value boost limiter)"@.len() == 33);
    reveal_strlit("Boost correction by temperature");
    assert("Boost correction by temperature"@.len() == 31);
    reveal_strlit("Boost Target");
    assert("Boost Target"@.len() == 12);
    reveal_strlit("Boost Target Map");
    assert("Boost Target Map"@.len() == 16);
    reveal_strlit("Boost Target 2");
    assert("Boost Target 2"@.len() == 14);
    reveal_strlit("Boost Limiter");
    assert("Boost Limiter"@.len() == 13);
    reveal_strlit("Boost Limiter (Altitude)");
    assert("Boost Limiter (Altitude)"@.len() == 24);
    reveal_strlit("N75 Duty Cycle");
    assert("N75 Duty Cycle"@.len() == 14);
    reveal_strlit("SVBL - Max Boost Pressure");
    assert("SVBL - Max Boost Pressure"@.len() == 25);
    reveal_strlit("Max Boost Pressure");
    assert("Max Boost Pressure"@.len() == 18);
    reveal_strlit("Turbo Boost Pressure Correction");
    assert("Turbo Boost Pressure Correction"@.len() == 31);
    reveal_strlit("Start of injection Dynamic");
    assert("Start of injection Dynamic"@.len() == 26);
    reveal_strlit("Start of injection (Dynamic)");
    assert("Start of injection (Dynamic)"@.len() == 28);
    reveal_strlit("Duration 06");
    assert("Duration 06"@.len() == 11);
}

/// Range `r` meets one of `ranges`.
pub open spec fn claimed_by(r: (u32, u32), ranges: Seq<(u32, u32)>) -> bool {
    exists|j: int| 0 <= j < ranges.len() && ranges_meet(r, #[trigger] ranges[j])
}

/// `ranges` is `old_r` followed by the ranges of the maps `all` has beyond `old_all`.
pub open spec fn ranges_extended(
    old_all: Seq<DetectedMap>,
    all: Seq<DetectedMap>,
    old_r: Seq<(u32, u32)>,
    ranges: Seq<(u32, u32)>,
) -> bool {
    &&& old_all.len() <= all.len()
    &&& ranges.len() == old_r.len() + (all.len() - old_all.len())
    &&& forall|k: int| 0 <= k < old_r.len() ==> #[trigger] ranges[k] == old_r[k]
    &&& forall|j: int|
        old_all.len() <= j < all.len() ==> ranges[old_r.len() + j - old_all.len()] == range_of(#[trigger] all[j])
}

/// `addresses` is `old_a` with the addresses of the maps `all` has beyond `old_all`.
pub open spec fn addresses_extended(
    old_all: Seq<DetectedMap>,
    all: Seq<DetectedMap>,
    old_a: Set<u32>,
    addresses: Set<u32>,
) -> bool {
    forall|a: u32|
        #[trigger] addresses.contains(a) <==> (old_a.contains(a) || exists|j: int|
            old_all.len() <= j < all.len() && (#[trigger] all[j]).address == a)
}

/// Adds each map of `found` whose range meets no claimed range, claiming
/// it (and recording its address when `record`).
fn add_unclaimed(
    all: &mut Vec<DetectedMap>,
    ranges: &mut Vec<(u32, u32)>,
    addresses: &mut HashSet<u32>,
    found: Vec<DetectedMap>,
    record: bool,
)
    requires
        apart(old(all)@),
        covered(old(all)@, old(ranges)@),
    ensures
        apart(final(all)@),
        covered(final(all)@, final(ranges)@),
        final(all)@.len() >= old(all)@.len(),
        forall|k: int| 0 <= k < old(all)@.len() ==> final(all)@[k] == old(all)@[k],
        forall|k: int| old(all)@.len() <= k < final(all)@.len() ==> found@.contains(#[trigger] final(all)@[k]),
        ranges_extended(old(all)@, final(all)@, old(ranges)@, final(ranges)@),
        forall|k: int|
            0 <= k < found@.len() ==> final(all)@.contains(#[trigger] found@[k]) || claimed_by(
                range_of(found@[k]),
                final(ranges)@,
            ),
        record ==> addresses_extended(old(all)@, final(all)@, old(addresses)@, final(addresses)@),
        !record ==> final(addresses)@ == old(addresses)@,
        found@.len() > 0 && !claimed_by(range_of(found@[0]), old(ranges)@) ==> final(all)@.contains(found@[0]),
{
    let mut rest = found;
    let ghost orig = rest@;
    let ghost first = all@;
    let ghost first_r = ranges@;
    let ghost first_a = addresses@;
    let ghost mut i: int = 0;
    while rest.len() > 0
        invariant
            0 <= i <= orig.len(),
            rest@ == orig.subrange(i, orig.len() as int),
            apart(all@),
            covered(all@, ranges@),
            all@.len() >= first.len(),
            forall|k: int| 0 <= k < first.len() ==> all@[k] == first[k],
            forall|k: int| first.len() <= k < all@.len() ==> orig.contains(#[trigger] all@[k]),
            ranges_extended(first, all@, first_r, ranges@),
            forall|k: int|
                0 <= k < i ==> all@.contains(#[trigger] orig[k]) || claimed_by(range_of(orig[k]), ranges@),
            record ==> addresses_extended(first, all@, first_a, addresses@),
            !record ==> addresses@ == first_a,
            i >= 1 && !claimed_by(range_of(orig[0]), first_r) ==> all@.contains(orig[0]),
            i == 0 ==> ranges@ == first_r,
        decreases rest.len(),
    {
        let m = rest.remove(0);
        let ghost before_all = all@;
        let ghost before_r = ranges@;
        let ghost before_a = addresses@;
        proof {
            assert(m == orig[i]);
            i = i + 1;
            assert(rest@ =~= orig.subrange(i, orig.len() as int));
        }
        let r = map_range(&m);
        if overlaps(ranges, r) {
            proof {
                assert(claimed_by(range_of(orig[i - 1]), ranges@));
            }
        }
        if !overlaps(ranges, r) {
            if record {
                addresses.insert(m.address);
            }
            let ghost before = all@;
            let ghost rbefore = ranges@;
            ranges.push(r);
            all.push(m);
            proof {
                assert forall|p: int, q: int|
                    0 <= p < q < all@.len() && !is_min_break(#[trigger] all@[q]) implies !ranges_meet(
                    range_of(#[trigger] all@[p]),
                    range_of(all@[q]),
                ) by {
                    if q == all@.len() - 1 {
                        assert(all@[p] == before[p]);
                        assert(rbefore.contains(range_of(before[p])));
                        let w = choose|w: int| 0 <= w < rbefore.len() && rbefore[w] == range_of(before[p]);
                        assert(!ranges_meet(r, rbefore[w]));
                    } else {
                        assert(all@[p] == before[p] && all@[q] == before[q]);
                    }
                }
                assert forall|k: int| 0 <= k < all@.len() implies ranges@.contains(range_of(#[trigger] all@[k])) by {
                    if k == all@.len() - 1 {
                        assert(ranges@[ranges@.len() - 1] == r);
                    } else {
                        assert(all@[k] == before[k]);
                        let w = choose|w: int| 0 <= w < rbefore.len() && rbefore[w] == range_of(before[k]);
                        assert(ranges@[w] == rbefore[w]);
                    }
                }
                assert(orig.contains(all@[all@.len() - 1])) by {
                    assert(orig[i - 1] == all@[all@.len() - 1]);
                }
                assert(all@[all@.len() - 1] == orig[i - 1]);
                assert forall|k: int| 0 <= k < i implies all@.contains(#[trigger] orig[k]) || claimed_by(
                    range_of(orig[k]),
                    ranges@,
                ) by {
                    if k < i - 1 {
                        if before_all.contains(orig[k]) {
                            let w = choose|w: int| 0 <= w < before_all.len() && before_all[w] == orig[k];
                            assert(all@[w] == before_all[w]);
                        } else {
                            let w = choose|w: int| 0 <= w < before_r.len() && ranges_meet(range_of(orig[k]), #[trigger] before_r[w]);
                            assert(ranges@[w] == before_r[w]);
                        }
                    } else {
                        assert(all@[all@.len() - 1] == orig[k]);
                    }
                }
                if record {
                    assert forall|a: u32|
                        #[trigger] addresses@.contains(a) <==> (first_a.contains(a) || exists|j: int|
                            first.len() <= j < all@.len() && (#[trigger] all@[j]).address == a) by {
                        assert(addresses@ == before_a.insert(m.address));
                        assert(before_a.contains(a) <==> (first_a.contains(a) || exists|j: int|
                            first.len() <= j < before_all.len() && (#[trigger] before_all[j]).address == a));
                        if exists|j: int| first.len() <= j < before_all.len() && (#[trigger] before_all[j]).address == a {
                            let j = choose|j: int| first.len() <= j < before_all.len() && (#[trigger] before_all[j]).address == a;
                            assert(all@[j] == before_all[j]);
                        }
                        if a == m.address {
                            assert(all@[all@.len() - 1].address == a);
                        }
                        if exists|j: int| first.len() <= j < all@.len() && (#[trigger] all@[j]).address == a {
                            let j = choose|j: int| first.len() <= j < all@.len() && (#[trigger] all@[j]).address == a;
                            if j < all@.len() - 1 {
                                assert(before_all[j] == all@[j]);
                            }
                        }
                    }
                }
            }
        }
        proof {
            if i >= 1 && !claimed_by(range_of(orig[0]), first_r) {
                if i == 1 {
                    assert(before_r == first_r);
                    assert(all@[all@.len() - 1] == orig[0]);
                } else {
                    let w = choose|w: int| 0 <= w < before_all.len() && before_all[w] == orig[0];
                    assert(all@[w] == before_all[w]);
                }
            }
        }
    }
}

/// `address + size`, or the largest 64-bit value if that does not fit.
fn end_of(address: u32, size: usize) -> (r: u64)
    ensures
        r == if address + size <= u64::MAX { address + size } else { u64::MAX as int },
{
    if size as u64 <= u64::MAX - address as u64 {
        address as u64 + size as u64
    } else {
        u64::MAX
    }
}

/// The start addresses of `ranges`.
fn starts_of(ranges: &Vec<(u32, u32)>) -> (r: HashSet<u32>)
    ensures
        forall|a: u32| #[trigger] r@.contains(a) <==> exists|k: int| 0 <= k < ranges@.len() && ranges@[k].0 == a,
{
    let mut set: HashSet<u32> = HashSet::new();
    let mut k: usize = 0;
    while k < ranges.len()
        invariant
            k <= ranges@.len(),
            forall|a: u32| #[trigger] set@.contains(a) <==> exists|q: int| 0 <= q < k && ranges@[q].0 == a,
        decreases ranges.len() - k,
    {
        set.insert(ranges[k].0);
        k += 1;
        proof {
            assert forall|a: u32| #[trigger] set@.contains(a) <==> exists|q: int| 0 <= q < k && ranges@[q].0 == a by {
                if a == ranges@[k - 1].0 {
                    assert(ranges@[k - 1].0 == a);
                }
            }
        }
    }
    set
}

/// `m` is a numbered start of injection map ("Start of injection "
/// followed by a digit).
pub open spec fn numbered_soi(m: DetectedMap) -> bool {
    match m.name {
        Some(n) => {
            let p = "Start of injection "@;
            &&& p.len() <= n@.len()
            &&& n@.subrange(0, p.len() as int) == p
            &&& 19 < n@.len()
            &&& '0' <= n@[19] <= '9'
        },
        None => false,
    }
}

/// Address `a` lies in one of the blocks starting at `valid`: for a numbered
/// map, inside the block (4800 bytes from its start); for a dynamic map, up
/// to five maps before it, inside it, or up to 106 bytes and five maps after it.
pub open spec fn in_block(a: int, b: int, numbered: bool) -> bool {
    let end = b + 4800;
    if numbered {
        b <= a < end
    } else {
        let before = if b >= 2240 { b - 2240 } else { 0 };
        (before <= a < b) || (b <= a <= end) || (end < a < end + 106 + 2240)
    }
}

/// Address `a` lies in one of the blocks starting at `valid`.
pub open spec fn in_some_block(a: int, valid: Seq<u32>, numbered: bool) -> bool {
    exists|k: int| 0 <= k < valid.len() && in_block(a, #[trigger] valid[k] as int, numbered)
}

/// `m` survives the start of injection block check.
pub open spec fn soi_kept(m: DetectedMap, valid: Seq<u32>) -> bool {
    if numbered_soi(m) {
        in_some_block(m.address as int, valid, true)
    } else if has_text(m.name, "Start of injection Dynamic"@) {
        in_some_block(m.address as int, valid, false)
    } else {
        true
    }
}

/// The maps of `s` that survive the block check, in order.
pub open spec fn soi_filter(s: Seq<DetectedMap>, valid: Seq<u32>) -> Seq<DetectedMap>
    decreases s.len(),
{
    if s.len() == 0 {
        s
    } else {
        let rest = soi_filter(s.drop_last(), valid);
        if soi_kept(s.last(), valid) {
            rest.push(s.last())
        } else {
            rest
        }
    }
}

/// The image holds the tail of a boost limit table in its data section.
pub open spec fn has_svbl_tail(s: Seq<u8>) -> bool {
    exists|o: int|
        data_section(s.len() as int).0 <= o < data_section(s.len() as int).1 - 8 && #[trigger] svbl_tail(s, o)
}

/// One of `r` is a maximum boost pressure scalar of the image.
pub open spec fn has_svbl_map(s: Seq<u8>, r: Seq<DetectedMap>) -> bool {
    exists|k: int| 0 <= k < r.len() && svbl_at(s, (#[trigger] r[k]).address as int)
}

/// One of `r` is a maximum boost pressure scalar of the image, under its
/// finished name.
pub open spec fn has_svbl_scalar(s: Seq<u8>, r: Seq<DetectedMap>) -> bool {
    exists|k: int|
        0 <= k < r.len() && svbl_at(s, (#[trigger] r[k]).address as int) && has_text(
            r[k].name,
            "SVBL (Single value boost limiter)"@,
        )
}

proof fn lemma_svbl_kept(m: DetectedMap, valid: Seq<u32>)
    requires
        has_text(m.name, "SVBL - Max Boost Pressure"@),
    ensures
        soi_kept(m, valid),
{
    reveal_strlit("SVBL - Max Boost Pressure");
    reveal_strlit("Start of injection ");
    reveal_strlit("Start of injection Dynamic");
    let n = m.name->0@;
    assert(n[1] == 'V');
    if "Start of injection "@.len() <= n.len() && n.subrange(0, 19) == "Start of injection "@ {
        assert(n.subrange(0, 19)[1] == n[1]);
    }
    assert(n != "Start of injection Dynamic"@) by {
        assert("Start of injection Dynamic"@[1] == 't');
    }
}

pub proof fn lemma_filter_keeps(s: Seq<DetectedMap>, valid: Seq<u32>, x: DetectedMap)
    requires
        s.contains(x),
        soi_kept(x, valid),
    ensures
        soi_filter(s, valid).contains(x),
    decreases s.len(),
{
    if s.last() == x {
        assert(soi_filter(s, valid) == soi_filter(s.drop_last(), valid).push(x));
        assert(soi_filter(s, valid)[soi_filter(s, valid).len() - 1] == x);
    } else {
        let w = choose|w: int| 0 <= w < s.len() && s[w] == x;
        assert(s.drop_last()[w] == x);
        lemma_filter_keeps(s.drop_last(), valid, x);
        let rest = soi_filter(s.drop_last(), valid);
        let v = choose|v: int| 0 <= v < rest.len() && rest[v] == x;
        if soi_kept(s.last(), valid) {
            assert(rest.push(s.last())[v] == x);
        }
    }
}

/// Whether `m` is a numbered start of injection map ("Start of injection "
/// followed by a digit).
fn is_numbered_soi(m: &DetectedMap) -> (r: bool)
    ensures
        r == numbered_soi(*m),
{
    proof {
        reveal_strlit("Start of injection ");
    }
    match &m.name {
        Some(n) => text_starts_with(n, "Start of injection ") && digit_at(n, 19),
        None => false,
    }
}

/// Whether `m` is named `t`.
fn named(m: &DetectedMap, t: &str) -> (r: bool)
    ensures
        r == has_text(m.name, t@),
{
    match &m.name {
        Some(n) => text_eq(n, t),
        None => false,
    }
}

/// Whether map address `a` lies in the blocks kept: for a numbered map,
/// inside one of the blocks (4800 bytes from its start); for a dynamic map,
/// up to five maps before a block, inside it, or up to 106 bytes and five
/// maps after it.
fn in_valid_block(a: u32, valid: &Vec<u32>, numbered: bool) -> (r: bool)
    ensures
        r == in_some_block(a as int, valid@, numbered),
{
    let mut k: usize = 0;
    while k < valid.len()
        invariant
            k <= valid@.len(),
            forall|j: int| 0 <= j < k ==> !in_block(a as int, #[trigger] valid@[j] as int, numbered),
        decreases valid.len() - k,
    {
        let b = valid[k] as u64;
        let x = a as u64;
        let end = b + 4800;
        let hit = if numbered {
            b <= x && x < end
        } else {
            let before = if b >= 2240 { b - 2240 } else { 0 };
            (before <= x && x < b) || (b <= x && x <= end) || (end < x && x < end + 106 + 2240)
        };
        assert(hit == in_block(a as int, valid@[k as int] as int, numbered));
        if hit {
            return true;
        }
        k += 1;
    }
    false
}

/// The maps that survive the start of injection block check: numbered and
/// dynamic start of injection maps outside every valid block are dropped.
fn keep_valid_soi(all: Vec<DetectedMap>, valid: &Vec<u32>) -> (r: Vec<DetectedMap>)
    requires
        apart(all@),
    ensures
        apart(r@),
        forall|k: int| 0 <= k < r@.len() ==> all@.contains(#[trigger] r@[k]),
        r@ == soi_filter(all@, valid@),
{
    let ghost orig = all@;
    let mut rest = all;
    let mut kept: Vec<DetectedMap> = Vec::new();
    let ghost mut i: int = 0;
    let ghost mut idx: Seq<int> = Seq::empty();
    while rest.len() > 0
        invariant
            0 <= i <= orig.len(),
            rest@ == orig.subrange(i, orig.len() as int),
            apart(orig),
            idx.len() == kept@.len(),
            forall|p: int| 0 <= p < idx.len() ==> 0 <= #[trigger] idx[p] < i && kept@[p] == orig[idx[p]],
            forall|p: int, q: int| 0 <= p < q < idx.len() ==> #[trigger] idx[p] < #[trigger] idx[q],
            apart(kept@),
            kept@ == soi_filter(orig.subrange(0, i), valid@),
        decreases rest.len(),
    {
        let m = rest.remove(0);
        proof {
            assert(m == orig[i]);
        }
        let keep = if is_numbered_soi(&m) {
            in_valid_block(m.address, valid, true)
        } else if named(&m, "Start of injection Dynamic") {
            in_valid_block(m.address, valid, false)
        } else {
            true
        };
        proof {
            assert(orig.subrange(0, i + 1).drop_last() =~= orig.subrange(0, i));
            assert(orig.subrange(0, i + 1).last() == m);
            assert(keep == soi_kept(m, valid@));
        }
        if keep {
            let ghost before = kept@;
            kept.push(m);
            proof {
                assert forall|p: int, q: int|
                    0 <= p < q < kept@.len() && !is_min_break(#[trigger] kept@[q]) implies !ranges_meet(
                    range_of(#[trigger] kept@[p]),
                    range_of(kept@[q]),
                ) by {
                    if q == kept@.len() - 1 {
                        assert(kept@[p] == orig[idx[p]]);
                        assert(idx[p] < i);
                        assert(kept@[q] == orig[i]);
                    } else {
                        assert(kept@[p] == before[p] && kept@[q] == before[q]);
                    }
                }
                idx = idx.push(i);
            }
        }
        proof {
            i = i + 1;
            assert(rest@ =~= orig.subrange(i, orig.len() as int));
        }
    }
    proof {
        assert forall|k: int| 0 <= k < kept@.len() implies orig.contains(#[trigger] kept@[k]) by {
            assert(kept@[k] == orig[idx[k]]);
        }
        assert(orig.subrange(0, i) =~= orig);
    }
    kept
}

/// The description given to a map without one: its unit and axis labels,
/// when it has all three.
pub open spec fn made_description(m: DetectedMap, d: Option<String>) -> bool {
    match (m.unit, m.x_label, m.y_label) {
        (Some(u), Some(x), Some(y)) => d matches Some(v) && v@ == u@ + " | X: "@ + x@ + " | Y: "@ + y@,
        _ => d is None,
    }
}

/// `b` is `a` with the description `b` has, which `a` kept or was given.
pub open spec fn describes(a: DetectedMap, b: DetectedMap) -> bool {
    &&& b == (DetectedMap { description: b.description, ..a })
    &&& (a.description is Some ==> b.description == a.description)
    &&& (a.description is None ==> made_description(a, b.description))
}

/// Gives each map without a description one made from its unit and axis
/// labels, when it has all three.
fn describe_all(maps: Vec<DetectedMap>) -> (r: Vec<DetectedMap>)
    requires
        apart(maps@),
    ensures
        apart(r@),
        r@.len() == maps@.len(),
        forall|k: int| 0 <= k < r@.len() ==> described(#[trigger] r@[k]),
        forall|k: int| 0 <= k < r@.len() ==> range_of(#[trigger] r@[k]) == range_of(maps@[k]) && r@[k].name == maps@[k].name,
        forall|k: int| 0 <= k < r@.len() ==> describes(maps@[k], #[trigger] r@[k]),
{
    let ghost orig = maps@;
    let mut rest = maps;
    let mut out: Vec<DetectedMap> = Vec::new();
    let ghost mut i: int = 0;
    while rest.len() > 0
        invariant
            0 <= i <= orig.len(),
            out@.len() == i,
            rest@ == orig.subrange(i, orig.len() as int),
            apart(orig),
            forall|k: int| 0 <= k < i ==> range_of(#[trigger] out@[k]) == range_of(orig[k]) && out@[k].name == orig[k].name,
            forall|k: int| 0 <= k < i ==> described(#[trigger] out@[k]),
            forall|k: int| 0 <= k < i ==> describes(orig[k], #[trigger] out@[k]),
        decreases rest.len(),
    {
        let mut m = rest.remove(0);
        proof {
            assert(m == orig[i]);
        }
        if m.description.is_none() {
            let d = match (&m.unit, &m.x_label, &m.y_label) {
                (Some(u), Some(x), Some(y)) => {
                    let mut d = String::new();
                    d.append(u.as_str());
                    d.append(" | X: ");
                    d.append(x.as_str());
                    d.append(" | Y: ");
                    d.append(y.as_str());
                    Some(d)
                },
                _ => None,
            };
            m.description = d;
        }
        out.push(m);
        proof {
            i = i + 1;
            assert(rest@ =~= orig.subrange(i, orig.len() as int));
        }
    }
    proof {
        assert forall|p: int, q: int|
            0 <= p < q < out@.len() && !is_min_break(#[trigger] out@[q]) implies !ranges_meet(
            range_of(#[trigger] out@[p]),
            range_of(out@[q]),
        ) by {
            assert(!is_min_break(orig[q]));
        }
    }
    out
}

/// Renames the dynamic start of injection maps "Start of injection (Dynamic)".
fn rename_dynamic(maps: Vec<DetectedMap>) -> (r: Vec<DetectedMap>)
    requires
        apart(maps@),
    ensures
        apart(r@),
        r@.len() == maps@.len(),
        forall|k: int| 0 <= k < r@.len() ==> same_but_name(maps@[k], #[trigger] r@[k]),
        forall|k: int|
            0 <= k < r@.len() ==> if has_text(maps@[k].name, "Start of injection Dynamic"@) {
                has_text((#[trigger] r@[k]).name, "Start of injection (Dynamic)"@)
            } else {
                r@[k].name == maps@[k].name
            },
{
    let ghost orig = maps@;
    let mut rest = maps;
    let mut out: Vec<DetectedMap> = Vec::new();
    let ghost mut i: int = 0;
    proof {
        lemma_literals_differ();
    }
    while rest.len() > 0
        invariant
            0 <= i <= orig.len(),
            out@.len() == i,
            rest@ == orig.subrange(i, orig.len() as int),
            apart(orig),
            forall|k: int| 0 <= k < i ==> same_but_name(orig[k], #[trigger] out@[k]),
            forall|k: int|
                0 <= k < i ==> if has_text(orig[k].name, "Start of injection Dynamic"@) {
                    has_text((#[trigger] out@[k]).name, "Start of injection (Dynamic)"@)
                } else {
                    out@[k].name == orig[k].name
                },
            forall|k: int| 0 <= k < i ==> (is_min_break(#[trigger] out@[k]) <==> is_min_break(orig[k])),
            min_break_name() != "Start of injection Dynamic"@,
            min_break_name() != "Start of injection (Dynamic)"@,
        decreases rest.len(),
    {
        let mut m = rest.remove(0);
        proof {
            assert(m == orig[i]);
        }
        if named(&m, "Start of injection Dynamic") {
            m.name = Some(text("Start of injection (Dynamic)"));
        }
        out.push(m);
        proof {
            i = i + 1;
            assert(rest@ =~= orig.subrange(i, orig.len() as int));
        }
    }
    proof {
        assert forall|p: int, q: int|
            0 <= p < q < out@.len() && !is_min_break(#[trigger] out@[q]) implies !ranges_meet(
            range_of(#[trigger] out@[p]),
            range_of(out@[q]),
        ) by {
            assert(!is_min_break(orig[q]));
            assert(range_of(out@[p]) == range_of(orig[p]));
        }
    }
    out
}

impl EDC16U31Detector {
    /// Aligns the boost-family names on the other families (see
    /// [`normalized_name`]).
    pub fn normalize_boost_names(maps: &mut Vec<DetectedMap>)
        ensures
            final(maps)@.len() == old(maps)@.len(),
            forall|k: int|
                0 <= k < final(maps)@.len() ==> {
                    let (a, b) = (old(maps)@[k], #[trigger] final(maps)@[k]);
                    &&& same_but_name(a, b)
                    &&& (a.name is None ==> b.name is None)
                    &&& (a.name matches Some(n) ==> has_text(b.name, normalized_name(n@)))
                },
    {
        let mut rest: Vec<DetectedMap> = Vec::new();
        std::mem::swap(maps, &mut rest);
        let ghost orig = rest@;
        let ghost mut i: int = 0;
        while rest.len() > 0
            invariant
                0 <= i <= orig.len(),
                maps@.len() == i,
                rest@ == orig.subrange(i, orig.len() as int),
                forall|k: int|
                    0 <= k < i ==> {
                        let (a, b) = (orig[k], #[trigger] maps@[k]);
                        &&& same_but_name(a, b)
                        &&& (a.name is None ==> b.name is None)
                        &&& (a.name matches Some(n) ==> has_text(b.name, normalized_name(n@)))
                    },
            decreases rest.len(),
        {
            let mut m = rest.remove(0);
            proof {
                assert(m == orig[i]);
            }
            let new_name: Option<String> = match &m.name {
                Some(n) => {
                    if text_eq(n, "Boost Target") || text_eq(n, "Boost Target Map") {
                        Some(text("Boost target map"))
                    } else if text_eq(n, "Boost Target 2") {
                        Some(text("Boost target map 2"))
                    } else if text_eq(n, "Boost Limiter") || text_eq(n, "Boost Limiter (Altitude)") {
                        Some(text("Boost limit map"))
                    } else if text_eq(n, "N75 Duty Cycle") {
                        Some(text("N75 duty cycle"))
                    } else if text_eq(n, "SVBL - Max Boost Pressure") || text_eq(n, "Max Boost Pressure") {
                        Some(text("SVBL (Single value boost limiter)"))
                    } else if text_eq(n, "Turbo Boost Pressure Correction") {
                        Some(text("Boost correction by temperature"))
                    } else {
                        None
                    }
                },
                None => None,
            };
            match new_name {
                Some(n) => {
                    m.name = Some(n);
                },
                None => {},
            }
            maps.push(m);
            proof {
                i = i + 1;
                assert(rest@ =~= orig.subrange(i, orig.len() as int));
            }
        }
    }

    /// Every map of the image (see the module documentation); `score` judges
    /// the cells of the tables of the axis scan proper. No reported map meets
    /// a map reported before it, except the minimum injection break map, and
    /// every map with a unit and both axis labels has a description. The
    /// maximum boost pressure scalar is reported when the image holds a boost
    /// limit table; every map that the scans for the RPM limiter, the maximum
    /// vehicle speeds, the start of injection limiters and the smoke limiters
    /// require has its place taken in the list: reported, or its bytes or
    /// address held by a map reported before it. Likewise each map that the
    /// scans for the extra tables, gearbox limiters, fuel corrections, EGR,
    /// idle speed, exhaust gas temperature and begin of injection period maps
    /// report has its place held (by a map reported before it, or by the
    /// bytes of a dynamic duration map), and each address those scans were
    /// told to leave out is held. The same holds of the axis pass (run in
    /// this detector's mode, with `score`), the turbo region and the
    /// late-region scans, where a start of injection map of a block, which
    /// the block check may leave out, can also hold a place. No raw
    /// boost-family or dynamic name is left, and an empty image gives no map.
    #[verifier::spinoff_prover]
    #[verifier::rlimit(100)]
    pub fn detect<F: Fn(Vec<i16>, usize, usize, MapType) -> Option<u32>>(&self, data: &[u8], score: &F) -> (r: Vec<
        DetectedMap,
    >)
        requires
            data@.len() <= u32::MAX,
            data@.len() + 0x10000 <= usize::MAX,
            forall|v: Vec<i16>, rows: usize, cols: usize, t: MapType| #[trigger] score.requires((v, rows, cols, t)),
        ensures
            apart(r@),
            forall|k: int| 0 <= k < r@.len() ==> described(#[trigger] r@[k]),
            has_svbl_tail(data@) ==> has_svbl_map(data@, r@) && has_svbl_scalar(data@, r@),
            names_finished(r@),
            data@.len() == 0 ==> r@.len() == 0,
            svrl_shown(data@, r@),
            vmax_shown(data@, r@),
            soi_limiter_shown(data@, r@),
            smoke_shown(data@, r@),
            lambda_shown(data@, r@),
            stagex_shown(data@, r@),
            gearbox_shown(data@, r@),
            fuel_shown(data@, r@),
            egr_shown(data@, r@),
            idle_shown(data@, r@),
            egt_shown(data@, r@),
            bip_shown(data@, r@),
            axis_shown(data@, self.tuned(), *score, r@),
            turbo_shown(data@, r@),
            region_shown(data@, r@),
    {
        let ghost s = data@;
        if data.len() == 0 {
            proof {
                lemma_empty_shown(s);
                lemma_empty_axis(s, self.tuned(), *score);
                lemma_empty_regions(s);
            }
            return Vec::new();
        }
        let mut all: Vec<DetectedMap> = Vec::new();
        let mut ranges: Vec<(u32, u32)> = Vec::new();
        let mut addresses: HashSet<u32> = HashSet::new();
        let (start, end) = get_data_section_range(data.len());
        let found = self.detect_svbl_by_signature(data);
        let ghost svbl_found = found@;
        let ghost (oa, or, fnd) = (all@, ranges@, found@);
        let ghost has = svbl_found.len() > 0;
        let ghost svm = if has { svbl_found[0] } else { arbitrary() };
        add_unclaimed(&mut all, &mut ranges, &mut addresses, found, false);
        let ghost w: int = if has { choose|w: int| 0 <= w < all@.len() && all@[w] == svm } else { 0 };
        proof {
            if has_svbl_tail(s) {
                let o = choose|o: int|
                    data_section(s.len() as int).0 <= o < data_section(s.len() as int).1 - 8 && #[trigger] svbl_tail(s, o);
                assert(svbl_tail(s, o));
                assert(has);
            }
            if has {
                assert(!claimed_by(range_of(svbl_found[0]), Seq::<(u32, u32)>::empty()));
                assert(all@.contains(svm));
                assert(svbl_at(s, svm.address as int));
                assert(has_text(svm.name, "SVBL - Max Boost Pressure"@));
            }
            assert forall|k: int| 0 <= k < fnd.len() implies plain(#[trigger] fnd[k]) by {
                lemma_named_plain(fnd[k]);
            }
            lemma_claim_step(oa, all@, or, ranges@, fnd);
        }
        let found = self.detect_svrl_by_signature(data);
        let ghost (oa, or, fnd) = (all@, ranges@, found@);
        add_unclaimed(&mut all, &mut ranges, &mut addresses, found, false);
        let ghost sv_all = all@;
        proof {
            assert forall|k: int| 0 <= k < fnd.len() implies plain(#[trigger] fnd[k]) by {
                lemma_named_plain(fnd[k]);
            }
            lemma_claim_step(oa, all@, or, ranges@, fnd);
            lemma_svrl_stage(s, fnd, all@, ranges@);
        }
        let taken = starts_of(&ranges);
        let found = self.detect_maximum_vehicle_speed(data, &taken);
        let ghost (oa, or, fnd) = (all@, ranges@, found@);
        add_unclaimed(&mut all, &mut ranges, &mut addresses, found, false);
        let ghost v_all = all@;
        proof {
            assert forall|k: int| 0 <= k < fnd.len() implies plain(#[trigger] fnd[k]) by {
                assert(vmax_map(fnd[k], (k + 1) as nat));
                assert(has_text(fnd[k].name, "Maximum Vehicle Speed "@ + decimal((k + 1) as nat)));
                lemma_named_plain(fnd[k]);
            }
            lemma_claim_step(oa, all@, or, ranges@, fnd);
            lemma_vmax_stage(s, or, taken@, fnd, all@, ranges@);
        }
        let nothing: HashSet<u32> = HashSet::new();
        let found = self.detect_soi_limiter_maps(data, start, end, &nothing);
        let ghost (oa, or, fnd) = (all@, ranges@, found@);
        add_unclaimed(&mut all, &mut ranges, &mut addresses, found, false);
        let ghost sl_all = all@;
        proof {
            assert forall|k: int| 0 <= k < fnd.len() implies plain(#[trigger] fnd[k]) by {
                lemma_named_plain(fnd[k]);
            }
            lemma_claim_step(oa, all@, or, ranges@, fnd);
            lemma_soi_limiter_stage(s, fnd, all@, ranges@);
        }
        let taken = starts_of(&ranges);
        let found = self.detect_iq_limit_maps_by_signature(data, &taken);
        let ghost (oa, or, fnd) = (all@, ranges@, found@);
        add_unclaimed(&mut all, &mut ranges, &mut addresses, found, false);
        let ghost sm_all = all@;
        proof {
            assert forall|k: int| 0 <= k < fnd.len() implies plain(#[trigger] fnd[k]) by {
                lemma_smoke_plain(s, taken@, fnd[k]);
            }
            lemma_claim_step(oa, all@, or, ranges@, fnd);
            lemma_smoke_stage(s, or, taken@, fnd, all@, ranges@);
        }
        let taken = starts_of(&ranges);
        let found = self.detect_small_lambda_maps(data, &taken);
        let ghost (oa, or, fnd) = (all@, ranges@, found@);
        add_unclaimed(&mut all, &mut ranges, &mut addresses, found, false);
        let ghost early = all@;
        proof {
            assert forall|k: int| 0 <= k < fnd.len() implies plain(#[trigger] fnd[k]) by {
                assert(lambda_map(s, fnd[k], header_of(fnd[k])));
                lemma_named_plain(fnd[k]);
            }
            lemma_claim_step(oa, all@, or, ranges@, fnd);
            lemma_lambda_stage(s, or, taken@, fnd, all@, ranges@);
            lemma_begins_kept(sv_all, early);
            lemma_shown_kept(s, sv_all, early);
            lemma_begins_kept(v_all, early);
            lemma_shown_kept(s, v_all, early);
            lemma_begins_kept(sl_all, early);
            lemma_shown_kept(s, sl_all, early);
            lemma_begins_kept(sm_all, early);
            lemma_shown_kept(s, sm_all, early);
        }
        let mut addresses = starts_of(&ranges);
        proof {
            lemma_backed_from(s, all@, ranges@);
            assert(addresses_start(addresses@, ranges@));
        }
        let ghost pre_dur = all@;
        let (a2, r2, ad2) = self.claim_duration_blocks(data, all, ranges, addresses);
        all = a2;
        ranges = r2;
        addresses = ad2;
        proof {
            if has {
                assert(all@[w] == pre_dur[w]);
            }
        }
        let ghost pre_late = all@;
        let (a3, r3, ad3) = self.claim_late_scans(data, all, ranges, addresses);
        all = a3;
        ranges = r3;
        addresses = ad3;
        proof {
            if has {
                assert(all@[w] == pre_late[w]);
            }
        }
        let ghost late = all@;
        proof {
            lemma_plain_nd(late);
        }
        let ghost pre_ax = all@;
        let (a4, r4, ad4) = self.claim_axis_scans(data, start, end, score, all, ranges, addresses);
        all = a4;
        ranges = r4;
        addresses = ad4;
        let ghost all_r = all@;
        proof {
            if has {
                assert(all@[w] == pre_ax[w]);
            }
        }

        let mut soi_addresses: Vec<u32> = Vec::new();
        let mut limiter_addresses: Vec<u32> = Vec::new();
        let mut k: usize = 0;
        while k < all.len()
            decreases all.len() - k,
        {
            let is_soi = match &all[k].name {
                Some(n) => text_starts_with(n, "Start of injection"),
                None => false,
            };
            if is_soi {
                soi_addresses.push(all[k].address);
            }
            if named(&all[k], "SOI Limiter") {
                limiter_addresses.push(all[k].address);
            }
            k += 1;
        }
        let selectors = if soi_addresses.len() > 0 {
            self.detect_soi_selector_by_signature(data, soi_addresses.as_slice())
        } else {
            Vec::new()
        };
        let mut valid: Vec<u32> = Vec::new();
        let mut k: usize = 0;
        while k < soi_addresses.len()
            decreases soi_addresses.len() - k,
        {
            let a = soi_addresses[k];
            if is_block_start(soi_addresses.as_slice(), a) {
                let end_std = a as u64 + 4480;
                let sel_hi = end_std + 620;
                let lim_hi = end_std + 3320;
                let mut has_selector = false;
                let mut q: usize = 0;
                while q < selectors.len()
                    decreases selectors.len() - q,
                {
                    let sa = selectors[q].address as u64;
                    if sa > end_std && sa < sel_hi {
                        has_selector = true;
                    }
                    q += 1;
                }
                let mut has_limiter = false;
                let mut q: usize = 0;
                while q < limiter_addresses.len()
                    decreases limiter_addresses.len() - q,
                {
                    let la = limiter_addresses[q] as u64;
                    if la > end_std && la < lim_hi {
                        has_limiter = true;
                    }
                    q += 1;
                }
                if has_selector && has_limiter {
                    valid.push(a);
                }
            }
            k += 1;
        }
        let ghost before_check = all@;
        assert(covered(before_check, ranges@));
        assert(begins_with(early, before_check));
        assert(begins_with(late, before_check));
        assert(begins_with(all_r, before_check));
        proof {
            if has {
                assert(before_check[w] == svm);
                lemma_svbl_kept(svm, valid@);
                lemma_filter_keeps(before_check, valid@, svm);
            }
        }
        let all = keep_valid_soi(all, &valid);
        proof {
            assert forall|k: int| 0 <= k < all@.len() implies !has_text((#[trigger] all@[k]).name, "Duration (Dynamic)"@) by {
                let j = choose|j: int| 0 <= j < before_check.len() && before_check[j] == all@[k];
                assert(!has_text(before_check[j].name, "Duration (Dynamic)"@));
            }
        }
        let ghost w2: int = if has { choose|w2: int| 0 <= w2 < all@.len() && all@[w2] == svm } else { 0 };
        let mut all = all;
        let mut kept_selectors: Vec<DetectedMap> = Vec::new();
        let mut selectors = selectors;
        while selectors.len() > 0
            invariant
                forall|k: int| 0 <= k < selectors@.len() ==> has_text((#[trigger] selectors@[k]).name, "SOI Selector"@),
                forall|k: int| 0 <= k < kept_selectors@.len() ==> has_text((#[trigger] kept_selectors@[k]).name, "SOI Selector"@),
            decreases selectors.len(),
        {
            let ghost sv = selectors@;
            let sel = selectors.remove(0);
            proof {
                assert(sel == sv[0]);
                assert forall|k: int| 0 <= k < selectors@.len() implies has_text((#[trigger] selectors@[k]).name, "SOI Selector"@) by {
                    assert(selectors@[k] == sv[k + 1]);
                }
            }
            let sa = sel.address as u64;
            let mut belongs = false;
            let mut q: usize = 0;
            while q < valid.len()
                decreases valid.len() - q,
            {
                let b_end = valid[q] as u64 + 4480;
                if sa > b_end && sa < b_end + 300 {
                    belongs = true;
                }
                q += 1;
            }
            if belongs {
                kept_selectors.push(sel);
            }
        }
        proof {
            assert forall|k: int| 0 <= k < all@.len() implies ranges@.contains(range_of(#[trigger] all@[k])) by {
                let j = choose|j: int| 0 <= j < before_check.len() && before_check[j] == all@[k];
                assert(ranges@.contains(range_of(before_check[j])));
            }
        }
        let ghost (oa, fnd) = (all@, kept_selectors@);
        proof {
            assert(all_nd(oa));
            assert forall|k: int| 0 <= k < fnd.len() implies !has_text((#[trigger] fnd[k]).name, "Duration (Dynamic)"@) by {
                lemma_selector_nd(fnd[k]);
            }
        }
        add_unclaimed(&mut all, &mut ranges, &mut addresses, kept_selectors, false);
        proof {
            lemma_nd_grow(oa, all@, fnd);
        }
        let ghost a1 = all@;
        assert(begins_with(soi_filter(before_check, valid@), a1));
        let all = rename_dynamic(all);
        let ghost a2 = all@;
        let mut all = describe_all(all);
        let ghost pre = all@;
        Self::normalize_boost_names(&mut all);
        proof {
            lemma_finish(s, a1, a2, pre, all@, has, w2, svm);
            lemma_kept_to_end(early, before_check, valid@, a1, a2, pre, all@);
            lemma_shown_kept(s, early, all@);
            lemma_kept_to_end(late, before_check, valid@, a1, a2, pre, all@);
            lemma_late_moves(s, late, all@);
            lemma_kept_or_soi2(s, all_r, before_check, valid@, a1, a2, pre, all@);
            lemma_pre_final(s, self.tuned(), *score, late, all_r, all@);
        }
        proof {
            lemma_literals_differ();
            assert forall|p: int, q: int|
                0 <= p < q < all@.len() && !is_min_break(#[trigger] all@[q]) implies !ranges_meet(
                range_of(#[trigger] all@[p]),
                range_of(all@[q]),
            ) by {
                assert(same_but_name(pre[p], all@[p]) && same_but_name(pre[q], all@[q]));
                if is_min_break(pre[q]) {
                    assert(pre[q].name->0@ == min_break_name());
                    assert(normalized_name(min_break_name()) == min_break_name());
                }
            }
            assert forall|k: int| 0 <= k < all@.len() implies described(#[trigger] all@[k]) by {
                assert(same_but_name(pre[k], all@[k]));
                assert(described(pre[k]));
            }
        }
        all
    }
}


impl EDC16U31Detector {
    /// Claims the injection duration blocks: each selector whose range is
    /// free, the maps of its block (the first 10 x 10 dynamic map named
    /// "Duration 06", the bytes of the other dynamic maps claimed without a
    /// map) and the minimum injection break map after the block.
    #[verifier::spinoff_prover]
    #[verifier::rlimit(100)]
    fn claim_duration_blocks(
        &self,
        data: &[u8],
        all: Vec<DetectedMap>,
        ranges: Vec<(u32, u32)>,
        addresses: HashSet<u32>,
    ) -> (r: (Vec<DetectedMap>, Vec<(u32, u32)>, HashSet<u32>))
        requires
            data@.len() <= u32::MAX,
            data@.len() + 0x10000 <= usize::MAX,
            apart(all@),
            covered(all@, ranges@),
            ranges_backed(data@, all@, ranges@),
            addresses_start(addresses@, ranges@),
            all_plain(all@),
        ensures
            apart(r.0@),
            covered(r.0@, r.1@),
            ranges_backed(data@, r.0@, r.1@),
            addresses_start(r.2@, r.1@),
            all_plain(r.0@),
            begins_with(all@, r.0@),
    {
        let ghost s = data@;
        let ghost a0 = all@;
        let mut all = all;
        let mut ranges = ranges;
        let mut addresses = addresses;
        let selectors = self.detect_duration_selector(data);
        let mut selectors = selectors;
        while selectors.len() > 0
            invariant
                apart(all@),
                covered(all@, ranges@),
                s == data@,
                data@.len() <= u32::MAX,
                data@.len() + 0x10000 <= usize::MAX,
                begins_with(a0, all@),
                ranges_backed(s, all@, ranges@),
                addresses_start(addresses@, ranges@),
                all_plain(all@),
                forall|k: int| 0 <= k < selectors@.len() ==> has_text((#[trigger] selectors@[k]).1.name, "Duration Selector"@),
            decreases selectors.len(),
        {
            let ghost sv = selectors@;
            let (sel_addr, sel) = selectors.remove(0);
            proof {
                assert(sel == sv[0].1);
                assert forall|k: int| 0 <= k < selectors@.len() implies has_text((#[trigger] selectors@[k]).1.name, "Duration Selector"@) by {
                    assert(selectors@[k] == sv[k + 1]);
                }
            }
            let r = map_range(&sel);
            if overlaps(&ranges, r) {
                continue;
            }
            let block_start = sel.address as usize;
            let mut block_end: u64 = end_of(sel.address, sel.size);
            let mut one: Vec<DetectedMap> = Vec::new();
            one.push(sel);
            let ghost (oa, or, fnd) = (all@, ranges@, one@);
            proof {
                lemma_literal_plain(sel);
                assert forall|k: int| 0 <= k < fnd.len() implies plain(#[trigger] fnd[k]) by {
                    assert(fnd[k] == sel);
                }
            }
            add_unclaimed(&mut all, &mut ranges, &mut addresses, one, false);
            proof {
                assert(begins_with(oa, all@));
                lemma_backed_add(s, oa, all@, or, ranges@, addresses@, addresses@, false);
                lemma_plain_grow(oa, all@, fnd);
            }
            let block = self.detect_duration_block_maps(data, sel_addr, &addresses);
            let ghost d0 = addresses@;
            let mut block = block;
            let mut d06 = false;
            proof {
                lemma_literals_differ();
            }
            while block.len() > 0
                invariant
                    apart(all@),
                    covered(all@, ranges@),
                    min_break_name() != "Duration 06"@,
                    begins_with(a0, all@),
                    s == data@,
                    ranges_backed(s, all@, ranges@),
                    addresses_start(addresses@, ranges@),
                    all_plain(all@),
                    forall|k: int| 0 <= k < block@.len() ==> in_duration_block(s, sel_addr as int, d0, #[trigger] block@[k]),
                decreases block.len(),
            {
                let ghost bv = block@;
                let mut m = block.remove(0);
                proof {
                    assert(m == bv[0]);
                    assert(in_duration_block(s, sel_addr as int, d0, bv[0]));
                    assert forall|k: int| 0 <= k < block@.len() implies in_duration_block(s, sel_addr as int, d0, #[trigger] block@[k]) by {
                        assert(block@[k] == bv[k + 1]);
                        assert(in_duration_block(s, sel_addr as int, d0, bv[k + 1]));
                    }
                }
                let mr = map_range(&m);
                if overlaps(&ranges, mr) {
                    continue;
                }
                let ghost ad0 = addresses@;
                addresses.insert(m.address);
                let map_end = end_of(m.address, m.size);
                if map_end > block_end {
                    block_end = map_end;
                }
                let dynamic = named(&m, "Duration (Dynamic)");
                let ten = match m.dimensions {
                    MapDimensions::TwoDimensional { rows, cols } => rows == 10 && cols == 10,
                    _ => false,
                };
                if !dynamic {
                    proof {
                        let (o, idx) = choose|o: int, idx: int| #[trigger] duration_ok(s, sel_addr as int, d0, m, o, idx);
                        if idx > 5 {
                            assert(duration_name(idx) == "Duration (Dynamic)"@);
                        }
                        lemma_duration_plain(s, sel_addr as int, d0, m, o, idx);
                    }
                    let mut one: Vec<DetectedMap> = Vec::new();
                    one.push(m);
                    let ghost (oa, or, fnd) = (all@, ranges@, one@);
                    add_unclaimed(&mut all, &mut ranges, &mut addresses, one, false);
                    proof {
                        lemma_claim_one(s, oa, all@, or, ranges@, ad0, m, fnd);
                    }
                } else if !d06 && ten {
                    m.name = Some(text("Duration 06"));
                    proof {
                        lemma_literal_plain(m);
                    }
                    let mut one: Vec<DetectedMap> = Vec::new();
                    one.push(m);
                    let ghost (oa, or, fnd) = (all@, ranges@, one@);
                    add_unclaimed(&mut all, &mut ranges, &mut addresses, one, false);
                    proof {
                        lemma_claim_one(s, oa, all@, or, ranges@, ad0, m, fnd);
                    }
                    d06 = true;
                } else {
                    let ghost before = ranges@;
                    ranges.push(mr);
                    proof {
                        assert forall|k: int| 0 <= k < all@.len() implies ranges@.contains(range_of(#[trigger] all@[k])) by {
                            let w = choose|w: int| 0 <= w < before.len() && before[w] == range_of(all@[k]);
                            assert(ranges@[w] == before[w]);
                        }
                        assert(dyn_table(s, m));
                        lemma_backed_dyn(s, all@, before, m);
                        lemma_start_push(ad0, before, range_of(m));
                    }
                }
            }
            let hi64: u64 = if block_end <= u64::MAX - 0x400 { block_end + 0x400 } else { u64::MAX };
            let hi: usize = if hi64 <= usize::MAX as u64 { hi64 as usize } else { usize::MAX };
            match self.detect_duration_min_break(data, block_start, hi, &addresses) {
                Some(mb) => {
                    let ghost ad0 = addresses@;
                    addresses.insert(mb.address);
                    let mr = map_range(&mb);
                    let ghost before = all@;
                    let ghost rbefore = ranges@;
                    ranges.push(mr);
                    all.push(mb);
                    proof {
                        lemma_literal_plain(mb);
                        lemma_backed_push(s, before, rbefore, mb);
                        lemma_start_push(ad0, rbefore, range_of(mb));
                        assert(all_plain(all@)) by {
                            assert forall|k: int| 0 <= k < all@.len() implies plain(#[trigger] all@[k]) by {
                                if k < before.len() {
                                    assert(all@[k] == before[k]);
                                }
                            }
                        }
                        assert(is_min_break(all@[all@.len() - 1]));
                        assert forall|p: int, q: int|
                            0 <= p < q < all@.len() && !is_min_break(#[trigger] all@[q]) implies !ranges_meet(
                            range_of(#[trigger] all@[p]),
                            range_of(all@[q]),
                        ) by {
                            assert(all@[p] == before[p] && all@[q] == before[q]);
                        }
                        assert forall|k: int| 0 <= k < all@.len() implies ranges@.contains(range_of(#[trigger] all@[k])) by {
                            if k == all@.len() - 1 {
                                assert(ranges@[ranges@.len() - 1] == mr);
                            } else {
                                assert(all@[k] == before[k]);
                                let w = choose|w: int| 0 <= w < rbefore.len() && rbefore[w] == range_of(before[k]);
                                assert(ranges@[w] == rbefore[w]);
                            }
                        }
                    }
                },
                None => {},
            }
        }
        (all, ranges, addresses)
    }

    /// Claims what the scans that record their addresses find: the extra
    /// tables, the gearbox limiters, the fuel corrections, the EGR, idle
    /// speed, exhaust gas temperature and begin of injection period maps.
    #[verifier::spinoff_prover]
    #[verifier::rlimit(100)]
    fn claim_late_scans(
        &self,
        data: &[u8],
        all: Vec<DetectedMap>,
        ranges: Vec<(u32, u32)>,
        addresses: HashSet<u32>,
    ) -> (r: (Vec<DetectedMap>, Vec<(u32, u32)>, HashSet<u32>))
        requires
            data@.len() <= u32::MAX,
            data@.len() + 0x10000 <= usize::MAX,
            apart(all@),
            covered(all@, ranges@),
            ranges_backed(data@, all@, ranges@),
            addresses_start(addresses@, ranges@),
            all_plain(all@),
        ensures
            apart(r.0@),
            covered(r.0@, r.1@),
            ranges_backed(data@, r.0@, r.1@),
            all_plain(r.0@),
            begins_with(all@, r.0@),
            stagex_shown(data@, r.0@),
            gearbox_shown(data@, r.0@),
            fuel_shown(data@, r.0@),
            egr_shown(data@, r.0@),
            idle_shown(data@, r.0@),
            egt_shown(data@, r.0@),
            bip_shown(data@, r.0@),
    {
        let ghost s = data@;
        let ghost a0 = all@;
        let mut all = all;
        let mut ranges = ranges;
        let mut addresses = addresses;
        let found = self.detect_stagex_extras(data, &addresses);
        let ghost (oa, or, d_stagex, f_stagex) = (all@, ranges@, addresses@, found@);
        add_unclaimed(&mut all, &mut ranges, &mut addresses, found, true);
        let ghost all_stagex = all@;
        proof {
            lemma_stagex_found(s, d_stagex, f_stagex);
            lemma_record_step(s, oa, all@, or, ranges@, d_stagex, addresses@, f_stagex);
        }
        let found = self.detect_gearbox_torque_limiter(data, &addresses);
        let ghost (oa, or, d_gearbox, f_gearbox) = (all@, ranges@, addresses@, found@);
        add_unclaimed(&mut all, &mut ranges, &mut addresses, found, true);
        let ghost all_gearbox = all@;
        proof {
            lemma_gearbox_found(s, d_gearbox, f_gearbox);
            lemma_record_step(s, oa, all@, or, ranges@, d_gearbox, addresses@, f_gearbox);
        }
        let found = self.detect_fuel_correction_maps(data, &addresses);
        let ghost (oa, or, d_fuel, f_fuel) = (all@, ranges@, addresses@, found@);
        add_unclaimed(&mut all, &mut ranges, &mut addresses, found, true);
        let ghost all_fuel = all@;
        proof {
            lemma_fuel_found(s, d_fuel, f_fuel);
            lemma_record_step(s, oa, all@, or, ranges@, d_fuel, addresses@, f_fuel);
        }
        let found = self.detect_egr_maps(data, &addresses);
        let ghost (oa, or, d_egr, f_egr) = (all@, ranges@, addresses@, found@);
        add_unclaimed(&mut all, &mut ranges, &mut addresses, found, true);
        let ghost all_egr = all@;
        proof {
            lemma_egr_found(s, d_egr, f_egr);
            lemma_record_step(s, oa, all@, or, ranges@, d_egr, addresses@, f_egr);
        }
        let found = self.detect_idle_speed_maps(data, &addresses);
        let ghost (oa, or, d_idle, f_idle) = (all@, ranges@, addresses@, found@);
        add_unclaimed(&mut all, &mut ranges, &mut addresses, found, true);
        let ghost all_idle = all@;
        proof {
            lemma_idle_found(s, d_idle, f_idle);
            lemma_record_step(s, oa, all@, or, ranges@, d_idle, addresses@, f_idle);
        }
        let found = self.detect_egt_maps(data, &addresses);
        let ghost (oa, or, d_egt, f_egt) = (all@, ranges@, addresses@, found@);
        add_unclaimed(&mut all, &mut ranges, &mut addresses, found, true);
        let ghost all_egt = all@;
        proof {
            lemma_egt_found(s, d_egt, f_egt);
            lemma_record_step(s, oa, all@, or, ranges@, d_egt, addresses@, f_egt);
        }
        let found = self.detect_bip_maps(data, &addresses);
        let ghost (oa, or, d_bip, f_bip) = (all@, ranges@, addresses@, found@);
        add_unclaimed(&mut all, &mut ranges, &mut addresses, found, true);
        let ghost all_bip = all@;
        proof {
            lemma_bip_found(s, d_bip, f_bip);
            lemma_record_step(s, oa, all@, or, ranges@, d_bip, addresses@, f_bip);
        }
        proof {
            lemma_begins_kept(all@, all@);
            lemma_late_shown(s, all@, all@, all_stagex, f_stagex, d_stagex, all_gearbox, f_gearbox, d_gearbox, all_fuel, f_fuel, d_fuel);
            lemma_late_shown2(s, all@, all@, all_egr, f_egr, d_egr, all_idle, f_idle, d_idle, all_egt, f_egt, d_egt, all_bip, f_bip, d_bip);
        }
        (all, ranges, addresses)
    }
}


impl EDC16U31Detector {
    /// Claims what the axis pass, the turbo region scan and the late-region
    /// scan find.
    #[verifier::spinoff_prover]
    #[verifier::rlimit(100)]
    fn claim_axis_scans<F: Fn(Vec<i16>, usize, usize, MapType) -> Option<u32>>(
        &self,
        data: &[u8],
        start: usize,
        end: usize,
        score: &F,
        all: Vec<DetectedMap>,
        ranges: Vec<(u32, u32)>,
        addresses: HashSet<u32>,
    ) -> (r: (Vec<DetectedMap>, Vec<(u32, u32)>, HashSet<u32>))
        requires
            data@.len() <= u32::MAX,
            data@.len() + 0x10000 <= usize::MAX,
            start == data_section(data@.len() as int).0,
            end == data_section(data@.len() as int).1,
            forall|v: Vec<i16>, rows: usize, cols: usize, t: MapType| #[trigger] score.requires((v, rows, cols, t)),
            apart(all@),
            covered(all@, ranges@),
            ranges_backed(data@, all@, ranges@),
            all_plain(all@),
            all_nd(all@),
        ensures
            apart(r.0@),
            covered(r.0@, r.1@),
            begins_with(all@, r.0@),
            all_nd(r.0@),
            forall|k: int| 0 <= k < r.0@.len() ==> not_soi_named(#[trigger] r.0@[k]) || soi_table(data@, r.0@[k]),
            axis_pre(data@, self.tuned(), *score, all@, r.0@),
            turbo_pre(data@, r.0@),
            region_pre(data@, r.0@),
    {
        let ghost s = data@;
        let ghost late = all@;
        let mut all = all;
        let mut ranges = ranges;
        let mut addresses = addresses;
        let found = self.detect_all_maps_by_axes(data, start, end, &ranges, score);
        let ghost (oa, fnd, ex) = (all@, found@, ranges@);
        let ghost f_ax = found@;
        proof {
            assert forall|k: int| 0 <= k < fnd.len() implies !has_text((#[trigger] fnd[k]).name, "Duration (Dynamic)"@) by {
                lemma_axis_nd(s, start as int, end as int, self.tuned(), ranges@, *score, fnd[k]);
            }
        }
        add_unclaimed(&mut all, &mut ranges, &mut addresses, found, false);
        proof {
            lemma_nd_grow(oa, all@, fnd);
            lemma_backed_add(s, oa, all@, ex, ranges@, Set::<u32>::empty(), Set::<u32>::empty(), false);
            lemma_scan_stage(s, all@, ranges@, ex, fnd, Set::<u32>::empty());
            assert(begins_with(late, all@));
        }
        let ghost ax = all@;
        let taken = starts_of(&ranges);
        let found = self.detect_turbo_region_maps(data, &taken);
        let ghost (oa, fnd) = (all@, found@);
        let ghost (or_t, d_t, f_t) = (ranges@, taken@, found@);
        proof {
            assert forall|k: int| 0 <= k < fnd.len() implies !has_text((#[trigger] fnd[k]).name, "Duration (Dynamic)"@) by {
                lemma_region_nd(s, taken@, fnd[k]);
            }
        }
        add_unclaimed(&mut all, &mut ranges, &mut addresses, found, false);
        proof {
            lemma_nd_grow(oa, all@, fnd);
            lemma_backed_add(s, oa, all@, or_t, ranges@, Set::<u32>::empty(), Set::<u32>::empty(), false);
            lemma_scan_stage(s, all@, ranges@, or_t, f_t, d_t);
            assert(begins_with(ax, all@));
        }
        let ghost all_t = all@;
        let taken = starts_of(&ranges);
        let found = self.detect_region1d_header_maps(data, &taken);
        let ghost (oa, fnd) = (all@, found@);
        let ghost (or_r, d_r, f_r) = (ranges@, taken@, found@);
        proof {
            assert forall|k: int| 0 <= k < fnd.len() implies !has_text((#[trigger] fnd[k]).name, "Duration (Dynamic)"@) by {
                lemma_region_nd(s, taken@, fnd[k]);
            }
        }
        add_unclaimed(&mut all, &mut ranges, &mut addresses, found, false);
        proof {
            lemma_nd_grow(oa, all@, fnd);
            lemma_backed_add(s, oa, all@, or_r, ranges@, Set::<u32>::empty(), Set::<u32>::empty(), false);
            lemma_scan_stage(s, all@, ranges@, or_r, f_r, d_r);
            assert(begins_with(all_t, all@));
        }
        let ghost all_r = all@;
        proof {
            lemma_axis_names(s, self.tuned(), ex, *score, late, f_ax, ax, all_t, f_t, d_t, all_r, f_r, d_r);
            assert(axis_post(s, data_section(s.len() as int).0, data_section(s.len() as int).1, self.tuned(), ex, *score, f_ax)
                && ranges_backed(s, late, ex) && forall|k: int|
                0 <= k < f_ax.len() ==> placed(s, ax, (#[trigger] f_ax[k]).address, range_of(f_ax[k])));
            lemma_pre_grows(s, self.tuned(), *score, late, ax, all_r);
            assert(turbo_post(s, d_t, f_t) && scan_shown(s, all_t, f_t, d_t));
            lemma_pre_grows(s, self.tuned(), *score, late, all_t, all_r);
            assert(region_post(s, d_r, f_r) && scan_shown(s, all_r, f_r, d_r));
        }
        (all, ranges, addresses)
    }
}

} // verus!
