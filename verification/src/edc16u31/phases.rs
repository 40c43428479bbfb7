//! What the later phases of the axis scan leave in its list: each table
//! that a phase requires is at an address of the list, unless it lies
//! inside a table of the same kind found before it.
use vstd::prelude::*;
use crate::model::{DetectedMap, listed};
use super::axis_scan::{address_in, grows_from};
use super::headed::{
    boost_at, boost_frame_at, cranking_frame, cranking_shape, cranking_table, n75_at, n75_frame_at, table_data,
    table_end,
};
use super::limiters::{linearisation_at, scanned};
use super::boost::{boost_limiter_candidate, limiter_at, limiter_claimed, limiter_ms, limiter_rows, target_candidate, target_claimed, target_ms};
use super::driver_wish::{all_zero, dw_block, dw_end, dw_inside, dw_ms, dw_strict};
use crate::bytes::bytes_at;
use super::{data_section, scan_limit};

verus! {

/// Every N75 duty cycle table of the data section is at an address of `r`,
/// unless it starts inside the frame of one before it.
pub open spec fn n75_placed(s: Seq<u8>, r: Seq<DetectedMap>) -> bool {
    let (st, en) = data_section(s.len() as int);
    forall|o: int|
        st <= o && (o - st) % 2 == 0 && o + 100 <= en && o + 100 <= s.len() && #[trigger] n75_at(s, o) ==> address_in(
            r,
            table_data(o, s[o + 1] as int, s[o + 3] as int) as u32,
        ) || exists|h: int| st <= h < o < table_end(h, s[h + 1] as int, s[h + 3] as int) && #[trigger] n75_frame_at(s, h)
}

/// Every cranking torque table of the scan is at an address of `r`, unless
/// it starts inside the frame of one before it.
pub open spec fn cranking_placed(s: Seq<u8>, start: int, end: int, r: Seq<DetectedMap>) -> bool {
    forall|o: int, rows: int, cols: int|
        cranking_shape(rows, cols) && start <= o && (o - start) % 2 == 0 && o + 200 <= end && o + 200 <= s.len()
            && #[trigger] cranking_table(s, o, rows, cols) ==> address_in(r, table_data(o, rows, cols) as u32) || exists|
            h: int,
        | start <= h < o < table_end(h, rows, cols) && #[trigger] cranking_frame(s, h, rows, cols)
}

/// Every boost correction table of the scan is at an address of `r`,
/// unless it starts inside the frame of one before it.
pub open spec fn boost_correction_placed(s: Seq<u8>, start: int, end: int, r: Seq<DetectedMap>) -> bool {
    forall|o: int|
        start <= o && (o - start) % 2 == 0 && o + 400 <= end && o + 400 <= s.len() && #[trigger] boost_at(s, o)
            ==> address_in(r, table_data(o, s[o + 1] as int, 10) as u32) || exists|h: int|
            start <= h < o < table_end(h, s[h + 1] as int, 10) && #[trigger] boost_frame_at(s, h)
}

/// Every MAP linearisation curve of the scan is at an address of `r`,
/// unless it starts within twelve bytes after one before it.
pub open spec fn linearisation_placed(s: Seq<u8>, start: int, end: int, r: Seq<DetectedMap>) -> bool {
    forall|o: int|
        scanned(s.len() as int, start, end, o, 20) && (o - start) % 2 == 0 && #[trigger] linearisation_at(s, o)
            ==> address_in(r, (o + 10) as u32) || exists|h: int|
            scanned(s.len() as int, start, end, h, 20) && (h - start) % 2 == 0 && h < o < h + 12
                && #[trigger] linearisation_at(s, h)
}

/// Every driver wish table of the scan is at an address of `r`, unless it
/// starts inside a driver wish block before it.
pub open spec fn driver_wish_placed(s: Seq<u8>, start: int, end: int, r: Seq<DetectedMap>) -> bool {
    forall|o: int|
        start <= o && (o - start) % 2 == 0 && #[trigger] dw_block(s, scan_limit(s, end), o) && dw_strict(s, o)
            && !all_zero(s, dw_ms(s, o), dw_end(s, o) - dw_ms(s, o)) ==> address_in(r, dw_ms(s, o) as u32)
            || dw_inside(s, scan_limit(s, end), start, o)
}

/// Every boost target of the scan is claimed in `r`.
pub open spec fn boost_target_placed(s: Seq<u8>, start: int, end: int, tuned: bool, r: Seq<DetectedMap>) -> bool {
    forall|o: int, pad: int, rows: int|
        (rows == 16 || rows == 15) && #[trigger] target_candidate(s, Set::empty(), start, end, tuned, rows, o, pad)
            ==> address_in(r, target_ms(o, pad, rows) as u32) || target_claimed(s, r, start, rows, o)
}

/// Every boost limiter of the scan is claimed in `r`.
pub open spec fn boost_limiter_placed(s: Seq<u8>, start: int, end: int, r: Seq<DetectedMap>) -> bool {
    forall|o: int, kind: int|
        0 <= kind <= 2 && #[trigger] boost_limiter_candidate(s, Set::empty(), start, end, kind, o) ==> address_in(
            r,
            limiter_ms(o, kind) as u32,
        ) || limiter_claimed(s, r, start, kind, o)
}

/// An address of `a` is one of `b` when `b` grows from `a`.
pub proof fn lemma_address_grows(a: Seq<DetectedMap>, b: Seq<DetectedMap>)
    requires
        grows_from(a, b),
    ensures
        forall|x: u32| #[trigger] address_in(a, x) ==> address_in(b, x),
        forall|x: int| #[trigger] listed(a, x) ==> listed(b, x),
{
    assert forall|x: u32| #[trigger] address_in(a, x) implies address_in(b, x) by {
        let k = choose|k: int| 0 <= k < a.len() && (#[trigger] a[k]).address == x;
        assert(b[k] == a[k]);
    }
    assert forall|x: int| #[trigger] listed(a, x) implies listed(b, x) by {
        let k = choose|k: int| 0 <= k < a.len() && (#[trigger] a[k]).address == x;
        assert(b[k] == a[k]);
    }
}

/// What a phase listed is listed in a list that holds each of its addresses.
proof fn lemma_found_listed(found: Seq<DetectedMap>, ma: Seq<DetectedMap>)
    requires
        forall|k: int| 0 <= k < found.len() ==> address_in(ma, (#[trigger] found[k]).address),
    ensures
        forall|x: int| #[trigger] listed(found, x) ==> listed(ma, x),
{
    assert forall|x: int| #[trigger] listed(found, x) implies listed(ma, x) by {
        let k = choose|k: int| 0 <= k < found.len() && (#[trigger] found[k]).address == x;
        assert(address_in(ma, found[k].address));
        let j = choose|j: int| 0 <= j < ma.len() && (#[trigger] ma[j]).address == found[k].address;
        assert(ma[j].address == x);
    }
}

/// Boost targets and limiters claimed in `a` are claimed in `b`.
proof fn lemma_claims_move(s: Seq<u8>, start: int, a: Seq<DetectedMap>, b: Seq<DetectedMap>)
    requires
        forall|x: int| #[trigger] listed(a, x) ==> listed(b, x),
    ensures
        forall|rows: int, o: int| #[trigger] target_claimed(s, a, start, rows, o) ==> target_claimed(s, b, start, rows, o),
        forall|kind: int, o: int| #[trigger] limiter_claimed(s, a, start, kind, o) ==> limiter_claimed(s, b, start, kind, o),
{
    assert forall|rows: int, o: int| #[trigger] target_claimed(s, a, start, rows, o) implies target_claimed(s, b, start, rows, o) by {
        if !listed(a, target_ms(o, 0, rows)) && !listed(a, target_ms(o, 4, rows)) {
            let (h, p) = choose|h: int, p: int|
                start <= h < o < target_ms(h, p, rows) + 20 * rows && (h - start) % 2 == 0 && (p == 0 || p == 4) && bytes_at(
                    s,
                    h,
                    seq![0x00u8, rows as u8, 0x00, 0x0A],
                ) && #[trigger] listed(a, target_ms(h, p, rows));
            assert(listed(b, target_ms(h, p, rows)));
        }
    }
    assert forall|kind: int, o: int| #[trigger] limiter_claimed(s, a, start, kind, o) implies limiter_claimed(s, b, start, kind, o) by {
        if !listed(a, limiter_ms(o, kind)) {
            let h = choose|h: int|
                start <= h < o < limiter_ms(h, kind) + 20 * limiter_rows(kind) && (h - start) % 2 == 0 && #[trigger] limiter_at(
                    s,
                    h,
                    kind,
                ) && listed(a, limiter_ms(h, kind));
            assert(listed(b, limiter_ms(h, kind)));
        }
    }
}

/// The placements hold on in a list that grows.
pub proof fn lemma_placed_grows(s: Seq<u8>, start: int, end: int, a: Seq<DetectedMap>, b: Seq<DetectedMap>)
    requires
        grows_from(a, b),
    ensures
        n75_placed(s, a) ==> n75_placed(s, b),
        cranking_placed(s, start, end, a) ==> cranking_placed(s, start, end, b),
        boost_correction_placed(s, start, end, a) ==> boost_correction_placed(s, start, end, b),
        linearisation_placed(s, start, end, a) ==> linearisation_placed(s, start, end, b),
        driver_wish_placed(s, start, end, a) ==> driver_wish_placed(s, start, end, b),
        forall|tuned: bool| boost_target_placed(s, start, end, tuned, a) ==> #[trigger] boost_target_placed(s, start, end, tuned, b),
        boost_limiter_placed(s, start, end, a) ==> boost_limiter_placed(s, start, end, b),
{
    lemma_address_grows(a, b);
    lemma_claims_move(s, start, a, b);
}

/// A merge puts each address that a phase listed, or that was taken
/// before it, among the addresses of the list.
proof fn lemma_merged_address(
    det: Set<u32>,
    mb: Seq<DetectedMap>,
    found: Seq<DetectedMap>,
    ma: Seq<DetectedMap>,
    x: int,
)
    requires
        forall|a: u32| #[trigger] det.contains(a) <==> address_in(mb, a),
        grows_from(mb, ma),
        forall|k: int| 0 <= k < found.len() ==> address_in(ma, (#[trigger] found[k]).address),
        det.contains(x as u32) || listed(found, x),
    ensures
        address_in(ma, x as u32),
{
    if det.contains(x as u32) {
        lemma_address_grows(mb, ma);
    } else {
        let k = choose|k: int| 0 <= k < found.len() && (#[trigger] found[k]).address == x;
        assert(address_in(ma, found[k].address));
    }
}

pub proof fn lemma_n75_phase(s: Seq<u8>, det: Set<u32>, mb: Seq<DetectedMap>, found: Seq<DetectedMap>, ma: Seq<DetectedMap>)
    requires
        forall|a: u32| #[trigger] det.contains(a) <==> address_in(mb, a),
        grows_from(mb, ma),
        forall|k: int| 0 <= k < found.len() ==> address_in(ma, (#[trigger] found[k]).address),
        forall|o: int|
            data_section(s.len() as int).0 <= o && (o - data_section(s.len() as int).0) % 2 == 0 && o + 100
                <= data_section(s.len() as int).1 && o + 100 <= s.len() && #[trigger] n75_at(s, o) && !det.contains(
                table_data(o, s[o + 1] as int, s[o + 3] as int) as u32,
            ) ==> listed(found, table_data(o, s[o + 1] as int, s[o + 3] as int)) || exists|h: int|
                data_section(s.len() as int).0 <= h < o < table_end(h, s[h + 1] as int, s[h + 3] as int)
                    && #[trigger] n75_frame_at(s, h),
    ensures
        n75_placed(s, ma),
{
    let (st, en) = data_section(s.len() as int);
    assert forall|o: int|
        st <= o && (o - st) % 2 == 0 && o + 100 <= en && o + 100 <= s.len() && #[trigger] n75_at(s, o) implies address_in(
        ma,
        table_data(o, s[o + 1] as int, s[o + 3] as int) as u32,
    ) || exists|h: int| st <= h < o < table_end(h, s[h + 1] as int, s[h + 3] as int) && #[trigger] n75_frame_at(s, h) by {
        let x = table_data(o, s[o + 1] as int, s[o + 3] as int);
        if det.contains(x as u32) || listed(found, x) {
            lemma_merged_address(det, mb, found, ma, x);
        }
    }
}

pub proof fn lemma_cranking_phase(
    s: Seq<u8>,
    start: int,
    end: int,
    det: Set<u32>,
    mb: Seq<DetectedMap>,
    found: Seq<DetectedMap>,
    ma: Seq<DetectedMap>,
)
    requires
        forall|a: u32| #[trigger] det.contains(a) <==> address_in(mb, a),
        grows_from(mb, ma),
        forall|k: int| 0 <= k < found.len() ==> address_in(ma, (#[trigger] found[k]).address),
        forall|o: int, rows: int, cols: int|
            cranking_shape(rows, cols) && start <= o && (o - start) % 2 == 0 && o + 200 <= end && o + 200 <= s.len()
                && #[trigger] cranking_table(s, o, rows, cols) && !det.contains(table_data(o, rows, cols) as u32)
                ==> listed(found, table_data(o, rows, cols)) || exists|h: int|
                start <= h < o < table_end(h, rows, cols) && #[trigger] cranking_frame(s, h, rows, cols),
    ensures
        cranking_placed(s, start, end, ma),
{
    assert forall|o: int, rows: int, cols: int|
        cranking_shape(rows, cols) && start <= o && (o - start) % 2 == 0 && o + 200 <= end && o + 200 <= s.len()
            && #[trigger] cranking_table(s, o, rows, cols) implies address_in(ma, table_data(o, rows, cols) as u32)
        || exists|h: int| start <= h < o < table_end(h, rows, cols) && #[trigger] cranking_frame(s, h, rows, cols) by {
        let x = table_data(o, rows, cols);
        if det.contains(x as u32) || listed(found, x) {
            lemma_merged_address(det, mb, found, ma, x);
        }
    }
}

pub proof fn lemma_boost_correction_phase(
    s: Seq<u8>,
    start: int,
    end: int,
    det: Set<u32>,
    mb: Seq<DetectedMap>,
    found: Seq<DetectedMap>,
    ma: Seq<DetectedMap>,
)
    requires
        forall|a: u32| #[trigger] det.contains(a) <==> address_in(mb, a),
        grows_from(mb, ma),
        forall|k: int| 0 <= k < found.len() ==> address_in(ma, (#[trigger] found[k]).address),
        forall|o: int|
            start <= o && (o - start) % 2 == 0 && o + 400 <= end && o + 400 <= s.len() && #[trigger] boost_at(s, o)
                && !det.contains(table_data(o, s[o + 1] as int, 10) as u32) ==> listed(
                found,
                table_data(o, s[o + 1] as int, 10),
            ) || exists|h: int| start <= h < o < table_end(h, s[h + 1] as int, 10) && #[trigger] boost_frame_at(s, h),
    ensures
        boost_correction_placed(s, start, end, ma),
{
    assert forall|o: int|
        start <= o && (o - start) % 2 == 0 && o + 400 <= end && o + 400 <= s.len() && #[trigger] boost_at(
            s,
            o,
        ) implies address_in(ma, table_data(o, s[o + 1] as int, 10) as u32) || exists|h: int|
        start <= h < o < table_end(h, s[h + 1] as int, 10) && #[trigger] boost_frame_at(s, h) by {
        let x = table_data(o, s[o + 1] as int, 10);
        if det.contains(x as u32) || listed(found, x) {
            lemma_merged_address(det, mb, found, ma, x);
        }
    }
}

pub proof fn lemma_linearisation_phase(
    s: Seq<u8>,
    start: int,
    end: int,
    det: Set<u32>,
    mb: Seq<DetectedMap>,
    found: Seq<DetectedMap>,
    ma: Seq<DetectedMap>,
)
    requires
        forall|a: u32| #[trigger] det.contains(a) <==> address_in(mb, a),
        grows_from(mb, ma),
        forall|k: int| 0 <= k < found.len() ==> address_in(ma, (#[trigger] found[k]).address),
        forall|o: int|
            scanned(s.len() as int, start, end, o, 20) && (o - start) % 2 == 0 && #[trigger] linearisation_at(s, o)
                && !det.contains((o + 10) as u32) ==> listed(found, o + 10) || exists|h: int|
                scanned(s.len() as int, start, end, h, 20) && (h - start) % 2 == 0 && h < o < h + 12
                    && #[trigger] linearisation_at(s, h),
    ensures
        linearisation_placed(s, start, end, ma),
{
    assert forall|o: int|
        scanned(s.len() as int, start, end, o, 20) && (o - start) % 2 == 0 && #[trigger] linearisation_at(
            s,
            o,
        ) implies address_in(ma, (o + 10) as u32) || exists|h: int|
        scanned(s.len() as int, start, end, h, 20) && (h - start) % 2 == 0 && h < o < h + 12
            && #[trigger] linearisation_at(s, h) by {
        let x = o + 10;
        if det.contains(x as u32) || listed(found, x) {
            lemma_merged_address(det, mb, found, ma, x);
        }
    }
}

pub proof fn lemma_driver_wish_phase(
    s: Seq<u8>,
    start: int,
    end: int,
    det: Set<u32>,
    mb: Seq<DetectedMap>,
    found: Seq<DetectedMap>,
    ma: Seq<DetectedMap>,
)
    requires
        forall|a: u32| #[trigger] det.contains(a) <==> address_in(mb, a),
        grows_from(mb, ma),
        forall|k: int| 0 <= k < found.len() ==> address_in(ma, (#[trigger] found[k]).address),
        forall|o: int|
            start <= o && (o - start) % 2 == 0 && #[trigger] dw_block(s, scan_limit(s, end), o) && dw_strict(s, o)
                && !all_zero(s, dw_ms(s, o), dw_end(s, o) - dw_ms(s, o)) && !det.contains(dw_ms(s, o) as u32) ==> listed(
                found,
                dw_ms(s, o),
            ) || dw_inside(s, scan_limit(s, end), start, o),
    ensures
        driver_wish_placed(s, start, end, ma),
{
    assert forall|o: int|
        start <= o && (o - start) % 2 == 0 && #[trigger] dw_block(s, scan_limit(s, end), o) && dw_strict(s, o)
            && !all_zero(s, dw_ms(s, o), dw_end(s, o) - dw_ms(s, o)) implies address_in(ma, dw_ms(s, o) as u32)
        || dw_inside(s, scan_limit(s, end), start, o) by {
        let x = dw_ms(s, o);
        if det.contains(x as u32) || listed(found, x) {
            lemma_merged_address(det, mb, found, ma, x);
        }
    }
}

pub proof fn lemma_boost_target_phase(
    s: Seq<u8>,
    start: int,
    end: int,
    tuned: bool,
    det: Set<u32>,
    mb: Seq<DetectedMap>,
    found: Seq<DetectedMap>,
    ma: Seq<DetectedMap>,
)
    requires
        forall|a: u32| #[trigger] det.contains(a) <==> address_in(mb, a),
        grows_from(mb, ma),
        forall|k: int| 0 <= k < found.len() ==> address_in(ma, (#[trigger] found[k]).address),
        forall|o: int, pad: int, rows: int|
            (rows == 16 || rows == 15) && #[trigger] target_candidate(s, det, start, end, tuned, rows, o, pad)
                ==> target_claimed(s, found, start, rows, o),
    ensures
        boost_target_placed(s, start, end, tuned, ma),
{
    lemma_found_listed(found, ma);
    lemma_claims_move(s, start, found, ma);
    assert forall|o: int, pad: int, rows: int|
        (rows == 16 || rows == 15) && #[trigger] target_candidate(s, Set::empty(), start, end, tuned, rows, o, pad)
            implies address_in(ma, target_ms(o, pad, rows) as u32) || target_claimed(s, ma, start, rows, o) by {
        let x = target_ms(o, pad, rows);
        if det.contains(x as u32) {
            lemma_merged_address(det, mb, found, ma, x);
        } else {
            assert(target_candidate(s, det, start, end, tuned, rows, o, pad));
            assert(target_claimed(s, found, start, rows, o));
        }
    }
}

pub proof fn lemma_boost_limiter_phase(
    s: Seq<u8>,
    start: int,
    end: int,
    det: Set<u32>,
    mb: Seq<DetectedMap>,
    found: Seq<DetectedMap>,
    ma: Seq<DetectedMap>,
)
    requires
        forall|a: u32| #[trigger] det.contains(a) <==> address_in(mb, a),
        grows_from(mb, ma),
        forall|k: int| 0 <= k < found.len() ==> address_in(ma, (#[trigger] found[k]).address),
        forall|o: int, kind: int|
            0 <= kind <= 2 && #[trigger] boost_limiter_candidate(s, det, start, end, kind, o) ==> limiter_claimed(
                s,
                found,
                start,
                kind,
                o,
            ),
    ensures
        boost_limiter_placed(s, start, end, ma),
{
    lemma_found_listed(found, ma);
    lemma_claims_move(s, start, found, ma);
    assert forall|o: int, kind: int|
        0 <= kind <= 2 && #[trigger] boost_limiter_candidate(s, Set::empty(), start, end, kind, o) implies address_in(
        ma,
        limiter_ms(o, kind) as u32,
    ) || limiter_claimed(s, ma, start, kind, o) by {
        let x = limiter_ms(o, kind);
        if det.contains(x as u32) {
            lemma_merged_address(det, mb, found, ma, x);
        } else {
            assert(boost_limiter_candidate(s, det, start, end, kind, o));
            assert(limiter_claimed(s, found, start, kind, o));
        }
    }
}

} // verus!
