//! What the claiming of byte ranges keeps of a scan: a map that a scan
//! requires is in the finished list, or its place was taken before it.
use vstd::prelude::*;
use crate::model::{DetectedMap, has_text, FIXED_ONE};
use crate::text::decimal;
use super::detect::{ranges_extended, range_of, same_but_name, soi_filter, soi_kept, numbered_soi, claimed_by};
use super::vmax::{vmax_at, vmax_map};
use super::smoke::{map_limiter_at, limiter_addr, limiter_ends, axis_ends_of, smoke_ok, explicit_smoke, implicit_smoke, smoke_header};
use super::egr::gap;
use super::headed::{soi_limiter_ok, soi_limiter_table};
use super::lambda::{header_of, lambda_cells_at, lambda_map, lambda_scanned, lambda_table, lambda_wanted};
use super::scalars::{scalar_map, svrl_hit, svrl_pos, svrl_scan_end};
use crate::model::{claims, table_claimed};
use super::{data_section, ranges_meet};

verus! {

/// A map of `r` starts at `a`.
pub open spec fn starts_at(r: Seq<DetectedMap>, a: u32) -> bool {
    exists|k: int| 0 <= k < r.len() && (#[trigger] r[k]).address == a
}

/// The place of a map at `a` over the bytes `rg` is taken in `r`: a map of
/// `r` starts at `a` or meets `rg`.
pub open spec fn place_taken(r: Seq<DetectedMap>, a: u32, rg: (u32, u32)) -> bool {
    exists|k: int| 0 <= k < r.len() && ((#[trigger] r[k]).address == a || ranges_meet(rg, range_of(r[k])))
}

/// Every maximum vehicle speed of the image has its place taken in `r`.
pub open spec fn vmax_shown(s: Seq<u8>, r: Seq<DetectedMap>) -> bool {
    forall|a: u32, c: int| #[trigger] vmax_at(s, a as int, c) ==> place_taken(r, a, (a, a.wrapping_add(2)))
}

/// Every smoke limiter by MAP of the image has its place taken in `r`: a
/// map of `r` starts at its table, or a limiter by MAP within 0x2000 bytes
/// whose axes start and end as its own has its place taken.
pub open spec fn smoke_shown(s: Seq<u8>, r: Seq<DetectedMap>) -> bool {
    forall|o: int|
        #[trigger] map_limiter_at(s, Set::empty(), o) ==> starts_at(r, (o + 36 + 2 * (s[o + 3] as int)) as u32)
            || exists|t: DetectedMap|
            has_text(t.name, "Smoke Limiter by MAP"@) && gap(t.address as int, limiter_addr(s, o)) <= 0x2000
                && axis_ends_of(s, t) == limiter_ends(s, o) && #[trigger] place_taken(r, t.address, range_of(t))
}

/// The RPM limiter of the first SVRL signature of the data section has its
/// place taken in `r`.
pub open spec fn svrl_shown(s: Seq<u8>, r: Seq<DetectedMap>) -> bool {
    let st = data_section(s.len() as int).0;
    forall|o: int|
        st <= o < svrl_scan_end(s) && #[trigger] svrl_hit(s, st, o) && (forall|o2: int|
            st <= o2 < o ==> !svrl_hit(s, st, o2)) ==> place_taken(
            r,
            svrl_pos(o) as u32,
            (svrl_pos(o) as u32, (svrl_pos(o) as u32).wrapping_add(2)),
        )
}

/// Every start of injection limiter table of the data section lies in an
/// "SOI Limiter" map whose place is taken in `r`.
pub open spec fn soi_limiter_shown(s: Seq<u8>, r: Seq<DetectedMap>) -> bool {
    let (st, en) = data_section(s.len() as int);
    forall|o: int|
        st <= o && (o - st) % 2 == 0 && o + 362 <= en && #[trigger] soi_limiter_table(s, o) ==> exists|t: DetectedMap|
            has_text(t.name, "SOI Limiter"@) && claims(t, o) && #[trigger] place_taken(r, t.address, range_of(t))
}

/// Every small smoke limiter by lambda of the image has its place taken in
/// `r`: a map of `r` starts at its cells, or the map that describes it has
/// its place taken.
pub open spec fn lambda_shown(s: Seq<u8>, r: Seq<DetectedMap>) -> bool {
    forall|o: int|
        lambda_scanned(s.len() as int, o) && #[trigger] lambda_table(s, o) ==> starts_at(r, lambda_cells_at(s, o) as u32)
            || exists|t: DetectedMap| lambda_map(s, t, o) && #[trigger] place_taken(r, t.address, range_of(t))
}

/// `ranges` are the ranges of `all`, in order.
pub open spec fn ranges_are(all: Seq<DetectedMap>, ranges: Seq<(u32, u32)>) -> bool {
    &&& ranges.len() == all.len()
    &&& forall|k: int| 0 <= k < all.len() ==> ranges[k] == range_of(#[trigger] all[k])
}

/// `b` begins with `a`.
pub open spec fn begins_with(a: Seq<DetectedMap>, b: Seq<DetectedMap>) -> bool {
    &&& a.len() <= b.len()
    &&& forall|k: int| 0 <= k < a.len() ==> #[trigger] b[k] == a[k]
}

/// A map of `b` lies where `m` lies.
pub open spec fn has_place_of(b: Seq<DetectedMap>, m: DetectedMap) -> bool {
    exists|j: int| 0 <= j < b.len() && (#[trigger] b[j]).address == m.address && range_of(b[j]) == range_of(m)
}

/// Every map of `a` has a map of `b` where it lies.
pub open spec fn kept_in(a: Seq<DetectedMap>, b: Seq<DetectedMap>) -> bool {
    forall|k: int| 0 <= k < a.len() ==> has_place_of(b, #[trigger] a[k])
}

/// The name of `m` cannot be a start of injection name ("St..."), nor the
/// dynamic duration name ("Du" with `(` at index 9).
pub open spec fn plain(m: DetectedMap) -> bool {
    m.name matches Some(n) && n@.len() >= 2 && n@[1] != 't' && !(n@[0] == 'D' && n@[1] == 'u' && n@.len() >= 10
        && n@[9] == '(')
}

/// Every map of `r` is plain.
pub open spec fn all_plain(r: Seq<DetectedMap>) -> bool {
    forall|k: int| 0 <= k < r.len() ==> plain(#[trigger] r[k])
}

pub proof fn lemma_plain_kept(m: DetectedMap, valid: Seq<u32>)
    requires
        plain(m),
    ensures
        soi_kept(m, valid),
{
    reveal_strlit("Start of injection ");
    reveal_strlit("Start of injection Dynamic");
    let n = m.name->0@;
    if numbered_soi(m) {
        assert(n.subrange(0, 19)[1] == n[1]);
    }
    assert(n != "Start of injection Dynamic"@) by {
        assert("Start of injection Dynamic"@[1] == 't');
    }
}

pub proof fn lemma_named_plain(m: DetectedMap)
    requires
        has_text(m.name, "SVBL - Max Boost Pressure"@) || has_text(m.name, "SVRL - RPM Limiter"@) || has_text(
            m.name,
            "SOI Limiter"@,
        ) || has_text(m.name, "Smoke Limiter by MAP"@) || has_text(m.name, "Smoke Limiter by MAF"@) || has_text(
            m.name,
            "Smoke Limiter by Lambda"@,
        ) || exists|n: nat| has_text(m.name, "Maximum Vehicle Speed "@ + decimal(n)),
    ensures
        plain(m),
{
    reveal_strlit("SVBL - Max Boost Pressure");
    reveal_strlit("SVRL - RPM Limiter");
    reveal_strlit("SOI Limiter");
    reveal_strlit("Smoke Limiter by MAP");
    reveal_strlit("Smoke Limiter by MAF");
    reveal_strlit("Smoke Limiter by Lambda");
    reveal_strlit("Maximum Vehicle Speed ");
    if exists|n: nat| has_text(m.name, "Maximum Vehicle Speed "@ + decimal(n)) {
        let n = choose|n: nat| has_text(m.name, "Maximum Vehicle Speed "@ + decimal(n));
        assert(("Maximum Vehicle Speed "@ + decimal(n))[1] == 'a');
        assert(("Maximum Vehicle Speed "@ + decimal(n))[0] == 'M');
    }
}

pub proof fn lemma_smoke_plain(s: Seq<u8>, d: Set<u32>, m: DetectedMap)
    requires
        smoke_ok(s, d, m),
    ensures
        plain(m),
{
    if exists|o: int| #[trigger] explicit_smoke(s, m, o) {
        let o = choose|o: int| #[trigger] explicit_smoke(s, m, o);
        assert(smoke_header(s, o) is Some);
    } else {
        let a = choose|a: int| #[trigger] implicit_smoke(s, m, a);
        assert(implicit_smoke(s, m, a));
    }
    lemma_named_plain(m);
}

/// Adding maps of `found` keeps every map plain.
pub proof fn lemma_plain_grow(a: Seq<DetectedMap>, b: Seq<DetectedMap>, found: Seq<DetectedMap>)
    requires
        all_plain(a),
        begins_with(a, b),
        forall|k: int| a.len() <= k < b.len() ==> found.contains(#[trigger] b[k]),
        forall|k: int| 0 <= k < found.len() ==> plain(#[trigger] found[k]),
    ensures
        all_plain(b),
{
    assert forall|k: int| 0 <= k < b.len() implies plain(#[trigger] b[k]) by {
        if k < a.len() {
            assert(b[k] == a[k]);
        } else {
            assert(found.contains(b[k]));
        }
    }
}

pub proof fn lemma_ranges_grow(
    oa: Seq<DetectedMap>,
    a: Seq<DetectedMap>,
    or: Seq<(u32, u32)>,
    r: Seq<(u32, u32)>,
)
    requires
        ranges_are(oa, or),
        begins_with(oa, a),
        r.len() == or.len() + (a.len() - oa.len()),
        forall|k: int| 0 <= k < or.len() ==> #[trigger] r[k] == or[k],
        forall|j: int| oa.len() <= j < a.len() ==> r[or.len() + j - oa.len()] == range_of(#[trigger] a[j]),
    ensures
        ranges_are(a, r),
{
    assert forall|k: int| 0 <= k < a.len() implies r[k] == range_of(#[trigger] a[k]) by {
        if k < oa.len() {
            assert(a[k] == oa[k]);
            assert(r[k] == or[k]);
        } else {
            assert(r[or.len() + k - oa.len()] == range_of(a[k]));
        }
    }
}

/// A found map that was added, or whose range was claimed, has its place
/// taken.
proof fn lemma_found_placed(a: Seq<DetectedMap>, r: Seq<(u32, u32)>, m: DetectedMap)
    requires
        ranges_are(a, r),
        a.contains(m) || claimed_by(range_of(m), r),
    ensures
        place_taken(a, m.address, range_of(m)),
{
    if a.contains(m) {
        let k = choose|k: int| 0 <= k < a.len() && a[k] == m;
        assert(a[k].address == m.address);
    } else {
        let j = choose|j: int| 0 <= j < r.len() && ranges_meet(range_of(m), #[trigger] r[j]);
        assert(r[j] == range_of(a[j]));
    }
}

/// An address among the starts of the claimed ranges is the start of a map.
proof fn lemma_taken_start(a: Seq<DetectedMap>, r: Seq<(u32, u32)>, x: u32)
    requires
        ranges_are(a, r),
        exists|k: int| 0 <= k < r.len() && r[k].0 == x,
    ensures
        starts_at(a, x),
{
    let k = choose|k: int| 0 <= k < r.len() && r[k].0 == x;
    assert(r[k] == range_of(a[k]));
    assert(a[k].address == x);
}

/// After the maximum vehicle speed scan, every speed of the image has its
/// place taken.
pub proof fn lemma_vmax_stage(
    s: Seq<u8>,
    r0: Seq<(u32, u32)>,
    taken: Set<u32>,
    found: Seq<DetectedMap>,
    a: Seq<DetectedMap>,
    r: Seq<(u32, u32)>,
)
    requires
        ranges_are(a, r),
        r0.len() <= r.len(),
        forall|k: int| 0 <= k < r0.len() ==> #[trigger] r[k] == r0[k],
        forall|x: u32| #[trigger] taken.contains(x) <==> exists|k: int| 0 <= k < r0.len() && r0[k].0 == x,
        forall|k: int| 0 <= k < found.len() ==> vmax_map(#[trigger] found[k], (k + 1) as nat),
        forall|x: u32, c: int|
            vmax_at(s, x as int, c) && !taken.contains(x) ==> exists|k: int|
                0 <= k < found.len() && (#[trigger] found[k]).address == x,
        forall|k: int| 0 <= k < found.len() ==> a.contains(#[trigger] found[k]) || claimed_by(range_of(found[k]), r),
    ensures
        vmax_shown(s, a),
{
    assert forall|x: u32, c: int| #[trigger] vmax_at(s, x as int, c) implies place_taken(a, x, (x, x.wrapping_add(2))) by {
        if taken.contains(x) {
            let k = choose|k: int| 0 <= k < r0.len() && r0[k].0 == x;
            assert(r[k].0 == x);
            lemma_taken_start(a, r, x);
            let j = choose|j: int| 0 <= j < a.len() && (#[trigger] a[j]).address == x;
            assert(a[j].address == x);
        } else {
            let k = choose|k: int| 0 <= k < found.len() && (#[trigger] found[k]).address == x;
            let m = found[k];
            assert(vmax_map(m, (k + 1) as nat));
            assert(range_of(m) == (x, x.wrapping_add(2)));
            lemma_found_placed(a, r, m);
        }
    }
}

/// After the smoke limiter scan, every smoke limiter by MAP of the image has
/// its place taken.
pub proof fn lemma_smoke_stage(
    s: Seq<u8>,
    r0: Seq<(u32, u32)>,
    taken: Set<u32>,
    found: Seq<DetectedMap>,
    a: Seq<DetectedMap>,
    r: Seq<(u32, u32)>,
)
    requires
        ranges_are(a, r),
        r0.len() <= r.len(),
        forall|k: int| 0 <= k < r0.len() ==> #[trigger] r[k] == r0[k],
        forall|x: u32| #[trigger] taken.contains(x) <==> exists|k: int| 0 <= k < r0.len() && r0[k].0 == x,
        forall|o: int|
            #[trigger] map_limiter_at(s, taken, o) ==> exists|k: int|
                0 <= k < found.len() && has_text((#[trigger] found[k]).name, "Smoke Limiter by MAP"@) && gap(
                    found[k].address as int,
                    limiter_addr(s, o),
                ) <= 0x2000 && axis_ends_of(s, found[k]) == limiter_ends(s, o),
        forall|k: int| 0 <= k < found.len() ==> a.contains(#[trigger] found[k]) || claimed_by(range_of(found[k]), r),
    ensures
        smoke_shown(s, a),
{
    assert forall|o: int| #[trigger] map_limiter_at(s, Set::empty(), o) implies starts_at(
        a,
        (o + 36 + 2 * (s[o + 3] as int)) as u32,
    ) || exists|t: DetectedMap|
        has_text(t.name, "Smoke Limiter by MAP"@) && gap(t.address as int, limiter_addr(s, o)) <= 0x2000
            && axis_ends_of(s, t) == limiter_ends(s, o) && #[trigger] place_taken(a, t.address, range_of(t)) by {
        let x = (o + 36 + 2 * (s[o + 3] as int)) as u32;
        if taken.contains(x) {
            let k = choose|k: int| 0 <= k < r0.len() && r0[k].0 == x;
            assert(r[k].0 == x);
            lemma_taken_start(a, r, x);
        } else {
            assert(map_limiter_at(s, taken, o));
            let k = choose|k: int|
                0 <= k < found.len() && has_text((#[trigger] found[k]).name, "Smoke Limiter by MAP"@) && gap(
                    found[k].address as int,
                    limiter_addr(s, o),
                ) <= 0x2000 && axis_ends_of(s, found[k]) == limiter_ends(s, o);
            let t = found[k];
            lemma_found_placed(a, r, t);
        }
    }
}

/// After the SVRL scan, the first RPM limiter has its place taken.
pub proof fn lemma_svrl_stage(s: Seq<u8>, found: Seq<DetectedMap>, a: Seq<DetectedMap>, r: Seq<(u32, u32)>)
    requires
        ranges_are(a, r),
        found.len() <= 1,
        found.len() == 0 <==> !exists|o: int|
            data_section(s.len() as int).0 <= o < svrl_scan_end(s) && #[trigger] svrl_hit(
                s,
                data_section(s.len() as int).0,
                o,
            ),
        found.len() == 1 ==> exists|o: int|
            {
                &&& data_section(s.len() as int).0 <= o < svrl_scan_end(s)
                &&& #[trigger] svrl_hit(s, data_section(s.len() as int).0, o)
                &&& scalar_map(found[0], svrl_pos(o), "SVRL - RPM Limiter"@, "RPM"@, FIXED_ONE, 1000)
                &&& forall|o2: int|
                    data_section(s.len() as int).0 <= o2 < o ==> !svrl_hit(s, data_section(s.len() as int).0, o2)
            },
        forall|k: int| 0 <= k < found.len() ==> a.contains(#[trigger] found[k]) || claimed_by(range_of(found[k]), r),
    ensures
        svrl_shown(s, a),
{
    let st = data_section(s.len() as int).0;
    assert forall|o: int|
        st <= o < svrl_scan_end(s) && #[trigger] svrl_hit(s, st, o) && (forall|o2: int|
            st <= o2 < o ==> !svrl_hit(s, st, o2)) implies place_taken(
        a,
        svrl_pos(o) as u32,
        (svrl_pos(o) as u32, (svrl_pos(o) as u32).wrapping_add(2)),
    ) by {
        assert(found.len() == 1);
        let o1 = choose|o1: int|
            {
                &&& st <= o1 < svrl_scan_end(s)
                &&& #[trigger] svrl_hit(s, st, o1)
                &&& scalar_map(found[0], svrl_pos(o1), "SVRL - RPM Limiter"@, "RPM"@, FIXED_ONE, 1000)
                &&& forall|o2: int| st <= o2 < o1 ==> !svrl_hit(s, st, o2)
            };
        if o1 < o {
            assert(!svrl_hit(s, st, o1));
        }
        if o < o1 {
            assert(!svrl_hit(s, st, o));
        }
        assert(o1 == o);
        let m = found[0];
        assert(range_of(m) == (svrl_pos(o) as u32, (svrl_pos(o) as u32).wrapping_add(2)));
        lemma_found_placed(a, r, m);
    }
}

/// After the start of injection limiter scan, every limiter table lies in
/// a limiter map whose place is taken.
pub proof fn lemma_soi_limiter_stage(
    s: Seq<u8>,
    found: Seq<DetectedMap>,
    a: Seq<DetectedMap>,
    r: Seq<(u32, u32)>,
)
    requires
        ranges_are(a, r),
        forall|k: int|
            0 <= k < found.len() ==> soi_limiter_ok(
                s,
                data_section(s.len() as int).0,
                data_section(s.len() as int).1,
                Set::empty(),
                #[trigger] found[k],
            ),
        forall|o: int|
            data_section(s.len() as int).0 <= o && (o - data_section(s.len() as int).0) % 2 == 0 && o + 362
                <= data_section(s.len() as int).1 && #[trigger] soi_limiter_table(s, o) && !Set::<u32>::empty().contains(
                (o + 54) as u32,
            ) ==> table_claimed(found, o),
        forall|k: int| 0 <= k < found.len() ==> a.contains(#[trigger] found[k]) || claimed_by(range_of(found[k]), r),
    ensures
        soi_limiter_shown(s, a),
{
    let (st, en) = data_section(s.len() as int);
    assert forall|o: int| st <= o && (o - st) % 2 == 0 && o + 362 <= en && #[trigger] soi_limiter_table(s, o) implies exists|
        t: DetectedMap,
    | has_text(t.name, "SOI Limiter"@) && claims(t, o) && #[trigger] place_taken(a, t.address, range_of(t)) by {
        assert(table_claimed(found, o));
        let k = choose|k: int| 0 <= k < found.len() && claims(#[trigger] found[k], o);
        let t = found[k];
        assert(soi_limiter_ok(s, st, en, Set::empty(), t));
        lemma_found_placed(a, r, t);
    }
}

/// After the small lambda scan, every small smoke limiter by lambda has its
/// place taken.
pub proof fn lemma_lambda_stage(
    s: Seq<u8>,
    r0: Seq<(u32, u32)>,
    taken: Set<u32>,
    found: Seq<DetectedMap>,
    a: Seq<DetectedMap>,
    r: Seq<(u32, u32)>,
)
    requires
        ranges_are(a, r),
        r0.len() <= r.len(),
        forall|k: int| 0 <= k < r0.len() ==> #[trigger] r[k] == r0[k],
        forall|x: u32| #[trigger] taken.contains(x) <==> exists|k: int| 0 <= k < r0.len() && r0[k].0 == x,
        forall|k: int| 0 <= k < found.len() ==> lambda_map(s, #[trigger] found[k], header_of(found[k])),
        forall|o: int|
            #[trigger] lambda_wanted(s, taken, o) ==> exists|k: int| 0 <= k < found.len() && header_of(#[trigger] found[k]) == o,
        forall|k: int| 0 <= k < found.len() ==> a.contains(#[trigger] found[k]) || claimed_by(range_of(found[k]), r),
    ensures
        lambda_shown(s, a),
{
    assert forall|o: int| lambda_scanned(s.len() as int, o) && #[trigger] lambda_table(s, o) implies starts_at(
        a,
        lambda_cells_at(s, o) as u32,
    ) || exists|t: DetectedMap| lambda_map(s, t, o) && #[trigger] place_taken(a, t.address, range_of(t)) by {
        let x = lambda_cells_at(s, o) as u32;
        if taken.contains(x) {
            let k = choose|k: int| 0 <= k < r0.len() && r0[k].0 == x;
            assert(r[k].0 == x);
            lemma_taken_start(a, r, x);
        } else {
            assert(lambda_wanted(s, taken, o));
            let k = choose|k: int| 0 <= k < found.len() && header_of(#[trigger] found[k]) == o;
            let t = found[k];
            assert(lambda_map(s, t, o));
            lemma_found_placed(a, r, t);
        }
    }
}

/// What holds of `a` holds of any list that keeps its maps in place.
pub proof fn lemma_shown_kept(s: Seq<u8>, a: Seq<DetectedMap>, b: Seq<DetectedMap>)
    requires
        kept_in(a, b),
    ensures
        vmax_shown(s, a) ==> vmax_shown(s, b),
        smoke_shown(s, a) ==> smoke_shown(s, b),
        svrl_shown(s, a) ==> svrl_shown(s, b),
        soi_limiter_shown(s, a) ==> soi_limiter_shown(s, b),
        lambda_shown(s, a) ==> lambda_shown(s, b),
        forall|x: u32| #[trigger] starts_at(a, x) ==> starts_at(b, x),
        forall|x: u32, rg: (u32, u32)| #[trigger] place_taken(a, x, rg) ==> place_taken(b, x, rg),
{
    assert forall|x: u32| #[trigger] starts_at(a, x) implies starts_at(b, x) by {
        let k = choose|k: int| 0 <= k < a.len() && (#[trigger] a[k]).address == x;
        assert(has_place_of(b, a[k]));
        let j = choose|j: int| 0 <= j < b.len() && (#[trigger] b[j]).address == a[k].address && range_of(b[j]) == range_of(a[k]);
        assert(b[j].address == x);
    }
    assert forall|x: u32, rg: (u32, u32)| #[trigger] place_taken(a, x, rg) implies place_taken(b, x, rg) by {
        let k = choose|k: int| 0 <= k < a.len() && ((#[trigger] a[k]).address == x || ranges_meet(rg, range_of(a[k])));
        assert(has_place_of(b, a[k]));
        let j = choose|j: int| 0 <= j < b.len() && (#[trigger] b[j]).address == a[k].address && range_of(b[j]) == range_of(a[k]);
        assert(b[j].address == x || ranges_meet(rg, range_of(b[j])));
    }
}

/// A list that begins with `a` keeps its maps in place.
pub proof fn lemma_begins_kept(a: Seq<DetectedMap>, b: Seq<DetectedMap>)
    requires
        begins_with(a, b),
    ensures
        kept_in(a, b),
{
    assert forall|k: int| 0 <= k < a.len() implies has_place_of(b, #[trigger] a[k]) by {
        assert(b[k] == a[k]);
    }
}

/// The plain maps at the head of the list before the start of injection
/// check keep their places through the check and the finishing steps.
pub proof fn lemma_kept_to_end(
    early: Seq<DetectedMap>,
    bc: Seq<DetectedMap>,
    valid: Seq<u32>,
    a1: Seq<DetectedMap>,
    a2: Seq<DetectedMap>,
    pre: Seq<DetectedMap>,
    fin: Seq<DetectedMap>,
)
    requires
        begins_with(early, bc),
        all_plain(early),
        begins_with(soi_filter(bc, valid), a1),
        a2.len() == a1.len(),
        pre.len() == a2.len(),
        fin.len() == pre.len(),
        forall|k: int| 0 <= k < a2.len() ==> same_but_name(a1[k], #[trigger] a2[k]),
        forall|k: int| 0 <= k < pre.len() ==> range_of(#[trigger] pre[k]) == range_of(a2[k]),
        forall|k: int| 0 <= k < fin.len() ==> same_but_name(pre[k], #[trigger] fin[k]),
    ensures
        kept_in(early, fin),
{
    let filt = soi_filter(bc, valid);
    assert forall|k: int| 0 <= k < early.len() implies has_place_of(fin, #[trigger] early[k]) by {
        let m = early[k];
        assert(bc[k] == m);
        assert(bc.contains(m));
        lemma_plain_kept(m, valid);
        super::detect::lemma_filter_keeps(bc, valid, m);
        let w = choose|w: int| 0 <= w < filt.len() && filt[w] == m;
        assert(a1[w] == m);
        assert(same_but_name(a1[w], a2[w]));
        assert(range_of(pre[w]) == range_of(a2[w]));
        assert(same_but_name(pre[w], fin[w]));
        assert(fin[w].address == m.address && range_of(fin[w]) == range_of(m));
    }
}

/// One claiming step keeps the ranges those of the maps, and every map plain.
pub proof fn lemma_claim_step(
    oa: Seq<DetectedMap>,
    a: Seq<DetectedMap>,
    or: Seq<(u32, u32)>,
    r: Seq<(u32, u32)>,
    found: Seq<DetectedMap>,
)
    requires
        ranges_are(oa, or),
        all_plain(oa),
        a.len() >= oa.len(),
        forall|k: int| 0 <= k < oa.len() ==> a[k] == oa[k],
        ranges_extended(oa, a, or, r),
        forall|k: int| oa.len() <= k < a.len() ==> found.contains(#[trigger] a[k]),
        forall|k: int| 0 <= k < found.len() ==> plain(#[trigger] found[k]),
    ensures
        ranges_are(a, r),
        all_plain(a),
        begins_with(oa, a),
{
    assert(begins_with(oa, a));
    lemma_ranges_grow(oa, a, or, r);
    lemma_plain_grow(oa, a, found);
}

} // verus!
