//! What the scans that run after the injection duration blocks leave in the
//! list: each map such a scan reports is in the finished list, or its place
//! was held before it, by a reported map or by a dynamic duration map of a
//! block (whose bytes are claimed without a map).
use vstd::prelude::*;
use crate::model::{DetectedMap, has_text};
use crate::text::{decimal, two_digits};
use super::claims::{all_plain, kept_in, lemma_begins_kept, lemma_plain_grow, lemma_shown_kept, place_taken, plain, starts_at, begins_with};
use super::detect::{addresses_extended, claimed_by, covered, range_of, ranges_extended};
use super::duration::{duration_name, duration_ok, in_duration_block};
use super::stagex::{extra_entry_ok, maf_name, stagex_post};
use super::gearbox::{gear_entry_ok, gear_single_map, gearbox_post};
use super::fuel::{fuel_map, fuel_type_name, fuel_post};
use super::egr::{egr_entry_ok, egr_post};
use super::idle::{idle_entry_ok, idle_post};
use super::egt::{egt_entry_ok, egt_post};
use super::bip::{bip_ok, bip_post};
use super::ranges_meet;
use super::axis_scan::{axis_pass_map, axis_post};
use super::soi::soi_ok;
use super::detect::{numbered_soi, soi_filter, soi_kept, same_but_name};
use super::claims::{has_place_of, lemma_plain_kept};
use super::data_section;
use super::region::{late_ok, turbo_ok, region_post, turbo_post};
use super::templates::MapType;

verus! {

/// `m` is a dynamic duration map of a block of the image.
pub open spec fn dyn_table(s: Seq<u8>, m: DetectedMap) -> bool {
    &&& has_text(m.name, "Duration (Dynamic)"@)
    &&& exists|sel: int, d: Set<u32>| #[trigger] in_duration_block(s, sel, d, m)
}

/// `rg` is the range of a map of `all` or of a dynamic duration map.
pub open spec fn backed_range(s: Seq<u8>, all: Seq<DetectedMap>, rg: (u32, u32)) -> bool {
    ||| exists|k: int| 0 <= k < all.len() && range_of(#[trigger] all[k]) == rg
    ||| exists|m: DetectedMap| #[trigger] dyn_table(s, m) && range_of(m) == rg
}

/// Each range of `ranges` is that of a map of `all` or of a dynamic duration map.
pub open spec fn ranges_backed(s: Seq<u8>, all: Seq<DetectedMap>, ranges: Seq<(u32, u32)>) -> bool {
    forall|j: int| 0 <= j < ranges.len() ==> backed_range(s, all, #[trigger] ranges[j])
}

/// Each address of `addr` starts a range of `ranges`.
pub open spec fn addresses_start(addr: Set<u32>, ranges: Seq<(u32, u32)>) -> bool {
    forall|a: u32| #[trigger] addr.contains(a) ==> exists|j: int| 0 <= j < ranges.len() && (#[trigger] ranges[j]).0 == a
}

/// The place of a map at `a` over the bytes `rg` is held: a map of `r`
/// starts at `a` or meets `rg`, or a dynamic duration map of the image does.
pub open spec fn placed(s: Seq<u8>, r: Seq<DetectedMap>, a: u32, rg: (u32, u32)) -> bool {
    ||| place_taken(r, a, rg)
    ||| exists|m: DetectedMap| #[trigger] dyn_table(s, m) && (m.address == a || ranges_meet(rg, range_of(m)))
}

/// Address `a` is held: a map of `r` or a dynamic duration map of the image starts there.
pub open spec fn held(s: Seq<u8>, r: Seq<DetectedMap>, a: u32) -> bool {
    ||| starts_at(r, a)
    ||| exists|m: DetectedMap| #[trigger] dyn_table(s, m) && m.address == a
}

/// What a scan found (`f`, leaving out the addresses `d`) is shown in `r`:
/// each address left out is held, and each map found has its place held.
pub open spec fn scan_shown(s: Seq<u8>, r: Seq<DetectedMap>, f: Seq<DetectedMap>, d: Set<u32>) -> bool {
    &&& forall|a: u32| #[trigger] d.contains(a) ==> held(s, r, a)
    &&& forall|k: int| 0 <= k < f.len() ==> placed(s, r, (#[trigger] f[k]).address, range_of(f[k]))
}

/// The extra tables of the scan that reports them are shown in `r`.
pub open spec fn stagex_shown(s: Seq<u8>, r: Seq<DetectedMap>) -> bool {
    exists|f: Seq<DetectedMap>, d: Set<u32>| #[trigger] stagex_post(s, d, f) && scan_shown(s, r, f, d)
}

/// The gearbox torque limiter maps are shown in `r`.
pub open spec fn gearbox_shown(s: Seq<u8>, r: Seq<DetectedMap>) -> bool {
    exists|f: Seq<DetectedMap>, d: Set<u32>| #[trigger] gearbox_post(s, d, f) && scan_shown(s, r, f, d)
}

/// The fuel correction tables are shown in `r`.
pub open spec fn fuel_shown(s: Seq<u8>, r: Seq<DetectedMap>) -> bool {
    exists|f: Seq<DetectedMap>, d: Set<u32>| #[trigger] fuel_post(s, d, f) && scan_shown(s, r, f, d)
}

/// The EGR tables are shown in `r`.
pub open spec fn egr_shown(s: Seq<u8>, r: Seq<DetectedMap>) -> bool {
    exists|f: Seq<DetectedMap>, d: Set<u32>| #[trigger] egr_post(s, d, f) && scan_shown(s, r, f, d)
}

/// The idle speed maps are shown in `r`.
pub open spec fn idle_shown(s: Seq<u8>, r: Seq<DetectedMap>) -> bool {
    exists|f: Seq<DetectedMap>, d: Set<u32>| #[trigger] idle_post(s, d, f) && scan_shown(s, r, f, d)
}

/// The exhaust gas temperature maps are shown in `r`.
pub open spec fn egt_shown(s: Seq<u8>, r: Seq<DetectedMap>) -> bool {
    exists|f: Seq<DetectedMap>, d: Set<u32>| #[trigger] egt_post(s, d, f) && scan_shown(s, r, f, d)
}

/// The begin of injection period maps are shown in `r`.
pub open spec fn bip_shown(s: Seq<u8>, r: Seq<DetectedMap>) -> bool {
    exists|f: Seq<DetectedMap>, d: Set<u32>| #[trigger] bip_post(s, d, f) && scan_shown(s, r, f, d)
}

/// Claiming the maps that a scan adds keeps the ranges backed, and the
/// addresses recorded starting a range.
pub proof fn lemma_backed_add(
    s: Seq<u8>,
    oa: Seq<DetectedMap>,
    a: Seq<DetectedMap>,
    or: Seq<(u32, u32)>,
    r: Seq<(u32, u32)>,
    oaddr: Set<u32>,
    addr: Set<u32>,
    record: bool,
)
    requires
        ranges_backed(s, oa, or),
        addresses_start(oaddr, or),
        begins_with(oa, a),
        ranges_extended(oa, a, or, r),
        record ==> addresses_extended(oa, a, oaddr, addr),
        !record ==> addr == oaddr,
    ensures
        ranges_backed(s, a, r),
        addresses_start(addr, r),
{
    assert forall|j: int| 0 <= j < r.len() implies backed_range(s, a, #[trigger] r[j]) by {
        if j < or.len() {
            assert(r[j] == or[j]);
            assert(backed_range(s, oa, or[j]));
            if exists|k: int| 0 <= k < oa.len() && range_of(#[trigger] oa[k]) == or[j] {
                let k = choose|k: int| 0 <= k < oa.len() && range_of(#[trigger] oa[k]) == or[j];
                assert(a[k] == oa[k]);
            }
        } else {
            let k = oa.len() + j - or.len();
            assert(r[or.len() + k - oa.len()] == range_of(a[k]));
        }
    }
    assert forall|x: u32| #[trigger] addr.contains(x) implies exists|j: int| 0 <= j < r.len() && (#[trigger] r[j]).0 == x by {
        if oaddr.contains(x) {
            let j = choose|j: int| 0 <= j < or.len() && (#[trigger] or[j]).0 == x;
            assert(r[j] == or[j]);
        } else {
            let k = choose|k: int| oa.len() <= k < a.len() && (#[trigger] a[k]).address == x;
            assert(r[or.len() + k - oa.len()] == range_of(a[k]));
            assert(r[or.len() + k - oa.len()].0 == x);
        }
    }
}

/// Claiming the bytes of a dynamic duration map keeps the ranges backed.
pub proof fn lemma_backed_dyn(s: Seq<u8>, all: Seq<DetectedMap>, ranges: Seq<(u32, u32)>, m: DetectedMap)
    requires
        ranges_backed(s, all, ranges),
        dyn_table(s, m),
    ensures
        ranges_backed(s, all, ranges.push(range_of(m))),
{
    assert forall|j: int| 0 <= j < ranges.push(range_of(m)).len() implies backed_range(
        s,
        all,
        #[trigger] ranges.push(range_of(m))[j],
    ) by {
        if j < ranges.len() {
            assert(ranges.push(range_of(m))[j] == ranges[j]);
        }
    }
}

/// Adding a map with its range keeps the ranges backed.
pub proof fn lemma_backed_push(s: Seq<u8>, all: Seq<DetectedMap>, ranges: Seq<(u32, u32)>, m: DetectedMap)
    requires
        ranges_backed(s, all, ranges),
    ensures
        ranges_backed(s, all.push(m), ranges.push(range_of(m))),
{
    assert forall|j: int| 0 <= j < ranges.push(range_of(m)).len() implies backed_range(
        s,
        all.push(m),
        #[trigger] ranges.push(range_of(m))[j],
    ) by {
        if j < ranges.len() {
            assert(ranges.push(range_of(m))[j] == ranges[j]);
            assert(backed_range(s, all, ranges[j]));
            if exists|k: int| 0 <= k < all.len() && range_of(#[trigger] all[k]) == ranges[j] {
                let k = choose|k: int| 0 <= k < all.len() && range_of(#[trigger] all[k]) == ranges[j];
                assert(all.push(m)[k] == all[k]);
            }
        } else {
            assert(all.push(m)[all.len() as int] == m);
        }
    }
}

/// After a scan whose maps were claimed, what it found is shown in the list.
pub proof fn lemma_scan_stage(
    s: Seq<u8>,
    a: Seq<DetectedMap>,
    r: Seq<(u32, u32)>,
    or: Seq<(u32, u32)>,
    f: Seq<DetectedMap>,
    d: Set<u32>,
)
    requires
        ranges_backed(s, a, r),
        addresses_start(d, or),
        or.len() <= r.len(),
        forall|j: int| 0 <= j < or.len() ==> #[trigger] r[j] == or[j],
        forall|k: int| 0 <= k < f.len() ==> a.contains(#[trigger] f[k]) || claimed_by(range_of(f[k]), r),
    ensures
        scan_shown(s, a, f, d),
{
    assert forall|x: u32| #[trigger] d.contains(x) implies held(s, a, x) by {
        let j = choose|j: int| 0 <= j < or.len() && (#[trigger] or[j]).0 == x;
        assert(r[j] == or[j]);
        assert(backed_range(s, a, r[j]));
        if exists|k: int| 0 <= k < a.len() && range_of(#[trigger] a[k]) == r[j] {
            let k = choose|k: int| 0 <= k < a.len() && range_of(#[trigger] a[k]) == r[j];
            assert(a[k].address == x);
        } else {
            let m = choose|m: DetectedMap| #[trigger] dyn_table(s, m) && range_of(m) == r[j];
            assert(m.address == x);
        }
    }
    assert forall|k: int| 0 <= k < f.len() implies placed(s, a, (#[trigger] f[k]).address, range_of(f[k])) by {
        let m = f[k];
        if a.contains(m) {
            let w = choose|w: int| 0 <= w < a.len() && a[w] == m;
            assert(a[w].address == m.address);
        } else {
            let j = choose|j: int| 0 <= j < r.len() && ranges_meet(range_of(m), #[trigger] r[j]);
            assert(backed_range(s, a, r[j]));
            if exists|q: int| 0 <= q < a.len() && range_of(#[trigger] a[q]) == r[j] {
                let q = choose|q: int| 0 <= q < a.len() && range_of(#[trigger] a[q]) == r[j];
                assert(ranges_meet(range_of(m), range_of(a[q])));
            } else {
                let n = choose|n: DetectedMap| #[trigger] dyn_table(s, n) && range_of(n) == r[j];
                assert(ranges_meet(range_of(m), range_of(n)));
            }
        }
    }
}

/// What is shown in `a` is shown in any list that keeps its maps in place.
pub proof fn lemma_shown_moves(s: Seq<u8>, a: Seq<DetectedMap>, b: Seq<DetectedMap>, f: Seq<DetectedMap>, d: Set<u32>)
    requires
        kept_in(a, b),
        scan_shown(s, a, f, d),
    ensures
        scan_shown(s, b, f, d),
{
    lemma_shown_kept(s, a, b);
    assert forall|x: u32| #[trigger] d.contains(x) implies held(s, b, x) by {
        assert(held(s, a, x));
    }
    assert forall|k: int| 0 <= k < f.len() implies placed(s, b, (#[trigger] f[k]).address, range_of(f[k])) by {
        assert(placed(s, a, f[k].address, range_of(f[k])));
    }
}

/// A name that begins with `p`, whose second character is not `t` and
/// which does not begin with "Du", is plain.
pub proof fn lemma_prefix_plain(m: DetectedMap, p: Seq<char>, rest: Seq<char>)
    requires
        has_text(m.name, p + rest),
        p.len() >= 2,
        p[1] != 't',
        p[0] != 'D' || p[1] != 'u',
    ensures
        plain(m),
{
    assert((p + rest)[1] == p[1]);
    assert((p + rest)[0] == p[0]);
}

/// A map named as a dynamic duration map is not plain.
pub proof fn lemma_plain_not_dyn(m: DetectedMap)
    requires
        plain(m),
    ensures
        !has_text(m.name, "Duration (Dynamic)"@),
{
    reveal_strlit("Duration (Dynamic)");
}

pub proof fn lemma_duration_plain(s: Seq<u8>, sel: int, d: Set<u32>, m: DetectedMap, o: int, idx: int)
    requires
        duration_ok(s, sel, d, m, o, idx),
        idx <= 5,
    ensures
        plain(m),
{
    reveal_strlit("Duration ");
    let n = "Duration "@ + two_digits(idx as nat);
    assert(n[1] == 'u' && n[9] == '0');
}

pub proof fn lemma_literal_plain(m: DetectedMap)
    requires
        has_text(m.name, "Duration Selector"@) || has_text(m.name, "Duration 06"@) || has_text(
            m.name,
            "Duration min. injection break after main injection"@,
        ) || has_text(m.name, "Fuel Volume Correction"@) || has_text(m.name, "Expected Fuel Temp"@) || has_text(
            m.name,
            "Dpf switch"@,
        ) || has_text(m.name, "Single Value Gearbox Limiter"@) || has_text(m.name, "BIP Fuel Temp Correction"@)
            || has_text(m.name, "BIP Basic Characteristic"@) || has_text(m.name, "BIP Multiple Correction"@),
    ensures
        plain(m),
{
    reveal_strlit("Duration Selector");
    reveal_strlit("Duration 06");
    reveal_strlit("Duration min. injection break after main injection");
    reveal_strlit("Fuel Volume Correction");
    reveal_strlit("Expected Fuel Temp");
    reveal_strlit("Dpf switch");
    reveal_strlit("Single Value Gearbox Limiter");
    reveal_strlit("BIP Fuel Temp Correction");
    reveal_strlit("BIP Basic Characteristic");
    reveal_strlit("BIP Multiple Correction");
}

pub proof fn lemma_stagex_plain(s: Seq<u8>, d: Set<u32>, r: Seq<DetectedMap>, k: int)
    requires
        0 <= k < r.len(),
        extra_entry_ok(s, d, r, k),
    ensures
        plain(r[k]),
{
    let m = r[k];
    reveal_strlit("MAF Linearization");
    reveal_strlit("MAF Linearization ");
    if m.size == 64 && m.dimensions == (crate::model::MapDimensions::OneDimensional { length: 32 }) && !has_text(
        m.name,
        "Fuel Volume Correction"@,
    ) && !has_text(m.name, "Expected Fuel Temp"@) && !has_text(m.name, "Dpf switch"@) {
        let n = crate::edc16u31::stagex::mafs_in(r.subrange(0, k)) + 1;
        if n == 1 {
            lemma_prefix_plain(m, "MAF Linearization"@, Seq::<char>::empty());
        } else {
            lemma_prefix_plain(m, "MAF Linearization "@, decimal(n));
        }
    } else {
        lemma_literal_plain(m);
    }
}

pub proof fn lemma_gearbox_plain(s: Seq<u8>, r: Seq<DetectedMap>, k: int, end: int)
    requires
        0 <= k < r.len(),
        gear_entry_ok(s, r, k, end),
    ensures
        plain(r[k]),
{
    reveal_strlit("Gearbox Torque Limiter ");
    if gear_single_map(s, r[k], end) {
        lemma_literal_plain(r[k]);
    } else {
        let n = crate::edc16u31::gearbox::curves_in(r.subrange(0, k)) + 1;
        lemma_prefix_plain(r[k], "Gearbox Torque Limiter "@, decimal(n));
    }
}

pub proof fn lemma_fuel_plain(s: Seq<u8>, m: DetectedMap, o: int)
    requires
        fuel_map(s, m, o),
    ensures
        plain(m),
{
    reveal_strlit("Fuel correction by exhaust gas temp EGT");
    reveal_strlit("Fuel correction by ambient pressure");
    reveal_strlit("Fuel correction by fuel temperature");
    reveal_strlit("Fuel correction factor by intake air temperature");
    reveal_strlit("Fuel correction by oil temperature");
    reveal_strlit("Fuel correction factor by engine temp and vehicle speed");
    reveal_strlit("Fuel correction");
}

pub proof fn lemma_egr_plain(s: Seq<u8>, d: Set<u32>, r: Seq<DetectedMap>, k: int)
    requires
        0 <= k < r.len(),
        egr_entry_ok(s, d, r, k),
    ensures
        plain(r[k]),
{
    reveal_strlit("EGR (Desired air quantity) ");
    reveal_strlit("EGR hysteresis ");
    let m = r[k];
    let n1 = crate::edc16u31::egr::daq_in(r.subrange(0, k)) + 1;
    let n2 = crate::edc16u31::egr::hyst_in(r.subrange(0, k)) + 1;
    if has_text(m.name, "EGR (Desired air quantity) "@ + decimal(n1)) {
        lemma_prefix_plain(m, "EGR (Desired air quantity) "@, decimal(n1));
    } else {
        lemma_prefix_plain(m, "EGR hysteresis "@, decimal(n2));
    }
}

pub proof fn lemma_idle_plain(s: Seq<u8>, d: Set<u32>, r: Seq<DetectedMap>, k: int)
    requires
        0 <= k < r.len(),
        idle_entry_ok(s, d, r, k),
    ensures
        plain(r[k]),
{
    reveal_strlit("Idle speed correction by engine temp ");
    reveal_strlit("Single value idle speed ");
    let m = r[k];
    let before = r.subrange(0, k);
    let n1 = crate::edc16u31::idle::corrections_in(before) + 1;
    let n2 = (k - crate::edc16u31::idle::corrections_in(before) + 1) as nat;
    if has_text(m.name, "Idle speed correction by engine temp "@ + decimal(n1)) {
        lemma_prefix_plain(m, "Idle speed correction by engine temp "@, decimal(n1));
    } else {
        lemma_prefix_plain(m, "Single value idle speed "@, decimal(n2));
    }
}

pub proof fn lemma_egt_plain(s: Seq<u8>, d: Set<u32>, r: Seq<DetectedMap>, k: int)
    requires
        0 <= k < r.len(),
        egt_entry_ok(s, d, r, k),
    ensures
        plain(r[k]),
{
    reveal_strlit("Exhaust gas temperature sensor linearisation EGT ");
    reveal_strlit("Exhaust gas temperature base map EGT ");
    let m = r[k];
    let before = r.subrange(0, k);
    let n1 = crate::edc16u31::egt::sensors_in(before) + 1;
    let n2 = (k - crate::edc16u31::egt::sensors_in(before) + 1) as nat;
    if has_text(m.name, "Exhaust gas temperature sensor linearisation EGT "@ + decimal(n1)) {
        lemma_prefix_plain(m, "Exhaust gas temperature sensor linearisation EGT "@, decimal(n1));
    } else {
        lemma_prefix_plain(m, "Exhaust gas temperature base map EGT "@, decimal(n2));
    }
}

pub proof fn lemma_bip_plain(s: Seq<u8>, d: Set<u32>, m: DetectedMap)
    requires
        bip_ok(s, d, m),
    ensures
        plain(m),
{
    lemma_literal_plain(m);
}

/// One claiming step of a scan that records addresses: the ranges stay
/// backed, every map stays plain, and what the scan found is shown.
pub proof fn lemma_record_step(
    s: Seq<u8>,
    oa: Seq<DetectedMap>,
    a: Seq<DetectedMap>,
    or: Seq<(u32, u32)>,
    r: Seq<(u32, u32)>,
    od: Set<u32>,
    addr: Set<u32>,
    found: Seq<DetectedMap>,
)
    requires
        ranges_backed(s, oa, or),
        addresses_start(od, or),
        all_plain(oa),
        a.len() >= oa.len(),
        forall|k: int| 0 <= k < oa.len() ==> a[k] == oa[k],
        forall|k: int| oa.len() <= k < a.len() ==> found.contains(#[trigger] a[k]),
        ranges_extended(oa, a, or, r),
        addresses_extended(oa, a, od, addr),
        forall|k: int| 0 <= k < found.len() ==> a.contains(#[trigger] found[k]) || claimed_by(range_of(found[k]), r),
        forall|k: int| 0 <= k < found.len() ==> plain(#[trigger] found[k]),
    ensures
        ranges_backed(s, a, r),
        addresses_start(addr, r),
        all_plain(a),
        begins_with(oa, a),
        scan_shown(s, a, found, od),
{
    assert(begins_with(oa, a));
    lemma_backed_add(s, oa, a, or, r, od, addr, true);
    lemma_plain_grow(oa, a, found);
    lemma_scan_stage(s, a, r, or, found, od);
}

pub proof fn lemma_stagex_found(s: Seq<u8>, d: Set<u32>, f: Seq<DetectedMap>)
    requires
        stagex_post(s, d, f),
    ensures
        forall|k: int| 0 <= k < f.len() ==> plain(#[trigger] f[k]),
{
    assert forall|k: int| 0 <= k < f.len() implies plain(#[trigger] f[k]) by {
        lemma_stagex_plain(s, d, f, k);
    }
}

pub proof fn lemma_gearbox_found(s: Seq<u8>, d: Set<u32>, f: Seq<DetectedMap>)
    requires
        gearbox_post(s, d, f),
    ensures
        forall|k: int| 0 <= k < f.len() ==> plain(#[trigger] f[k]),
{
    assert forall|k: int| 0 <= k < f.len() implies plain(#[trigger] f[k]) by {
        lemma_gearbox_plain(s, f, k, super::data_section(s.len() as int).1);
    }
}

pub proof fn lemma_fuel_found(s: Seq<u8>, d: Set<u32>, f: Seq<DetectedMap>)
    requires
        fuel_post(s, d, f),
    ensures
        forall|k: int| 0 <= k < f.len() ==> plain(#[trigger] f[k]),
{
    assert forall|k: int| 0 <= k < f.len() implies plain(#[trigger] f[k]) by {
        let o = choose|o: int| #[trigger] fuel_map(s, f[k], o);
        lemma_fuel_plain(s, f[k], o);
    }
}

pub proof fn lemma_egr_found(s: Seq<u8>, d: Set<u32>, f: Seq<DetectedMap>)
    requires
        egr_post(s, d, f),
    ensures
        forall|k: int| 0 <= k < f.len() ==> plain(#[trigger] f[k]),
{
    assert forall|k: int| 0 <= k < f.len() implies plain(#[trigger] f[k]) by {
        lemma_egr_plain(s, d, f, k);
    }
}

pub proof fn lemma_idle_found(s: Seq<u8>, d: Set<u32>, f: Seq<DetectedMap>)
    requires
        idle_post(s, d, f),
    ensures
        forall|k: int| 0 <= k < f.len() ==> plain(#[trigger] f[k]),
{
    assert forall|k: int| 0 <= k < f.len() implies plain(#[trigger] f[k]) by {
        lemma_idle_plain(s, d, f, k);
    }
}

pub proof fn lemma_egt_found(s: Seq<u8>, d: Set<u32>, f: Seq<DetectedMap>)
    requires
        egt_post(s, d, f),
    ensures
        forall|k: int| 0 <= k < f.len() ==> plain(#[trigger] f[k]),
{
    assert forall|k: int| 0 <= k < f.len() implies plain(#[trigger] f[k]) by {
        lemma_egt_plain(s, d, f, k);
    }
}

pub proof fn lemma_bip_found(s: Seq<u8>, d: Set<u32>, f: Seq<DetectedMap>)
    requires
        bip_post(s, d, f),
    ensures
        forall|k: int| 0 <= k < f.len() ==> plain(#[trigger] f[k]),
{
    assert forall|k: int| 0 <= k < f.len() implies plain(#[trigger] f[k]) by {
        lemma_bip_plain(s, d, f[k]);
    }
}

/// Ranges that are exactly those of the maps are backed, and their starts
/// start them.
pub proof fn lemma_backed_from(s: Seq<u8>, all: Seq<DetectedMap>, ranges: Seq<(u32, u32)>)
    requires
        super::claims::ranges_are(all, ranges),
    ensures
        ranges_backed(s, all, ranges),
{
    assert forall|j: int| 0 <= j < ranges.len() implies backed_range(s, all, #[trigger] ranges[j]) by {
        assert(range_of(all[j]) == ranges[j]);
    }
}

/// Recording the start of a range that is pushed keeps the addresses starting ranges.
pub proof fn lemma_start_push(ad: Set<u32>, ranges: Seq<(u32, u32)>, rg: (u32, u32))
    requires
        addresses_start(ad, ranges),
    ensures
        addresses_start(ad.insert(rg.0), ranges.push(rg)),
{
    let r2 = ranges.push(rg);
    assert forall|x: u32| #[trigger] ad.insert(rg.0).contains(x) implies exists|j: int| 0 <= j < r2.len() && (#[trigger] r2[j]).0 == x by {
        if x == rg.0 {
            assert(r2[ranges.len() as int] == rg);
        } else {
            let j = choose|j: int| 0 <= j < ranges.len() && (#[trigger] ranges[j]).0 == x;
            assert(r2[j] == ranges[j]);
        }
    }
}

/// Claiming one map that meets no claimed range adds it with its range.
pub proof fn lemma_claim_one(
    s: Seq<u8>,
    oa: Seq<DetectedMap>,
    a: Seq<DetectedMap>,
    or: Seq<(u32, u32)>,
    r: Seq<(u32, u32)>,
    ad0: Set<u32>,
    m: DetectedMap,
    found: Seq<DetectedMap>,
)
    requires
        found == seq![m],
        ranges_backed(s, oa, or),
        addresses_start(ad0, or),
        all_plain(oa),
        plain(m),
        a.len() >= oa.len(),
        forall|k: int| 0 <= k < oa.len() ==> a[k] == oa[k],
        forall|k: int| oa.len() <= k < a.len() ==> found.contains(#[trigger] a[k]),
        ranges_extended(oa, a, or, r),
        covered(a, r),
        !claimed_by(range_of(m), or),
        found.len() > 0 && !claimed_by(range_of(found[0]), or) ==> a.contains(found[0]),
    ensures
        ranges_backed(s, a, r),
        addresses_start(ad0.insert(m.address), r),
        all_plain(a),
        begins_with(oa, a),
{
    assert(begins_with(oa, a));
    lemma_backed_add(s, oa, a, or, r, ad0, ad0, false);
    assert forall|k: int| 0 <= k < found.len() implies plain(#[trigger] found[k]) by {
        assert(found[k] == m);
    }
    lemma_plain_grow(oa, a, found);
    assert(found[0] == m);
    assert(a.contains(m));
    let w = choose|w: int| 0 <= w < a.len() && a[w] == m;
    assert(r.contains(range_of(a[w])));
    let j = choose|j: int| 0 <= j < r.len() && r[j] == range_of(a[w]);
    assert forall|x: u32| #[trigger] ad0.insert(m.address).contains(x) implies exists|q: int|
        0 <= q < r.len() && (#[trigger] r[q]).0 == x by {
        if x == m.address {
            assert(r[j].0 == x);
        } else {
            assert(ad0.contains(x));
        }
    }
}

/// What the scans that record addresses found, shown in the list after
/// them, is shown in the finished list.
pub proof fn lemma_late_shown(
    s: Seq<u8>,
    late: Seq<DetectedMap>,
    fin: Seq<DetectedMap>,
    a_stagex: Seq<DetectedMap>,
    f_stagex: Seq<DetectedMap>,
    d_stagex: Set<u32>,
    a_gearbox: Seq<DetectedMap>,
    f_gearbox: Seq<DetectedMap>,
    d_gearbox: Set<u32>,
    a_fuel: Seq<DetectedMap>,
    f_fuel: Seq<DetectedMap>,
    d_fuel: Set<u32>,
)
    requires
        kept_in(late, fin),
        begins_with(a_stagex, late),
        stagex_post(s, d_stagex, f_stagex),
        scan_shown(s, a_stagex, f_stagex, d_stagex),
        begins_with(a_gearbox, late),
        gearbox_post(s, d_gearbox, f_gearbox),
        scan_shown(s, a_gearbox, f_gearbox, d_gearbox),
        begins_with(a_fuel, late),
        fuel_post(s, d_fuel, f_fuel),
        scan_shown(s, a_fuel, f_fuel, d_fuel),
    ensures
        stagex_shown(s, fin),
        gearbox_shown(s, fin),
        fuel_shown(s, fin),
{
    lemma_begins_kept(a_stagex, late);
    lemma_shown_moves(s, a_stagex, late, f_stagex, d_stagex);
    lemma_shown_moves(s, late, fin, f_stagex, d_stagex);
    assert(stagex_post(s, d_stagex, f_stagex) && scan_shown(s, fin, f_stagex, d_stagex));
    lemma_begins_kept(a_gearbox, late);
    lemma_shown_moves(s, a_gearbox, late, f_gearbox, d_gearbox);
    lemma_shown_moves(s, late, fin, f_gearbox, d_gearbox);
    assert(gearbox_post(s, d_gearbox, f_gearbox) && scan_shown(s, fin, f_gearbox, d_gearbox));
    lemma_begins_kept(a_fuel, late);
    lemma_shown_moves(s, a_fuel, late, f_fuel, d_fuel);
    lemma_shown_moves(s, late, fin, f_fuel, d_fuel);
    assert(fuel_post(s, d_fuel, f_fuel) && scan_shown(s, fin, f_fuel, d_fuel));
}

/// The same for the scans that come after them.
pub proof fn lemma_late_shown2(
    s: Seq<u8>,
    late: Seq<DetectedMap>,
    fin: Seq<DetectedMap>,
    a_egr: Seq<DetectedMap>,
    f_egr: Seq<DetectedMap>,
    d_egr: Set<u32>,
    a_idle: Seq<DetectedMap>,
    f_idle: Seq<DetectedMap>,
    d_idle: Set<u32>,
    a_egt: Seq<DetectedMap>,
    f_egt: Seq<DetectedMap>,
    d_egt: Set<u32>,
    a_bip: Seq<DetectedMap>,
    f_bip: Seq<DetectedMap>,
    d_bip: Set<u32>,
)
    requires
        kept_in(late, fin),
        begins_with(a_egr, late),
        egr_post(s, d_egr, f_egr),
        scan_shown(s, a_egr, f_egr, d_egr),
        begins_with(a_idle, late),
        idle_post(s, d_idle, f_idle),
        scan_shown(s, a_idle, f_idle, d_idle),
        begins_with(a_egt, late),
        egt_post(s, d_egt, f_egt),
        scan_shown(s, a_egt, f_egt, d_egt),
        begins_with(a_bip, late),
        bip_post(s, d_bip, f_bip),
        scan_shown(s, a_bip, f_bip, d_bip),
    ensures
        egr_shown(s, fin),
        idle_shown(s, fin),
        egt_shown(s, fin),
        bip_shown(s, fin),
{
    lemma_begins_kept(a_egr, late);
    lemma_shown_moves(s, a_egr, late, f_egr, d_egr);
    lemma_shown_moves(s, late, fin, f_egr, d_egr);
    assert(egr_post(s, d_egr, f_egr) && scan_shown(s, fin, f_egr, d_egr));
    lemma_begins_kept(a_idle, late);
    lemma_shown_moves(s, a_idle, late, f_idle, d_idle);
    lemma_shown_moves(s, late, fin, f_idle, d_idle);
    assert(idle_post(s, d_idle, f_idle) && scan_shown(s, fin, f_idle, d_idle));
    lemma_begins_kept(a_egt, late);
    lemma_shown_moves(s, a_egt, late, f_egt, d_egt);
    lemma_shown_moves(s, late, fin, f_egt, d_egt);
    assert(egt_post(s, d_egt, f_egt) && scan_shown(s, fin, f_egt, d_egt));
    lemma_begins_kept(a_bip, late);
    lemma_shown_moves(s, a_bip, late, f_bip, d_bip);
    lemma_shown_moves(s, late, fin, f_bip, d_bip);
    assert(bip_post(s, d_bip, f_bip) && scan_shown(s, fin, f_bip, d_bip));
}

/// What the late scans found stays shown in a list that keeps the maps in place.
pub proof fn lemma_late_moves(s: Seq<u8>, a: Seq<DetectedMap>, b: Seq<DetectedMap>)
    requires
        kept_in(a, b),
        stagex_shown(s, a),
        gearbox_shown(s, a),
        fuel_shown(s, a),
        egr_shown(s, a),
        idle_shown(s, a),
        egt_shown(s, a),
        bip_shown(s, a),
    ensures
        stagex_shown(s, b),
        gearbox_shown(s, b),
        fuel_shown(s, b),
        egr_shown(s, b),
        idle_shown(s, b),
        egt_shown(s, b),
        bip_shown(s, b),
{
    {
        let (f, d) = choose|f: Seq<DetectedMap>, d: Set<u32>| #[trigger] stagex_post(s, d, f) && scan_shown(s, a, f, d);
        lemma_shown_moves(s, a, b, f, d);
        assert(stagex_post(s, d, f) && scan_shown(s, b, f, d));
    }
    {
        let (f, d) = choose|f: Seq<DetectedMap>, d: Set<u32>| #[trigger] gearbox_post(s, d, f) && scan_shown(s, a, f, d);
        lemma_shown_moves(s, a, b, f, d);
        assert(gearbox_post(s, d, f) && scan_shown(s, b, f, d));
    }
    {
        let (f, d) = choose|f: Seq<DetectedMap>, d: Set<u32>| #[trigger] fuel_post(s, d, f) && scan_shown(s, a, f, d);
        lemma_shown_moves(s, a, b, f, d);
        assert(fuel_post(s, d, f) && scan_shown(s, b, f, d));
    }
    {
        let (f, d) = choose|f: Seq<DetectedMap>, d: Set<u32>| #[trigger] egr_post(s, d, f) && scan_shown(s, a, f, d);
        lemma_shown_moves(s, a, b, f, d);
        assert(egr_post(s, d, f) && scan_shown(s, b, f, d));
    }
    {
        let (f, d) = choose|f: Seq<DetectedMap>, d: Set<u32>| #[trigger] idle_post(s, d, f) && scan_shown(s, a, f, d);
        lemma_shown_moves(s, a, b, f, d);
        assert(idle_post(s, d, f) && scan_shown(s, b, f, d));
    }
    {
        let (f, d) = choose|f: Seq<DetectedMap>, d: Set<u32>| #[trigger] egt_post(s, d, f) && scan_shown(s, a, f, d);
        lemma_shown_moves(s, a, b, f, d);
        assert(egt_post(s, d, f) && scan_shown(s, b, f, d));
    }
    {
        let (f, d) = choose|f: Seq<DetectedMap>, d: Set<u32>| #[trigger] bip_post(s, d, f) && scan_shown(s, a, f, d);
        lemma_shown_moves(s, a, b, f, d);
        assert(bip_post(s, d, f) && scan_shown(s, b, f, d));
    }
}

/// An empty image has nothing to show.
pub proof fn lemma_empty_shown(s: Seq<u8>)
    requires
        s.len() == 0,
    ensures
        stagex_shown(s, Seq::<DetectedMap>::empty()),
        gearbox_shown(s, Seq::<DetectedMap>::empty()),
        fuel_shown(s, Seq::<DetectedMap>::empty()),
        egr_shown(s, Seq::<DetectedMap>::empty()),
        idle_shown(s, Seq::<DetectedMap>::empty()),
        egt_shown(s, Seq::<DetectedMap>::empty()),
        bip_shown(s, Seq::<DetectedMap>::empty()),
{
    assert(stagex_post(s, Set::<u32>::empty(), Seq::<DetectedMap>::empty()) && scan_shown(s, Seq::<DetectedMap>::empty(), Seq::<DetectedMap>::empty(), Set::<u32>::empty()));
    assert(gearbox_post(s, Set::<u32>::empty(), Seq::<DetectedMap>::empty()) && scan_shown(s, Seq::<DetectedMap>::empty(), Seq::<DetectedMap>::empty(), Set::<u32>::empty()));
    assert(fuel_post(s, Set::<u32>::empty(), Seq::<DetectedMap>::empty()) && scan_shown(s, Seq::<DetectedMap>::empty(), Seq::<DetectedMap>::empty(), Set::<u32>::empty()));
    assert(egr_post(s, Set::<u32>::empty(), Seq::<DetectedMap>::empty()) && scan_shown(s, Seq::<DetectedMap>::empty(), Seq::<DetectedMap>::empty(), Set::<u32>::empty()));
    assert(idle_post(s, Set::<u32>::empty(), Seq::<DetectedMap>::empty()) && scan_shown(s, Seq::<DetectedMap>::empty(), Seq::<DetectedMap>::empty(), Set::<u32>::empty()));
    assert(egt_post(s, Set::<u32>::empty(), Seq::<DetectedMap>::empty()) && scan_shown(s, Seq::<DetectedMap>::empty(), Seq::<DetectedMap>::empty(), Set::<u32>::empty()));
    assert(bip_post(s, Set::<u32>::empty(), Seq::<DetectedMap>::empty()) && scan_shown(s, Seq::<DetectedMap>::empty(), Seq::<DetectedMap>::empty(), Set::<u32>::empty()));
}

/// No map of `r` bears the dynamic duration name.
pub open spec fn all_nd(r: Seq<DetectedMap>) -> bool {
    forall|k: int| 0 <= k < r.len() ==> !has_text((#[trigger] r[k]).name, "Duration (Dynamic)"@)
}

pub proof fn lemma_plain_nd(r: Seq<DetectedMap>)
    requires
        all_plain(r),
    ensures
        all_nd(r),
{
    assert forall|k: int| 0 <= k < r.len() implies !has_text((#[trigger] r[k]).name, "Duration (Dynamic)"@) by {
        assert(plain(r[k]));
        lemma_plain_not_dyn(r[k]);
    }
}

/// Adding maps of `found` that bear other names keeps the name away.
pub proof fn lemma_nd_grow(a: Seq<DetectedMap>, b: Seq<DetectedMap>, found: Seq<DetectedMap>)
    requires
        all_nd(a),
        a.len() <= b.len(),
        forall|k: int| 0 <= k < a.len() ==> b[k] == a[k],
        forall|k: int| a.len() <= k < b.len() ==> found.contains(#[trigger] b[k]),
        all_nd(found),
    ensures
        all_nd(b),
{
    assert forall|k: int| 0 <= k < b.len() implies !has_text((#[trigger] b[k]).name, "Duration (Dynamic)"@) by {
        if k < a.len() {
            assert(b[k] == a[k]);
        } else {
            let w = choose|w: int| 0 <= w < found.len() && found[w] == b[k];
            assert(!has_text(found[w].name, "Duration (Dynamic)"@));
        }
    }
}

/// A name that differs from the dynamic duration name in its first
/// character or in its length is not it.
proof fn lemma_other_name(n: Option<String>, l: Seq<char>)
    requires
        has_text(n, l),
        l.len() != 18 || l[0] != 'D',
    ensures
        !has_text(n, "Duration (Dynamic)"@),
{
    reveal_strlit("Duration (Dynamic)");
}

pub proof fn lemma_axis_nd<F: Fn(Vec<i16>, usize, usize, MapType) -> Option<u32>>(
    s: Seq<u8>,
    start: int,
    end: int,
    tuned: bool,
    existing: Seq<(u32, u32)>,
    score: F,
    m: DetectedMap,
)
    requires
        axis_pass_map(s, start, end, tuned, existing, score, m),
    ensures
        !has_text(m.name, "Duration (Dynamic)"@),
{
    reveal_strlit("Duration (Dynamic)");
    reveal_strlit("Start of injection ");
    reveal_strlit("Start of injection Dynamic");
    reveal_strlit("Boost Limiter");
    reveal_strlit("Boost Target");
    reveal_strlit("Torque to IQ Conversion");
    reveal_strlit("Driver Wish");
    reveal_strlit("Start of Injection");
    reveal_strlit("Injection Duration");
    reveal_strlit("EGR");
    reveal_strlit("N75 Duty Cycle");
    reveal_strlit("Torque Limiter");
    reveal_strlit("Duration");
    reveal_strlit("Lambda Calculations");
    reveal_strlit("Fuel Volume Correction");
    reveal_strlit("Expected Fuel Temp");
    reveal_strlit("Smoke Limiter");
    reveal_strlit("Cranking Torque Map");
    reveal_strlit("Turbo Boost Pressure Correction");
    reveal_strlit("MAP Linearization");
    reveal_strlit("Single Value Gearbox Limiter");
    reveal_strlit("Driver Wish Selector");
    if has_text(m.name, "Duration (Dynamic)"@) {
        let n = m.name->0@;
        assert(n.len() == 18 && n[0] == 'D' && n[1] == 'u' && n[9] == '(');
        assert(false);
    }
}

pub proof fn lemma_region_nd(s: Seq<u8>, d: Set<u32>, m: DetectedMap)
    requires
        late_ok(s, d, m) || turbo_ok(s, d, m),
    ensures
        !has_text(m.name, "Duration (Dynamic)"@),
{
    reveal_strlit("Duration (Dynamic)");
    reveal_strlit("Friction torque");
    reveal_strlit("Fuel correction factor by engine temp and vehicle speed");
    reveal_strlit("Torque Limiter");
    reveal_strlit("Start of injection (Dynamic)");
    reveal_strlit("N75 Duty Cycle");
    if has_text(m.name, "Duration (Dynamic)"@) {
        let n = m.name->0@;
        assert(n.len() == 18 && n[0] == 'D');
        assert(false);
    }
}

pub proof fn lemma_selector_nd(m: DetectedMap)
    requires
        has_text(m.name, "SOI Selector"@),
    ensures
        !has_text(m.name, "Duration (Dynamic)"@),
{
    reveal_strlit("SOI Selector");
    lemma_other_name(m.name, "SOI Selector"@);
}

/// `m` is a start of injection map of a block of the image.
pub open spec fn soi_table(s: Seq<u8>, m: DetectedMap) -> bool {
    soi_ok(s, Set::empty(), m)
}

/// The place of a map at `a` over `rg` is held as [`placed`] says, or by a
/// start of injection map of a block of the image (one that the block check
/// may have left out).
pub open spec fn placed_ax(s: Seq<u8>, r: Seq<DetectedMap>, a: u32, rg: (u32, u32)) -> bool {
    ||| placed(s, r, a, rg)
    ||| exists|m: DetectedMap| #[trigger] soi_table(s, m) && (m.address == a || ranges_meet(rg, range_of(m)))
}

/// What the axis pass over the data section found, with the mode `tuned`
/// and the scorer `score`, is shown in `r`: the pass was given ranges each
/// held by a map of `r` or a dynamic duration map, and each map it found
/// has its place held.
pub open spec fn axis_shown<F: Fn(Vec<i16>, usize, usize, MapType) -> Option<u32>>(
    s: Seq<u8>,
    tuned: bool,
    score: F,
    r: Seq<DetectedMap>,
) -> bool {
    exists|f: Seq<DetectedMap>, ex: Seq<(u32, u32)>|
        #[trigger] axis_post(s, data_section(s.len() as int).0, data_section(s.len() as int).1, tuned, ex, score, f) && (
        forall|j: int| 0 <= j < ex.len() ==> backed_range(s, r, #[trigger] ex[j])) && forall|k: int|
            0 <= k < f.len() ==> placed_ax(s, r, (#[trigger] f[k]).address, range_of(f[k]))
}

/// A map of the axis pass that the start of injection block check would
/// leave out is a start of injection map of a block.
pub proof fn lemma_axis_soi<F: Fn(Vec<i16>, usize, usize, MapType) -> Option<u32>>(
    s: Seq<u8>,
    start: int,
    end: int,
    tuned: bool,
    existing: Seq<(u32, u32)>,
    score: F,
    m: DetectedMap,
    valid: Seq<u32>,
)
    requires
        axis_pass_map(s, start, end, tuned, existing, score, m),
    ensures
        soi_kept(m, valid) || soi_table(s, m),
{
    reveal_strlit("Start of injection ");
    reveal_strlit("Start of injection Dynamic");
    reveal_strlit("Boost Limiter");
    reveal_strlit("Boost Target");
    reveal_strlit("Torque to IQ Conversion");
    reveal_strlit("Driver Wish");
    reveal_strlit("Start of Injection");
    reveal_strlit("Injection Duration");
    reveal_strlit("EGR");
    reveal_strlit("N75 Duty Cycle");
    reveal_strlit("Torque Limiter");
    reveal_strlit("Duration");
    reveal_strlit("Lambda Calculations");
    reveal_strlit("Fuel Volume Correction");
    reveal_strlit("Expected Fuel Temp");
    reveal_strlit("Smoke Limiter");
    reveal_strlit("Cranking Torque Map");
    reveal_strlit("Turbo Boost Pressure Correction");
    reveal_strlit("MAP Linearization");
    reveal_strlit("Single Value Gearbox Limiter");
    reveal_strlit("Driver Wish Selector");
    if !soi_kept(m, valid) {
        let n = m.name->0@;
        assert(m.name is Some);
        assert(n.len() >= 19 && n[0] == 'S' && n[9] == 'i' && n[18] == ' ') by {
            if numbered_soi(m) {
                assert(n.subrange(0, 19)[0] == n[0]);
                assert(n.subrange(0, 19)[9] == n[9]);
                assert(n.subrange(0, 19)[18] == n[18]);
            }
        }
    }
}

/// The maps at the head of the list before the block check keep their
/// places through it and the finishing steps, or are start of injection
/// maps of a block.
pub proof fn lemma_kept_or_soi(
    s: Seq<u8>,
    ax: Seq<DetectedMap>,
    bc: Seq<DetectedMap>,
    valid: Seq<u32>,
    a1: Seq<DetectedMap>,
    a2: Seq<DetectedMap>,
    pre: Seq<DetectedMap>,
    fin: Seq<DetectedMap>,
)
    requires
        begins_with(ax, bc),
        forall|k: int| 0 <= k < ax.len() ==> soi_kept(#[trigger] ax[k], valid) || soi_table(s, ax[k]),
        begins_with(soi_filter(bc, valid), a1),
        a2.len() == a1.len(),
        pre.len() == a2.len(),
        fin.len() == pre.len(),
        forall|k: int| 0 <= k < a2.len() ==> same_but_name(a1[k], #[trigger] a2[k]),
        forall|k: int| 0 <= k < pre.len() ==> range_of(#[trigger] pre[k]) == range_of(a2[k]),
        forall|k: int| 0 <= k < fin.len() ==> same_but_name(pre[k], #[trigger] fin[k]),
    ensures
        forall|k: int| 0 <= k < ax.len() ==> has_place_of(fin, #[trigger] ax[k]) || soi_table(s, ax[k]),
{
    let filt = soi_filter(bc, valid);
    assert forall|k: int| 0 <= k < ax.len() implies has_place_of(fin, #[trigger] ax[k]) || soi_table(s, ax[k]) by {
        let m = ax[k];
        if soi_kept(m, valid) {
            assert(bc[k] == m);
            assert(bc.contains(m));
            super::detect::lemma_filter_keeps(bc, valid, m);
            let w = choose|w: int| 0 <= w < filt.len() && filt[w] == m;
            assert(a1[w] == m);
            assert(same_but_name(a1[w], a2[w]));
            assert(range_of(pre[w]) == range_of(a2[w]));
            assert(same_but_name(pre[w], fin[w]));
            assert(fin[w].address == m.address && range_of(fin[w]) == range_of(m));
        }
    }
}

/// A place held in the list after the axis pass is held in the finished list.
pub proof fn lemma_placed_ax(s: Seq<u8>, ax: Seq<DetectedMap>, fin: Seq<DetectedMap>, a: u32, rg: (u32, u32))
    requires
        placed(s, ax, a, rg),
        forall|k: int| 0 <= k < ax.len() ==> has_place_of(fin, #[trigger] ax[k]) || soi_table(s, ax[k]),
    ensures
        placed_ax(s, fin, a, rg),
{
    if place_taken(ax, a, rg) {
        let k = choose|k: int| 0 <= k < ax.len() && ((#[trigger] ax[k]).address == a || ranges_meet(rg, range_of(ax[k])));
        if has_place_of(fin, ax[k]) {
            let j = choose|j: int| 0 <= j < fin.len() && (#[trigger] fin[j]).address == ax[k].address && range_of(fin[j])
                == range_of(ax[k]);
            assert(fin[j].address == a || ranges_meet(rg, range_of(fin[j])));
        } else {
            assert(soi_table(s, ax[k]));
        }
    }
}

/// After the axis pass, with its maps claimed, what it found is shown in the finished list.
pub proof fn lemma_axis_shown<F: Fn(Vec<i16>, usize, usize, MapType) -> Option<u32>>(
    s: Seq<u8>,
    tuned: bool,
    score: F,
    late: Seq<DetectedMap>,
    ex: Seq<(u32, u32)>,
    f: Seq<DetectedMap>,
    ax: Seq<DetectedMap>,
    fin: Seq<DetectedMap>,
)
    requires
        axis_post(s, data_section(s.len() as int).0, data_section(s.len() as int).1, tuned, ex, score, f),
        ranges_backed(s, late, ex),
        kept_in(late, fin),
        forall|k: int| 0 <= k < f.len() ==> placed(s, ax, (#[trigger] f[k]).address, range_of(f[k])),
        forall|k: int| 0 <= k < ax.len() ==> has_place_of(fin, #[trigger] ax[k]) || soi_table(s, ax[k]),
    ensures
        axis_shown(s, tuned, score, fin),
{
    assert forall|j: int| 0 <= j < ex.len() implies backed_range(s, fin, #[trigger] ex[j]) by {
        assert(backed_range(s, late, ex[j]));
        if exists|k: int| 0 <= k < late.len() && range_of(#[trigger] late[k]) == ex[j] {
            let k = choose|k: int| 0 <= k < late.len() && range_of(#[trigger] late[k]) == ex[j];
            assert(has_place_of(fin, late[k]));
            let w = choose|w: int| 0 <= w < fin.len() && (#[trigger] fin[w]).address == late[k].address && range_of(fin[w])
                == range_of(late[k]);
            assert(range_of(fin[w]) == ex[j]);
        }
    }
    assert forall|k: int| 0 <= k < f.len() implies placed_ax(s, fin, (#[trigger] f[k]).address, range_of(f[k])) by {
        lemma_placed_ax(s, ax, fin, f[k].address, range_of(f[k]));
    }
}


/// An empty image has no axis pass to show.
pub proof fn lemma_empty_axis<F: Fn(Vec<i16>, usize, usize, MapType) -> Option<u32>>(s: Seq<u8>, tuned: bool, score: F)
    requires
        s.len() == 0,
    ensures
        axis_shown(s, tuned, score, Seq::<DetectedMap>::empty()),
{
    let e = Seq::<DetectedMap>::empty();
    let ex = Seq::<(u32, u32)>::empty();
    assert(axis_post(s, data_section(s.len() as int).0, data_section(s.len() as int).1, tuned, ex, score, e));
}

/// Address `a` is held as [`held`] says, or a start of injection map of a
/// block starts there.
pub open spec fn held_ax(s: Seq<u8>, r: Seq<DetectedMap>, a: u32) -> bool {
    ||| held(s, r, a)
    ||| exists|m: DetectedMap| #[trigger] soi_table(s, m) && m.address == a
}

/// What a scan after the axis pass found is shown in `r`, with the start of
/// injection maps of the blocks as places that may hold.
pub open spec fn scan_shown_ax(s: Seq<u8>, r: Seq<DetectedMap>, f: Seq<DetectedMap>, d: Set<u32>) -> bool {
    &&& forall|a: u32| #[trigger] d.contains(a) ==> held_ax(s, r, a)
    &&& forall|k: int| 0 <= k < f.len() ==> placed_ax(s, r, (#[trigger] f[k]).address, range_of(f[k]))
}

/// The turbo region tables are shown in `r`.
pub open spec fn turbo_shown(s: Seq<u8>, r: Seq<DetectedMap>) -> bool {
    exists|f: Seq<DetectedMap>, d: Set<u32>| #[trigger] turbo_post(s, d, f) && scan_shown_ax(s, r, f, d)
}

/// The late-region tables are shown in `r`.
pub open spec fn region_shown(s: Seq<u8>, r: Seq<DetectedMap>) -> bool {
    exists|f: Seq<DetectedMap>, d: Set<u32>| #[trigger] region_post(s, d, f) && scan_shown_ax(s, r, f, d)
}

/// The maps of the late and turbo regions are kept by the block check.
pub proof fn lemma_region_kept(s: Seq<u8>, d: Set<u32>, m: DetectedMap, valid: Seq<u32>)
    requires
        late_ok(s, d, m) || turbo_ok(s, d, m),
    ensures
        soi_kept(m, valid),
{
    reveal_strlit("Start of injection ");
    reveal_strlit("Start of injection Dynamic");
    reveal_strlit("Friction torque");
    reveal_strlit("Fuel correction factor by engine temp and vehicle speed");
    reveal_strlit("Torque Limiter");
    reveal_strlit("Start of injection (Dynamic)");
    reveal_strlit("N75 Duty Cycle");
    if numbered_soi(m) {
        let n = m.name->0@;
        assert(n.subrange(0, 19)[0] == n[0]);
        assert(n.subrange(0, 19)[9] == n[9]);
        assert(n.subrange(0, 19)[18] == n[18]);
        assert('0' <= n[19] <= '9');
    }
}

/// What was shown in a list `a` at the head of `big`, whose maps keep their
/// places in `fin` or are start of injection maps of a block, is shown in `fin`.
pub proof fn lemma_shown_ax(
    s: Seq<u8>,
    a: Seq<DetectedMap>,
    big: Seq<DetectedMap>,
    fin: Seq<DetectedMap>,
    f: Seq<DetectedMap>,
    d: Set<u32>,
)
    requires
        scan_shown(s, a, f, d),
        begins_with(a, big),
        forall|k: int| 0 <= k < big.len() ==> has_place_of(fin, #[trigger] big[k]) || soi_table(s, big[k]),
    ensures
        scan_shown_ax(s, fin, f, d),
{
    assert forall|k: int| 0 <= k < a.len() implies has_place_of(fin, #[trigger] a[k]) || soi_table(s, a[k]) by {
        assert(big[k] == a[k]);
        assert(has_place_of(fin, big[k]) || soi_table(s, big[k]));
    }
    assert forall|x: u32| #[trigger] d.contains(x) implies held_ax(s, fin, x) by {
        assert(held(s, a, x));
        if starts_at(a, x) {
            let k = choose|k: int| 0 <= k < a.len() && (#[trigger] a[k]).address == x;
            if has_place_of(fin, a[k]) {
                let j = choose|j: int| 0 <= j < fin.len() && (#[trigger] fin[j]).address == a[k].address && range_of(fin[j])
                    == range_of(a[k]);
                assert(fin[j].address == x);
            } else {
                assert(soi_table(s, a[k]));
            }
        }
    }
    assert forall|k: int| 0 <= k < f.len() implies placed_ax(s, fin, (#[trigger] f[k]).address, range_of(f[k])) by {
        lemma_placed_ax(s, a, fin, f[k].address, range_of(f[k]));
    }
}

/// The turbo and late-region scans, shown after their claims, are shown in
/// the finished list.
pub proof fn lemma_regions_shown(
    s: Seq<u8>,
    big: Seq<DetectedMap>,
    fin: Seq<DetectedMap>,
    a_t: Seq<DetectedMap>,
    f_t: Seq<DetectedMap>,
    d_t: Set<u32>,
    a_r: Seq<DetectedMap>,
    f_r: Seq<DetectedMap>,
    d_r: Set<u32>,
)
    requires
        turbo_post(s, d_t, f_t),
        scan_shown(s, a_t, f_t, d_t),
        begins_with(a_t, big),
        region_post(s, d_r, f_r),
        scan_shown(s, a_r, f_r, d_r),
        begins_with(a_r, big),
        forall|k: int| 0 <= k < big.len() ==> has_place_of(fin, #[trigger] big[k]) || soi_table(s, big[k]),
    ensures
        turbo_shown(s, fin),
        region_shown(s, fin),
{
    lemma_shown_ax(s, a_t, big, fin, f_t, d_t);
    lemma_shown_ax(s, a_r, big, fin, f_r, d_r);
    assert(turbo_post(s, d_t, f_t) && scan_shown_ax(s, fin, f_t, d_t));
    assert(region_post(s, d_r, f_r) && scan_shown_ax(s, fin, f_r, d_r));
}

/// An empty image has no region tables to show.
pub proof fn lemma_empty_regions(s: Seq<u8>)
    requires
        s.len() == 0,
    ensures
        turbo_shown(s, Seq::<DetectedMap>::empty()),
        region_shown(s, Seq::<DetectedMap>::empty()),
{
    let e = Seq::<DetectedMap>::empty();
    let d = Set::<u32>::empty();
    assert(turbo_post(s, d, e) && scan_shown_ax(s, e, e, d));
    assert(region_post(s, d, e) && scan_shown_ax(s, e, e, d));
}


/// The name of `m` is not one that the start of injection block check looks at.
pub open spec fn not_soi_named(m: DetectedMap) -> bool {
    !numbered_soi(m) && !has_text(m.name, "Start of injection Dynamic"@)
}

pub proof fn lemma_not_soi_kept(m: DetectedMap, valid: Seq<u32>)
    requires
        not_soi_named(m),
    ensures
        soi_kept(m, valid),
{
}

pub proof fn lemma_plain_not_soi(m: DetectedMap)
    requires
        plain(m),
    ensures
        not_soi_named(m),
{
    lemma_plain_kept(m, Seq::<u32>::empty());
    reveal_strlit("Start of injection ");
    if numbered_soi(m) {
        let n = m.name->0@;
        assert(n.subrange(0, 19)[1] == n[1]);
    }
}

/// What the axis pass found has its places held in `r`, before the block
/// check: the pass was given ranges backed by the maps of `late`.
pub open spec fn axis_pre<F: Fn(Vec<i16>, usize, usize, MapType) -> Option<u32>>(
    s: Seq<u8>,
    tuned: bool,
    score: F,
    late: Seq<DetectedMap>,
    r: Seq<DetectedMap>,
) -> bool {
    exists|f: Seq<DetectedMap>, ex: Seq<(u32, u32)>|
        #[trigger] axis_post(s, data_section(s.len() as int).0, data_section(s.len() as int).1, tuned, ex, score, f)
            && ranges_backed(s, late, ex) && forall|k: int|
            0 <= k < f.len() ==> placed(s, r, (#[trigger] f[k]).address, range_of(f[k]))
}

/// What the turbo region scan found is shown in `r`, before the block check.
pub open spec fn turbo_pre(s: Seq<u8>, r: Seq<DetectedMap>) -> bool {
    exists|f: Seq<DetectedMap>, d: Set<u32>| #[trigger] turbo_post(s, d, f) && scan_shown(s, r, f, d)
}

/// What the late-region scan found is shown in `r`, before the block check.
pub open spec fn region_pre(s: Seq<u8>, r: Seq<DetectedMap>) -> bool {
    exists|f: Seq<DetectedMap>, d: Set<u32>| #[trigger] region_post(s, d, f) && scan_shown(s, r, f, d)
}

/// The facts before the block check stay true in a list that grows.
pub proof fn lemma_pre_grows<F: Fn(Vec<i16>, usize, usize, MapType) -> Option<u32>>(
    s: Seq<u8>,
    tuned: bool,
    score: F,
    late: Seq<DetectedMap>,
    a: Seq<DetectedMap>,
    b: Seq<DetectedMap>,
)
    requires
        begins_with(a, b),
    ensures
        axis_pre(s, tuned, score, late, a) ==> axis_pre(s, tuned, score, late, b),
        turbo_pre(s, a) ==> turbo_pre(s, b),
        region_pre(s, a) ==> region_pre(s, b),
{
    lemma_begins_kept(a, b);
    lemma_shown_kept(s, a, b);
    if axis_pre(s, tuned, score, late, a) {
        let (f, ex) = choose|f: Seq<DetectedMap>, ex: Seq<(u32, u32)>|
            #[trigger] axis_post(s, data_section(s.len() as int).0, data_section(s.len() as int).1, tuned, ex, score, f)
                && ranges_backed(s, late, ex) && forall|k: int|
                0 <= k < f.len() ==> placed(s, a, (#[trigger] f[k]).address, range_of(f[k]));
        assert forall|k: int| 0 <= k < f.len() implies placed(s, b, (#[trigger] f[k]).address, range_of(f[k])) by {
            assert(placed(s, a, f[k].address, range_of(f[k])));
        }
    }
    if turbo_pre(s, a) {
        let (f, d) = choose|f: Seq<DetectedMap>, d: Set<u32>| #[trigger] turbo_post(s, d, f) && scan_shown(s, a, f, d);
        lemma_shown_moves(s, a, b, f, d);
    }
    if region_pre(s, a) {
        let (f, d) = choose|f: Seq<DetectedMap>, d: Set<u32>| #[trigger] region_post(s, d, f) && scan_shown(s, a, f, d);
        lemma_shown_moves(s, a, b, f, d);
    }
}

/// Through the block check and the finishing steps the facts before the
/// check become the facts on the finished list.
pub proof fn lemma_pre_final<F: Fn(Vec<i16>, usize, usize, MapType) -> Option<u32>>(
    s: Seq<u8>,
    tuned: bool,
    score: F,
    late: Seq<DetectedMap>,
    big: Seq<DetectedMap>,
    fin: Seq<DetectedMap>,
)
    requires
        kept_in(late, fin),
        forall|k: int| 0 <= k < big.len() ==> has_place_of(fin, #[trigger] big[k]) || soi_table(s, big[k]),
        axis_pre(s, tuned, score, late, big),
        turbo_pre(s, big),
        region_pre(s, big),
    ensures
        axis_shown(s, tuned, score, fin),
        turbo_shown(s, fin),
        region_shown(s, fin),
{
    let (f, ex) = choose|f: Seq<DetectedMap>, ex: Seq<(u32, u32)>|
        #[trigger] axis_post(s, data_section(s.len() as int).0, data_section(s.len() as int).1, tuned, ex, score, f)
            && ranges_backed(s, late, ex) && forall|k: int|
            0 <= k < f.len() ==> placed(s, big, (#[trigger] f[k]).address, range_of(f[k]));
    lemma_axis_shown(s, tuned, score, late, ex, f, big, fin);
    lemma_begins_kept(big, big);
    let (ft, dt) = choose|f: Seq<DetectedMap>, d: Set<u32>| #[trigger] turbo_post(s, d, f) && scan_shown(s, big, f, d);
    let (fr, dr) = choose|f: Seq<DetectedMap>, d: Set<u32>| #[trigger] region_post(s, d, f) && scan_shown(s, big, f, d);
    lemma_regions_shown(s, big, fin, big, ft, dt, big, fr, dr);
}

/// The head of the list before the block check keeps its places through it.
pub proof fn lemma_kept_or_soi2(
    s: Seq<u8>,
    ax: Seq<DetectedMap>,
    bc: Seq<DetectedMap>,
    valid: Seq<u32>,
    a1: Seq<DetectedMap>,
    a2: Seq<DetectedMap>,
    pre: Seq<DetectedMap>,
    fin: Seq<DetectedMap>,
)
    requires
        begins_with(ax, bc),
        forall|k: int| 0 <= k < ax.len() ==> not_soi_named(#[trigger] ax[k]) || soi_table(s, ax[k]),
        begins_with(soi_filter(bc, valid), a1),
        a2.len() == a1.len(),
        pre.len() == a2.len(),
        fin.len() == pre.len(),
        forall|k: int| 0 <= k < a2.len() ==> same_but_name(a1[k], #[trigger] a2[k]),
        forall|k: int| 0 <= k < pre.len() ==> range_of(#[trigger] pre[k]) == range_of(a2[k]),
        forall|k: int| 0 <= k < fin.len() ==> same_but_name(pre[k], #[trigger] fin[k]),
    ensures
        forall|k: int| 0 <= k < ax.len() ==> has_place_of(fin, #[trigger] ax[k]) || soi_table(s, ax[k]),
{
    assert forall|k: int| 0 <= k < ax.len() implies soi_kept(#[trigger] ax[k], valid) || soi_table(s, ax[k]) by {
        if not_soi_named(ax[k]) {
            lemma_not_soi_kept(ax[k], valid);
        }
    }
    lemma_kept_or_soi(s, ax, bc, valid, a1, a2, pre, fin);
}

/// Every map after the axis, turbo and late-region scans is either not
/// named as a start of injection map or is a start of injection map of a block.
pub proof fn lemma_axis_names<F: Fn(Vec<i16>, usize, usize, MapType) -> Option<u32>>(
    s: Seq<u8>,
    tuned: bool,
    ex: Seq<(u32, u32)>,
    score: F,
    a0: Seq<DetectedMap>,
    f_ax: Seq<DetectedMap>,
    ax: Seq<DetectedMap>,
    all_t: Seq<DetectedMap>,
    f_t: Seq<DetectedMap>,
    d_t: Set<u32>,
    all_r: Seq<DetectedMap>,
    f_r: Seq<DetectedMap>,
    d_r: Set<u32>,
)
    requires
        all_plain(a0),
        begins_with(a0, ax),
        forall|k: int| a0.len() <= k < ax.len() ==> f_ax.contains(#[trigger] ax[k]),
        axis_post(s, data_section(s.len() as int).0, data_section(s.len() as int).1, tuned, ex, score, f_ax),
        begins_with(ax, all_t),
        forall|k: int| ax.len() <= k < all_t.len() ==> f_t.contains(#[trigger] all_t[k]),
        turbo_post(s, d_t, f_t),
        begins_with(all_t, all_r),
        forall|k: int| all_t.len() <= k < all_r.len() ==> f_r.contains(#[trigger] all_r[k]),
        region_post(s, d_r, f_r),
    ensures
        forall|k: int| 0 <= k < all_r.len() ==> not_soi_named(#[trigger] all_r[k]) || soi_table(s, all_r[k]),
{
    let none = Seq::<u32>::empty();
    assert forall|k: int| 0 <= k < all_r.len() implies not_soi_named(#[trigger] all_r[k]) || soi_table(s, all_r[k]) by {
        let m = all_r[k];
        if k < a0.len() {
            assert(m == all_t[k] && all_t[k] == ax[k] && ax[k] == a0[k]);
            assert(plain(a0[k]));
            lemma_plain_not_soi(a0[k]);
        } else if k < ax.len() {
            assert(m == all_t[k] && all_t[k] == ax[k]);
            let w = choose|w: int| 0 <= w < f_ax.len() && f_ax[w] == ax[k];
            lemma_axis_soi(
                s,
                data_section(s.len() as int).0,
                data_section(s.len() as int).1,
                tuned,
                ex,
                score,
                f_ax[w],
                none,
            );
        } else if k < all_t.len() {
            assert(m == all_t[k]);
            let w = choose|w: int| 0 <= w < f_t.len() && f_t[w] == all_t[k];
            lemma_region_kept(s, d_t, f_t[w], none);
        } else {
            let w = choose|w: int| 0 <= w < f_r.len() && f_r[w] == all_r[k];
            lemma_region_kept(s, d_r, f_r[w], none);
        }
    }
}

} // verus!
