//! Maps found by their axes alone: a standard engine-speed axis followed by
//! an X axis whose length and values tell the kind of map, the cells being
//! judged against the kind's template by a scorer.
use vstd::prelude::*;
use std::collections::HashSet;
use crate::bytes::{be16_seq, be16s_seq, read_signed_words, read_words};
use crate::model::{DataType, DetectedMap, MapCategory, MapDimensions, category_name, has_text, text, FIXED_ONE};
use super::axes::{identify_x_axis_type, is_valid_rpm_axis, rpm_axis_ok, x_axis_kind, XAxisType};
use super::boost::{boost_limiter_ok, target_ok};
use super::driver_wish::{dw_ok, shared_ok};
use super::headed::{boost_ok, conversion_ok, cranking_ok, n75_ok};
use super::limiters::{limiter_ok, linearisation_ok, svgl_ok};
use super::soi::{block_map_address, first_soi, soi_ok};
use super::{overlaps, ranges_meet, EDC16U31Detector};
use super::phases::{
    boost_correction_placed, cranking_placed, lemma_boost_correction_phase, lemma_cranking_phase, lemma_linearisation_phase,
    lemma_n75_phase, lemma_placed_grows, linearisation_placed, n75_placed, boost_limiter_placed, boost_target_placed,
    driver_wish_placed, lemma_boost_limiter_phase, lemma_boost_target_phase, lemma_driver_wish_phase,
};
use super::templates::{is_template, template, template_category, template_name, template_numbers, template_traits, MapType};

verus! {

/// The kind of map (and its rows and columns) told by an engine-speed axis
/// of `rpm_len` points and an X axis of kind `k` with `x_len` points: driver's
/// wish (16 x 8 on a pedal axis), boost target (15 x 10 on an injection
/// quantity axis), EGR (16 x 13 or 13 x 16 on a high injection quantity
/// axis), smoke limiter (16 x 13 on an air mass axis), boost limiter (10 x 10,
/// 11 x 10 or 10 x 11 on an atmospheric pressure axis). Shapes whose maps are
/// found by their own signature (N75, start of injection) give none.
pub open spec fn kind_by_axes(k: XAxisType, rpm_len: int, x_len: int) -> Option<(MapType, int, int)> {
    if k == XAxisType::Pedal && rpm_len == 16 && x_len == 8 {
        Some((MapType::DriverWish, 16, 8))
    } else if k == XAxisType::Pedal && rpm_len == 8 && x_len == 16 {
        Some((MapType::DriverWish, 16, 8))
    } else if k == XAxisType::InjectionQty && rpm_len == 15 && x_len == 10 {
        Some((MapType::BoostTarget, 15, 10))
    } else if k == XAxisType::InjectionQtyHigh && ((rpm_len == 16 && x_len == 13) || (rpm_len == 13 && x_len
        == 16)) {
        Some((MapType::Egr, rpm_len, x_len))
    } else if k == XAxisType::AirMass && rpm_len == 16 && x_len == 13 {
        Some((MapType::SmokeLimiter, 16, 13))
    } else if k == XAxisType::AtmosphericPressure && ((rpm_len == 10 && x_len == 10) || (rpm_len == 11 && x_len
        == 10) || (rpm_len == 10 && x_len == 11)) {
        Some((MapType::BoostLimiter, rpm_len, x_len))
    } else {
        None
    }
}

/// The kind of map told by its axes (see [`kind_by_axes`]).
pub fn identify_map_type_by_axes(x_axis: &[u16], rpm_len: usize, x_len: usize) -> (r: Option<(MapType, usize, usize)>)
    ensures
        r matches Some(t) ==> kind_by_axes(x_axis_kind(x_axis@), rpm_len as int, x_len as int) == Some(
            (t.0, t.1 as int, t.2 as int),
        ),
        r is None ==> kind_by_axes(x_axis_kind(x_axis@), rpm_len as int, x_len as int) is None,
{
    let k = identify_x_axis_type(x_axis);
    if k == XAxisType::Pedal && rpm_len == 16 && x_len == 8 {
        Some((MapType::DriverWish, 16, 8))
    } else if k == XAxisType::Pedal && rpm_len == 8 && x_len == 16 {
        Some((MapType::DriverWish, 16, 8))
    } else if k == XAxisType::InjectionQty && rpm_len == 15 && x_len == 10 {
        Some((MapType::BoostTarget, 15, 10))
    } else if k == XAxisType::InjectionQtyHigh && ((rpm_len == 16 && x_len == 13) || (rpm_len == 13 && x_len
        == 16)) {
        Some((MapType::Egr, rpm_len, x_len))
    } else if k == XAxisType::AirMass && rpm_len == 16 && x_len == 13 {
        Some((MapType::SmokeLimiter, 16, 13))
    } else if k == XAxisType::AtmosphericPressure && ((rpm_len == 10 && x_len == 10) || (rpm_len == 11 && x_len
        == 10) || (rpm_len == 10 && x_len == 11)) {
        Some((MapType::BoostLimiter, rpm_len, x_len))
    } else {
        None
    }
}

/// X factor, X label, Y label and Y inversion that each kind gives its axes
/// (the Y factor is always 1.0).
pub open spec fn axis_style(t: MapType) -> (i64, Option<Seq<char>>, Option<Seq<char>>, Option<bool>) {
    match t {
        MapType::N75DutyCycle => (10_000_000_000, Some("mg/stroke"@), Some("rpm"@), Some(true)),
        MapType::DriverWish => (10_000_000_000, Some("%"@), Some("rpm"@), Some(true)),
        MapType::TorqueToIq => (100_000_000_000, Some("Nm"@), Some("rpm"@), Some(false)),
        MapType::BoostTarget => (10_000_000_000, Some("mg/stroke"@), Some("rpm"@), Some(true)),
        MapType::BoostLimiter => (FIXED_ONE, Some("mbar"@), Some("rpm"@), Some(true)),
        MapType::StartOfInjection => (10_000_000_000, Some("mg/stroke"@), Some("rpm"@), Some(true)),
        MapType::Egr => (10_000_000_000, Some("mg/stroke"@), Some("rpm"@), Some(true)),
        _ => (FIXED_ONE, None, None, None),
    }
}

/// `o` holds the text `t`, or nothing when `t` is nothing.
pub open spec fn text_opt(o: Option<String>, t: Option<Seq<char>>) -> bool {
    match t {
        Some(c) => has_text(o, c),
        None => o is None,
    }
}

/// `m` is the map of kind `t` made from its template, with these addresses,
/// shape and confidence.
pub open spec fn templated_map(
    m: DetectedMap,
    t: MapType,
    address: int,
    rows: int,
    cols: int,
    y_address: int,
    x_address: int,
    confidence: int,
) -> bool {
    let style = axis_style(t);
    &&& m.address == address
    &&& m.size == 2 * rows * cols
    &&& m.dimensions == MapDimensions::TwoDimensional { rows: rows as usize, cols: cols as usize }
    &&& m.data_type == (if template_traits(t).1 { DataType::Int16 } else { DataType::UInt16 })
    &&& has_text(m.name, template_name(t))
    &&& has_text(m.category, category_name(template_category(t)))
    &&& has_text(m.unit, template_traits(t).0)
    &&& m.correction_factor == Some(template_numbers(t).0)
    &&& m.confidence == confidence
    &&& m.x_axis_address == Some(x_address as u32)
    &&& m.y_axis_address == Some(y_address as u32)
    &&& m.x_axis_correction == Some(style.0)
    &&& m.y_axis_correction == Some(FIXED_ONE)
    &&& text_opt(m.x_label, style.1)
    &&& text_opt(m.y_label, style.2)
    &&& m.y_axis_inverted == style.3
    &&& m.description is None
    &&& m.offset is None
}

/// The map of kind `t` made from its template.
pub fn create_detected_map(
    t: MapType,
    map_address: usize,
    rows: usize,
    cols: usize,
    y_axis_address: usize,
    x_axis_address: usize,
    confidence: u32,
) -> (m: DetectedMap)
    requires
        t != MapType::SmokeLimiter,
        rows <= 64,
        cols <= 64,
        map_address <= u32::MAX,
    ensures
        templated_map(
            m,
            t,
            map_address as int,
            rows as int,
            cols as int,
            y_axis_address as int,
            x_axis_address as int,
            confidence as int,
        ),
{
    let tpl = template(t);
    let tpl = match tpl {
        Some(x) => x,
        None => {
            assert(false);
            return DetectedMap::new(0, 0, MapDimensions::OneDimensional { length: 0 }, DataType::UInt16);
        },
    };
    assert(rows * cols <= 4096) by (nonlinear_arith)
        requires
            rows <= 64,
            cols <= 64,
    ;
    let dt = if tpl.signed { DataType::Int16 } else { DataType::UInt16 };
    let mut m = DetectedMap::new(map_address as u32, rows * cols * 2, MapDimensions::TwoDimensional { rows, cols }, dt);
    assert(2 * rows * cols == rows * cols * 2) by (nonlinear_arith);
    m.category = Some(tpl.category.display_name());
    m.correction_factor = Some(tpl.z_factor);
    m.name = Some(tpl.name);
    m.unit = Some(tpl.unit);
    m.confidence = confidence;
    m.x_axis_address = Some(x_axis_address as u32);
    m.y_axis_address = Some(y_axis_address as u32);
    m.y_axis_correction = Some(FIXED_ONE);
    match t {
        MapType::N75DutyCycle => {
            m.x_axis_correction = Some(10_000_000_000);
            m.x_label = Some(text("mg/stroke"));
            m.y_label = Some(text("rpm"));
            m.y_axis_inverted = Some(true);
        },
        MapType::DriverWish => {
            m.x_axis_correction = Some(10_000_000_000);
            m.x_label = Some(text("%"));
            m.y_label = Some(text("rpm"));
            m.y_axis_inverted = Some(true);
        },
        MapType::TorqueToIq => {
            m.x_axis_correction = Some(100_000_000_000);
            m.x_label = Some(text("Nm"));
            m.y_label = Some(text("rpm"));
            m.y_axis_inverted = Some(false);
        },
        MapType::BoostTarget => {
            m.x_axis_correction = Some(10_000_000_000);
            m.x_label = Some(text("mg/stroke"));
            m.y_label = Some(text("rpm"));
            m.y_axis_inverted = Some(true);
        },
        MapType::BoostLimiter => {
            m.x_axis_correction = Some(FIXED_ONE);
            m.x_label = Some(text("mbar"));
            m.y_label = Some(text("rpm"));
            m.y_axis_inverted = Some(true);
        },
        MapType::StartOfInjection => {
            m.x_axis_correction = Some(10_000_000_000);
            m.x_label = Some(text("mg/stroke"));
            m.y_label = Some(text("rpm"));
            m.y_axis_inverted = Some(true);
        },
        MapType::Egr => {
            m.x_axis_correction = Some(10_000_000_000);
            m.x_label = Some(text("mg/stroke"));
            m.y_label = Some(text("rpm"));
            m.y_axis_inverted = Some(true);
        },
        _ => {
            m.x_axis_correction = Some(FIXED_ONE);
        },
    }
    m
}

/// The addresses of `maps` are pairwise different.
pub open spec fn distinct_addresses(maps: Seq<DetectedMap>) -> bool {
    forall|i: int, j: int| 0 <= i < j < maps.len() ==> (#[trigger] maps[i]).address != (#[trigger] maps[j]).address
}

/// Every address of `a` is an address of `b`, which begins with `a`.
pub open spec fn grows_from(a: Seq<DetectedMap>, b: Seq<DetectedMap>) -> bool {
    a.len() <= b.len() && forall|k: int| 0 <= k < a.len() ==> #[trigger] b[k] == a[k]
}

/// The maps of the first start of injection block of the scan of
/// `start .. min(end, len)` are at addresses of `r`.
pub open spec fn first_block_kept(s: Seq<u8>, start: int, end: int, r: Seq<DetectedMap>) -> bool {
    forall|o: int, i: int|
        first_soi(s, start, super::scan_limit(s, end), o) && 0 <= i < 10 ==> #[trigger] address_in(
            r,
            block_map_address(s, o, i) as u32,
        )
}

proof fn lemma_first_block_grows(s: Seq<u8>, start: int, end: int, a: Seq<DetectedMap>, b: Seq<DetectedMap>)
    requires
        first_block_kept(s, start, end, a),
        grows_from(a, b),
    ensures
        first_block_kept(s, start, end, b),
{
    assert forall|o: int, i: int|
        first_soi(s, start, super::scan_limit(s, end), o) && 0 <= i < 10 implies #[trigger] address_in(
        b,
        block_map_address(s, o, i) as u32,
    ) by {
        let x = block_map_address(s, o, i) as u32;
        assert(address_in(a, x));
        let k = choose|k: int| 0 <= k < a.len() && (#[trigger] a[k]).address == x;
        assert(b[k] == a[k]);
    }
}

/// No map of `s` before the `k`-th has its address.
pub open spec fn first_of_address(s: Seq<DetectedMap>, k: int) -> bool {
    forall|j: int| 0 <= j < k ==> #[trigger] s[j].address != s[k].address
}

/// `a` is the address of one of `maps`.
pub open spec fn address_in(maps: Seq<DetectedMap>, a: u32) -> bool {
    exists|k: int| 0 <= k < maps.len() && (#[trigger] maps[k]).address == a
}

/// Appends to `maps` each map of `found` whose address is not yet in `seen`
/// (the addresses of `maps`), recording it.
pub fn merge_by_address(maps: &mut Vec<DetectedMap>, seen: &mut HashSet<u32>, found: Vec<DetectedMap>)
    requires
        forall|a: u32| #[trigger] old(seen)@.contains(a) <==> address_in(old(maps)@, a),
        distinct_addresses(old(maps)@),
    ensures
        forall|a: u32| #[trigger] final(seen)@.contains(a) <==> address_in(final(maps)@, a),
        distinct_addresses(final(maps)@),
        final(maps)@.len() >= old(maps)@.len(),
        forall|k: int| 0 <= k < old(maps)@.len() ==> final(maps)@[k] == old(maps)@[k],
        forall|k: int| old(maps)@.len() <= k < final(maps)@.len() ==> found@.contains(#[trigger] final(maps)@[k]),
        forall|k: int| 0 <= k < found@.len() ==> address_in(final(maps)@, (#[trigger] found@[k]).address),
        forall|k: int|
            0 <= k < found@.len() && !address_in(old(maps)@, found@[k].address) && #[trigger] first_of_address(
                found@,
                k,
            ) ==> final(maps)@.contains(found@[k]),
{
    broadcast use vstd::std_specs::hash::group_hash_axioms;
    let ghost first = maps@;
    let mut found = found;
    let ghost all = found@;
    let ghost mut i: int = 0;
    let ghost mut src: Seq<int> = Seq::empty();
    while found.len() > 0
        invariant
            0 <= i <= all.len(),
            found@ == all.subrange(i, all.len() as int),
            forall|a: u32| #[trigger] seen@.contains(a) <==> address_in(maps@, a),
            distinct_addresses(maps@),
            maps@.len() >= first.len(),
            forall|k: int| 0 <= k < first.len() ==> maps@[k] == first[k],
            forall|k: int| first.len() <= k < maps@.len() ==> all.contains(#[trigger] maps@[k]),
            forall|k: int| 0 <= k < i ==> address_in(maps@, (#[trigger] all[k]).address),
            src.len() == maps@.len() - first.len(),
            forall|p: int| 0 <= p < src.len() ==> 0 <= #[trigger] src[p] < i && maps@[first.len() + p] == all[src[p]],
            forall|k: int|
                0 <= k < i && !address_in(first, all[k].address) && #[trigger] first_of_address(all, k)
                    ==> maps@.contains(all[k]),
        decreases found.len(),
    {
        let ghost before0 = maps@;
        let ghost src0 = src;
        let m = found.remove(0);
        assert(m == all[i]);
        proof {
            i = i + 1;
            assert(found@ =~= all.subrange(i, all.len() as int));
        }
        let a = m.address;
        if !seen.contains(&a) {
            let ghost before = maps@;
            maps.push(m);
            seen.insert(a);
            proof {
                assert forall|b: u32| #[trigger] seen@.contains(b) <==> address_in(maps@, b) by {
                    if b == a {
                        assert(maps@[maps@.len() - 1].address == a);
                    } else if address_in(before, b) {
                        let k = choose|k: int| 0 <= k < before.len() && (#[trigger] before[k]).address == b;
                        assert(maps@[k] == before[k]);
                    } else if address_in(maps@, b) {
                        let k = choose|k: int| 0 <= k < maps@.len() && (#[trigger] maps@[k]).address == b;
                        if k < before.len() {
                            assert(maps@[k] == before[k]);
                        }
                    }
                }
                assert forall|p: int, q: int| 0 <= p < q < maps@.len() implies (#[trigger] maps@[p]).address
                    != (#[trigger] maps@[q]).address by {
                    if q == maps@.len() - 1 {
                        assert(maps@[p] == before[p]);
                        assert(address_in(before, before[p].address));
                    } else {
                        assert(maps@[p] == before[p] && maps@[q] == before[q]);
                    }
                }
                assert(all[i - 1] == maps@[maps@.len() - 1]);
                assert(all.contains(maps@[maps@.len() - 1]));
                let ghost old_src = src;
                src = src.push(i - 1);
                assert forall|p: int| 0 <= p < src.len() implies 0 <= #[trigger] src[p] < i && maps@[first.len() + p]
                    == all[src[p]] by {
                    if p < old_src.len() {
                        assert(src[p] == old_src[p]);
                        assert(maps@[first.len() + p] == before[first.len() + p]);
                    }
                }
            }
        }
        proof {
            assert forall|k: int| 0 <= k < i implies address_in(maps@, (#[trigger] all[k]).address) by {
                if k < i - 1 {
                    let w = choose|w: int| 0 <= w < before0.len() && (#[trigger] before0[w]).address == all[k].address;
                    assert(maps@[w] == before0[w]);
                } else {
                    if !address_in(before0, a) {
                        assert(maps@[maps@.len() - 1] == all[k]);
                    } else {
                        let w = choose|w: int| 0 <= w < before0.len() && (#[trigger] before0[w]).address == a;
                        assert(maps@[w] == before0[w]);
                    }
                }
            }
            assert forall|k: int|
                0 <= k < i && !address_in(first, all[k].address) && #[trigger] first_of_address(all, k) implies maps@.contains(
                all[k],
            ) by {
                if k < i - 1 {
                    let w = choose|w: int| 0 <= w < before0.len() && before0[w] == all[k];
                    assert(maps@[w] == before0[w]);
                } else {
                    if address_in(before0, a) {
                        let w = choose|w: int| 0 <= w < before0.len() && (#[trigger] before0[w]).address == a;
                        if w >= first.len() {
                            let p = w - first.len();
                            let j = src0[p];
                            assert(before0[first.len() + p] == all[j]);
                            assert(0 <= j < k);
                            assert(all[j].address != all[k].address);
                        } else {
                            assert(first[w] == before0[w]);
                        }
                    } else {
                        assert(maps@[maps@.len() - 1] == all[k]);
                    }
                }
            }
        }
    }
}

/// `m` was made by the axis scan proper: at `o` a standard engine-speed axis
/// of `rpm_len` points, followed by an X axis of `x_len` points, tell a kind
/// with a template, a shape and a table that ends inside `.. lim` and does
/// not meet `existing`, and the scorer accepted its cells with confidence `c`.
pub open spec fn scored_map<F: Fn(Vec<i16>, usize, usize, MapType) -> Option<u32>>(
    s: Seq<u8>,
    lim: int,
    existing: Seq<(u32, u32)>,
    score: F,
    m: DetectedMap,
    o: int,
    rpm_len: int,
    x_len: int,
) -> bool {
    let xs = o + 2 * rpm_len;
    let ms = xs + 2 * x_len;
    match kind_by_axes(x_axis_kind(be16_seq(s, xs, x_len)), rpm_len, x_len) {
        Some((t, rows, cols)) => {
            &&& t != MapType::SmokeLimiter
            &&& rpm_axis_ok(be16_seq(s, o, rpm_len))
            &&& 0 <= o
            &&& ms + 2 * rows * cols <= lim
            &&& !(exists|i: int|
                0 <= i < existing.len() && ranges_meet(
                    (ms as u32, (ms + 2 * rows * cols) as u32),
                    #[trigger] existing[i],
                ))
            &&& exists|v: Vec<i16>, c: u32|
                v@ == be16s_seq(s, ms, rows * cols) && #[trigger] call_ensures(
                    score,
                    (v, rows as usize, cols as usize, t),
                    Some(c),
                ) && templated_map(m, t, ms, rows, cols, o, xs, c as int)
        },
        None => false,
    }
}

/// `score` accepts the cells of the `rows x cols` table at `ms` whatever it returns.
pub open spec fn surely_scored<F: Fn(Vec<i16>, usize, usize, MapType) -> Option<u32>>(
    s: Seq<u8>,
    score: F,
    ms: int,
    rows: int,
    cols: int,
    t: MapType,
) -> bool {
    forall|v: Vec<i16>, out: Option<u32>|
        v@ == be16s_seq(s, ms, rows * cols) && #[trigger] call_ensures(score, (v, rows as usize, cols as usize, t), out)
            ==> out is Some
}

/// The engine-speed axis lengths tried.
pub open spec fn rpm_len_ok(rl: int) -> bool {
    rl == 16 || rl == 15 || rl == 14 || rl == 13 || rl == 11 || rl == 10
}

/// The X axis lengths tried.
pub open spec fn x_len_ok(xl: int) -> bool {
    xl == 16 || xl == 14 || xl == 13 || xl == 12 || xl == 11 || xl == 10 || xl == 8 || xl == 6
}

/// The table address behind axes of `rl` and `xl` points at `o`.
pub open spec fn axis_ms(o: int, rl: int, xl: int) -> int {
    o + 2 * rl + 2 * xl
}

/// At `o` (on the word alignment of the scan from `start`, inside `.. lim`)
/// stand an engine-speed axis of `rl` points and an X axis of `xl` points
/// that tell a kind other than the smoke limiter, with a table that fits,
/// meets none of `existing`, and whose cells `score` surely accepts.
pub open spec fn axis_candidate<F: Fn(Vec<i16>, usize, usize, MapType) -> Option<u32>>(
    s: Seq<u8>,
    start: int,
    lim: int,
    existing: Seq<(u32, u32)>,
    score: F,
    o: int,
    rl: int,
    xl: int,
) -> bool {
    let xs = o + 2 * rl;
    let ms = xs + 2 * xl;
    &&& start <= o
    &&& (o - start) % 2 == 0
    &&& o + 64 <= lim
    &&& rpm_len_ok(rl)
    &&& x_len_ok(xl)
    &&& ms <= lim
    &&& rpm_axis_ok(be16_seq(s, o, rl))
    &&& match kind_by_axes(x_axis_kind(be16_seq(s, xs, xl)), rl, xl) {
        Some((t, rows, cols)) => {
            &&& t != MapType::SmokeLimiter
            &&& ms + 2 * rows * cols <= lim
            &&& !(exists|i: int|
                0 <= i < existing.len() && ranges_meet(
                    (ms as u32, (ms + 2 * rows * cols) as u32),
                    #[trigger] existing[i],
                ))
            &&& surely_scored(s, score, ms, rows, cols, t)
        },
        None => false,
    }
}

/// Position `p` lies between the axes of a table that the axis scan
/// accepted (a map of `maps`) and the end of its cells.
pub open spec fn scan_covered<F: Fn(Vec<i16>, usize, usize, MapType) -> Option<u32>>(
    s: Seq<u8>,
    lim: int,
    existing: Seq<(u32, u32)>,
    score: F,
    maps: Seq<DetectedMap>,
    p: int,
) -> bool {
    exists|k: int, h: int, rl: int, xl: int|
        0 <= k < maps.len() && #[trigger] scored_map(s, lim, existing, score, maps[k], h, rl, xl) && h <= p < maps[k].address
            + maps[k].size
}

/// What the axis scan found at `p` stays found in a list that grows.
proof fn lemma_scan_grows<F: Fn(Vec<i16>, usize, usize, MapType) -> Option<u32>>(
    s: Seq<u8>,
    lim: int,
    existing: Seq<(u32, u32)>,
    score: F,
    a: Seq<DetectedMap>,
    b: Seq<DetectedMap>,
)
    requires
        grows_from(a, b),
    ensures
        forall|p: int| #[trigger] scan_covered(s, lim, existing, score, a, p) ==> scan_covered(s, lim, existing, score, b, p),
        forall|x: u32| #[trigger] address_in(a, x) ==> address_in(b, x),
{
    assert forall|p: int| #[trigger] scan_covered(s, lim, existing, score, a, p) implies scan_covered(
        s,
        lim,
        existing,
        score,
        b,
        p,
    ) by {
        let (k, h, rl, xl) = choose|k: int, h: int, rl: int, xl: int|
            0 <= k < a.len() && #[trigger] scored_map(s, lim, existing, score, a[k], h, rl, xl) && h <= p < a[k].address
                + a[k].size;
        assert(b[k] == a[k]);
        assert(scored_map(s, lim, existing, score, b[k], h, rl, xl));
    }
    assert forall|x: u32| #[trigger] address_in(a, x) implies address_in(b, x) by {
        let k = choose|k: int| 0 <= k < a.len() && (#[trigger] a[k]).address == x;
        assert(b[k] == a[k]);
    }
}

/// `m` was found by one of the scans of the axis pass over `start .. end`.
pub open spec fn axis_pass_map<F: Fn(Vec<i16>, usize, usize, MapType) -> Option<u32>>(
    s: Seq<u8>,
    start: int,
    end: int,
    tuned: bool,
    existing: Seq<(u32, u32)>,
    score: F,
    m: DetectedMap,
) -> bool {
    let none = Set::<u32>::empty();
    ||| soi_ok(s, none, m)
    ||| exists|o: int, rl: int, xl: int|
        start <= o && #[trigger] scored_map(s, super::scan_limit(s, end), existing, score, m, o, rl, xl)
    ||| dw_ok(s, start, end, none, m)
    ||| shared_ok(s, start, end, none, m)
    ||| target_ok(s, start, end, tuned, none, m)
    ||| boost_limiter_ok(s, start, end, none, m)
    ||| n75_ok(s, none, m)
    ||| conversion_ok(s, none, m)
    ||| cranking_ok(s, start, end, none, m)
    ||| boost_ok(s, start, end, none, m)
    ||| linearisation_ok(s, start, end, none, m)
    ||| limiter_ok(s, start, end, none, m)
    ||| svgl_ok(s, start, end, none, m)
}

/// What the axis pass over `start .. end` states of its list `r`, with the
/// claimed ranges `existing`, the scorer `score` and the mode `tuned`.
pub open spec fn axis_post<F: Fn(Vec<i16>, usize, usize, MapType) -> Option<u32>>(
    s: Seq<u8>,
    start: int,
    end: int,
    tuned: bool,
    existing: Seq<(u32, u32)>,
    score: F,
    r: Seq<DetectedMap>,
) -> bool {
    &&& (distinct_addresses(r))
    &&& (first_block_kept(s, start, end, r))
    &&& (forall|o: int, rl: int, xl: int|
                #[trigger] axis_candidate(s, start, super::scan_limit(s, end), existing, score, o, rl, xl)
                    ==> address_in(r, axis_ms(o, rl, xl) as u32) || scan_covered(
                    s,
                    super::scan_limit(s, end),
                    existing,
                    score,
                    r,
                    o,
                ))
    &&& (forall|k: int|
                0 <= k < r.len() ==> axis_pass_map(
                    s,
                    start,
                    end,
                    tuned,
                    existing,
                    score,
                    #[trigger] r[k],
                ))
    &&& (driver_wish_placed(s, start, end, r))
    &&& (boost_target_placed(s, start, end, tuned, r))
    &&& (boost_limiter_placed(s, start, end, r))
    &&& (n75_placed(s, r))
    &&& (cranking_placed(s, start, end, r))
    &&& (boost_correction_placed(s, start, end, r))
    &&& (linearisation_placed(s, start, end, r))
}

impl EDC16U31Detector {
    /// The maps found from their axes over `start .. min(end, len)`: the SOI
    /// blocks first, then the axis scan proper (each standard engine-speed
    /// axis of 16, 15, 14, 13, 11 or 10 points, with an X axis of 16, 14, 13,
    /// 12, 11, 10, 8 or 6 points, whose kind has a template and whose table
    /// does not meet `existing` is handed to `score`; a table it accepts is
    /// reported and skipped over), then the driver's wish, boost target,
    /// boost limiter, N75, torque to injection quantity, cranking torque,
    /// boost correction, MAP linearisation, torque limiter and launch control
    /// scans, each map kept only if no earlier one has its address. Every
    /// table that the driver's wish, boost target, boost limiter, N75,
    /// cranking torque, boost correction and MAP linearisation scans require
    /// ends up at an address of the list (or is claimed there as those scans
    /// claim tables).
    #[verifier::spinoff_prover]
    #[verifier::rlimit(100)]
    pub fn detect_all_maps_by_axes<F: Fn(Vec<i16>, usize, usize, MapType) -> Option<u32>>(
        &self,
        data: &[u8],
        start: usize,
        end: usize,
        existing: &Vec<(u32, u32)>,
        score: &F,
    ) -> (r: Vec<DetectedMap>)
        requires
            data@.len() <= u32::MAX,
            data@.len() + 0x10000 <= usize::MAX,
            forall|v: Vec<i16>, rows: usize, cols: usize, t: MapType| #[trigger] score.requires((v, rows, cols, t)),
        ensures
            axis_post(data@, start as int, end as int, self.tuned(), existing@, *score, r@),
    {
        broadcast use vstd::std_specs::hash::group_hash_axioms;
        let ghost s = data@;
        let ghost ex = existing@;
        let mut maps: Vec<DetectedMap> = Vec::new();
        let mut seen: HashSet<u32> = HashSet::new();
        let soi = self.detect_soi_blocks(data, start, end, &seen);
        let ghost soi_view = soi@;
        merge_by_address(&mut maps, &mut seen, soi);
        proof {
            assert forall|o: int, i: int|
                first_soi(s, start as int, super::scan_limit(s, end as int), o) && 0 <= i < 10 implies #[trigger] address_in(
                maps@,
                block_map_address(s, o, i) as u32,
            ) by {
                let x = block_map_address(s, o, i);
                assert(crate::model::listed(soi_view, x));
                let k = choose|k: int| 0 <= k < soi_view.len() && (#[trigger] soi_view[k]).address == x;
                assert(address_in(maps@, soi_view[k].address));
            }
        }
        let ghost m0 = maps@;
        let len = data.len();
        let lim = if end < len { end } else { len };
        let rpm_lens: [usize; 6] = [16, 15, 14, 13, 11, 10];
        let x_lens: [usize; 8] = [16, 14, 13, 12, 11, 10, 8, 6];
        let mut o = start;
        let ghost l = lim as int;
        while o <= lim && lim - o >= 64
            invariant
                l == lim,
                (o - start) % 2 == 0,
                forall|p: int, rl: int, xl: int|
                    p < o && #[trigger] axis_candidate(s, start as int, l, ex, *score, p, rl, xl) ==> address_in(
                        maps@,
                        axis_ms(p, rl, xl) as u32,
                    ) || scan_covered(s, l, ex, *score, maps@, p),
                s == data@,
                ex == existing@,
                len == s.len(),
                len <= u32::MAX,
                len + 0x10000 <= usize::MAX,
                lim == super::scan_limit(s, end as int),
                start <= o,
                rpm_lens@ == seq![16usize, 15, 14, 13, 11, 10],
                x_lens@ == seq![16usize, 14, 13, 12, 11, 10, 8, 6],
                forall|v: Vec<i16>, rows: usize, cols: usize, t: MapType| #[trigger] score.requires((v, rows, cols, t)),
                forall|a: u32| #[trigger] seen@.contains(a) <==> address_in(maps@, a),
                distinct_addresses(maps@),
                forall|k: int| 0 <= k < maps@.len() ==> axis_pass_map(s, start as int, end as int, self.tuned(), ex, *score, #[trigger] maps@[k]),
                grows_from(m0, maps@),
            decreases len - o,
        {
            let ghost o0 = o;
            let ghost mo = maps@;
            let ghost mut accepted = false;
            let mut ri: usize = 0;
            while ri < 6
                invariant
                    l == lim,
                    !accepted ==> o == o0 && maps@ == mo,
                    (o0 - start) % 2 == 0,
                    forall|p: int, r3: int, x3: int|
                        p < o0 && #[trigger] axis_candidate(s, start as int, l, ex, *score, p, r3, x3) ==> address_in(
                            mo,
                            axis_ms(p, r3, x3) as u32,
                        ) || scan_covered(s, l, ex, *score, mo, p),
                    grows_from(mo, maps@),
                    accepted ==> (o - start) % 2 == 0 && forall|p: int|
                        o0 <= p < o + 2 ==> #[trigger] scan_covered(s, l, ex, *score, maps@, p),
                    !accepted ==> forall|q: int, xl: int|
                        0 <= q < ri && #[trigger] axis_candidate(s, start as int, l, ex, *score, o0 as int, rpm_lens@[q] as int, xl)
                            ==> address_in(mo, axis_ms(o0 as int, rpm_lens@[q] as int, xl) as u32),
                    accepted ==> exists|k: int, p: int, rl: int, xl: int|
                        0 <= k < maps@.len() && #[trigger] scored_map(s, l, ex, *score, maps@[k], p, rl, xl),
                    s == data@,
                    ex == existing@,
                    len == s.len(),
                    len <= u32::MAX,
                    len + 0x10000 <= usize::MAX,
                    lim == super::scan_limit(s, end as int),
                    start <= o,
                    o0 <= o,
                    o + 2 <= lim,
                    ri <= 6,
                    rpm_lens@ == seq![16usize, 15, 14, 13, 11, 10],
                    x_lens@ == seq![16usize, 14, 13, 12, 11, 10, 8, 6],
                    forall|v: Vec<i16>, rows: usize, cols: usize, t: MapType| #[trigger] score.requires((v, rows, cols, t)),
                    forall|a: u32| #[trigger] seen@.contains(a) <==> address_in(maps@, a),
                    distinct_addresses(maps@),
                    forall|k: int| 0 <= k < maps@.len() ==> axis_pass_map(s, start as int, end as int, self.tuned(), ex, *score, #[trigger] maps@[k]),
                    grows_from(m0, maps@),
                decreases 6 - ri,
            {
                let rl = rpm_lens[ri];
                ri += 1;
                if o + 2 * rl > lim {
                    continue;
                }
                let rpm = read_words(data, o, rl);
                if !is_valid_rpm_axis(rpm.as_slice()) {
                    proof {
                        assert forall|xl: int| !#[trigger] axis_candidate(s, start as int, l, ex, *score, o as int, rl as int, xl) by {}
                    }
                    continue;
                }
                let xs = o + 2 * rl;
                let mut xi: usize = 0;
                while xi < 8
                    invariant_except_break
                        xs == o + 2 * rl,
                        xs <= lim,
                        rpm@ == be16_seq(s, o as int, rl as int),
                        rpm_axis_ok(rpm@),
                    invariant
                        s == data@,
                        ex == existing@,
                        len == s.len(),
                        len <= u32::MAX,
                        len + 0x10000 <= usize::MAX,
                        lim == super::scan_limit(s, end as int),
                        start <= o,
                        o0 <= o,
                        o + 2 <= lim,
                        xi <= 8,
                        x_lens@ == seq![16usize, 14, 13, 12, 11, 10, 8, 6],
                        forall|v: Vec<i16>, rows: usize, cols: usize, t: MapType| #[trigger] score.requires((v, rows, cols, t)),
                        forall|a: u32| #[trigger] seen@.contains(a) <==> address_in(maps@, a),
                        distinct_addresses(maps@),
                        forall|k: int| 0 <= k < maps@.len() ==> axis_pass_map(s, start as int, end as int, self.tuned(), ex, *score, #[trigger] maps@[k]),
                        grows_from(m0, maps@),
                        l == lim,
                        !accepted ==> o == o0 && maps@ == mo,
                        (o0 - start) % 2 == 0,
                        forall|p: int, r3: int, x3: int|
                            p < o0 && #[trigger] axis_candidate(s, start as int, l, ex, *score, p, r3, x3) ==> address_in(
                                mo,
                                axis_ms(p, r3, x3) as u32,
                            ) || scan_covered(s, l, ex, *score, mo, p),
                        grows_from(mo, maps@),
                        accepted ==> (o - start) % 2 == 0 && forall|p: int|
                            o0 <= p < o + 2 ==> #[trigger] scan_covered(s, l, ex, *score, maps@, p),
                        ri >= 1,
                        rl == rpm_lens@[ri - 1],
                        !accepted ==> forall|q: int, x4: int|
                            0 <= q < ri - 1 && #[trigger] axis_candidate(s, start as int, l, ex, *score, o0 as int, rpm_lens@[q] as int, x4)
                                ==> address_in(mo, axis_ms(o0 as int, rpm_lens@[q] as int, x4) as u32),
                        !accepted ==> forall|q: int|
                            0 <= q < xi && #[trigger] axis_candidate(s, start as int, l, ex, *score, o0 as int, rl as int, x_lens@[q] as int)
                                ==> address_in(mo, axis_ms(o0 as int, rl as int, x_lens@[q] as int) as u32),
                        accepted ==> exists|k: int, p: int, r2: int, x2: int|
                            0 <= k < maps@.len() && #[trigger] scored_map(s, l, ex, *score, maps@[k], p, r2, x2),
                    ensures
                        !accepted ==> xi == 8,
                    decreases 8 - xi,
                {
                    let xl = x_lens[xi];
                    xi += 1;
                    if xs + 2 * xl > lim {
                        continue;
                    }
                    let x = read_words(data, xs, xl);
                    let kind = identify_map_type_by_axes(x.as_slice(), rl, xl);
                    let (t, rows, cols) = match kind {
                        Some(k) => k,
                        None => {
                            proof {
                                if !accepted {
                                    assert(!axis_candidate(s, start as int, l, ex, *score, o0 as int, rl as int, xl as int));
                                }
                            }
                            continue;
                        },
                    };
                    if t == MapType::SmokeLimiter {
                        proof {
                            if !accepted {
                                assert(!axis_candidate(s, start as int, l, ex, *score, o0 as int, rl as int, xl as int));
                            }
                        }
                        continue;
                    }
                    assert(rows <= 16 && cols <= 16);
                    assert(rows * cols <= 256) by (nonlinear_arith)
                        requires
                            rows <= 16,
                            cols <= 16,
                    ;
                    let ms = xs + 2 * xl;
                    let size = 2 * (rows * cols);
                    assert(size == 2 * rows * cols) by (nonlinear_arith)
                        requires
                            size == 2 * (rows * cols),
                    ;
                    if ms > lim || lim - ms < size {
                        proof {
                            if !accepted {
                                assert(!axis_candidate(s, start as int, l, ex, *score, o0 as int, rl as int, xl as int));
                            }
                        }
                        continue;
                    }
                    if seen.contains(&(ms as u32)) {
                        continue;
                    }
                    if overlaps(existing, (ms as u32, (ms + size) as u32)) {
                        proof {
                            if !accepted {
                                assert(!axis_candidate(s, start as int, l, ex, *score, o0 as int, rl as int, xl as int));
                            }
                        }
                        continue;
                    }
                    let values = read_signed_words(data, ms, rows * cols);
                    let ghost vs = values;
                    let verdict = score(values, rows, cols, t);
                    proof {
                        if !accepted && verdict is None {
                            assert(vs@ == be16s_seq(s, ms as int, rows * cols));
                            assert(call_ensures(*score, (vs, rows, cols, t), verdict));
                            assert(!axis_candidate(s, start as int, l, ex, *score, o0 as int, rl as int, xl as int));
                        }
                    }
                    match verdict {
                        Some(c) => {
                            let m = create_detected_map(t, ms, rows, cols, o, xs, c);
                            proof {
                                assert(2 * rows * cols == 2 * (rows * cols)) by (nonlinear_arith);
                                assert(kind_by_axes(x_axis_kind(be16_seq(s, xs as int, xl as int)), rl as int, xl as int) == Some((t, rows as int, cols as int)));
                                assert(rpm_axis_ok(be16_seq(s, o as int, rl as int)));
                                assert(ms + 2 * rows * cols <= lim);
                                assert(!(exists|i: int|
                                    0 <= i < ex.len() && ranges_meet(
                                        (ms as u32, (ms + 2 * rows * cols) as u32),
                                        #[trigger] ex[i],
                                    )));
                                assert(vs@ == be16s_seq(s, ms as int, rows * cols));
                                assert(call_ensures(*score, (vs, rows, cols, t), Some(c)));
                                assert(templated_map(m, t, ms as int, rows as int, cols as int, o as int, xs as int, c as int));
                                assert(scored_map(s, lim as int, ex, *score, m, o as int, rl as int, xl as int));
                            }
                            let ghost before = maps@;
                            maps.push(m);
                            seen.insert(ms as u32);
                            proof {
                                assert forall|b: u32| #[trigger] seen@.contains(b) <==> address_in(maps@, b) by {
                                    if b == ms as u32 {
                                        assert(maps@[maps@.len() - 1].address == b);
                                    } else if address_in(before, b) {
                                        let k = choose|k: int| 0 <= k < before.len() && (#[trigger] before[k]).address == b;
                                        assert(maps@[k] == before[k]);
                                    } else if address_in(maps@, b) {
                                        let k = choose|k: int| 0 <= k < maps@.len() && (#[trigger] maps@[k]).address == b;
                                        if k < before.len() {
                                            assert(maps@[k] == before[k]);
                                        }
                                    }
                                }
                                assert forall|p: int, q: int| 0 <= p < q < maps@.len() implies (#[trigger] maps@[p]).address
                                    != (#[trigger] maps@[q]).address by {
                                    if q == maps@.len() - 1 {
                                        assert(maps@[p] == before[p]);
                                        assert(address_in(before, before[p].address));
                                    } else {
                                        assert(maps@[p] == before[p] && maps@[q] == before[q]);
                                    }
                                }
                            }
                            let ghost old_o = o;
                            o = ms + size - 2;
                            proof {
                                assert(maps@[maps@.len() - 1] == m);
                                assert(grows_from(before, maps@));
                                lemma_scan_grows(s, l, ex, *score, before, maps@);
                                assert forall|p: int| o0 <= p < o + 2 implies #[trigger] scan_covered(s, l, ex, *score, maps@, p) by {
                                    if p < old_o + 2 && accepted {
                                        assert(scan_covered(s, l, ex, *score, before, p));
                                    } else {
                                        let k = maps@.len() - 1;
                                        assert(scored_map(s, l, ex, *score, maps@[k], old_o as int, rl as int, xl as int));
                                        assert(old_o <= p < maps@[k].address + maps@[k].size);
                                    }
                                }
                                accepted = true;
                            }
                            break;
                        },
                        None => {},
                    }
                }
                proof {
                    if !accepted {
                        assert forall|xl: int| #[trigger] axis_candidate(s, start as int, l, ex, *score, o0 as int, rl as int, xl)
                            implies address_in(mo, axis_ms(o0 as int, rl as int, xl) as u32) by {
                            assert(x_len_ok(xl));
                            let q: int = if xl == 16 { 0 } else if xl == 14 { 1 } else if xl == 13 { 2 } else if xl == 12 { 3 }
                                else if xl == 11 { 4 } else if xl == 10 { 5 } else if xl == 8 { 6 } else { 7 };
                            assert(x_lens@[q] == xl);
                        }
                        assert forall|q: int, xl: int|
                            0 <= q < ri && #[trigger] axis_candidate(s, start as int, l, ex, *score, o0 as int, rpm_lens@[q] as int, xl)
                                implies address_in(mo, axis_ms(o0 as int, rpm_lens@[q] as int, xl) as u32) by {
                            if q == ri - 1 {
                                assert(rpm_lens@[q] == rl);
                            }
                        }
                    }
                }
            }
            proof {
                lemma_scan_grows(s, l, ex, *score, mo, maps@);
                assert forall|p: int, rl: int, xl: int|
                    p < o + 2 && #[trigger] axis_candidate(s, start as int, l, ex, *score, p, rl, xl) implies address_in(
                    maps@,
                    axis_ms(p, rl, xl) as u32,
                ) || scan_covered(s, l, ex, *score, maps@, p) by {
                    if p < o0 {
                        if address_in(mo, axis_ms(p, rl, xl) as u32) {
                        } else {
                            assert(scan_covered(s, l, ex, *score, mo, p));
                        }
                    } else if accepted {
                        assert(scan_covered(s, l, ex, *score, maps@, p));
                    } else if p == o {
                        assert(rpm_len_ok(rl));
                        let q: int = if rl == 16 { 0 } else if rl == 15 { 1 } else if rl == 14 { 2 } else if rl == 13 { 3 }
                            else if rl == 11 { 4 } else { 5 };
                        assert(rpm_lens@[q] == rl);
                    }
                }
            }
            o += 2;
        }
        let found = self.detect_driver_wish_maps(data, start, end, &seen);
        let ghost (sb, mb, fnd) = (seen@, maps@, found@);
        merge_by_address(&mut maps, &mut seen, found);
        let ghost after_dw = maps@;
        proof {
            lemma_driver_wish_phase(s, start as int, end as int, sb, mb, fnd, maps@);
        }
        let found = self.detect_driver_wish_shared_axes(data, start, end, &seen);
        merge_by_address(&mut maps, &mut seen, found);
        let found = self.detect_boost_target_maps(data, start, end, &seen);
        let ghost (sb, mb, fnd) = (seen@, maps@, found@);
        merge_by_address(&mut maps, &mut seen, found);
        let ghost after_bt = maps@;
        proof {
            lemma_boost_target_phase(s, start as int, end as int, self.tuned(), sb, mb, fnd, maps@);
        }
        let found = self.detect_boost_limiter_maps(data, start, end, &seen);
        let ghost (sb, mb, fnd) = (seen@, maps@, found@);
        merge_by_address(&mut maps, &mut seen, found);
        let ghost after_bl = maps@;
        proof {
            lemma_boost_limiter_phase(s, start as int, end as int, sb, mb, fnd, maps@);
        }
        let found = self.detect_n75_by_signature(data, &seen);
        let ghost (sb, mb, fnd) = (seen@, maps@, found@);
        merge_by_address(&mut maps, &mut seen, found);
        let ghost after_n75 = maps@;
        proof {
            lemma_n75_phase(s, sb, mb, fnd, maps@);
        }
        let found = self.detect_torque_to_iq_by_signature(data, &seen);
        merge_by_address(&mut maps, &mut seen, found);
        let found = self.detect_cranking_torque_maps(data, start, end, &seen);
        let ghost (sb, mb, fnd) = (seen@, maps@, found@);
        merge_by_address(&mut maps, &mut seen, found);
        let ghost after_cr = maps@;
        proof {
            lemma_cranking_phase(s, start as int, end as int, sb, mb, fnd, maps@);
        }
        let found = self.detect_turbo_boost_correction_maps(data, start, end, &seen);
        let ghost (sb, mb, fnd) = (seen@, maps@, found@);
        merge_by_address(&mut maps, &mut seen, found);
        let ghost after_bc = maps@;
        proof {
            lemma_boost_correction_phase(s, start as int, end as int, sb, mb, fnd, maps@);
        }
        let found = self.detect_map_linearization(data, start, end, &seen);
        let ghost (sb, mb, fnd) = (seen@, maps@, found@);
        merge_by_address(&mut maps, &mut seen, found);
        let ghost after_li = maps@;
        proof {
            lemma_linearisation_phase(s, start as int, end as int, sb, mb, fnd, maps@);
        }
        let found = self.detect_torque_limiter_maps(data, start, end, &seen);
        merge_by_address(&mut maps, &mut seen, found);
        let found = self.detect_launch_control_maps(data, start, end, &seen);
        merge_by_address(&mut maps, &mut seen, found);
        proof {
            lemma_first_block_grows(s, start as int, end as int, m0, maps@);
            assert(grows_from(after_dw, maps@));
            assert(grows_from(after_bt, maps@));
            assert(grows_from(after_bl, maps@));
            lemma_placed_grows(s, start as int, end as int, after_dw, maps@);
            lemma_placed_grows(s, start as int, end as int, after_bt, maps@);
            lemma_placed_grows(s, start as int, end as int, after_bl, maps@);
            assert(grows_from(after_n75, maps@));
            assert(grows_from(after_cr, maps@));
            assert(grows_from(after_bc, maps@));
            assert(grows_from(after_li, maps@));
            lemma_placed_grows(s, start as int, end as int, after_n75, maps@);
            lemma_placed_grows(s, start as int, end as int, after_cr, maps@);
            lemma_placed_grows(s, start as int, end as int, after_bc, maps@);
            lemma_placed_grows(s, start as int, end as int, after_li, maps@);
        }
        maps
    }
}

} // verus!
