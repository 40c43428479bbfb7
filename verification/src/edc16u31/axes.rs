//! Recognisers for the axes of the EDC16U31 calibration maps.
//!
//! Every axis is a sequence of big-endian words; each recogniser states the
//! shape (length, first and last value, monotonicity) that the map family's
//! axis has on real images.
use vstd::prelude::*;
use crate::words::{
    all_between, all_in, any_between, count_between, count_in, is_non_decreasing,
    is_strictly_increasing, min_max, non_decreasing, strictly_increasing,
};

verus! {

/// First and last word of a non-empty axis.
pub open spec fn first(s: Seq<u16>) -> int {
    s[0] as int
}

pub open spec fn last(s: Seq<u16>) -> int {
    s[s.len() - 1] as int
}

/// Step `i` of `s` stays within the tolerance of the first step.
pub open spec fn step_like_first(s: Seq<u16>, i: int) -> bool {
    let d0 = s[1] - s[0];
    let tol = if d0 / 10 > 20 {
        d0 / 10
    } else {
        20
    };
    let d = s[i] - s[i - 1];
    -tol <= d - d0 <= tol
}

/// `s` has (nearly) equal steps, the mark of a synthetic axis.
pub open spec fn linear_axis(s: Seq<u16>) -> bool {
    &&& s.len() >= 3
    &&& s[1] > s[0]
    &&& forall|i: int| 2 <= i < s.len() ==> #[trigger] step_like_first(s, i)
}

pub fn is_linear_axis(values: &[u16]) -> (r: bool)
    ensures
        r == linear_axis(values@),
{
    if values.len() < 3 {
        return false;
    }
    let first_delta: i32 = values[1] as i32 - values[0] as i32;
    if first_delta <= 0 {
        return false;
    }
    let tolerance: i32 = if first_delta / 10 > 20 {
        first_delta / 10
    } else {
        20
    };
    let mut i: usize = 2;
    while i < values.len()
        invariant
            2 <= i,
            values@.len() >= 3,
            first_delta == values@[1] - values@[0],
            first_delta > 0,
            tolerance == (if first_delta / 10 > 20 {
                first_delta / 10
            } else {
                20
            }),
            forall|j: int| 2 <= j < i && j < values@.len() ==> #[trigger] step_like_first(
                values@,
                j,
            ),
        decreases values.len() - i,
    {
        let delta: i32 = values[i] as i32 - values[i - 1] as i32;
        if delta - first_delta > tolerance || first_delta - delta > tolerance {
            assert(!step_like_first(values@, i as int));
            return false;
        }
        i += 1;
    }
    true
}

/// Shared RPM axis of a Start of Injection block.
pub open spec fn soi_rpm_ok(s: Seq<u16>) -> bool {
    &&& s.len() == 16
    &&& 50 <= first(s) <= 1200
    &&& 4200 <= last(s) <= 5600
    &&& non_decreasing(s)
}

pub fn is_valid_soi_rpm_axis(values: &[u16]) -> (r: bool)
    ensures
        r == soi_rpm_ok(values@),
{
    if values.len() != 16 {
        return false;
    }
    if values[0] < 50 || values[0] > 1200 {
        return false;
    }
    if values[15] < 4200 || values[15] > 5600 {
        return false;
    }
    is_non_decreasing(values)
}

/// Shared IQ axis of a Start of Injection block.
pub open spec fn soi_iq_ok(s: Seq<u16>) -> bool {
    &&& s.len() == 14
    &&& first(s) <= 300
    &&& 4000 <= last(s) <= 7000
    &&& strictly_increasing(s)
}

pub fn is_valid_soi_iq_axis(values: &[u16]) -> (r: bool)
    ensures
        r == soi_iq_ok(values@),
{
    if values.len() != 14 {
        return false;
    }
    if values[0] > 300 {
        return false;
    }
    if values[13] < 4000 || values[13] > 7000 {
        return false;
    }
    is_strictly_increasing(values)
}

/// Step `i` of an RPM axis rises by 50 to 750.
pub open spec fn rpm_step_ok(s: Seq<u16>, i: int) -> bool {
    s[i - 1] < s[i] && 50 <= s[i] - s[i - 1] <= 750
}

/// A standard RPM axis: 10 to 20 points from 400-1600 to 3800-6200 rpm.
pub open spec fn rpm_axis_ok(s: Seq<u16>) -> bool {
    &&& 10 <= s.len() <= 20
    &&& 400 <= first(s) <= 1600
    &&& 3800 <= last(s) <= 6200
    &&& forall|i: int| 0 < i < s.len() ==> #[trigger] rpm_step_ok(s, i)
}

pub fn is_valid_rpm_axis(values: &[u16]) -> (r: bool)
    ensures
        r == rpm_axis_ok(values@),
{
    let n = values.len();
    if n < 10 || n > 20 {
        return false;
    }
    if values[0] < 400 || values[0] > 1600 {
        return false;
    }
    if values[n - 1] < 3800 || values[n - 1] > 6200 {
        return false;
    }
    let mut i: usize = 1;
    while i < n
        invariant
            1 <= i,
            n == values@.len(),
            forall|j: int| 0 < j < i && j < n ==> #[trigger] rpm_step_ok(values@, j),
        decreases n - i,
    {
        if values[i] <= values[i - 1] {
            assert(!rpm_step_ok(values@, i as int));
            return false;
        }
        let delta = values[i] - values[i - 1];
        if delta < 50 || delta > 750 {
            assert(!rpm_step_ok(values@, i as int));
            return false;
        }
        i += 1;
    }
    true
}

/// Kind of a horizontal axis, as told by its values.
#[derive(Clone, Copy, Debug, PartialEq, Eq, Structural)]
pub enum XAxisType {
    Pedal,
    InjectionQty,
    InjectionQtyHigh,
    Torque,
    AirMass,
    AtmosphericPressure,
    Unknown,
}

/// The kind of horizontal axis `s` is, tried in a fixed order.
pub open spec fn x_axis_kind(s: Seq<u16>) -> XAxisType {
    let n = s.len();
    if n == 0 || !strictly_increasing(s) {
        XAxisType::Unknown
    } else if 6 <= n <= 10 && first(s) <= 500 && 7500 <= last(s) <= 11000 {
        XAxisType::Pedal
    } else if 14 <= n <= 18 && first(s) <= 150 && 2000 <= last(s) <= 5000 {
        XAxisType::Torque
    } else if 10 <= n <= 16 && first(s) <= 400 && 1500 <= last(s) <= 8000 {
        XAxisType::InjectionQty
    } else if n >= 12 && first(s) <= 500 && 4000 <= last(s) <= 7000 {
        XAxisType::InjectionQtyHigh
    } else if 11 <= n <= 15 && 1200 <= first(s) <= 3500 && 9000 <= last(s) <= 16000 {
        XAxisType::AirMass
    } else if 9 <= n <= 13 && 650 <= first(s) <= 950 && 980 <= last(s) <= 1200 {
        XAxisType::AtmosphericPressure
    } else {
        XAxisType::Unknown
    }
}

pub fn identify_x_axis_type(values: &[u16]) -> (r: XAxisType)
    ensures
        r == x_axis_kind(values@),
{
    let n = values.len();
    if n == 0 {
        return XAxisType::Unknown;
    }
    if !is_strictly_increasing(values) {
        return XAxisType::Unknown;
    }
    let first = values[0];
    let last = values[n - 1];
    if n >= 6 && n <= 10 && first <= 500 && last >= 7500 && last <= 11000 {
        return XAxisType::Pedal;
    }
    if n >= 14 && n <= 18 && first <= 150 && last >= 2000 && last <= 5000 {
        return XAxisType::Torque;
    }
    if n >= 10 && n <= 16 && first <= 400 && last >= 1500 && last <= 8000 {
        return XAxisType::InjectionQty;
    }
    if n >= 12 && first <= 500 && last >= 4000 && last <= 7000 {
        return XAxisType::InjectionQtyHigh;
    }
    if n >= 11 && n <= 15 && first >= 1200 && first <= 3500 && last >= 9000 && last <= 16000 {
        return XAxisType::AirMass;
    }
    if n >= 9 && n <= 13 && first >= 650 && first <= 950 && last >= 980 && last <= 1200 {
        return XAxisType::AtmosphericPressure;
    }
    XAxisType::Unknown
}

/// RPM axis of a desired-air-quantity (EGR) map.
pub open spec fn daq_rpm_ok(s: Seq<u16>) -> bool {
    &&& s.len() >= 10
    &&& first(s) <= 1400
    &&& 2800 <= last(s) <= 6000
    &&& strictly_increasing(s)
}

pub fn is_valid_daq_rpm_axis(values: &[u16]) -> (r: bool)
    ensures
        r == daq_rpm_ok(values@),
{
    let n = values.len();
    if n < 10 {
        return false;
    }
    if values[0] > 1400 {
        return false;
    }
    if values[n - 1] < 2800 || values[n - 1] > 6000 {
        return false;
    }
    is_strictly_increasing(values)
}

/// IQ axis of a desired-air-quantity (EGR) map.
pub open spec fn daq_iq_ok(s: Seq<u16>) -> bool {
    &&& s.len() >= 10
    &&& first(s) <= 700
    &&& 2500 <= last(s) <= 5500
    &&& strictly_increasing(s)
}

pub fn is_valid_daq_iq_axis(values: &[u16]) -> (r: bool)
    ensures
        r == daq_iq_ok(values@),
{
    let n = values.len();
    if n < 10 {
        return false;
    }
    if values[0] > 700 {
        return false;
    }
    if values[n - 1] < 2500 || values[n - 1] > 5500 {
        return false;
    }
    is_strictly_increasing(values)
}

/// Step `i` of `s` does not drop by more than 300.
pub open spec fn no_big_drop_at(s: Seq<u16>, i: int) -> bool {
    s[i - 1] <= s[i] + 300
}

/// The RPM axis of an EGR hysteresis curve (20 points).
pub open spec fn egr_hyst_rpm_ok(s: Seq<u16>) -> bool {
    &&& s.len() == 20
    &&& first(s) <= 1000
    &&& all_between(s, 0, 5500)
    &&& spread_at_least(s, 1500)
    &&& any_between(s, 2500, 5500)
    &&& (forall|i: int| 0 < i < 20 ==> #[trigger] no_big_drop_at(s, i))
    &&& count_rises(s.take(10)) >= 7
    &&& count_holds(s) >= 15
}

/// Some word of `s` exceeds another by at least `d`.
pub open spec fn spread_at_least(s: Seq<u16>, d: int) -> bool {
    exists|i: int, j: int| 0 <= i < s.len() && 0 <= j < s.len() && #[trigger] s[i] - #[trigger] s[j] >= d
}

/// Number of strict rises between consecutive words.
pub open spec fn count_rises(s: Seq<u16>) -> nat
    decreases s.len(),
{
    if s.len() <= 1 {
        0
    } else {
        count_rises(s.drop_last()) + if s[s.len() - 2] < s[s.len() - 1] {
            1nat
        } else {
            0nat
        }
    }
}

/// Number of non-decreasing steps between consecutive words.
pub open spec fn count_holds(s: Seq<u16>) -> nat
    decreases s.len(),
{
    if s.len() <= 1 {
        0
    } else {
        count_holds(s.drop_last()) + if s[s.len() - 2] <= s[s.len() - 1] {
            1nat
        } else {
            0nat
        }
    }
}

fn rises_count(v: &[u16], upto: usize) -> (r: usize)
    requires
        upto <= v@.len(),
    ensures
        r == count_rises(v@.take(upto as int)),
{
    let mut c: usize = 0;
    let mut i: usize = 1;
    if upto <= 1 {
        return 0;
    }
    while i < upto
        invariant
            1 <= i <= upto,
            upto <= v@.len(),
            c == count_rises(v@.take(i as int)),
            c <= i,
        decreases upto - i,
    {
        assert(v@.take(i + 1).drop_last() =~= v@.take(i as int));
        if v[i - 1] < v[i] {
            c += 1;
        }
        i += 1;
    }
    c
}

pub fn holds_count(v: &[u16]) -> (r: usize)
    ensures
        r == count_holds(v@),
{
    let mut c: usize = 0;
    let mut i: usize = 1;
    if v.len() <= 1 {
        return 0;
    }
    while i < v.len()
        invariant
            1 <= i <= v@.len(),
            c == count_holds(v@.take(i as int)),
            c <= i,
        decreases v.len() - i,
    {
        assert(v@.take(i + 1).drop_last() =~= v@.take(i as int));
        if v[i - 1] <= v[i] {
            c += 1;
        }
        i += 1;
    }
    assert(v@.take(v@.len() as int) =~= v@);
    c
}

pub fn is_valid_egr_hyst_rpm_axis_strict(values: &[u16]) -> (r: bool)
    ensures
        r == egr_hyst_rpm_ok(values@),
{
    if values.len() != 20 {
        return false;
    }
    if values[0] > 1000 {
        return false;
    }
    let (min_val, max_val) = min_max(values);
    if (max_val as u32) < min_val as u32 + 1500 {
        assert(!spread_at_least(values@, 1500));
        return false;
    }
    assert(spread_at_least(values@, 1500));
    if max_val < 2500 || max_val > 5500 {
        assert(!all_between(values@, 0, 5500) || !any_between(values@, 2500, 5500));
        return false;
    }
    if !all_in(values, 0, 5500) {
        return false;
    }
    let mut i: usize = 1;
    while i < 20
        invariant
            1 <= i <= 20,
            values@.len() == 20,
            forall|j: int| 0 < j < i ==> #[trigger] no_big_drop_at(values@, j),
        decreases 20 - i,
    {
        if values[i - 1] as u32 > values[i] as u32 + 300 {
            assert(!no_big_drop_at(values@, i as int));
            return false;
        }
        i += 1;
    }
    if rises_count(values, 10) < 7 {
        return false;
    }
    holds_count(values) >= 15
}

/// Temperature axis of an idle speed correction map (K x 10).
pub open spec fn idle_temp_ok(s: Seq<u16>) -> bool {
    &&& s.len() >= 3
    &&& all_between(s, 2300, 3800)
    &&& strictly_increasing(s)
    &&& first(s) <= 2900
    &&& 2800 <= last(s)
}

pub fn is_valid_idle_temp_axis(values: &[u16]) -> (r: bool)
    ensures
        r == idle_temp_ok(values@),
{
    let n = values.len();
    if n < 3 {
        return false;
    }
    if !all_in(values, 2300, 3800) {
        return false;
    }
    if !is_strictly_increasing(values) {
        return false;
    }
    if values[0] > 2900 {
        return false;
    }
    values[n - 1] >= 2800
}

/// Step `i` is a drop of more than 100.
pub open spec fn big_drop_at(s: Seq<u16>, i: int) -> bool {
    (s[i] as int) < s[i - 1] - 100
}

/// Number of drops of more than 100 between consecutive words.
pub open spec fn count_big_drops(s: Seq<u16>) -> nat
    decreases s.len(),
{
    if s.len() <= 1 {
        0
    } else {
        count_big_drops(s.drop_last()) + if big_drop_at(s, s.len() - 1) {
            1nat
        } else {
            0nat
        }
    }
}

/// RPM axis of an idle speed correction map.
pub open spec fn idle_rpm_correction_ok(s: Seq<u16>) -> bool {
    &&& s.len() >= 2
    &&& all_between(s, 500, 1800)
    &&& count_big_drops(s) <= 1
}

pub fn is_valid_idle_rpm_correction_axis(values: &[u16]) -> (r: bool)
    ensures
        r == idle_rpm_correction_ok(values@),
{
    let n = values.len();
    if n < 2 {
        return false;
    }
    if !all_in(values, 500, 1800) {
        return false;
    }
    let mut drops: usize = 0;
    let mut i: usize = 1;
    while i < n
        invariant
            1 <= i <= n,
            n == values@.len(),
            drops == count_big_drops(values@.take(i as int)),
            drops <= i,
        decreases n - i,
    {
        assert(values@.take(i + 1).drop_last() =~= values@.take(i as int));
        if (values[i] as i32) < values[i - 1] as i32 - 100 {
            drops += 1;
        }
        i += 1;
    }
    assert(values@.take(n as int) =~= values@);
    drops <= 1
}

/// RPM axis of an EGT base map.
pub open spec fn egt_rpm_ok(s: Seq<u16>) -> bool {
    &&& s.len() >= 5
    &&& all_between(s, 500, 5500)
    &&& strictly_increasing(s)
    &&& 800 <= first(s) <= 1500
}

pub fn is_valid_egt_rpm_axis(values: &[u16]) -> (r: bool)
    ensures
        r == egt_rpm_ok(values@),
{
    if values.len() < 5 {
        return false;
    }
    if !all_in(values, 500, 5500) {
        return false;
    }
    if !is_strictly_increasing(values) {
        return false;
    }
    values[0] >= 800 && values[0] <= 1500
}

/// Horizontal axis of an EGT base map: at least 60% of its steps do not fall.
pub open spec fn egt_x_ok(s: Seq<u16>) -> bool {
    &&& s.len() >= 5
    &&& count_holds(s) >= (s.len() - 1) * 60 / 100
}

pub fn is_valid_egt_x_axis(values: &[u16]) -> (r: bool)
    ensures
        r == egt_x_ok(values@),
{
    if values.len() < 5 {
        return false;
    }
    let c = holds_count(values);
    (c as u128) >= ((values.len() - 1) as u128 * 60) / 100
}

} // verus!
