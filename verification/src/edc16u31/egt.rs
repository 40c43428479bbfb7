//! Exhaust gas temperature maps: the sensor linearisation curves (with or
//! without their `03FF 0AAB 0AAB` header) and the EGT base maps.
use vstd::prelude::*;
use std::collections::HashSet;
use crate::bytes::{be16, be16_seq, read_u16, read_words};
use crate::model::{DataType, DetectedMap, MapDimensions, has_text, inside_a_map, inside_one, lemma_inside_last, text, FIXED_ONE};
use crate::text::{decimal, numbered};
use crate::words::{count_between, count_in, lemma_count_bound};
use super::axes::{egt_rpm_ok, egt_x_ok, is_valid_egt_rpm_axis, is_valid_egt_x_axis};
use super::EDC16U31Detector;

verus! {

broadcast use {vstd::std_specs::hash::group_hash_axioms, crate::model::lemma_inside_push};

/// `a - b`, or 0 where that would be negative.
pub open spec fn floor_sub(a: int, b: int) -> int {
    if a >= b {
        a - b
    } else {
        0
    }
}

/// Reading of a headed curve whose values start at `st` stops at value `j`.
pub open spec fn headed_stop(s: Seq<u8>, st: int, j: int) -> bool {
    let v = be16(s, st + 2 * j);
    let last = be16(s, st + 2 * (j - 1));
    ||| st + 2 * j + 1 >= s.len()
    ||| v == 0
    ||| v == 0x30
    ||| v > 0x4000
    ||| (j > 0 && (v > last + 0x400 || v < floor_sub(last as int, 0x100)))
}

/// The headed curve from `st` has `n` values (at most 50).
pub open spec fn headed_run(s: Seq<u8>, st: int, n: int) -> bool {
    &&& 0 <= n <= 50
    &&& forall|j: int| 0 <= j < n ==> !#[trigger] headed_stop(s, st, j)
    &&& (n == 50 || headed_stop(s, st, n))
}

/// Reading of a header-less curve starting at `st` stops at value `j`
/// (other than at its end marker 0x0030).
pub open spec fn bare_stop(s: Seq<u8>, st: int, j: int) -> bool {
    let v = be16(s, st + 2 * j);
    let last = be16(s, st + 2 * (j - 1));
    ||| st + 2 * j + 1 >= s.len()
    ||| v == 0x30
    ||| (j > 0 && (v < floor_sub(last as int, 0x100) || v > 0x4000))
}

/// The header-less curve from `st` has `n` values and ends on the marker.
pub open spec fn bare_run(s: Seq<u8>, st: int, n: int) -> bool {
    &&& 0 <= n < 50
    &&& forall|j: int| 0 <= j < n ==> !#[trigger] bare_stop(s, st, j)
    &&& st + 2 * n + 1 < s.len()
    &&& be16(s, st + 2 * n) == 0x30
}

/// The fields of every EGT map.
pub open spec fn egt_fields(m: DetectedMap) -> bool {
    &&& m.data_type == DataType::UInt16
    &&& has_text(m.category, "Exhaust gas temperature EGT"@)
    &&& has_text(m.unit, "°C"@)
    &&& m.correction_factor == Some(100_000_000_000i64)
    &&& m.offset == Some(-273_150_000_000_000i64)
}

/// A linearisation curve with its header at `i`.
pub open spec fn headed_sensor(s: Seq<u8>, m: DetectedMap, i: int) -> bool {
    exists|n: int|
        #![trigger headed_run(s, i + 4, n)]
        {
            &&& 0x1C8000 <= i
            &&& i + 100 < s.len()
            &&& i >= 2
            &&& be16(s, i) == 0x0AAB
            &&& be16(s, i + 2) == 0x0AAB
            &&& be16(s, i - 2) == 0x03FF
            &&& headed_run(s, i + 4, n)
            &&& 30 <= n
            &&& m.address == i
            &&& m.size == 4 + 2 * n
            &&& m.dimensions == MapDimensions::TwoDimensional { rows: n as usize, cols: 1 }
            &&& m.confidence == 850
        }
}

/// A linearisation curve without header starting at `i`.
pub open spec fn bare_sensor(s: Seq<u8>, m: DetectedMap, i: int) -> bool {
    exists|n: int|
        #![trigger bare_run(s, i, n)]
        {
            &&& 0x1C8000 <= i
            &&& i + 100 < s.len()
            &&& 0x600 <= be16(s, i) <= 0x800
            &&& be16(s, i) < be16(s, i + 2) <= be16(s, i) + 0x200
            &&& bare_run(s, i, n)
            &&& 35 <= n <= 45
            &&& m.address == i
            &&& m.size == 2 * n
            &&& m.dimensions == MapDimensions::TwoDimensional { rows: n as usize, cols: 1 }
            &&& m.confidence == 800
        }
}

/// A linearisation curve of at least 30 values has its header at `i`.
pub open spec fn headed_curve_at(s: Seq<u8>, i: int) -> bool {
    exists|n: int|
        #![trigger headed_run(s, i + 4, n)]
        {
            &&& 0x1C8000 <= i
            &&& i + 100 < s.len()
            &&& i >= 2
            &&& be16(s, i) == 0x0AAB
            &&& be16(s, i + 2) == 0x0AAB
            &&& be16(s, i - 2) == 0x03FF
            &&& headed_run(s, i + 4, n)
            &&& 30 <= n
        }
}

/// A header-less linearisation curve of 35 to 45 values starts at `i`.
pub open spec fn bare_curve_at(s: Seq<u8>, i: int) -> bool {
    exists|n: int|
        #![trigger bare_run(s, i, n)]
        {
            &&& 0x1C8000 <= i
            &&& i + 100 < s.len()
            &&& 0x600 <= be16(s, i) <= 0x800
            &&& be16(s, i) < be16(s, i + 2) <= be16(s, i) + 0x200
            &&& bare_run(s, i, n)
            &&& 35 <= n <= 45
        }
}

proof fn lemma_headed_unique(s: Seq<u8>, st: int, a: int, b: int)
    requires
        headed_run(s, st, a),
        headed_run(s, st, b),
    ensures
        a == b,
{
    if a < b {
        assert(!headed_stop(s, st, a));
    } else if b < a {
        assert(!headed_stop(s, st, b));
    }
}

proof fn lemma_headed_runs(s: Seq<u8>, st: int)
    ensures
        forall|a: int, b: int| headed_run(s, st, a) && headed_run(s, st, b) ==> a == b,
{
    assert forall|a: int, b: int| headed_run(s, st, a) && headed_run(s, st, b) implies a == b by {
        lemma_headed_unique(s, st, a, b);
    }
}

proof fn lemma_bare_runs(s: Seq<u8>, st: int)
    ensures
        forall|a: int, b: int| bare_run(s, st, a) && bare_run(s, st, b) ==> a == b,
{
    assert forall|a: int, b: int| bare_run(s, st, a) && bare_run(s, st, b) implies a == b by {
        lemma_bare_unique(s, st, a, b);
    }
}

proof fn lemma_bare_unique(s: Seq<u8>, st: int, a: int, b: int)
    requires
        bare_run(s, st, a),
        bare_run(s, st, b),
    ensures
        a == b,
{
    if a < b {
        assert(!bare_stop(s, st, a));
    } else if b < a {
        assert(!bare_stop(s, st, b));
    }
}

/// The shapes of EGT base maps (`rows x cols`).
pub open spec fn egt_shape(rows: int, cols: int) -> bool {
    ||| (rows == 13 && cols == 12)
    ||| (rows == 14 && cols == 11)
    ||| (rows == 12 && cols == 13)
    ||| (rows == 11 && cols == 14)
    ||| (rows == 12 && cols == 11)
    ||| (rows == 11 && cols == 12)
    ||| (rows == 14 && cols == 14)
}

/// Where the X axis of the base map with header `i` starts (after an
/// optional zero separator).
pub open spec fn egt_x_start(s: Seq<u8>, i: int, rows: int) -> int {
    let ye = i + 4 + 2 * rows;
    if be16(s, ye) == 0 {
        ye + 2
    } else {
        ye
    }
}

/// The header `[00 rows] [00 cols]` of a base map is at `i`.
pub open spec fn egt_base_table(s: Seq<u8>, i: int) -> bool {
    let rows = s[i + 1] as int;
    let cols = s[i + 3] as int;
    let xs = egt_x_start(s, i, rows);
    let ds = xs + 2 * cols;
    let cells = be16_seq(s, ds, rows * cols);
    let (lo, hi) = if rows == 14 && cols == 14 { (3500int, 12000int) } else { (1000int, 15000int) };
    &&& 0x1D0000 <= i
    &&& i + 400 < s.len()
    &&& s[i] == 0
    &&& s[i + 2] == 0
    &&& egt_shape(rows, cols)
    &&& !((rows == 12 && cols == 11 || rows == 11 && cols == 12) && i >= 0x1DC000)
    &&& egt_rpm_ok(be16_seq(s, i + 4, rows))
    &&& egt_x_ok(be16_seq(s, xs, cols))
    &&& ds + 2 * rows * cols <= s.len()
    &&& count_between(cells, lo, hi) >= (rows * cols * 60) / 100
}

/// Where the cells of the base map with header `i` start.
pub open spec fn egt_base_data(s: Seq<u8>, i: int) -> int {
    egt_x_start(s, i, s[i + 1] as int) + 2 * (s[i + 3] as int)
}

/// A base map with its header `[00 rows] [00 cols]` at `i`.
pub open spec fn egt_base(s: Seq<u8>, m: DetectedMap, i: int) -> bool {
    let rows = s[i + 1] as int;
    let cols = s[i + 3] as int;
    let xs = egt_x_start(s, i, rows);
    let ds = xs + 2 * cols;
    &&& egt_base_table(s, i)
    &&& m.address == ds
    &&& m.size == 2 * rows * cols
    &&& m.dimensions == MapDimensions::TwoDimensional { rows: rows as usize, cols: cols as usize }
    &&& m.confidence == 850
    &&& m.y_axis_address == Some((i + 4) as u32)
    &&& has_text(m.y_label, "rpm"@)
    &&& m.y_axis_correction == Some(FIXED_ONE)
    &&& m.y_axis_offset == Some(0i64)
    &&& m.x_axis_address == Some(xs as u32)
    &&& has_text(m.x_label, "mg/stroke"@)
    &&& m.x_axis_correction == Some(10_000_000_000i64)
    &&& m.x_axis_offset == Some(0i64)
}

/// Number of linearisation curves (maps without axes) among `r`.
pub open spec fn sensors_in(r: Seq<DetectedMap>) -> nat
    decreases r.len(),
{
    if r.len() == 0 {
        0
    } else {
        sensors_in(r.drop_last()) + if r.last().y_axis_address is None {
            1nat
        } else {
            0nat
        }
    }
}

/// Map `k` of `r` is an EGT map of the image, numbered after the maps of
/// its kind before it, not at an address of `d`.
pub open spec fn egt_entry_ok(s: Seq<u8>, d: Set<u32>, r: Seq<DetectedMap>, k: int) -> bool {
    let before = r.subrange(0, k);
    &&& !d.contains(r[k].address)
    &&& egt_fields(r[k])
    &&& {
        ||| ((exists|i: int| #[trigger] headed_sensor(s, r[k], i)) || (exists|i: int| #[trigger] bare_sensor(s, r[k], i)))
            && r[k].y_axis_address is None && has_text(
            r[k].name,
            "Exhaust gas temperature sensor linearisation EGT "@ + decimal(sensors_in(before) + 1),
        )
        ||| (exists|i: int| #[trigger] egt_base(s, r[k], i)) && has_text(
            r[k].name,
            "Exhaust gas temperature base map EGT "@ + decimal((k - sensors_in(before) + 1) as nat),
        )
    }
}

proof fn lemma_sensors_bound(r: Seq<DetectedMap>)
    ensures
        sensors_in(r) <= r.len(),
    decreases r.len(),
{
    if r.len() > 0 {
        lemma_sensors_bound(r.drop_last());
    }
}

proof fn lemma_egt_push(s: Seq<u8>, d: Set<u32>, r: Seq<DetectedMap>, m: DetectedMap)
    requires
        forall|k: int| 0 <= k < r.len() ==> #[trigger] egt_entry_ok(s, d, r, k),
    ensures
        forall|k: int| 0 <= k < r.len() ==> #[trigger] egt_entry_ok(s, d, r.push(m), k),
        sensors_in(r.push(m)) == sensors_in(r) + if m.y_axis_address is None {
            1nat
        } else {
            0nat
        },
        r.push(m).subrange(0, r.len() as int) == r,
{
    assert(r.push(m).drop_last() =~= r);
    assert(r.push(m).subrange(0, r.len() as int) =~= r);
    assert forall|k: int| 0 <= k < r.len() implies #[trigger] egt_entry_ok(s, d, r.push(m), k) by {
        assert(r.push(m).subrange(0, k) =~= r.subrange(0, k));
        assert(r.push(m)[k] == r[k]);
        assert(egt_entry_ok(s, d, r, k));
    }
}

/// The number of values of the headed curve whose values start at `st`.
fn headed_len(data: &[u8], st: usize) -> (n: usize)
    requires
        st <= data@.len(),
        data@.len() + 200 <= usize::MAX,
    ensures
        headed_run(data@, st as int, n as int),
{
    let len = data.len();
    let mut n: usize = 0;
    let mut last: u16 = 0;
    while n < 50
        invariant
            n <= 50,
            len == data@.len(),
            len + 200 <= usize::MAX,
            st <= len,
            forall|j: int| 0 <= j < n ==> !#[trigger] headed_stop(data@, st as int, j),
            n > 0 ==> last == be16(data@, st + 2 * (n - 1)),
        decreases 50 - n,
    {
        let addr = st + 2 * n;
        if addr + 1 >= len {
            return n;
        }
        let v = read_u16(data, addr);
        if v == 0 || v == 0x30 || v > 0x4000 {
            return n;
        }
        if n > 0 {
            let floor = if last >= 0x100 { last - 0x100 } else { 0 };
            if (v as u32) > (last as u32) + 0x400 || v < floor {
                return n;
            }
        }
        last = v;
        n += 1;
    }
    n
}

/// The number of values of the header-less curve starting at `st`, when it
/// ends on its marker.
fn bare_len(data: &[u8], st: usize) -> (r: Option<usize>)
    requires
        st <= data@.len(),
        data@.len() + 200 <= usize::MAX,
    ensures
        r matches Some(n) ==> bare_run(data@, st as int, n as int),
        r is None ==> forall|n: int| !#[trigger] bare_run(data@, st as int, n),
{
    let len = data.len();
    let mut n: usize = 0;
    let mut last: u16 = 0;
    while n < 50
        invariant
            n <= 50,
            len == data@.len(),
            len + 200 <= usize::MAX,
            st <= len,
            forall|j: int| 0 <= j < n ==> !#[trigger] bare_stop(data@, st as int, j),
            n > 0 ==> last == be16(data@, st + 2 * (n - 1)),
        decreases 50 - n,
    {
        let addr = st + 2 * n;
        if addr + 1 >= len {
            proof {
                lemma_bare_none(data@, st as int, n as int);
            }
            return None;
        }
        let v = read_u16(data, addr);
        if v == 0x30 {
            return Some(n);
        }
        if n > 0 {
            let floor = if last >= 0x100 { last - 0x100 } else { 0 };
            if v < floor || v > 0x4000 {
                proof {
                    lemma_bare_none(data@, st as int, n as int);
                }
                return None;
            }
        }
        last = v;
        n += 1;
    }
    proof {
        assert forall|m: int| !#[trigger] bare_run(data@, st as int, m) by {
            if bare_run(data@, st as int, m) {
                assert(bare_stop(data@, st as int, m));
            }
        }
    }
    None
}

proof fn lemma_bare_none(s: Seq<u8>, st: int, n: int)
    requires
        0 <= n,
        forall|j: int| 0 <= j < n ==> !#[trigger] bare_stop(s, st, j),
        bare_stop(s, st, n),
        st + 2 * n + 1 >= s.len() || be16(s, st + 2 * n) != 0x30,
    ensures
        forall|m: int| !#[trigger] bare_run(s, st, m),
{
    assert forall|m: int| !#[trigger] bare_run(s, st, m) by {
        if bare_run(s, st, m) {
            if m < n {
                assert(!bare_stop(s, st, m));
            } else if m > n {
                assert(!bare_stop(s, st, n));
            }
        }
    }
}

/// Whether the header of a base map is at `i`.
fn egt_base_at(data: &[u8], i: usize) -> (r: bool)
    requires
        i + 400 < data@.len(),
        data@.len() + 0x10000 <= usize::MAX,
    ensures
        r == (0x1D0000 <= i && egt_base_table(data@, i as int)),
{
    let len = data.len();
    if i < 0x1D0000 {
        return false;
    }
    let rows = data[i + 1] as usize;
    let cols = data[i + 3] as usize;
    let shape = (rows == 13 && cols == 12) || (rows == 14 && cols == 11) || (rows == 12 && cols == 13)
        || (rows == 11 && cols == 14) || (rows == 12 && cols == 11) || (rows == 11 && cols == 12)
        || (rows == 14 && cols == 14);
    let boost_shape = (rows == 12 && cols == 11 || rows == 11 && cols == 12) && i >= 0x1DC000;
    if data[i] != 0 || data[i + 2] != 0 || !shape || boost_shape {
        return false;
    }
    let ys = i + 4;
    let ye = ys + 2 * rows;
    let y = read_words(data, ys, rows);
    if !is_valid_egt_rpm_axis(y.as_slice()) {
        return false;
    }
    let xs = if read_u16(data, ye) == 0 { ye + 2 } else { ye };
    let x = read_words(data, xs, cols);
    if !is_valid_egt_x_axis(x.as_slice()) {
        return false;
    }
    let ds = xs + 2 * cols;
    assert(rows * cols <= 196) by (nonlinear_arith)
        requires
            rows <= 14,
            cols <= 14,
    ;
    let n = rows * cols;
    assert(2 * n == 2 * rows * cols) by (nonlinear_arith)
        requires
            n == rows * cols,
    ;
    if 2 * n > len - ds {
        return false;
    }
    let (lo, hi) = if rows == 14 && cols == 14 { (3500u16, 12000u16) } else { (1000u16, 15000u16) };
    let cells = read_words(data, ds, n);
    let valid = count_in(cells.as_slice(), lo, hi);
    valid >= (n * 60) / 100
}

/// An EGT map at `addr` with everything but its axes set.
fn egt_map(addr: usize, size: usize, rows: usize, cols: usize, name: String, confidence: u32) -> (m: DetectedMap)
    requires
        addr <= u32::MAX,
    ensures
        m.address == addr,
        m.size == size,
        m.dimensions == (MapDimensions::TwoDimensional { rows, cols }),
        m.name == Some(name),
        m.confidence == confidence,
        egt_fields(m),
        (m.y_axis_address is None),
        (m.x_axis_address is None),
{
    let mut m = DetectedMap::new(addr as u32, size, MapDimensions::TwoDimensional { rows, cols }, DataType::UInt16);
    m.name = Some(name);
    m.category = Some(text("Exhaust gas temperature EGT"));
    m.unit = Some(text("°C"));
    m.correction_factor = Some(100_000_000_000);
    m.offset = Some(-273_150_000_000_000);
    m.confidence = confidence;
    m
}

/// The exhaust gas temperature maps `r` found in the image `s`, leaving out the addresses of `d`,
/// as the scan states them.
pub open spec fn egt_post(s: Seq<u8>, d: Set<u32>, r: Seq<DetectedMap>) -> bool {
    &&& (forall|k: int| 0 <= k < r.len() ==> #[trigger] egt_entry_ok(s, d, r, k))
    &&& (forall|i: int|
                #[trigger] headed_curve_at(s, i) && !d.contains(i as u32) ==> inside_one(r, i))
    &&& (forall|i: int|
                #[trigger] bare_curve_at(s, i) && !d.contains(i as u32) ==> inside_one(r, i))
    &&& (forall|i: int|
                #[trigger] egt_base_table(s, i) && !d.contains(egt_base_data(s, i) as u32)
                    ==> inside_one(r, egt_base_data(s, i)))
    &&& (forall|j: int, k: int|
                0 <= j < k < r.len() && (#[trigger] r[j]).y_axis_address is Some ==> (
                #[trigger] r[k]).y_axis_address is Some)
}

impl EDC16U31Detector {
    /// The EGT maps: the sensor linearisation curves with their header, then
    /// those without, numbered together, then the base maps, numbered in
    /// order; a map that starts inside one found before and the addresses in
    /// `detected` are left out, and every other curve and base map of the
    /// image is reported.
    pub fn detect_egt_maps(&self, data: &[u8], detected: &HashSet<u32>) -> (r: Vec<DetectedMap>)
        requires
            data@.len() <= u32::MAX,
            data@.len() + 0x10000 <= usize::MAX,
        ensures
            egt_post(data@, detected@, r@),
    {
        let ghost s = data@;
        let ghost d = detected@;
        let len = data.len();
        let mut maps: Vec<DetectedMap> = Vec::new();
        let mut sensors: u64 = 0;
        let mut bases: u64 = 0;
        let hi = if len >= 100 { len - 100 } else { 0 };
        let mut i: usize = 0x1C8000;
        while i < hi
            invariant
                s == data@,
                d == detected@,
                len == s.len(),
                len <= u32::MAX,
                len + 0x10000 <= usize::MAX,
                hi <= len,
                hi == 0 || hi + 100 == len,
                maps@.len() <= i,
                maps@.len() <= hi,
                0x1C8000 <= i,
                sensors == sensors_in(maps@),
                bases + sensors == maps@.len(),
                forall|k: int| 0 <= k < maps@.len() ==> #[trigger] egt_entry_ok(s, d, maps@, k),
                forall|j: int|
                    #[trigger] headed_curve_at(s, j) && j < i && !d.contains(j as u32) ==> inside_one(maps@, j),
                forall|k: int| 0 <= k < maps@.len() ==> (#[trigger] maps@[k]).y_axis_address is None,
            decreases hi - i,
        {
            proof {
                lemma_headed_runs(s, i + 4);
            }
            if i >= 2 && read_u16(data, i) == 0x0AAB && read_u16(data, i + 2) == 0x0AAB && read_u16(data, i - 2) == 0x03FF
                && !detected.contains(&(i as u32)) && !inside_a_map(&maps, i as u32) {
                let n = headed_len(data, i + 4);
                assert(headed_curve_at(s, i as int) ==> n >= 30);
                if n >= 30 {
                    sensors += 1;
                    let m = egt_map(i, 4 + 2 * n, n, 1, numbered("Exhaust gas temperature sensor linearisation EGT ", sensors), 850);
                    assert(headed_run(s, i as int + 4, n as int));
                    assert(headed_sensor(s, m, i as int));
                    let ghost before = maps@;
                    proof {
                        lemma_egt_push(s, d, before, m);
                    }
                    maps.push(m);
                    assert(egt_entry_ok(s, d, maps@, before.len() as int));
                    proof {
                        lemma_inside_last(before, m);
                    }
                }
            }
            i += 1;
        }
        let mut i: usize = 0x1C8000;
        let base1 = maps.len();
        while i < hi
            invariant
                s == data@,
                d == detected@,
                len == s.len(),
                len <= u32::MAX,
                len + 0x10000 <= usize::MAX,
                hi <= len,
                hi == 0 || hi + 100 == len,
                base1 <= len,
                maps@.len() <= base1 + i,
                maps@.len() <= base1 + hi,
                0x1C8000 <= i,
                sensors == sensors_in(maps@),
                bases == 0,
                bases + sensors == maps@.len(),
                forall|k: int| 0 <= k < maps@.len() ==> #[trigger] egt_entry_ok(s, d, maps@, k),
                forall|j: int| #[trigger] headed_curve_at(s, j) && !d.contains(j as u32) ==> inside_one(maps@, j),
                forall|j: int|
                    #[trigger] bare_curve_at(s, j) && j < i && !d.contains(j as u32) ==> inside_one(maps@, j),
                forall|k: int| 0 <= k < maps@.len() ==> (#[trigger] maps@[k]).y_axis_address is None,
            decreases hi - i,
        {
            proof {
                lemma_bare_runs(s, i as int);
            }
            let v1 = read_u16(data, i);
            let v2 = read_u16(data, i + 2);
            if 0x600 <= v1 && v1 <= 0x800 && v1 < v2 && (v2 as u32) <= (v1 as u32) + 0x200
                && !detected.contains(&(i as u32)) && !inside_a_map(&maps, i as u32) {
                match bare_len(data, i) {
                    Some(n) => {
                        assert(bare_curve_at(s, i as int) ==> 35 <= n <= 45);
                        if 35 <= n && n <= 45 {
                            sensors += 1;
                            let m = egt_map(i, 2 * n, n, 1, numbered("Exhaust gas temperature sensor linearisation EGT ", sensors), 800);
                            assert(bare_sensor(s, m, i as int));
                            let ghost before = maps@;
                            proof {
                                lemma_egt_push(s, d, before, m);
                            }
                            maps.push(m);
                            assert(egt_entry_ok(s, d, maps@, before.len() as int));
                            proof {
                                lemma_inside_last(before, m);
                            }
                        }
                    },
                    None => {},
                }
            }
            i += 1;
        }
        let hi3 = if len >= 400 { len - 400 } else { 0 };
        let base2 = maps.len();
        let mut i: usize = 0x1D0000;
        while i < hi3
            invariant
                s == data@,
                d == detected@,
                len == s.len(),
                len <= u32::MAX,
                len + 0x10000 <= usize::MAX,
                hi3 <= len,
                hi3 == 0 || hi3 + 400 == len,
                base2 <= 2 * len,
                maps@.len() <= base2 + i,
                0x1D0000 <= i,
                sensors == sensors_in(maps@),
                bases + sensors == maps@.len(),
                forall|k: int| 0 <= k < maps@.len() ==> #[trigger] egt_entry_ok(s, d, maps@, k),
                forall|j: int| #[trigger] headed_curve_at(s, j) && !d.contains(j as u32) ==> inside_one(maps@, j),
                forall|j: int| #[trigger] bare_curve_at(s, j) && !d.contains(j as u32) ==> inside_one(maps@, j),
                forall|j: int|
                    #[trigger] egt_base_table(s, j) && j < i && !d.contains(egt_base_data(s, j) as u32) ==> inside_one(
                        maps@,
                        egt_base_data(s, j),
                    ),
                base2 <= maps@.len(),
                forall|k: int| 0 <= k < base2 ==> (#[trigger] maps@[k]).y_axis_address is None,
                forall|k: int| base2 <= k < maps@.len() ==> (#[trigger] maps@[k]).y_axis_address is Some,
            decreases hi3 - i,
        {
            if egt_base_at(data, i) {
                let rows = data[i + 1] as usize;
                let cols = data[i + 3] as usize;
                let ys = i + 4;
                let ye = ys + 2 * rows;
                let xs = if read_u16(data, ye) == 0 { ye + 2 } else { ye };
                let ds = xs + 2 * cols;
                assert(rows * cols <= 196) by (nonlinear_arith)
                    requires
                        rows <= 14,
                        cols <= 14,
                ;
                let size = 2 * (rows * cols);
                assert(ds == egt_base_data(s, i as int));
                if !detected.contains(&(ds as u32)) && !inside_a_map(&maps, ds as u32) {
                    bases += 1;
                    let mut m = egt_map(ds, size, rows, cols, numbered("Exhaust gas temperature base map EGT ", bases), 850);
                    m.y_axis_address = Some(ys as u32);
                    m.y_label = Some(text("rpm"));
                    m.y_axis_correction = Some(FIXED_ONE);
                    m.y_axis_offset = Some(0);
                    m.x_axis_address = Some(xs as u32);
                    m.x_label = Some(text("mg/stroke"));
                    m.x_axis_correction = Some(10_000_000_000);
                    m.x_axis_offset = Some(0);
                    assert(2 * (rows * cols) == 2 * rows * cols) by (nonlinear_arith);
                    assert(egt_base(s, m, i as int));
                    let ghost before = maps@;
                    proof {
                        lemma_egt_push(s, d, before, m);
                        lemma_sensors_bound(before);
                    }
                    maps.push(m);
                    assert(egt_entry_ok(s, d, maps@, before.len() as int));
                    proof {
                        lemma_inside_last(before, m);
                    }
                }
            }
            i += 1;
        }
        maps
    }
}

} // verus!
