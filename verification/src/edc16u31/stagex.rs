//! Further calibration tables: the fuel volume correction with its expected
//! fuel temperature, the MAF linearisation curves and the DPF switch.
use vstd::prelude::*;
use std::collections::HashSet;
use crate::bytes::{be16, be16_seq, be16s_seq, bytes_at, matches_bytes, read_u16, read_words, read_signed_words};
use crate::model::{DataType, DetectedMap, MapDimensions, has_text, text, FIXED_ONE};
use crate::text::{decimal, numbered};
use crate::words::{all_between, all_in, is_strictly_increasing, strictly_increasing};
use super::EDC16U31Detector;

verus! {

broadcast use vstd::std_specs::hash::group_hash_axioms;

/// The scanned part of an image of `len` bytes.
pub open spec fn extras_range(len: int) -> (int, int) {
    let hi = if len >= 0x400 { len - 0x400 } else { 0 };
    if len >= 0x200000 {
        (0x180000, hi)
    } else {
        (0x80000, hi)
    }
}

/// The first cell of row `r` of a table with 8 columns.
pub open spec fn row_start(v: Seq<u16>, r: int) -> u16 {
    v[8 * r]
}

/// Number of rows of the 9 x 8 table `v` whose last cell reaches 1000.
pub open spec fn high_rows(v: Seq<u16>, r: int) -> nat
    decreases r,
{
    if r <= 0 {
        0
    } else {
        high_rows(v, r - 1) + if v[8 * (r - 1) + 7] >= 1000 {
            1nat
        } else {
            0nat
        }
    }
}

/// A fuel volume correction table with its header `00 09 00 08` at `i`.
pub open spec fn fvc_at(s: Seq<u8>, i: int) -> bool {
    let y = be16_seq(s, i + 4, 9);
    let x = be16_seq(s, i + 22, 8);
    let v = be16_seq(s, i + 38, 72);
    &&& bytes_at(s, i, seq![0x00u8, 0x09, 0x00, 0x08])
    &&& i + 182 <= s.len()
    &&& y[0] <= 1500
    &&& strictly_increasing(y)
    &&& 2000 <= y[8] <= 6000
    &&& x[0] <= 600
    &&& strictly_increasing(x)
    &&& 2000 <= x[7] <= 8000
    &&& (forall|r: int| 0 <= r < 9 ==> #[trigger] row_start(v, r) <= 200)
    &&& all_between(v, 0, 12000)
    &&& high_rows(v, 9) >= 6
}

/// An expected fuel temperature table with its header `00 08 00 08` at `j`.
pub open spec fn eft_at(s: Seq<u8>, j: int) -> bool {
    let y = be16_seq(s, j + 4, 8);
    let x = be16_seq(s, j + 20, 8);
    &&& bytes_at(s, j, seq![0x00u8, 0x08, 0x00, 0x08])
    &&& j + 164 <= s.len()
    &&& y[0] <= 1500
    &&& strictly_increasing(y)
    &&& x[0] <= 600
    &&& strictly_increasing(x)
    &&& all_between(be16_seq(s, j + 36, 64), 2500, 4800)
}

/// Signed word `i` of `v` is greater than word `i - 1`.
pub open spec fn rises_signed_at(v: Seq<i16>, i: int) -> bool {
    v[i - 1] < v[i]
}

/// The signed words of `v` rise strictly.
pub open spec fn rising_signed(v: Seq<i16>) -> bool {
    forall|i: int| 0 < i < v.len() ==> #[trigger] rises_signed_at(v, i)
}

/// A MAF linearisation curve with its header `00 20` at `i`.
pub open spec fn maf_at(s: Seq<u8>, i: int) -> bool {
    let ax = be16_seq(s, i + 2, 32);
    let v = be16s_seq(s, i + 66, 32);
    &&& 0 <= i
    &&& i + 130 <= s.len()
    &&& s[i] == 0
    &&& s[i + 1] == 0x20
    &&& ax[0] <= 400
    &&& ax[31] <= 1100
    &&& strictly_increasing(ax)
    &&& -2500 <= v[0] <= 0
    &&& rising_signed(v)
    &&& v[31] >= 5000
}

/// The DPF switch pattern `7FFF 8000 0000 028F [sw] 0000 0000 001E FFFF` at `i`.
pub open spec fn dpf_at(s: Seq<u8>, i: int) -> bool {
    &&& 0 <= i
    &&& i + 18 <= s.len()
    &&& be16(s, i) == 0x7FFF
    &&& be16(s, i + 2) == 0x8000
    &&& be16(s, i + 4) == 0
    &&& be16(s, i + 6) == 0x028F
    &&& be16(s, i + 10) == 0
    &&& be16(s, i + 12) == 0
    &&& be16(s, i + 14) == 0x001E
    &&& be16(s, i + 16) == 0xFFFF
}

/// Number of MAF linearisation curves (64-byte maps) among `r`.
pub open spec fn mafs_in(r: Seq<DetectedMap>) -> nat
    decreases r.len(),
{
    if r.len() == 0 {
        0
    } else {
        mafs_in(r.drop_last()) + if r.last().size == 64 {
            1nat
        } else {
            0nat
        }
    }
}

/// The name of MAF linearisation curve `n` (from 1).
pub open spec fn maf_name(n: nat) -> Seq<char> {
    if n == 1 {
        "MAF Linearization"@
    } else {
        "MAF Linearization "@ + decimal(n)
    }
}

/// Map `k` of `r` is one of the extra tables of the image, not at an address of `d`.
pub open spec fn extra_entry_ok(s: Seq<u8>, d: Set<u32>, r: Seq<DetectedMap>, k: int) -> bool {
    let m = r[k];
    &&& !d.contains(m.address)
    &&& {
        ||| (m.address >= 38 && fvc_at(s, m.address - 38) && (exists|j: int| #[trigger] eft_at(s, j) && m.address + 144 <= j)
            && m.size == 144 && m.dimensions == MapDimensions::TwoDimensional { rows: 9, cols: 8 } && m.data_type
            == DataType::Int16 && has_text(m.name, "Fuel Volume Correction"@) && has_text(m.category, "Fuel Correction"@)
            && has_text(m.unit, "(mg/stroke)/100°C"@) && m.correction_factor == Some(2_441_000_000i64)
            && m.y_axis_address == Some((m.address - 34) as u32) && m.x_axis_address == Some((m.address - 16) as u32)
            && m.confidence == 900)
        ||| (m.address >= 36 && eft_at(s, m.address - 36) && m.size == 128 && m.dimensions
            == MapDimensions::TwoDimensional { rows: 8, cols: 8 } && m.data_type == DataType::Int16 && has_text(
            m.name,
            "Expected Fuel Temp"@,
        ) && has_text(m.category, "Fuel Correction"@) && has_text(m.unit, "°C"@) && m.correction_factor == Some(
            100_000_000_000i64,
        ) && m.y_axis_address == Some((m.address - 32) as u32) && m.x_axis_address == Some((m.address - 16) as u32)
            && m.confidence == 900)
        ||| (m.address >= 66 && maf_at(s, m.address - 66) && m.size == 64 && m.dimensions
            == MapDimensions::OneDimensional { length: 32 } && m.data_type == DataType::Int16 && has_text(
            m.name,
            maf_name(mafs_in(r.subrange(0, k)) + 1),
        ) && has_text(m.category, "Airflow"@) && has_text(m.unit, "kg/h"@) && m.correction_factor == Some(
            100_000_000_000i64,
        ) && m.x_axis_address == Some((m.address - 64) as u32) && m.x_axis_correction == Some(4_887_586_000_000i64)
            && m.confidence == 900)
        ||| (m.address >= 8 && dpf_at(s, m.address - 8) && m.size == 2 && m.dimensions
            == MapDimensions::OneDimensional { length: 1 } && m.data_type == DataType::UInt16 && has_text(
            m.name,
            "Dpf switch"@,
        ) && has_text(m.category, "DPF"@) && has_text(m.unit, "-"@) && m.correction_factor == Some(FIXED_ONE)
            && m.confidence == 900)
    }
}

/// A scanned position: word-aligned in the scanned part of the image.
pub open spec fn scanned(s: Seq<u8>, i: int) -> bool {
    let (lo, hi) = extras_range(s.len() as int);
    lo <= i < hi && i % 2 == 0
}

/// An expected fuel temperature table at `j` can go with the fuel volume
/// correction table at `i`: in the 0x200 bytes after it, on the same word
/// alignment, at least 200 bytes before the end, not at an address of `d`.
pub open spec fn eft_partner(s: Seq<u8>, d: Set<u32>, i: int, j: int) -> bool {
    &&& i + 182 <= j
    &&& (j - i) % 2 == 0
    &&& j < i + 182 + 0x200
    &&& j + 200 < s.len()
    &&& eft_at(s, j)
    &&& !d.contains((j + 36) as u32)
}

/// The expected fuel temperature table at `j` is the first partner of the
/// fuel volume correction table whose header is at `i`.
pub open spec fn first_partner(s: Seq<u8>, d: Set<u32>, i: int, j: int) -> bool {
    &&& eft_partner(s, d, i, j)
    &&& forall|w: int| i + 182 <= w < j && (w - i - 182) % 2 == 0 ==> !#[trigger] eft_partner(s, d, i, w)
}

/// Map `k` of `r` and the next one are a fuel volume correction table and
/// its first expected fuel temperature partner.
pub open spec fn pair_at(s: Seq<u8>, d: Set<u32>, r: Seq<DetectedMap>, k: int) -> bool {
    &&& k + 1 < r.len()
    &&& r[k].address >= 38
    &&& r[k + 1].address >= 36
    &&& has_text(r[k + 1].name, "Expected Fuel Temp"@)
    &&& first_partner(s, d, r[k].address - 38, r[k + 1].address - 36)
}

/// Each fuel volume correction table of `r` is followed by its partner.
pub open spec fn fvc_paired(s: Seq<u8>, d: Set<u32>, r: Seq<DetectedMap>) -> bool {
    forall|k: int| 0 <= k < r.len() && (#[trigger] r[k]).size == 144 ==> pair_at(s, d, r, k)
}

proof fn lemma_paired_push(s: Seq<u8>, d: Set<u32>, r: Seq<DetectedMap>, m: DetectedMap)
    requires
        fvc_paired(s, d, r),
        m.size != 144,
    ensures
        fvc_paired(s, d, r.push(m)),
{
    assert forall|k: int| 0 <= k < r.push(m).len() && (#[trigger] r.push(m)[k]).size == 144 implies pair_at(
        s,
        d,
        r.push(m),
        k,
    ) by {
        assert(r.push(m)[k] == r[k]);
        assert(pair_at(s, d, r, k));
        assert(r.push(m)[k + 1] == r[k + 1]);
    }
}

proof fn lemma_paired_pair(s: Seq<u8>, d: Set<u32>, r: Seq<DetectedMap>, m: DetectedMap, m2: DetectedMap)
    requires
        fvc_paired(s, d, r),
        m2.size != 144,
        m.address >= 38,
        m2.address >= 36,
        has_text(m2.name, "Expected Fuel Temp"@),
        first_partner(s, d, m.address - 38, m2.address - 36),
    ensures
        fvc_paired(s, d, r.push(m).push(m2)),
{
    let r2 = r.push(m).push(m2);
    assert forall|k: int| 0 <= k < r2.len() && (#[trigger] r2[k]).size == 144 implies pair_at(s, d, r2, k) by {
        if k < r.len() {
            assert(r2[k] == r[k]);
            assert(pair_at(s, d, r, k));
            if k + 1 < r.len() {
                assert(r2[k + 1] == r[k + 1]);
            }
        } else {
            assert(k == r.len());
            assert(r2[k] == m && r2[k + 1] == m2);
        }
    }
}

/// Position `i` lies between the header of a reported fuel volume
/// correction table and the end of the expected fuel temperature table
/// reported with it.
pub open spec fn fvc_claimed(r: Seq<DetectedMap>, i: int) -> bool {
    exists|k: int|
        0 <= k && k + 1 < r.len() && (#[trigger] r[k]).size == 144 && r[k].address - 38 <= i < r[k + 1].address + 128
}

/// Position `i` lies between the header of a reported MAF linearisation
/// curve and its end.
pub open spec fn maf_claimed(r: Seq<DetectedMap>, i: int) -> bool {
    exists|k: int| 0 <= k < r.len() && (#[trigger] r[k]).size == 64 && r[k].address - 66 <= i < r[k].address + 64
}

/// No map of `r` other than a DPF switch is at address `a`.
pub open spec fn dpf_free(r: Seq<DetectedMap>, a: int) -> bool {
    forall|k: int| 0 <= k < r.len() && (#[trigger] r[k]).address == a ==> r[k].size == 2
}

/// A DPF switch at or before address `a` is reported.
pub open spec fn dpf_by(r: Seq<DetectedMap>, a: int) -> bool {
    exists|k: int| 0 <= k < r.len() && (#[trigger] r[k]).size == 2 && r[k].address <= a
}

proof fn lemma_fvc_grow(r: Seq<DetectedMap>, m: DetectedMap)
    ensures
        forall|i: int| fvc_claimed(r, i) ==> #[trigger] fvc_claimed(r.push(m), i),
{
    assert forall|i: int| fvc_claimed(r, i) implies #[trigger] fvc_claimed(r.push(m), i) by {
        let k = choose|k: int|
            0 <= k && k + 1 < r.len() && (#[trigger] r[k]).size == 144 && r[k].address - 38 <= i < r[k + 1].address + 128;
        assert(r.push(m)[k] == r[k] && r.push(m)[k + 1] == r[k + 1]);
    }
}

proof fn lemma_maf_grow(r: Seq<DetectedMap>, m: DetectedMap)
    ensures
        forall|i: int| maf_claimed(r, i) ==> #[trigger] maf_claimed(r.push(m), i),
{
    assert forall|i: int| maf_claimed(r, i) implies #[trigger] maf_claimed(r.push(m), i) by {
        let k = choose|k: int| 0 <= k < r.len() && (#[trigger] r[k]).size == 64 && r[k].address - 66 <= i < r[k].address + 64;
        assert(r.push(m)[k] == r[k]);
    }
}

proof fn lemma_claims_grow(r: Seq<DetectedMap>, m: DetectedMap)
    ensures
        forall|i: int| fvc_claimed(r, i) ==> #[trigger] fvc_claimed(r.push(m), i),
        forall|i: int| maf_claimed(r, i) ==> #[trigger] maf_claimed(r.push(m), i),
{
    lemma_fvc_grow(r, m);
    lemma_maf_grow(r, m);
}

proof fn lemma_no_partner(s: Seq<u8>, d: Set<u32>, i: int, j: int, lim: int)
    requires
        j >= lim,
        lim == (if i + 182 + 0x200 < (if s.len() >= 200 { s.len() - 200 } else { 0int }) {
            i + 182 + 0x200
        } else {
            if s.len() >= 200 { s.len() - 200 } else { 0int }
        }),
        forall|w: int| i + 182 <= w < j && (w - (i + 182)) % 2 == 0 ==> !eft_partner(s, d, i, w),
    ensures
        forall|w: int| !eft_partner(s, d, i, w),
{
    assert forall|w: int| !eft_partner(s, d, i, w) by {
        if eft_partner(s, d, i, w) {
            assert(w < lim);
            assert((w - (i + 182)) % 2 == 0);
        }
    }
}

proof fn lemma_extra_push(s: Seq<u8>, d: Set<u32>, r: Seq<DetectedMap>, m: DetectedMap)
    requires
        forall|k: int| 0 <= k < r.len() ==> #[trigger] extra_entry_ok(s, d, r, k),
    ensures
        forall|k: int| 0 <= k < r.len() ==> #[trigger] extra_entry_ok(s, d, r.push(m), k),
        mafs_in(r.push(m)) == mafs_in(r) + if m.size == 64 {
            1nat
        } else {
            0nat
        },
        r.push(m).subrange(0, r.len() as int) == r,
{
    assert(r.push(m).drop_last() =~= r);
    assert(r.push(m).subrange(0, r.len() as int) =~= r);
    assert forall|k: int| 0 <= k < r.len() implies #[trigger] extra_entry_ok(s, d, r.push(m), k) by {
        assert(r.push(m).subrange(0, k) =~= r.subrange(0, k));
        assert(r.push(m)[k] == r[k]);
        assert(extra_entry_ok(s, d, r, k));
    }
}

proof fn lemma_mafs_bound(r: Seq<DetectedMap>)
    ensures
        mafs_in(r) <= r.len(),
    decreases r.len(),
{
    if r.len() > 0 {
        lemma_mafs_bound(r.drop_last());
    }
}

/// Whether the fuel volume correction table's header is at `i`.
fn fvc_table_at(data: &[u8], i: usize) -> (r: bool)
    ensures
        r == fvc_at(data@, i as int),
{
    let len = data.len();
    if i > len || len - i < 182 {
        return false;
    }
    let head: [u8; 4] = [0x00, 0x09, 0x00, 0x08];
    assert(head@ =~= seq![0x00u8, 0x09, 0x00, 0x08]);
    if !matches_bytes(data, i, &head) {
        return false;
    }
    let y = read_words(data, i + 4, 9);
    let x = read_words(data, i + 22, 8);
    if !(y[0] <= 1500 && is_strictly_increasing(y.as_slice()) && 2000 <= y[8] && y[8] <= 6000 && x[0] <= 600
        && is_strictly_increasing(x.as_slice()) && 2000 <= x[7] && x[7] <= 8000) {
        return false;
    }
    let v = read_words(data, i + 38, 72);
    assert(v@ == be16_seq(data@, i as int + 38, 72));
    let mut r: usize = 0;
    let mut high: usize = 0;
    while r < 9
        invariant
            r <= 9,
            v@.len() == 72,
            v@ == be16_seq(data@, i as int + 38, 72),
            forall|q: int| 0 <= q < r ==> #[trigger] row_start(v@, q) <= 200,
            high == high_rows(v@, r as int),
            high <= r,
        decreases 9 - r,
    {
        if v[8 * r] > 200 {
            assert(!(row_start(v@, r as int) <= 200));
            return false;
        }
        if v[8 * r + 7] >= 1000 {
            high += 1;
        }
        r += 1;
    }
    all_in(v.as_slice(), 0, 12000) && high >= 6
}

/// Whether the expected fuel temperature table's header is at `j`.
fn eft_table_at(data: &[u8], j: usize) -> (r: bool)
    ensures
        r == eft_at(data@, j as int),
{
    let len = data.len();
    if j > len || len - j < 164 {
        return false;
    }
    let head: [u8; 4] = [0x00, 0x08, 0x00, 0x08];
    assert(head@ =~= seq![0x00u8, 0x08, 0x00, 0x08]);
    if !matches_bytes(data, j, &head) {
        return false;
    }
    let y = read_words(data, j + 4, 8);
    let x = read_words(data, j + 20, 8);
    let v = read_words(data, j + 36, 64);
    y[0] <= 1500 && is_strictly_increasing(y.as_slice()) && x[0] <= 600 && is_strictly_increasing(x.as_slice())
        && all_in(v.as_slice(), 2500, 4800)
}

/// Whether a MAF linearisation curve's header is at `i`.
fn maf_curve_at(data: &[u8], i: usize) -> (r: bool)
    ensures
        r == maf_at(data@, i as int),
{
    let len = data.len();
    if i > len || len - i < 130 || data[i] != 0 || data[i + 1] != 0x20 {
        return false;
    }
    let ax = read_words(data, i + 2, 32);
    if ax[0] > 400 || ax[31] > 1100 || !is_strictly_increasing(ax.as_slice()) {
        return false;
    }
    let v = read_signed_words(data, i + 66, 32);
    assert(v@ == be16s_seq(data@, i as int + 66, 32));
    if v[0] < -2500 || v[0] > 0 || v[31] < 5000 {
        return false;
    }
    let mut k: usize = 1;
    while k < 32
        invariant
            1 <= k <= 32,
            v@.len() == 32,
            v@ == be16s_seq(data@, i as int + 66, 32),
            forall|q: int| 0 < q < k ==> #[trigger] rises_signed_at(v@, q),
        decreases 32 - k,
    {
        if v[k - 1] >= v[k] {
            assert(!rises_signed_at(v@, k as int));
            return false;
        }
        k += 1;
    }
    true
}

/// Whether the DPF switch pattern is at `i`.
fn dpf_pattern_at(data: &[u8], i: usize) -> (r: bool)
    ensures
        r == dpf_at(data@, i as int),
{
    let len = data.len();
    if i > len || len - i < 18 {
        return false;
    }
    read_u16(data, i) == 0x7FFF && read_u16(data, i + 2) == 0x8000 && read_u16(data, i + 4) == 0 && read_u16(data, i + 6)
        == 0x028F && read_u16(data, i + 10) == 0 && read_u16(data, i + 12) == 0 && read_u16(data, i + 14) == 0x001E
        && read_u16(data, i + 16) == 0xFFFF
}

/// The extra tables `r` found in the image `s`, leaving out the addresses of `d`,
/// as the scan states them.
pub open spec fn stagex_post(s: Seq<u8>, d: Set<u32>, r: Seq<DetectedMap>) -> bool {
    &&& (forall|k: int| 0 <= k < r.len() ==> #[trigger] extra_entry_ok(s, d, r, k))
    &&& (fvc_paired(s, d, r))
    &&& (forall|i: int|
                scanned(s, i) && #[trigger] fvc_at(s, i) && !d.contains((i + 38) as u32) && (exists|j: int|
                    eft_partner(s, d, i, j)) ==> fvc_claimed(r, i))
    &&& (forall|i: int|
                scanned(s, i) && #[trigger] maf_at(s, i) && !d.contains((i + 66) as u32) ==> maf_claimed(
                    r,
                    i,
                ))
    &&& (forall|i: int|
                scanned(s, i) && i + 20 < extras_range(s.len() as int).1 && #[trigger] dpf_at(s, i)
                    && !d.contains((i + 8) as u32) && dpf_free(r, i + 8) ==> dpf_by(r, i + 8))
}

impl EDC16U31Detector {
    /// The extra tables: each fuel volume correction table that has an
    /// expected fuel temperature table in the 0x200 bytes after it (both
    /// reported), the MAF linearisation curves (numbered from the second
    /// one) and the first DPF switch; addresses in `detected` are left out.
    /// The scan goes word by word and resumes after each table it reports.
    #[verifier::spinoff_prover]
    #[verifier::rlimit(100)]
    pub fn detect_stagex_extras(&self, data: &[u8], detected: &HashSet<u32>) -> (r: Vec<DetectedMap>)
        requires
            data@.len() <= u32::MAX,
            data@.len() + 0x10000 <= usize::MAX,
        ensures
            stagex_post(data@, detected@, r@),
    {
        let ghost s = data@;
        let ghost d = detected@;
        let len = data.len();
        let scan_hi = if len >= 0x400 { len - 0x400 } else { 0 };
        let scan_lo: usize = if len >= 0x200000 { 0x180000 } else { 0x80000 };
        let mut maps: Vec<DetectedMap> = Vec::new();
        let mut mafs: u64 = 0;
        let mut i = scan_lo;
        while i < scan_hi
            invariant
                s == data@,
                d == detected@,
                len == s.len(),
                len <= u32::MAX,
                len + 0x10000 <= usize::MAX,
                (scan_lo as int, scan_hi as int) == extras_range(len as int),
                scan_hi <= len,
                scan_hi == 0 || scan_hi + 0x400 == len,
                i <= len + 0x200000,
                i % 2 == 0,
                maps@.len() <= i,
                maps@.len() <= len,
                mafs == mafs_in(maps@),
                forall|k: int| 0 <= k < maps@.len() ==> #[trigger] extra_entry_ok(s, d, maps@, k),
                forall|k: int| 0 <= k < maps@.len() ==> (#[trigger] maps@[k]).size != 2,
                forall|q: int|
                    scanned(s, q) && q < i && #[trigger] fvc_at(s, q) && !d.contains((q + 38) as u32) && (exists|w: int|
                        eft_partner(s, d, q, w)) ==> fvc_claimed(maps@, q),
                fvc_paired(s, d, maps@),
            decreases len + 0x200000 - i,
        {
            if !fvc_table_at(data, i) {
                i += 2;
                continue;
            }
            let d0 = i + 38;
            if detected.contains(&(d0 as u32)) {
                i += 2;
                continue;
            }
            let fvc_end = d0 + 144;
            let lim_a = fvc_end + 0x200;
            let lim_b = if len >= 200 { len - 200 } else { 0 };
            let lim = if lim_a < lim_b { lim_a } else { lim_b };
            let mut j = fvc_end;
            let mut eft: Option<usize> = None;
            while j < lim
                invariant
                    s == data@,
                    len == s.len(),
                    lim <= len,
                    len + 0x10000 <= usize::MAX,
                    j >= fvc_end,
                    fvc_end == i + 182,
                    lim == (if i + 182 + 0x200 < (if len >= 200 { len - 200 } else { 0int }) {
                        i + 182 + 0x200
                    } else {
                        if len >= 200 { len - 200 } else { 0int }
                    }),
                    (j - fvc_end) % 2 == 0,
                    eft matches Some(e) ==> eft_partner(s, d, i as int, e as int) && e == j,
                    forall|w: int| fvc_end <= w < j && (w - fvc_end) % 2 == 0 ==> !eft_partner(s, d, i as int, w),
                    d == detected@,
                ensures
                    eft matches Some(e) ==> first_partner(s, d, i as int, e as int),
                    eft is None ==> j >= lim && forall|w: int|
                        fvc_end <= w < j && (w - fvc_end) % 2 == 0 ==> !eft_partner(s, d, i as int, w),
                decreases lim + 2 - j,
            {
                if eft_table_at(data, j) && !detected.contains(&((j + 36) as u32)) {
                    eft = Some(j);
                    break;
                }
                j += 2;
            }
            match eft {
                Some(e) => {
                    let ed0 = e + 36;
                    let mut m = DetectedMap::new(d0 as u32, 144, MapDimensions::TwoDimensional { rows: 9, cols: 8 }, DataType::Int16);
                    m.name = Some(text("Fuel Volume Correction"));
                    m.category = Some(text("Fuel Correction"));
                    m.unit = Some(text("(mg/stroke)/100°C"));
                    m.correction_factor = Some(2_441_000_000);
                    m.y_axis_address = Some((i + 4) as u32);
                    m.y_label = Some(text("rpm"));
                    m.y_axis_correction = Some(FIXED_ONE);
                    m.x_axis_address = Some((i + 22) as u32);
                    m.x_label = Some(text("mg/stroke"));
                    m.x_axis_correction = Some(10_000_000_000);
                    m.confidence = 900;
                    let ghost before = maps@;
                    proof {
                        lemma_extra_push(s, d, before, m);
                        lemma_claims_grow(before, m);
                        assert(eft_at(s, e as int));
                    }
                    maps.push(m);
                    assert(extra_entry_ok(s, d, maps@, before.len() as int));
                    let mut m2 = DetectedMap::new(ed0 as u32, 128, MapDimensions::TwoDimensional { rows: 8, cols: 8 }, DataType::Int16);
                    m2.name = Some(text("Expected Fuel Temp"));
                    m2.category = Some(text("Fuel Correction"));
                    m2.unit = Some(text("°C"));
                    m2.correction_factor = Some(100_000_000_000);
                    m2.y_axis_address = Some((e + 4) as u32);
                    m2.y_label = Some(text("rpm"));
                    m2.y_axis_correction = Some(FIXED_ONE);
                    m2.x_axis_address = Some((e + 20) as u32);
                    m2.x_label = Some(text("mg/stroke"));
                    m2.x_axis_correction = Some(10_000_000_000);
                    m2.confidence = 900;
                    let ghost before2 = maps@;
                    proof {
                        lemma_extra_push(s, d, before2, m2);
                        lemma_claims_grow(before2, m2);
                    }
                    maps.push(m2);
                    proof {
                        assert(maps@ == before.push(m).push(m2));
                        lemma_paired_pair(s, d, before, m, m2);
                    }
                    assert(extra_entry_ok(s, d, maps@, before2.len() as int));
                    proof {
                        let k = before.len() as int;
                        assert(maps@[k] == m && maps@[k + 1] == m2);
                        assert forall|q: int| i <= q < ed0 + 128 implies fvc_claimed(maps@, q) by {
                            assert(maps@[k].size == 144);
                        }
                    }
                    i = ed0 + 128;
                },
                None => {
                    proof {
                        lemma_no_partner(s, d, i as int, j as int, lim as int);
                    }
                    i += 2;
                },
            }
        }
        let base = maps.len();
        let mut i = scan_lo;
        while i < scan_hi
            invariant
                s == data@,
                d == detected@,
                len == s.len(),
                len <= u32::MAX,
                len + 0x10000 <= usize::MAX,
                (scan_lo as int, scan_hi as int) == extras_range(len as int),
                scan_hi <= len,
                scan_hi == 0 || scan_hi + 0x400 == len,
                i <= len + 0x200000,
                i % 2 == 0,
                base <= len,
                maps@.len() <= base + i,
                maps@.len() <= base + len,
                mafs == mafs_in(maps@),
                forall|k: int| 0 <= k < maps@.len() ==> #[trigger] extra_entry_ok(s, d, maps@, k),
                forall|k: int| 0 <= k < maps@.len() ==> (#[trigger] maps@[k]).size != 2,
                forall|q: int|
                    scanned(s, q) && #[trigger] fvc_at(s, q) && !d.contains((q + 38) as u32) && (exists|w: int|
                        eft_partner(s, d, q, w)) ==> fvc_claimed(maps@, q),
                forall|q: int|
                    scanned(s, q) && q < i && #[trigger] maf_at(s, q) && !d.contains((q + 66) as u32) ==> maf_claimed(
                        maps@,
                        q,
                    ),
                fvc_paired(s, d, maps@),
            ensures
                fvc_paired(s, d, maps@),
                mafs == mafs_in(maps@),
                forall|k: int| 0 <= k < maps@.len() ==> #[trigger] extra_entry_ok(s, d, maps@, k),
                forall|k: int| 0 <= k < maps@.len() ==> (#[trigger] maps@[k]).size != 2,
                forall|q: int|
                    scanned(s, q) && #[trigger] fvc_at(s, q) && !d.contains((q + 38) as u32) && (exists|w: int|
                        eft_partner(s, d, q, w)) ==> fvc_claimed(maps@, q),
                forall|q: int|
                    scanned(s, q) && #[trigger] maf_at(s, q) && !d.contains((q + 66) as u32) ==> maf_claimed(maps@, q),
            decreases len + 0x200000 - i,
        {
            if !(data[i] == 0 && data[i + 1] == 0x20) {
                i += 2;
                continue;
            }
            let d0 = i + 66;
            if d0 + 64 > len {
                break;
            }
            if !maf_curve_at(data, i) || detected.contains(&(d0 as u32)) {
                i += 2;
                continue;
            }
            proof {
                lemma_mafs_bound(maps@);
            }
            mafs += 1;
            let mut m = DetectedMap::new(d0 as u32, 64, MapDimensions::OneDimensional { length: 32 }, DataType::Int16);
            m.name = Some(if mafs == 1 { text("MAF Linearization") } else { numbered("MAF Linearization ", mafs) });
            m.category = Some(text("Airflow"));
            m.unit = Some(text("kg/h"));
            m.correction_factor = Some(100_000_000_000);
            m.x_axis_address = Some((i + 2) as u32);
            m.x_label = Some(text("mV"));
            m.x_axis_correction = Some(4_887_586_000_000);
            m.confidence = 900;
            let ghost before = maps@;
            proof {
                lemma_extra_push(s, d, before, m);
                lemma_claims_grow(before, m);
                lemma_paired_push(s, d, before, m);
            }
            maps.push(m);
            assert(extra_entry_ok(s, d, maps@, before.len() as int));
            proof {
                let k = before.len() as int;
                assert(maps@[k] == m);
                assert forall|q: int| i <= q < d0 + 64 implies maf_claimed(maps@, q) by {
                    assert(maps@[k].size == 64);
                }
            }
            i = d0 + 64;
        }
        let mut i = scan_lo;
        let ghost pre = maps@;
        while i < scan_hi && scan_hi - i > 20
            invariant_except_break
                maps@ == pre,
                forall|k: int| 0 <= k < maps@.len() ==> (#[trigger] maps@[k]).size != 2,
                forall|q: int|
                    scanned(s, q) && q + 20 < scan_hi && q < i && #[trigger] dpf_at(s, q) && !d.contains((q + 8) as u32)
                        ==> !dpf_free(maps@, q + 8),
            invariant
                s == data@,
                d == detected@,
                len == s.len(),
                len <= u32::MAX,
                (scan_lo as int, scan_hi as int) == extras_range(len as int),
                scan_hi <= len,
                i % 2 == 0,
                scan_lo <= i,
                mafs == mafs_in(maps@),
                forall|k: int| 0 <= k < maps@.len() ==> #[trigger] extra_entry_ok(s, d, maps@, k),
                fvc_paired(s, d, maps@),
            ensures
                fvc_paired(s, d, maps@),
                mafs == mafs_in(maps@),
                forall|k: int| 0 <= k < maps@.len() ==> #[trigger] extra_entry_ok(s, d, maps@, k),
                forall|a: int| fvc_claimed(pre, a) ==> #[trigger] fvc_claimed(maps@, a),
                forall|a: int| maf_claimed(pre, a) ==> #[trigger] maf_claimed(maps@, a),
                forall|q: int|
                    scanned(s, q) && q + 20 < scan_hi && #[trigger] dpf_at(s, q) && !d.contains((q + 8) as u32) && dpf_free(
                        maps@,
                        q + 8,
                    ) ==> dpf_by(maps@, q + 8),
            decreases scan_hi - i,
        {
            if dpf_pattern_at(data, i) {
                let addr = (i + 8) as u32;
                let mut taken = false;
                let mut k: usize = 0;
                while k < maps.len()
                    invariant
                        k <= maps@.len(),
                        taken == exists|q: int| 0 <= q < k && (#[trigger] maps@[q]).address == addr,
                    decreases maps.len() - k,
                {
                    if maps[k].address == addr {
                        taken = true;
                    }
                    k += 1;
                }
                if !detected.contains(&addr) && !taken {
                    let mut m = DetectedMap::new(addr, 2, MapDimensions::OneDimensional { length: 1 }, DataType::UInt16);
                    m.name = Some(text("Dpf switch"));
                    m.category = Some(text("DPF"));
                    m.unit = Some(text("-"));
                    m.correction_factor = Some(FIXED_ONE);
                    m.confidence = 900;
                    let ghost before = maps@;
                    proof {
                        lemma_extra_push(s, d, before, m);
                        lemma_claims_grow(before, m);
                        lemma_paired_push(s, d, before, m);
                    }
                    maps.push(m);
                    assert(extra_entry_ok(s, d, maps@, before.len() as int));
                    proof {
                        let kk = before.len() as int;
                        assert(maps@[kk] == m);
                        assert(dpf_by(maps@, i + 8));
                        assert forall|q: int|
                            scanned(s, q) && q + 20 < scan_hi && #[trigger] dpf_at(s, q) && !d.contains((q + 8) as u32)
                                && dpf_free(maps@, q + 8) implies dpf_by(maps@, q + 8) by {
                            if q < i {
                                assert(!dpf_free(before, q + 8));
                                let w = choose|w: int| 0 <= w < before.len() && (#[trigger] before[w]).address == q + 8 && before[w].size != 2;
                                assert(maps@[w] == before[w]);
                            }
                        }
                    }
                    break;
                }
                proof {
                    if !d.contains(addr) {
                        let w = choose|w: int| 0 <= w < maps@.len() && (#[trigger] maps@[w]).address == addr;
                        assert(!dpf_free(maps@, i + 8));
                    }
                }
            }
            i += 2;
        }
        maps
    }
}

} // verus!
