//! The detection entry points: the smart detector routes an image to the
//! detector of its ECU family, and the map detector finishes the list for
//! display (spelling, hidden maps, folders, numbering of the dynamic start
//! of injection maps).
use vstd::prelude::*;
use crate::edc16u31::detect::{apart, described, has_svbl_map, has_svbl_scalar, has_svbl_tail, names_finished, same_but_name};
use crate::edc16u31::templates::MapType;
use crate::edc16u31::{EDC16U31Detector, EDC16Variant};
use crate::edc16u31::claims::{lambda_shown, smoke_shown, soi_limiter_shown, svrl_shown, vmax_shown};
use crate::edc16u31::late::{axis_shown, bip_shown, region_shown, turbo_shown, egr_shown, egt_shown, fuel_shown, gearbox_shown, idle_shown, stagex_shown};
use crate::model::{DetectedMap, has_text, text};
use crate::ols_import::{trim, trim_chars};
use crate::text::{
    chars_of, contains_chars, contains_text, lower, lower_chars, numbered2, replace_chars, replaced, string_from_chars,
    two_digits,
};

verus! {

/// The ECU families the detection knows of.
#[derive(Clone, Copy, Debug, PartialEq, Eq, Structural)]
pub enum ECUType {
    EDC15P,
    EDC15VM,
    EDC15V,
    EDC15M,
    EDC15C,
    EDC16U1,
    EDC16U31,
    EDC16U34,
    EDC16U,
    EDC16C,
    EDC16CP,
    Unknown,
}

/// What the upper-case conversion of the standard library gives for `s`.
pub uninterp spec fn upper_case(s: Seq<char>) -> Seq<char>;

/// The upper-case form of `s` (`str::to_uppercase`).
#[verifier::external_body]
fn to_upper(s: &str) -> (r: String)
    ensures
        r@ == upper_case(s@),
{
    s.to_uppercase()
}

/// The family named by an upper-case type name.
pub open spec fn type_named(n: Seq<char>) -> Option<ECUType> {
    if n == "EDC16U31"@ {
        Some(ECUType::EDC16U31)
    } else if n == "EDC16U34"@ {
        Some(ECUType::EDC16U34)
    } else if n == "EDC16U1"@ {
        Some(ECUType::EDC16U1)
    } else if n == "EDC15P"@ {
        Some(ECUType::EDC15P)
    } else if n == "EDC15VM"@ {
        Some(ECUType::EDC15VM)
    } else if n == "EDC15V"@ {
        Some(ECUType::EDC15V)
    } else if n == "EDC15M"@ {
        Some(ECUType::EDC15M)
    } else if n == "EDC15C"@ {
        Some(ECUType::EDC15C)
    } else {
        None
    }
}

/// What a detection found.
pub struct DetectionResult {
    /// The family the image was detected as.
    pub ecu_type: ECUType,
    pub maps: Vec<DetectedMap>,
    pub processing_time_ms: u128,
}

impl DetectionResult {
    /// The same result with the time the detection took, in milliseconds, as
    /// the caller measured it (the library has no clock).
    pub fn with_processing_time(self, ms: u128) -> (r: DetectionResult)
        ensures
            r.ecu_type == self.ecu_type,
            r.maps@ == self.maps@,
            r.processing_time_ms == ms,
    {
        DetectionResult { ecu_type: self.ecu_type, maps: self.maps, processing_time_ms: ms }
    }
}

/// Routes an image to the detector of its family.
pub struct SmartDetector {}

impl SmartDetector {
    pub fn new() -> (r: Self)
        ensures
            r == (SmartDetector {  }),
    {
        SmartDetector {  }
    }
}

impl Default for SmartDetector {
    fn default() -> (r: Self)
        ensures
            r == (SmartDetector {  }),
    {
        SmartDetector::new()
    }
}

impl SmartDetector {

    /// The maps of an image of family `identified` (or `forced_type` when
    /// the caller knows it): an EDC16U31 image goes to the EDC16U31 detector
    /// (modified-image ranges when `tuned_mode`); for the other families the
    /// list is empty. What the axis pass of the detector in the mode asked for
    /// (`tuned_mode`) finds is shown in the list. The time taken is left at 0
    /// for the caller to fill in
    /// with [`DetectionResult::with_processing_time`].
    pub fn detect_maps_with_options<F: Fn(Vec<i16>, usize, usize, MapType) -> Option<u32>>(
        &self,
        data: &[u8],
        tuned_mode: bool,
        identified: ECUType,
        forced_type: Option<ECUType>,
        score: &F,
    ) -> (r: DetectionResult)
        requires
            data@.len() <= u32::MAX,
            data@.len() + 0x10000 <= usize::MAX,
            forall|v: Vec<i16>, rows: usize, cols: usize, t: MapType| #[trigger] score.requires((v, rows, cols, t)),
        ensures
            r.ecu_type == (match forced_type {
                Some(t) => t,
                None => identified,
            }),
            r.ecu_type != ECUType::EDC16U31 ==> r.maps@.len() == 0,
            r.ecu_type == ECUType::EDC16U31 ==> apart(r.maps@) && forall|k: int|
                0 <= k < r.maps@.len() ==> described(#[trigger] r.maps@[k]),
            r.ecu_type == ECUType::EDC16U31 ==> detector_found(data@, r.maps@),
            r.ecu_type == ECUType::EDC16U31 ==> axis_shown(data@, tuned_mode, *score, r.maps@),
            r.processing_time_ms == 0,
    {
        let t = match forced_type {
            Some(f) => f,
            None => identified,
        };
        let maps = if t == ECUType::EDC16U31 {
            let detector = if tuned_mode {
                EDC16U31Detector::new_tuned(EDC16Variant::EDC16U31)
            } else {
                EDC16U31Detector::new(EDC16Variant::EDC16U31)
            };
            detector.detect(data, score)
        } else {
            Vec::new()
        };
        DetectionResult { ecu_type: t, maps, processing_time_ms: 0 }
    }
}

/// What the EDC16U31 detector's contract says of the list it found in the
/// image `s`: the maximum boost pressure scalar is there when the image holds
/// a boost limit table; the RPM limiter, the maximum vehicle speeds, the
/// start of injection limiters and the smoke limiters have their places
/// taken; what the scans for the extra tables, gearbox limiters, fuel
/// corrections, EGR, idle speed, exhaust gas temperature and begin of
/// injection period maps, and for the turbo and late-region tables, find is
/// shown; names are finished, and an empty image gives none.
pub open spec fn detector_found(s: Seq<u8>, maps: Seq<DetectedMap>) -> bool {
    &&& has_svbl_tail(s) ==> has_svbl_map(s, maps) && has_svbl_scalar(s, maps)
    &&& svrl_shown(s, maps)
    &&& vmax_shown(s, maps)
    &&& soi_limiter_shown(s, maps)
    &&& smoke_shown(s, maps)
    &&& lambda_shown(s, maps)
    &&& stagex_shown(s, maps)
    &&& gearbox_shown(s, maps)
    &&& fuel_shown(s, maps)
    &&& egr_shown(s, maps)
    &&& idle_shown(s, maps)
    &&& egt_shown(s, maps)
    &&& bip_shown(s, maps)
    &&& turbo_shown(s, maps)
    &&& region_shown(s, maps)
    &&& names_finished(maps)
    &&& s.len() == 0 ==> maps.len() == 0
}

/// The map name after the spelling fix ("linearisation").
pub open spec fn spelled(n: Seq<char>) -> Seq<char> {
    replaced(replaced(n, "Linearization"@, "Linearisation"@), "linearization"@, "linearisation"@)
}

/// `p` starts `s`.
pub open spec fn starts(s: Seq<char>, p: Seq<char>) -> bool {
    p.len() <= s.len() && s.subrange(0, p.len() as int) == p
}

/// Maps hidden from display, judged on the lower-case name `l`: the inverse
/// driver's wish and the MAF linearisation everywhere; on EDC16, every
/// duration but the selector and "duration 00" to "duration 05".
pub open spec fn hidden(l: Seq<char>, edc16: bool) -> bool {
    ||| contains_text(l, "inverse"@) && contains_text(l, "driver"@)
    ||| contains_text(l, "maf linearisation"@)
    ||| (edc16 && starts(l, "duration"@) && !(starts(l, "duration selector"@) || (starts(l, "duration 0"@)
        && l.len() > 10 && '0' <= l[10] <= '5')))
}

/// The lower-case displayed name of `m`.
pub open spec fn shown_name(m: DetectedMap) -> Seq<char> {
    match m.name {
        Some(n) => lower(spelled(n@)),
        None => Seq::empty(),
    }
}

/// The folder of a map on display: on EDC16, "Fuel Correction" goes to
/// "Injection system", "Airflow" and "DPF" to "Other" (letter case ignored).
pub open spec fn shown_category(c: Seq<char>, edc16: bool) -> Seq<char> {
    if edc16 && lower(c) == lower("fuel correction"@) {
        "Injection system"@
    } else if edc16 && (lower(c) == lower("airflow"@) || lower(c) == lower("dpf"@)) {
        "Other"@
    } else {
        c
    }
}

/// `b` is `a` on display but for its name: folder moved, the rest unchanged.
pub open spec fn shown_fields(a: DetectedMap, b: DetectedMap, edc16: bool) -> bool {
    &&& (a.category matches Some(c) ==> has_text(b.category, shown_category(c@, edc16)))
    &&& (a.category is None ==> b.category is None)
    &&& b.address == a.address
    &&& b.size == a.size
    &&& b.dimensions == a.dimensions
    &&& b.data_type == a.data_type
    &&& b.subcategory == a.subcategory
    &&& b.unit == a.unit
    &&& b.description == a.description
    &&& b.correction_factor == a.correction_factor
    &&& b.offset == a.offset
    &&& b.confidence == a.confidence
    &&& b.x_axis_address == a.x_axis_address
    &&& b.y_axis_address == a.y_axis_address
    &&& b.x_axis_correction == a.x_axis_correction
    &&& b.y_axis_correction == a.y_axis_correction
    &&& b.x_axis_offset == a.x_axis_offset
    &&& b.y_axis_offset == a.y_axis_offset
    &&& b.x_label == a.x_label
    &&& b.y_label == a.y_label
    &&& b.y_axis_inverted == a.y_axis_inverted
    &&& b.is_little_endian == a.is_little_endian
}

/// The name of `b` is that of `a` spelled.
pub open spec fn spelled_name(a: DetectedMap, b: DetectedMap) -> bool {
    &&& (a.name matches Some(n) ==> has_text(b.name, spelled(n@)))
    &&& (a.name is None ==> b.name is None)
}

/// `b` is `a` as displayed: name spelled, folder moved, the rest unchanged.
pub open spec fn shown(a: DetectedMap, b: DetectedMap, edc16: bool) -> bool {
    spelled_name(a, b) && shown_fields(a, b, edc16)
}

/// Whether `p` starts the characters `v`.
fn starts_chars(v: &[char], p: &str) -> (r: bool)
    ensures
        r == starts(v@, p@),
{
    let q = chars_of(p);
    if q.len() > v.len() {
        return false;
    }
    let mut i: usize = 0;
    while i < q.len()
        invariant
            q@ == p@,
            q@.len() <= v@.len(),
            i <= q@.len(),
            forall|k: int| 0 <= k < i ==> v@[k] == q@[k],
        decreases q.len() - i,
    {
        if v[i] != q[i] {
            assert(v@.subrange(0, q@.len() as int)[i as int] != q@[i as int]);
            return false;
        }
        i += 1;
    }
    assert(v@.subrange(0, q@.len() as int) =~= q@);
    true
}

/// Whether the characters `v` contain `p`.
fn has_chars(v: &[char], p: &str) -> (r: bool)
    ensures
        r == contains_text(v@, p@),
{
    let q = chars_of(p);
    contains_chars(v, q.as_slice())
}

/// The spelling fix of a name.
fn spell(n: &String) -> (r: Vec<char>)
    ensures
        r@ == spelled(n@),
{
    let v = chars_of(n.as_str());
    let a = chars_of("Linearization");
    let b = chars_of("Linearisation");
    let c = chars_of("linearization");
    let d = chars_of("linearisation");
    proof {
        reveal_strlit("Linearization");
        reveal_strlit("linearization");
    }
    let w = replace_chars(v.as_slice(), a.as_slice(), b.as_slice());
    replace_chars(w.as_slice(), c.as_slice(), d.as_slice())
}

/// Whether the lower case of `c` is that of `t`.
fn lower_is(c: &[char], t: &str) -> (r: bool)
    ensures
        r == (lower(c@) == lower(t@)),
{
    let a = lower_chars(c);
    let q = chars_of(t);
    let b = lower_chars(q.as_slice());
    crate::text::same_chars(a.as_slice(), b.as_slice())
}

/// A map as displayed, or nothing when it is hidden.
fn finalize_one(m: DetectedMap, edc16: bool) -> (r: Option<DetectedMap>)
    ensures
        r is None <==> hidden(shown_name(m), edc16),
        r matches Some(b) ==> shown(m, b, edc16),
{
    let mut m = m;
    let ghost a = m;
    let lname: Vec<char> = match &m.name {
        Some(n) => {
            let sp = spell(n);
            let l = lower_chars(sp.as_slice());
            m.name = Some(string_from_chars(sp.as_slice()));
            l
        },
        None => Vec::new(),
    };
    assert(lname@ == shown_name(a)) by {
        if a.name is None {
            assert(lname@ =~= Seq::<char>::empty());
        }
    }
    if (has_chars(lname.as_slice(), "inverse") && has_chars(lname.as_slice(), "driver")) || has_chars(
        lname.as_slice(),
        "maf linearisation",
    ) {
        return None;
    }
    if edc16 && starts_chars(lname.as_slice(), "duration") {
        let keep = starts_chars(lname.as_slice(), "duration selector") || (starts_chars(lname.as_slice(), "duration 0")
            && lname.len() > 10 && '0' <= lname[10] && lname[10] <= '5');
        if !keep {
            return None;
        }
    }
    let new_cat: Option<String> = match &m.category {
        Some(c) => {
            let cv = chars_of(c.as_str());
            if edc16 && lower_is(cv.as_slice(), "fuel correction") {
                Some(text("Injection system"))
            } else if edc16 && (lower_is(cv.as_slice(), "airflow") || lower_is(cv.as_slice(), "dpf")) {
                Some(text("Other"))
            } else {
                None
            }
        },
        None => None,
    };
    match new_cat {
        Some(c) => {
            m.category = Some(c);
        },
        None => {},
    }
    Some(m)
}

/// A dynamic start of injection map, judged on its lower-case name.
pub open spec fn dynamic_soi(l: Seq<char>) -> bool {
    starts(l, "start of injection"@) && contains_text(l, "dynamic"@)
}

impl MapDetector {
    /// The family named by a caller-provided type string: trimmed of white
    /// space and in upper case, one of the known names.
    pub fn parse_ecu_type(s: &str) -> (r: Option<ECUType>)
        ensures
            r == type_named(upper_case(trim(s@))),
    {
        let v = chars_of(s);
        let t = trim_chars(v.as_slice());
        let ts = string_from_chars(t.as_slice());
        let u = to_upper(ts.as_str());
        if crate::text::text_eq(&u, "EDC16U31") {
            Some(ECUType::EDC16U31)
        } else if crate::text::text_eq(&u, "EDC16U34") {
            Some(ECUType::EDC16U34)
        } else if crate::text::text_eq(&u, "EDC16U1") {
            Some(ECUType::EDC16U1)
        } else if crate::text::text_eq(&u, "EDC15P") {
            Some(ECUType::EDC15P)
        } else if crate::text::text_eq(&u, "EDC15VM") {
            Some(ECUType::EDC15VM)
        } else if crate::text::text_eq(&u, "EDC15V") {
            Some(ECUType::EDC15V)
        } else if crate::text::text_eq(&u, "EDC15M") {
            Some(ECUType::EDC15M)
        } else if crate::text::text_eq(&u, "EDC15C") {
            Some(ECUType::EDC15C)
        } else {
            None
        }
    }
}

/// `r` is the list `found` as displayed (EDC16 rules when `e`), and
/// `found` is what the detector of family `t` may report: for EDC16U31,
/// maps apart from each other and described.
pub open spec fn shown_detection(found: Seq<DetectedMap>, t: ECUType, e: bool, r: Seq<DetectedMap>) -> bool {
    &&& (t == ECUType::EDC16U31 ==> apart(found) && forall|k: int| 0 <= k < found.len() ==> described(#[trigger] found[k]))
    &&& r.len() == visible(found, e).len()
    &&& forall|k: int| 0 <= k < r.len() ==> #[trigger] displayed(found, e, k, r[k])
}

/// The family named by a caller-provided type string, if any.
pub open spec fn forced_type(ecu_type: Option<&str>) -> Option<ECUType> {
    match ecu_type {
        Some(s) => type_named(upper_case(trim(s@))),
        None => None,
    }
}

/// The family used: the one named, else the one identified.
pub open spec fn chosen_type(forced: Option<ECUType>, identified: ECUType) -> ECUType {
    match forced {
        Some(t) => t,
        None => identified,
    }
}

/// The list is displayed by the EDC16 rules: the family used, or the one
/// named, is an EDC16.
pub open spec fn display_edc16(forced: Option<ECUType>, identified: ECUType) -> bool {
    edc16_family(chosen_type(forced, identified)) || match forced {
        Some(f) => edc16_named(f),
        None => false,
    }
}

/// `t` is one of the EDC16 families.
pub open spec fn edc16_family(t: ECUType) -> bool {
    t == ECUType::EDC16U1 || t == ECUType::EDC16U31 || t == ECUType::EDC16U34 || t == ECUType::EDC16U
        || t == ECUType::EDC16C || t == ECUType::EDC16CP
}

/// `t` is one of the EDC16 families a caller can name.
pub open spec fn edc16_named(t: ECUType) -> bool {
    t == ECUType::EDC16U1 || t == ECUType::EDC16U31 || t == ECUType::EDC16U34
}

/// The detection engine: routes an image and finishes its map list.
pub struct MapDetector {
    smart_detector: SmartDetector,
}

impl MapDetector {
    pub fn new() -> (d: Self)
        ensures
            d == fresh_map_detector(),
    {
        MapDetector { smart_detector: SmartDetector::new() }
    }
}

/// The detection engine as `new` makes it.
pub closed spec fn fresh_map_detector() -> MapDetector {
    MapDetector { smart_detector: SmartDetector {  } }
}

impl Default for MapDetector {
    fn default() -> (r: Self)
        ensures
            r == fresh_map_detector(),
    {
        MapDetector::new()
    }
}

impl MapDetector {

    /// The list as displayed (see [`displayed`]): each map not hidden, in
    /// order, spelled and filed; on EDC16 the dynamic start of injection
    /// maps are then named "Start of injection (Dynamic) NN", numbered from
    /// 01 by address.
    pub fn finalize_maps(maps: Vec<DetectedMap>, is_edc16: bool) -> (r: Vec<DetectedMap>)
        ensures
            r@.len() == visible(maps@, is_edc16).len(),
            forall|k: int| 0 <= k < r@.len() ==> #[trigger] displayed(maps@, is_edc16, k, r@[k]),
    {
        let mut rest = maps;
        let ghost orig = rest@;
        let mut out: Vec<DetectedMap> = Vec::new();
        let ghost mut i: int = 0;
        while rest.len() > 0
            invariant
                0 <= i <= orig.len(),
                rest@ == orig.subrange(i, orig.len() as int),
                out@.len() == visible(orig.take(i), is_edc16).len(),
                forall|k: int| 0 <= k < out@.len() ==> 0 <= #[trigger] visible(orig.take(i), is_edc16)[k] < i,
                forall|k: int|
                    0 <= k < out@.len() ==> shown(
                        orig[visible(orig.take(i), is_edc16)[k]],
                        #[trigger] out@[k],
                        is_edc16,
                    ),
            decreases rest.len(),
        {
            let m = rest.remove(0);
            proof {
                assert(m == orig[i]);
                assert(orig.take(i + 1).drop_last() =~= orig.take(i));
                assert(orig.take(i + 1).last() == orig[i]);
            }
            let ghost pre = out@;
            match finalize_one(m, is_edc16) {
                Some(b) => {
                    out.push(b);
                },
                None => {},
            }
            proof {
                assert(out@.len() == pre.len() || out@ == pre.push(out@.last()));
                i = i + 1;
                assert(rest@ =~= orig.subrange(i, orig.len() as int));
            }
        }
        proof {
            assert(orig.take(i) =~= orig);
        }
        if is_edc16 {
            let ghost pre = out@;
            number_dynamic_soi(&mut out);
            proof {
                let vis = visible(orig, is_edc16);
                assert forall|p: int| 0 <= p < pre.len() implies is_dynamic(#[trigger] pre[p]) == dynamic_soi(
                    shown_name(orig[vis[p]]),
                ) && pre[p].address == orig[vis[p]].address by {
                    assert(shown(orig[vis[p]], pre[p], is_edc16));
                    if orig[vis[p]].name is None {
                        reveal_strlit("start of injection");
                        assert(!dynamic_soi(Seq::<char>::empty()));
                    }
                }
                assert forall|k: int| 0 <= k < out@.len() implies #[trigger] displayed(orig, is_edc16, k, out@[k]) by {
                    lemma_ahead_matches(orig, is_edc16, pre, k, pre.len() as int);
                    assert(shown(orig[vis[k]], pre[k], is_edc16));
                    assert(same_but_name(pre[k], out@[k]));
                }
            }
        }
        out
    }

    /// The maps of an image, as displayed: `ecu_type` (when it names a
    /// known family) overrides `identified`; the list counts as EDC16 when
    /// the family used, or the one named, is an EDC16.
    pub fn detect_maps_with_options<F: Fn(Vec<i16>, usize, usize, MapType) -> Option<u32>>(
        &self,
        data: &[u8],
        ecu_type: Option<&str>,
        tuned_mode: bool,
        identified: ECUType,
        score: &F,
    ) -> (r: Vec<DetectedMap>)
        requires
            data@.len() <= u32::MAX,
            data@.len() + 0x10000 <= usize::MAX,
            forall|v: Vec<i16>, rows: usize, cols: usize, t: MapType| #[trigger] score.requires((v, rows, cols, t)),
        ensures
            (match ecu_type {
                Some(s) => type_named(upper_case(trim(s@))),
                None => None,
            }).unwrap_or(identified) != ECUType::EDC16U31 ==> r@.len() == 0,
            exists|found: Seq<DetectedMap>|
                #[trigger] shown_detection(
                    found,
                    chosen_type(forced_type(ecu_type), identified),
                    display_edc16(forced_type(ecu_type), identified),
                    r@,
                ) && (chosen_type(forced_type(ecu_type), identified) == ECUType::EDC16U31 ==> detector_found(
                    data@,
                    found,
                ) && axis_shown(data@, tuned_mode, *score, found)),
    {
        let forced = match ecu_type {
            Some(s) => Self::parse_ecu_type(s),
            None => None,
        };
        let forced_is_edc16 = match forced {
            Some(t) => t == ECUType::EDC16U1 || t == ECUType::EDC16U31 || t == ECUType::EDC16U34,
            None => false,
        };
        let result = self.smart_detector.detect_maps_with_options(data, tuned_mode, identified, forced, score);
        let t = result.ecu_type;
        let is_edc16 = t == ECUType::EDC16U1 || t == ECUType::EDC16U31 || t == ECUType::EDC16U34 || t == ECUType::EDC16U
            || t == ECUType::EDC16C || t == ECUType::EDC16CP || forced_is_edc16;
        let ghost found = result.maps@;
        let r = Self::finalize_maps(result.maps, is_edc16);
        assert(forced == forced_type(ecu_type));
        assert(t == chosen_type(forced_type(ecu_type), identified));
        assert(is_edc16 == display_edc16(forced_type(ecu_type), identified));
        assert(shown_detection(found, t, is_edc16, r@));
        r
    }
}

/// The positions of the maps of `maps` that are not hidden, in order.
pub open spec fn visible(maps: Seq<DetectedMap>, edc16: bool) -> Seq<int>
    decreases maps.len(),
{
    if maps.len() == 0 {
        Seq::empty()
    } else {
        let v = visible(maps.drop_last(), edc16);
        if hidden(shown_name(maps.last()), edc16) {
            v
        } else {
            v.push(maps.len() - 1)
        }
    }
}

/// Number of dynamic start of injection maps among the first `q` maps on
/// display that come before displayed map `k` by address (at equal
/// addresses, by position).
pub open spec fn shown_ahead(maps: Seq<DetectedMap>, vis: Seq<int>, k: int, q: int) -> nat
    decreases q,
{
    if q <= 0 {
        0
    } else {
        shown_ahead(maps, vis, k, q - 1) + if dynamic_soi(shown_name(maps[vis[q - 1]])) && (maps[vis[q - 1]].address
            < maps[vis[k]].address || (maps[vis[q - 1]].address == maps[vis[k]].address && q - 1 < k)) {
            1nat
        } else {
            0nat
        }
    }
}

/// `b` is map `k` of the list `maps` as displayed: the `k`-th map that is
/// not hidden, spelled and filed; on EDC16 a dynamic start of injection map
/// is named by its rank by address among those on display.
pub open spec fn displayed(maps: Seq<DetectedMap>, edc16: bool, k: int, b: DetectedMap) -> bool {
    let vis = visible(maps, edc16);
    let a = maps[vis[k]];
    &&& shown_fields(a, b, edc16)
    &&& if edc16 && dynamic_soi(shown_name(a)) {
        has_text(b.name, dynamic_name(shown_ahead(maps, vis, k, vis.len() as int) + 1))
    } else {
        spelled_name(a, b)
    }
}

proof fn lemma_ahead_matches(maps: Seq<DetectedMap>, edc16: bool, pre: Seq<DetectedMap>, k: int, q: int)
    requires
        pre.len() == visible(maps, edc16).len(),
        0 <= k < pre.len(),
        0 <= q <= pre.len(),
        forall|p: int|
            0 <= p < pre.len() ==> is_dynamic(#[trigger] pre[p]) == dynamic_soi(
                shown_name(maps[visible(maps, edc16)[p]]),
            ) && pre[p].address == maps[visible(maps, edc16)[p]].address,
    ensures
        dynamic_ahead(pre, k, q) == shown_ahead(maps, visible(maps, edc16), k, q),
    decreases q,
{
    if q > 0 {
        lemma_ahead_matches(maps, edc16, pre, k, q - 1);
        assert(is_dynamic(pre[q - 1]) == dynamic_soi(shown_name(maps[visible(maps, edc16)[q - 1]])));
        assert(pre[k].address == maps[visible(maps, edc16)[k]].address);
    }
}

/// Each position on display is that of a map of the list that is not hidden.
proof fn lemma_visible_kept(maps: Seq<DetectedMap>, edc16: bool, k: int)
    requires
        0 <= k < visible(maps, edc16).len(),
    ensures
        0 <= visible(maps, edc16)[k] < maps.len(),
        !hidden(shown_name(maps[visible(maps, edc16)[k]]), edc16),
    decreases maps.len(),
{
    let v = visible(maps.drop_last(), edc16);
    if k < v.len() {
        lemma_visible_kept(maps.drop_last(), edc16, k);
        assert(maps.drop_last()[v[k]] == maps[v[k]]);
    }
}

/// On EDC16, a name that starts with "duration 0" and a digit from 0 to 5 is
/// hidden exactly when it would be on any other family; with a digit from 6
/// to 9 it is always hidden.
pub proof fn lemma_edc16_duration_digit(l: Seq<char>, d: char)
    requires
        '0' <= d <= '9',
        starts(l, "duration 0"@ + seq![d]),
    ensures
        d <= '5' ==> (hidden(l, true) <==> hidden(l, false)),
        d >= '6' ==> hidden(l, true),
{
    reveal_strlit("duration");
    reveal_strlit("duration 0");
    reveal_strlit("duration selector");
    let p = "duration 0"@ + seq![d];
    assert(l.subrange(0, 11) == p);
    assert(l[10] == p[10]);
    assert(p[9] == '0');
    assert(l[9] == p[9]);
    assert(l.subrange(0, 8) =~= "duration"@) by {
        assert forall|i: int| 0 <= i < 8 implies l.subrange(0, 8)[i] == "duration"@[i] by {
            assert(l[i] == p[i]);
        }
    }
    assert(l.subrange(0, 10) =~= "duration 0"@) by {
        assert forall|i: int| 0 <= i < 10 implies l.subrange(0, 10)[i] == "duration 0"@[i] by {
            assert(l[i] == p[i]);
        }
    }
    if l.len() >= 17 {
        assert(l.subrange(0, 17)[9] == l[9]);
        assert("duration selector"@[9] == 's');
    }
    assert(!starts(l, "duration selector"@));
}

/// The EDC16 rules hide nothing more than the other families' do but
/// durations: a name that does not start with "duration", or that starts
/// with "duration selector", is hidden on EDC16 exactly when it is elsewhere.
pub proof fn lemma_edc16_hides_only_durations(l: Seq<char>)
    requires
        !starts(l, "duration"@) || starts(l, "duration selector"@),
    ensures
        hidden(l, true) <==> hidden(l, false),
{
}

/// On EDC16, every map on display whose lower-case name starts with
/// "duration" is the duration selector or one of "duration 00" to
/// "duration 05".
pub proof fn lemma_edc16_shown_durations(maps: Seq<DetectedMap>, k: int)
    requires
        0 <= k < visible(maps, true).len(),
    ensures
        ({
            let l = shown_name(maps[visible(maps, true)[k]]);
            starts(l, "duration"@) ==> starts(l, "duration selector"@) || exists|d: char|
                '0' <= d <= '5' && starts(l, #[trigger] ("duration 0"@ + seq![d]))
        }),
{
    lemma_visible_kept(maps, true, k);
    let l = shown_name(maps[visible(maps, true)[k]]);
    if starts(l, "duration"@) && !starts(l, "duration selector"@) {
        reveal_strlit("duration 0");
        let d = l[10];
        assert(l.subrange(0, 11) =~= "duration 0"@ + seq![d]) by {
            assert(l.subrange(0, 10) == "duration 0"@);
            assert forall|i: int| 0 <= i < 10 implies l.subrange(0, 11)[i] == ("duration 0"@ + seq![d])[i] by {
                assert(l.subrange(0, 10)[i] == l[i]);
            }
        }
        assert(starts(l, "duration 0"@ + seq![d]));
    }
}

/// On EDC16, a list in which every lower-case name starts with "duration 0"
/// and a digit from 6 to 9 has nothing on display: the list as displayed
/// (`finalize_maps`) is empty.
pub proof fn lemma_edc16_late_durations_hidden(maps: Seq<DetectedMap>)
    requires
        forall|i: int|
            0 <= i < maps.len() ==> exists|d: char|
                '6' <= d <= '9' && starts(shown_name(#[trigger] maps[i]), "duration 0"@ + seq![d]),
    ensures
        visible(maps, true).len() == 0,
    decreases maps.len(),
{
    if maps.len() > 0 {
        let last = maps.len() - 1;
        assert(maps.last() == maps[last]);
        let d = choose|d: char| '6' <= d <= '9' && starts(shown_name(maps[last]), "duration 0"@ + seq![d]);
        lemma_edc16_duration_digit(shown_name(maps[last]), d);
        assert forall|i: int| 0 <= i < maps.drop_last().len() implies exists|d: char|
            '6' <= d <= '9' && starts(shown_name(#[trigger] maps.drop_last()[i]), "duration 0"@ + seq![d]) by {
            assert(maps.drop_last()[i] == maps[i]);
        }
        lemma_edc16_late_durations_hidden(maps.drop_last());
    }
}

/// `m` is a dynamic start of injection map, judged on its lower-case name.
pub open spec fn is_dynamic(m: DetectedMap) -> bool {
    m.name matches Some(n) && dynamic_soi(lower(n@))
}

/// Number of dynamic maps among the first `q` of `r` that come before map
/// `i` by address (at equal addresses, by position).
pub open spec fn dynamic_ahead(r: Seq<DetectedMap>, i: int, q: int) -> nat
    decreases q,
{
    if q <= 0 {
        0
    } else {
        dynamic_ahead(r, i, q - 1) + if is_dynamic(r[q - 1]) && (r[q - 1].address < r[i].address || (r[q
            - 1].address == r[i].address && q - 1 < i)) {
            1nat
        } else {
            0nat
        }
    }
}

proof fn lemma_dynamic_ahead_bound(r: Seq<DetectedMap>, i: int, q: int)
    requires
        0 <= i,
        0 <= q,
    ensures
        dynamic_ahead(r, i, q) + (if q > i { 1int } else { 0int }) <= q,
    decreases q,
{
    if q > 0 {
        lemma_dynamic_ahead_bound(r, i, q - 1);
    }
}

/// The name of a dynamic start of injection map numbered `n`.
pub open spec fn dynamic_name(n: nat) -> Seq<char> {
    "Start of injection (Dynamic) "@ + two_digits(n)
}

/// Names the dynamic start of injection maps "Start of injection (Dynamic) NN",
/// numbered from 01 by address (at equal addresses, by position); the other
/// maps, and every other field, are left as they are.
pub fn number_dynamic_soi(maps: &mut Vec<DetectedMap>)
    ensures
        final(maps)@.len() == old(maps)@.len(),
        forall|k: int|
            0 <= k < final(maps)@.len() ==> {
                &&& same_but_name(old(maps)@[k], #[trigger] final(maps)@[k])
                &&& if is_dynamic(old(maps)@[k]) {
                    has_text(
                        final(maps)@[k].name,
                        dynamic_name(dynamic_ahead(old(maps)@, k, old(maps)@.len() as int) + 1),
                    )
                } else {
                    final(maps)@[k].name == old(maps)@[k].name
                }
            },
{
    let mut names: Vec<bool> = Vec::new();
    let mut i: usize = 0;
    while i < maps.len()
        invariant
            i <= maps@.len(),
            names@.len() == i,
            forall|q: int| 0 <= q < i ==> names@[q] == is_dynamic(#[trigger] maps@[q]),
        decreases maps.len() - i,
    {
        let d = match &maps[i].name {
            Some(n) => {
                let l = lower_chars(chars_of(n.as_str()).as_slice());
                starts_chars(l.as_slice(), "start of injection") && has_chars(l.as_slice(), "dynamic")
            },
            None => false,
        };
        names.push(d);
        i += 1;
    }
    let mut rest: Vec<DetectedMap> = Vec::new();
    std::mem::swap(maps, &mut rest);
    let ghost orig = rest@;
    let n = rest.len();
    let mut addrs: Vec<u32> = Vec::new();
    let mut k: usize = 0;
    while k < n
        invariant
            n == orig.len(),
            rest@ == orig,
            k <= n,
            addrs@.len() == k,
            forall|q: int| 0 <= q < k ==> addrs@[q] == orig[q].address,
        decreases n - k,
    {
        addrs.push(rest[k].address);
        k += 1;
    }
    let ghost mut j: int = 0;
    let mut idx: usize = 0;
    while rest.len() > 0
        invariant
            0 <= j <= orig.len(),
            idx == j,
            n == orig.len(),
            names@.len() == n,
            addrs@.len() == n,
            forall|q: int| 0 <= q < n ==> names@[q] == is_dynamic(#[trigger] orig[q]),
            forall|q: int| 0 <= q < n ==> addrs@[q] == (#[trigger] orig[q]).address,
            rest@ == orig.subrange(j, orig.len() as int),
            maps@.len() == j,
            forall|q: int|
                0 <= q < j ==> {
                    &&& same_but_name(orig[q], #[trigger] maps@[q])
                    &&& if is_dynamic(orig[q]) {
                        has_text(maps@[q].name, dynamic_name(dynamic_ahead(orig, q, orig.len() as int) + 1))
                    } else {
                        maps@[q].name == orig[q].name
                    }
                },
        decreases rest.len(),
    {
        let mut m = rest.remove(0);
        proof {
            assert(m == orig[j]);
        }
        if names[idx] {
            let mut rank: u64 = 0;
            let mut q: usize = 0;
            while q < n
                invariant
                    q <= n,
                    n == orig.len(),
                    names@.len() == n,
                    addrs@.len() == n,
                    forall|p: int| 0 <= p < n ==> names@[p] == is_dynamic(#[trigger] orig[p]),
                    forall|p: int| 0 <= p < n ==> addrs@[p] == (#[trigger] orig[p]).address,
                    idx < n,
                    rank == dynamic_ahead(orig, idx as int, q as int),
                decreases n - q,
            {
                proof {
                    lemma_dynamic_ahead_bound(orig, idx as int, q as int);
                }
                if names[q] && (addrs[q] < addrs[idx] || (addrs[q] == addrs[idx] && q < idx)) {
                    rank += 1;
                }
                q += 1;
            }
            proof {
                lemma_dynamic_ahead_bound(orig, idx as int, n as int);
            }
            let number = rank + 1;
            m.name = Some(numbered2("Start of injection (Dynamic) ", number));
        }
        maps.push(m);
        idx += 1;
        proof {
            j = j + 1;
            assert(rest@ =~= orig.subrange(j, orig.len() as int));
        }
    }
}

} // verus!
