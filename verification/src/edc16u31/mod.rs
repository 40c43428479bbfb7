//! Map detection for Bosch EDC16U31 images (VAG 1.9/2.0 TDI PD, big-endian data).
pub mod axes;
pub mod axis_scan;
pub mod claims;
pub mod detect;
pub mod driver_wish;
pub mod boost;
pub mod bip;
pub mod egr;
pub mod duration;
pub mod egt;
pub mod fuel;
pub mod gearbox;
pub mod headed;
pub mod idle;
pub mod lambda;
pub mod late;
pub mod limiters;
pub mod phases;
pub mod region;
pub mod scalars;
pub mod selector;
pub mod signatures;
pub mod smoke;
pub mod soi;
pub mod stagex;
pub mod templates;
pub mod vmax;

use vstd::prelude::*;

verus! {

/// The EDC16 family member an image belongs to.
#[derive(Clone, Copy, Debug, PartialEq, Eq, Structural)]
pub enum EDC16Variant {
    EDC16U1,
    EDC16U31,
    EDC16U34,
    Unknown,
}

/// Detector of the EDC16U31 calibration maps.
pub struct EDC16U31Detector {
    ecu_variant: EDC16Variant,
    tuned_mode: bool,
}

impl EDC16U31Detector {
    /// The variant this detector was made for.
    pub closed spec fn variant(&self) -> EDC16Variant {
        self.ecu_variant
    }

    /// Whether the detector accepts the wider value ranges of modified images.
    pub closed spec fn tuned(&self) -> bool {
        self.tuned_mode
    }

    /// A detector for stock images.
    pub fn new(variant: EDC16Variant) -> (d: Self)
        ensures
            d.variant() == variant,
            !d.tuned(),
    {
        EDC16U31Detector { ecu_variant: variant, tuned_mode: false }
    }

    /// A detector for modified images (extended value ranges).
    pub fn new_tuned(variant: EDC16Variant) -> (d: Self)
        ensures
            d.variant() == variant,
            d.tuned(),
    {
        EDC16U31Detector { ecu_variant: variant, tuned_mode: true }
    }

    /// Whether this detector works in tuned mode.
    pub fn is_tuned(&self) -> (r: bool)
        ensures
            r == self.tuned(),
    {
        self.tuned_mode
    }
}

/// The part of an image of `len` bytes that holds the calibration data.
pub open spec fn data_section(len: int) -> (int, int) {
    if len >= 0x200000 {
        (0x180000, 0x200000)
    } else if len >= 0x100000 {
        (0x80000, 0x100000)
    } else if len >= 0x80000 {
        (0x40000, len)
    } else {
        (if 0x30000 <= len / 2 {
            0x30000
        } else {
            len / 2
        }, len)
    }
}

/// The part of the image that holds the calibration data.
pub fn get_data_section_range(file_size: usize) -> (r: (usize, usize))
    ensures
        r.0 == data_section(file_size as int).0,
        r.1 == data_section(file_size as int).1,
        r.0 <= r.1 <= file_size,
{
    if file_size >= 0x200000 {
        (0x180000, 0x200000)
    } else if file_size >= 0x100000 {
        (0x80000, 0x100000)
    } else if file_size >= 0x80000 {
        (0x40000, file_size)
    } else {
        let half = file_size / 2;
        (if 0x30000 <= half {
            0x30000
        } else {
            half
        }, file_size)
    }
}

/// The end of a scanned range: `end`, or the end of the image if sooner.
pub open spec fn scan_limit(s: Seq<u8>, end: int) -> int {
    if end < s.len() {
        end
    } else {
        s.len() as int
    }
}

/// The half-open ranges `a` and `b` share a byte.
pub open spec fn ranges_meet(a: (u32, u32), b: (u32, u32)) -> bool {
    a.0 < b.1 && a.1 > b.0
}

/// Whether `new_range` meets one of `existing`.
pub fn overlaps(existing: &Vec<(u32, u32)>, new_range: (u32, u32)) -> (r: bool)
    ensures
        r == exists|i: int| 0 <= i < existing@.len() && ranges_meet(new_range, #[trigger] existing@[i]),
{
    let mut i: usize = 0;
    while i < existing.len()
        invariant
            i <= existing@.len(),
            forall|j: int| 0 <= j < i ==> !ranges_meet(new_range, #[trigger] existing@[j]),
        decreases existing.len() - i,
    {
        let (start, end) = existing[i];
        if new_range.0 < end && new_range.1 > start {
            assert(ranges_meet(new_range, existing@[i as int]));
            return true;
        }
        i += 1;
    }
    false
}

} // verus!
