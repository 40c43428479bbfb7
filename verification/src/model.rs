//! The description of a calibration map found in an ECU image.
//!
//! Display factors and offsets are decimal numbers; they are held as exact
//! fixed-point integers in units of 10^-12 (see [`FIXED_ONE`]), so that every
//! factor the detectors use (0.023437, 0.000122070313, -273.14, ...) is
//! represented without rounding.
use vstd::prelude::*;

verus! {

/// The fixed-point value of 1.0 (factors and offsets are in units of 10^-12).
pub const FIXED_ONE: i64 = 1_000_000_000_000;

/// Shape of a calibration map.
#[derive(Clone, Copy, Debug, PartialEq, Eq, Structural)]
pub enum MapDimensions {
    OneDimensional { length: usize },
    TwoDimensional { rows: usize, cols: usize },
}

/// Encoding of a map cell.
#[derive(Clone, Copy, Debug, PartialEq, Eq, Structural)]
pub enum DataType {
    UInt8,
    UInt16,
    Int16,
}

/// The folders in which maps are filed.
#[derive(Clone, Copy, Debug, PartialEq, Eq, Structural)]
pub enum MapCategory {
    TurboBoostPressure,
    TurboBoostPressureControl,
    InjectionSystem,
    EngineTorqueRequest,
    EngineTorqueLimiters,
    StartOfInjection,
    Egr,
    Calibrations,
    FuelQuantity,
    MaximumRpmLimiter,
}

/// The display name of each folder.
pub open spec fn category_name(c: MapCategory) -> Seq<char> {
    match c {
        MapCategory::TurboBoostPressure => "Turbo boost pressure"@,
        MapCategory::TurboBoostPressureControl => "Turbo boost pressure control"@,
        MapCategory::InjectionSystem => "Injection system"@,
        MapCategory::EngineTorqueRequest => "Engine torque request"@,
        MapCategory::EngineTorqueLimiters => "Engine torque limiters"@,
        MapCategory::StartOfInjection => "Start of injection"@,
        MapCategory::Egr => "EGR"@,
        MapCategory::Calibrations => "Calibrations"@,
        MapCategory::FuelQuantity => "Fuel quantity"@,
        MapCategory::MaximumRpmLimiter => "Maximum RPM limiter"@,
    }
}

impl MapCategory {
    /// The folder's display name.
    pub fn display_name(&self) -> (r: String)
        ensures
            r@ == category_name(*self),
    {
        match self {
            MapCategory::TurboBoostPressure => String::from_str("Turbo boost pressure"),
            MapCategory::TurboBoostPressureControl => String::from_str(
                "Turbo boost pressure control",
            ),
            MapCategory::InjectionSystem => String::from_str("Injection system"),
            MapCategory::EngineTorqueRequest => String::from_str("Engine torque request"),
            MapCategory::EngineTorqueLimiters => String::from_str("Engine torque limiters"),
            MapCategory::StartOfInjection => String::from_str("Start of injection"),
            MapCategory::Egr => String::from_str("EGR"),
            MapCategory::Calibrations => String::from_str("Calibrations"),
            MapCategory::FuelQuantity => String::from_str("Fuel quantity"),
            MapCategory::MaximumRpmLimiter => String::from_str("Maximum RPM limiter"),
        }
    }
}

/// A map found in an image, with what is needed to display and edit it.
pub struct DetectedMap {
    /// Offset of the first data cell in the image.
    pub address: u32,
    /// Size of the data in bytes.
    pub size: usize,
    pub dimensions: MapDimensions,
    pub data_type: DataType,
    pub name: Option<String>,
    pub category: Option<String>,
    pub subcategory: Option<String>,
    pub unit: Option<String>,
    pub description: Option<String>,
    /// Display factor of the data (fixed point, 10^-12 units).
    pub correction_factor: Option<i64>,
    /// Display offset of the data (fixed point, 10^-12 units).
    pub offset: Option<i64>,
    /// Detection confidence in thousandths.
    pub confidence: u32,
    pub x_axis_address: Option<u32>,
    pub y_axis_address: Option<u32>,
    pub x_axis_correction: Option<i64>,
    pub y_axis_correction: Option<i64>,
    pub x_axis_offset: Option<i64>,
    pub y_axis_offset: Option<i64>,
    pub x_label: Option<String>,
    pub y_label: Option<String>,
    pub y_axis_inverted: Option<bool>,
    pub is_little_endian: Option<bool>,
}

/// `o` holds a string whose characters are `s`.
pub open spec fn has_text(o: Option<String>, s: Seq<char>) -> bool {
    o matches Some(v) && v@ == s
}

impl DetectedMap {
    /// A map at `address` with every descriptive field unset.
    pub fn new(address: u32, size: usize, dimensions: MapDimensions, data_type: DataType) -> (m:
        Self)
        ensures
            m.address == address,
            m.size == size,
            m.dimensions == dimensions,
            m.data_type == data_type,
            m.name is None,
            m.category is None,
            m.subcategory is None,
            m.unit is None,
            m.description is None,
            m.correction_factor is None,
            m.offset is None,
            m.confidence == 0,
            m.x_axis_address is None,
            m.y_axis_address is None,
            m.x_axis_correction is None,
            m.y_axis_correction is None,
            m.x_axis_offset is None,
            m.y_axis_offset is None,
            m.x_label is None,
            m.y_label is None,
            m.y_axis_inverted is None,
            m.is_little_endian is None,
    {
        DetectedMap {
            address,
            size,
            dimensions,
            data_type,
            name: None,
            category: None,
            subcategory: None,
            unit: None,
            description: None,
            correction_factor: None,
            offset: None,
            confidence: 0,
            x_axis_address: None,
            y_axis_address: None,
            x_axis_correction: None,
            y_axis_correction: None,
            x_axis_offset: None,
            y_axis_offset: None,
            x_label: None,
            y_label: None,
            y_axis_inverted: None,
            is_little_endian: None,
        }
    }
}

/// Text of a string literal, as an owned string.
pub fn text(s: &str) -> (r: String)
    ensures
        r@ == s@,
{
    String::from_str(s)
}

/// Address `a` lies inside one of `maps`.
pub open spec fn inside_one(maps: Seq<DetectedMap>, a: int) -> bool {
    exists|k: int| 0 <= k < maps.len() && (#[trigger] maps[k]).address <= a < maps[k].address + maps[k].size
}

/// A map stays inside a list that grows.
pub broadcast proof fn lemma_inside_push(maps: Seq<DetectedMap>, m: DetectedMap, a: int)
    requires
        inside_one(maps, a),
    ensures
        #[trigger] inside_one(maps.push(m), a),
{
    let k = choose|k: int| 0 <= k < maps.len() && (#[trigger] maps[k]).address <= a < maps[k].address + maps[k].size;
    assert(maps.push(m)[k] == maps[k]);
}

/// A map of positive size holds its own address.
pub proof fn lemma_inside_last(maps: Seq<DetectedMap>, m: DetectedMap)
    requires
        m.size > 0,
    ensures
        inside_one(maps.push(m), m.address as int),
{
    assert(maps.push(m)[maps.len() as int] == m);
}

/// Whether `a` falls inside one of `maps`.
pub fn inside_a_map(maps: &Vec<DetectedMap>, a: u32) -> (r: bool)
    ensures
        r == inside_one(maps@, a as int),
{
    let mut k: usize = 0;
    while k < maps.len()
        invariant
            k <= maps@.len(),
            forall|j: int| 0 <= j < k ==> !((#[trigger] maps@[j]).address <= a < maps@[j].address + maps@[j].size),
        decreases maps.len() - k,
    {
        let m = &maps[k];
        if a >= m.address && ((a - m.address) as usize) < m.size {
            return true;
        }
        k += 1;
    }
    false
}

/// Position `o` lies between the header of table `m` (four bytes before
/// its first axis) and the end of its cells.
pub open spec fn claims(m: DetectedMap, o: int) -> bool {
    m.y_axis_address matches Some(ya) && ya - 4 <= o < m.address + m.size
}

/// Position `o` lies within a reported table or its header and axes.
pub open spec fn table_claimed(r: Seq<DetectedMap>, o: int) -> bool {
    exists|k: int| 0 <= k < r.len() && claims(#[trigger] r[k], o)
}

pub proof fn lemma_claimed_grow(r: Seq<DetectedMap>, m: DetectedMap)
    ensures
        forall|o: int| table_claimed(r, o) ==> #[trigger] table_claimed(r.push(m), o),
{
    assert forall|o: int| table_claimed(r, o) implies #[trigger] table_claimed(r.push(m), o) by {
        let k = choose|k: int| 0 <= k < r.len() && claims(#[trigger] r[k], o);
        assert(r.push(m)[k] == r[k]);
    }
}

/// One of `r` is at address `a`.
pub open spec fn listed(r: Seq<DetectedMap>, a: int) -> bool {
    exists|k: int| 0 <= k < r.len() && (#[trigger] r[k]).address == a
}

/// A listed address stays listed in a list that grows.
pub broadcast proof fn lemma_listed_push(r: Seq<DetectedMap>, m: DetectedMap, a: int)
    requires
        listed(r, a),
    ensures
        #[trigger] listed(r.push(m), a),
{
    let k = choose|k: int| 0 <= k < r.len() && (#[trigger] r[k]).address == a;
    assert(r.push(m)[k] == r[k]);
}

/// The last map of a list is listed.
pub proof fn lemma_listed_last(r: Seq<DetectedMap>, m: DetectedMap)
    ensures
        listed(r.push(m), m.address as int),
{
    assert(r.push(m)[r.len() as int] == m);
}

/// Listed addresses stay listed in a list that keeps its first maps.
pub proof fn lemma_listed_prefix(a: Seq<DetectedMap>, b: Seq<DetectedMap>)
    requires
        a.len() <= b.len(),
        forall|k: int| 0 <= k < a.len() ==> b[k] == a[k],
    ensures
        forall|x: int| listed(a, x) ==> #[trigger] listed(b, x),
{
    assert forall|x: int| listed(a, x) implies #[trigger] listed(b, x) by {
        let k = choose|k: int| 0 <= k < a.len() && (#[trigger] a[k]).address == x;
        assert(b[k] == a[k]);
    }
}

} // verus!
