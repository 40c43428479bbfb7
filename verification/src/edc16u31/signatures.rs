//! Signatures of the EDC16U31 calibration maps: what each map looks like
//! (dimensions, scaling, axes, where it usually lies), and the groups of maps
//! that are stored one after another. Scales are fixed-point integers in
//! units of 10^-12 (see [`FIXED_ONE`](crate::model::FIXED_ONE)).
use vstd::prelude::*;
use crate::model::text;

verus! {

/// How a map is laid out in the image.
#[derive(Clone, Copy, Debug, PartialEq, Eq, Structural)]
pub enum StructureType {
    /// Two-dimensional map with inverted axes (the most common).
    EZweiInv,
    /// Two-dimensional map.
    EZweidim,
    /// One-dimensional curve.
    EEindim,
    /// Single value.
    EEinzel,
}

/// Range of accepted values for a map dimension.
#[derive(Clone, Copy, Debug, PartialEq, Eq, Structural)]
pub struct DimensionRange {
    pub typical: usize,
    pub min: usize,
    pub max: usize,
}

impl DimensionRange {
    /// A dimension that admits `val` only.
    pub fn exact(val: usize) -> (r: Self)
        ensures
            r.typical == val,
            r.min == val,
            r.max == val,
    {
        DimensionRange { typical: val, min: val, max: val }
    }

    /// A dimension from `min` to `max`, usually `typical`.
    pub fn range(min: usize, typical: usize, max: usize) -> (r: Self)
        ensures
            r.typical == typical,
            r.min == min,
            r.max == max,
    {
        DimensionRange { typical, min, max }
    }

    /// Whether `val` lies in the range (bounds included).
    pub fn matches(&self, val: usize) -> (r: bool)
        ensures
            r == (self.min <= val && val <= self.max),
    {
        val >= self.min && val <= self.max
    }
}

/// One axis of a map as a signature expects it.
pub struct AxisSignature {
    pub present: bool,
    pub name: String,
    pub unit: String,
    /// Scale from raw value to unit, in units of 10^-12.
    pub factor: i64,
    pub typical_values: Option<Vec<u16>>,
    /// Expected raw values, lowest and highest.
    pub value_range: Option<(u16, u16)>,
}

/// An axis signature as a mathematical value.
#[verifier::ext_equal]
pub struct AxisSignatureView {
    pub present: bool,
    pub name: Seq<char>,
    pub unit: Seq<char>,
    pub factor: i64,
    pub typical_values: Option<Seq<u16>>,
    pub value_range: Option<(u16, u16)>,
}

impl View for AxisSignature {
    type V = AxisSignatureView;

    open spec fn view(&self) -> AxisSignatureView {
        AxisSignatureView {
            present: self.present,
            name: self.name@,
            unit: self.unit@,
            factor: self.factor,
            typical_values: match &self.typical_values {
                Some(v) => Some(v@),
                None => None,
            },
            value_range: self.value_range,
        }
    }
}

/// No axis.
pub open spec fn no_axis() -> AxisSignatureView {
    AxisSignatureView {
        present: false,
        name: "-"@,
        unit: "-"@,
        factor: 1_000_000_000_000,
        typical_values: None,
        value_range: None,
    }
}

/// Engine speed in rpm.
pub open spec fn rpm_axis() -> AxisSignatureView {
    AxisSignatureView {
        present: true,
        name: "Engine Speed"@,
        unit: "rpm"@,
        factor: 1_000_000_000_000,
        typical_values: Some(
            seq![500u16, 750, 1000, 1250, 1500, 1750, 2000, 2250, 2500, 2750, 3000, 3250, 3500, 3750, 4000, 4500],
        ),
        value_range: Some((400u16, 6000u16)),
    }
}

/// Accelerator pedal position in hundredths of a percent.
pub open spec fn pedal_axis() -> AxisSignatureView {
    AxisSignatureView {
        present: true,
        name: "Accel Pedal"@,
        unit: "%"@,
        factor: 10_000_000_000,
        typical_values: Some(seq![0u16, 1000, 2000, 3000, 4500, 6000, 8000, 10000]),
        value_range: Some((0u16, 10500u16)),
    }
}

/// Injection quantity in hundredths of mg per stroke.
pub open spec fn injection_qty_axis() -> AxisSignatureView {
    AxisSignatureView {
        present: true,
        name: "Injection Qty"@,
        unit: "mg/stroke"@,
        factor: 10_000_000_000,
        typical_values: Some(
            seq![0u16, 200, 400, 600, 800, 1000, 1500, 2000, 2500, 3000, 4000, 5000, 6000, 7000],
        ),
        value_range: Some((0u16, 8000u16)),
    }
}

/// Air mass in tenths of mg per stroke.
pub open spec fn air_mass_axis() -> AxisSignatureView {
    AxisSignatureView {
        present: true,
        name: "Air Mass"@,
        unit: "mg/stroke"@,
        factor: 100_000_000_000,
        typical_values: None,
        value_range: Some((0u16, 20000u16)),
    }
}

/// Pressure in mbar.
pub open spec fn pressure_mbar_axis() -> AxisSignatureView {
    AxisSignatureView {
        present: true,
        name: "Pressure"@,
        unit: "mbar"@,
        factor: 1_000_000_000_000,
        typical_values: None,
        value_range: Some((500u16, 4000u16)),
    }
}

/// Temperature in tenths of a degree (raw values carry an offset).
pub open spec fn temperature_axis() -> AxisSignatureView {
    AxisSignatureView {
        present: true,
        name: "Temperature"@,
        unit: "deg C"@,
        factor: 100_000_000_000,
        typical_values: None,
        value_range: Some((2000u16, 4500u16)),
    }
}

/// Torque in tenths of Nm.
pub open spec fn torque_axis() -> AxisSignatureView {
    AxisSignatureView {
        present: true,
        name: "Torque"@,
        unit: "Nm"@,
        factor: 100_000_000_000,
        typical_values: None,
        value_range: Some((0u16, 6000u16)),
    }
}

impl AxisSignature {
    /// No axis.
    pub fn none() -> (r: Self)
        ensures
            r@ == no_axis(),
    {
        AxisSignature {
            present: false,
            name: text("-"),
            unit: text("-"),
            factor: 1_000_000_000_000,
            typical_values: None,
            value_range: None,
        }
    }

    /// Engine speed in rpm.
    pub fn rpm() -> (r: Self)
        ensures
            r@ == rpm_axis(),
    {
        let v: Vec<u16> = vec![500, 750, 1000, 1250, 1500, 1750, 2000, 2250, 2500, 2750, 3000, 3250, 3500, 3750, 4000, 4500];
        assert(v@ =~= rpm_axis().typical_values->0);
        AxisSignature {
            present: true,
            name: text("Engine Speed"),
            unit: text("rpm"),
            factor: 1_000_000_000_000,
            typical_values: Some(v),
            value_range: Some((400, 6000)),
        }
    }

    /// Accelerator pedal position in hundredths of a percent.
    pub fn pedal() -> (r: Self)
        ensures
            r@ == pedal_axis(),
    {
        let v: Vec<u16> = vec![0, 1000, 2000, 3000, 4500, 6000, 8000, 10000];
        assert(v@ =~= pedal_axis().typical_values->0);
        AxisSignature {
            present: true,
            name: text("Accel Pedal"),
            unit: text("%"),
            factor: 10_000_000_000,
            typical_values: Some(v),
            value_range: Some((0, 10500)),
        }
    }

    /// Injection quantity in hundredths of mg per stroke.
    pub fn injection_qty() -> (r: Self)
        ensures
            r@ == injection_qty_axis(),
    {
        let v: Vec<u16> = vec![0, 200, 400, 600, 800, 1000, 1500, 2000, 2500, 3000, 4000, 5000, 6000, 7000];
        assert(v@ =~= injection_qty_axis().typical_values->0);
        AxisSignature {
            present: true,
            name: text("Injection Qty"),
            unit: text("mg/stroke"),
            factor: 10_000_000_000,
            typical_values: Some(v),
            value_range: Some((0, 8000)),
        }
    }

    /// Air mass in tenths of mg per stroke.
    pub fn air_mass() -> (r: Self)
        ensures
            r@ == air_mass_axis(),
    {
        AxisSignature {
            present: true,
            name: text("Air Mass"),
            unit: text("mg/stroke"),
            factor: 100_000_000_000,
            typical_values: None,
            value_range: Some((0, 20000)),
        }
    }

    /// Pressure in mbar.
    pub fn pressure_mbar() -> (r: Self)
        ensures
            r@ == pressure_mbar_axis(),
    {
        AxisSignature {
            present: true,
            name: text("Pressure"),
            unit: text("mbar"),
            factor: 1_000_000_000_000,
            typical_values: None,
            value_range: Some((500, 4000)),
        }
    }

    /// Temperature in tenths of a degree (raw values carry an offset).
    pub fn temperature() -> (r: Self)
        ensures
            r@ == temperature_axis(),
    {
        AxisSignature {
            present: true,
            name: text("Temperature"),
            unit: text("deg C"),
            factor: 100_000_000_000,
            typical_values: None,
            value_range: Some((2000, 4500)),
        }
    }

    /// Torque in tenths of Nm.
    pub fn torque() -> (r: Self)
        ensures
            r@ == torque_axis(),
    {
        AxisSignature {
            present: true,
            name: text("Torque"),
            unit: text("Nm"),
            factor: 100_000_000_000,
            typical_values: None,
            value_range: Some((0, 6000)),
        }
    }
}

/// Usual distance in bytes between consecutive driver's wish maps.
pub const OFFSET_DRIVER_WISH: usize = 342;
/// Usual distance in bytes between consecutive EGR hysteresis maps.
pub const OFFSET_EGR_HYSTERESIS: usize = 82;
/// Usual distance in bytes between consecutive start-of-injection maps.
pub const OFFSET_SOI: usize = 448;

/// Scale of start-of-injection maps (0.023438), in units of 10^-12.
pub const FACTOR_SOI: i64 = 23_438_000_000;
/// Scale of pilot injection maps (0.023427), in units of 10^-12.
pub const FACTOR_PILOT: i64 = 23_427_000_000;
/// Scale of injection quantity maps (0.01), in units of 10^-12.
pub const FACTOR_IQ: i64 = 10_000_000_000;
/// Scale of torque maps (0.1), in units of 10^-12.
pub const FACTOR_TORQUE: i64 = 100_000_000_000;
/// Scale of lambda maps (0.001), in units of 10^-12.
pub const FACTOR_LAMBDA: i64 = 1_000_000_000;
/// Scale of map selector values (0.003906), in units of 10^-12.
pub const FACTOR_SELECTOR: i64 = 3_906_000_000;

/// What a map looks like in an EDC16U31 image.
pub struct EDC16MapSignature {
    pub id_name: String,
    pub display_name: String,
    pub folder: String,
    pub structure_type: StructureType,
    pub cols: DimensionRange,
    pub rows: DimensionRange,
    /// Size of the data in bytes, smallest and largest.
    pub data_size_range: (usize, usize),
    /// Scale from raw value to unit, in units of 10^-12.
    pub factor: i64,
    /// Offset added after scaling, in units of 10^-12.
    pub offset: i64,
    pub unit: String,
    pub signed: bool,
    pub x_axis: AxisSignature,
    pub y_axis: AxisSignature,
    /// Addresses between which the map is usually found.
    pub address_range: Option<(u32, u32)>,
    /// How often the map is present, in thousandths.
    pub occurrence_rate: u32,
    /// Detection priority: higher is checked first.
    pub priority: u8,
}

/// A map signature as a mathematical value.
#[verifier::ext_equal]
pub struct MapSignatureView {
    pub id_name: Seq<char>,
    pub display_name: Seq<char>,
    pub folder: Seq<char>,
    pub structure_type: StructureType,
    pub cols: DimensionRange,
    pub rows: DimensionRange,
    pub data_size_range: (usize, usize),
    pub factor: i64,
    pub offset: i64,
    pub unit: Seq<char>,
    pub signed: bool,
    pub x_axis: AxisSignatureView,
    pub y_axis: AxisSignatureView,
    pub address_range: Option<(u32, u32)>,
    pub occurrence_rate: u32,
    pub priority: u8,
}

impl View for EDC16MapSignature {
    type V = MapSignatureView;

    open spec fn view(&self) -> MapSignatureView {
        MapSignatureView {
            id_name: self.id_name@,
            display_name: self.display_name@,
            folder: self.folder@,
            structure_type: self.structure_type,
            cols: self.cols,
            rows: self.rows,
            data_size_range: self.data_size_range,
            factor: self.factor,
            offset: self.offset,
            unit: self.unit@,
            signed: self.signed,
            x_axis: self.x_axis@,
            y_axis: self.y_axis@,
            address_range: self.address_range,
            occurrence_rate: self.occurrence_rate,
            priority: self.priority,
        }
    }
}

/// The known EDC16U31 maps, by folder: driver's wish, smoke and torque
/// limits, injection timing, boost, EGR and the rest.
pub open spec fn signature_table() -> Seq<MapSignatureView> {
    seq![
        MapSignatureView {
            id_name: "AccPed_trqEng0Cold_MAP"@,
            display_name: "Driver Wish 01 (cold)"@,
            folder: "1-Drivers Wish"@,
            structure_type: StructureType::EZweiInv,
            cols: DimensionRange { typical: 8, min: 8, max: 8 },
            rows: DimensionRange { typical: 16, min: 16, max: 16 },
            data_size_range: (256usize, 256usize),
            factor: 100_000_000_000,
            offset: 0,
            unit: "Nm"@,
            signed: true,
            x_axis: pedal_axis(),
            y_axis: rpm_axis(),
            address_range: Some((0x186000u32, 0x1C3000u32)),
            occurrence_rate: 1000,
            priority: 90,
        },
        MapSignatureView {
            id_name: "AccPed_trqEng0_MAP"@,
            display_name: "Driver Wish 02"@,
            folder: "1-Drivers Wish"@,
            structure_type: StructureType::EZweiInv,
            cols: DimensionRange { typical: 8, min: 8, max: 8 },
            rows: DimensionRange { typical: 16, min: 16, max: 16 },
            data_size_range: (256usize, 256usize),
            factor: 100_000_000_000,
            offset: 0,
            unit: "Nm"@,
            signed: true,
            x_axis: pedal_axis(),
            y_axis: rpm_axis(),
            address_range: Some((0x186000u32, 0x1C3200u32)),
            occurrence_rate: 1000,
            priority: 90,
        },
        MapSignatureView {
            id_name: "AccPed_trqEng1_MAP"@,
            display_name: "Driver Wish 03"@,
            folder: "1-Drivers Wish"@,
            structure_type: StructureType::EZweiInv,
            cols: DimensionRange { typical: 8, min: 8, max: 8 },
            rows: DimensionRange { typical: 16, min: 16, max: 16 },
            data_size_range: (256usize, 256usize),
            factor: 100_000_000_000,
            offset: 0,
            unit: "Nm"@,
            signed: true,
            x_axis: pedal_axis(),
            y_axis: rpm_axis(),
            address_range: Some((0x186000u32, 0x1C3400u32)),
            occurrence_rate: 1000,
            priority: 90,
        },
        MapSignatureView {
            id_name: "AccPed_trqEng2_MAP"@,
            display_name: "Driver Wish 04"@,
            folder: "1-Drivers Wish"@,
            structure_type: StructureType::EZweiInv,
            cols: DimensionRange { typical: 8, min: 8, max: 8 },
            rows: DimensionRange { typical: 16, min: 16, max: 16 },
            data_size_range: (256usize, 256usize),
            factor: 100_000_000_000,
            offset: 0,
            unit: "Nm"@,
            signed: true,
            x_axis: pedal_axis(),
            y_axis: rpm_axis(),
            address_range: Some((0x186000u32, 0x1C3600u32)),
            occurrence_rate: 1000,
            priority: 90,
        },
        MapSignatureView {
            id_name: "AccPed_trqEng3_MAP"@,
            display_name: "Driver Wish 05"@,
            folder: "1-Drivers Wish"@,
            structure_type: StructureType::EZweiInv,
            cols: DimensionRange { typical: 8, min: 8, max: 8 },
            rows: DimensionRange { typical: 16, min: 16, max: 16 },
            data_size_range: (256usize, 256usize),
            factor: 100_000_000_000,
            offset: 0,
            unit: "Nm"@,
            signed: true,
            x_axis: pedal_axis(),
            y_axis: rpm_axis(),
            address_range: Some((0x186000u32, 0x1C3800u32)),
            occurrence_rate: 1000,
            priority: 90,
        },
        MapSignatureView {
            id_name: "AccPed_trqEng4_MAP"@,
            display_name: "Driver Wish 06"@,
            folder: "1-Drivers Wish"@,
            structure_type: StructureType::EZweiInv,
            cols: DimensionRange { typical: 8, min: 8, max: 8 },
            rows: DimensionRange { typical: 16, min: 16, max: 16 },
            data_size_range: (256usize, 256usize),
            factor: 100_000_000_000,
            offset: 0,
            unit: "Nm"@,
            signed: true,
            x_axis: pedal_axis(),
            y_axis: rpm_axis(),
            address_range: Some((0x186000u32, 0x1C3A00u32)),
            occurrence_rate: 1000,
            priority: 90,
        },
        MapSignatureView {
            id_name: "AccPed_trqEng5_MAP"@,
            display_name: "Driver Wish 07"@,
            folder: "1-Drivers Wish"@,
            structure_type: StructureType::EZweiInv,
            cols: DimensionRange { typical: 8, min: 8, max: 8 },
            rows: DimensionRange { typical: 16, min: 16, max: 16 },
            data_size_range: (256usize, 256usize),
            factor: 100_000_000_000,
            offset: 0,
            unit: "Nm"@,
            signed: true,
            x_axis: pedal_axis(),
            y_axis: rpm_axis(),
            address_range: Some((0x186000u32, 0x1C3C00u32)),
            occurrence_rate: 1000,
            priority: 90,
        },
        MapSignatureView {
            id_name: "AccPed_trqEng6_MAP"@,
            display_name: "Driver Wish 08"@,
            folder: "1-Drivers Wish"@,
            structure_type: StructureType::EZweiInv,
            cols: DimensionRange { typical: 8, min: 8, max: 8 },
            rows: DimensionRange { typical: 16, min: 16, max: 16 },
            data_size_range: (256usize, 256usize),
            factor: 100_000_000_000,
            offset: 0,
            unit: "Nm"@,
            signed: true,
            x_axis: pedal_axis(),
            y_axis: rpm_axis(),
            address_range: Some((0x186000u32, 0x1C3E00u32)),
            occurrence_rate: 1000,
            priority: 90,
        },
        MapSignatureView {
            id_name: "AccPed_trqEngLow_MAP"@,
            display_name: "Driver Wish AWD"@,
            folder: "1-Drivers Wish"@,
            structure_type: StructureType::EZweiInv,
            cols: DimensionRange { typical: 8, min: 8, max: 8 },
            rows: DimensionRange { typical: 16, min: 16, max: 16 },
            data_size_range: (256usize, 256usize),
            factor: 100_000_000_000,
            offset: 0,
            unit: "Nm"@,
            signed: true,
            x_axis: pedal_axis(),
            y_axis: rpm_axis(),
            address_range: Some((0x186000u32, 0x1C4000u32)),
            occurrence_rate: 1000,
            priority: 90,
        },
        MapSignatureView {
            id_name: "AirCtl_mDesBase_MAP"@,
            display_name: "EGR"@,
            folder: "4-EGR"@,
            structure_type: StructureType::EZweiInv,
            cols: DimensionRange { typical: 13, min: 13, max: 16 },
            rows: DimensionRange { typical: 16, min: 16, max: 16 },
            data_size_range: (416usize, 512usize),
            factor: 100_000_000_000,
            offset: 0,
            unit: "mg/stroke air"@,
            signed: true,
            x_axis: injection_qty_axis(),
            y_axis: rpm_axis(),
            address_range: Some((0x187000u32, 0x1C7000u32)),
            occurrence_rate: 700,
            priority: 85,
        },
        MapSignatureView {
            id_name: "AirCtl_mDesBase0_MAP"@,
            display_name: "EGR (Gear 1,2,R)"@,
            folder: "4-EGR"@,
            structure_type: StructureType::EZweiInv,
            cols: DimensionRange { typical: 16, min: 13, max: 16 },
            rows: DimensionRange { typical: 16, min: 16, max: 16 },
            data_size_range: (416usize, 512usize),
            factor: 100_000_000_000,
            offset: 0,
            unit: "mg/stroke air"@,
            signed: true,
            x_axis: injection_qty_axis(),
            y_axis: rpm_axis(),
            address_range: Some((0x187000u32, 0x1C7000u32)),
            occurrence_rate: 1000,
            priority: 85,
        },
        MapSignatureView {
            id_name: "AirCtl_mDesBase1_MAP"@,
            display_name: "EGR (Gear 3,4)"@,
            folder: "4-EGR"@,
            structure_type: StructureType::EZweiInv,
            cols: DimensionRange { typical: 16, min: 13, max: 16 },
            rows: DimensionRange { typical: 16, min: 16, max: 16 },
            data_size_range: (416usize, 512usize),
            factor: 100_000_000_000,
            offset: 0,
            unit: "mg/stroke air"@,
            signed: true,
            x_axis: injection_qty_axis(),
            y_axis: rpm_axis(),
            address_range: Some((0x187000u32, 0x1C7000u32)),
            occurrence_rate: 1000,
            priority: 85,
        },
        MapSignatureView {
            id_name: "AirCtl_mDesBase2_MAP"@,
            display_name: "EGR (Gear 5,6)"@,
            folder: "4-EGR"@,
            structure_type: StructureType::EZweiInv,
            cols: DimensionRange { typical: 16, min: 13, max: 16 },
            rows: DimensionRange { typical: 16, min: 16, max: 16 },
            data_size_range: (416usize, 512usize),
            factor: 100_000_000_000,
            offset: 0,
            unit: "mg/stroke air"@,
            signed: true,
            x_axis: injection_qty_axis(),
            y_axis: rpm_axis(),
            address_range: Some((0x187000u32, 0x1C7000u32)),
            occurrence_rate: 1000,
            priority: 85,
        },
        MapSignatureView {
            id_name: "FlMng_rLmbdSmkLim0_MAP"@,
            display_name: "Smoke Limiter by Lambda 1"@,
            folder: "3-Limiters"@,
            structure_type: StructureType::EZweiInv,
            cols: DimensionRange { typical: 13, min: 13, max: 13 },
            rows: DimensionRange { typical: 16, min: 16, max: 16 },
            data_size_range: (416usize, 416usize),
            factor: 1_000_000_000,
            offset: 0,
            unit: "-"@,
            signed: true,
            x_axis: air_mass_axis(),
            y_axis: rpm_axis(),
            address_range: Some((0x18AA00u32, 0x1D6A00u32)),
            occurrence_rate: 1000,
            priority: 85,
        },
        MapSignatureView {
            id_name: "FlMng_rLmbdSmkLim1_MAP"@,
            display_name: "Smoke Limiter by Lambda 2"@,
            folder: "3-Limiters"@,
            structure_type: StructureType::EZweiInv,
            cols: DimensionRange { typical: 13, min: 13, max: 13 },
            rows: DimensionRange { typical: 16, min: 16, max: 16 },
            data_size_range: (416usize, 416usize),
            factor: 1_000_000_000,
            offset: 0,
            unit: "-"@,
            signed: true,
            x_axis: air_mass_axis(),
            y_axis: rpm_axis(),
            address_range: Some((0x18AC00u32, 0x1D6C00u32)),
            occurrence_rate: 1000,
            priority: 85,
        },
        MapSignatureView {
            id_name: "FlMng_rLmbdSmkLim2_MAP"@,
            display_name: "Smoke Limiter by Lambda 3"@,
            folder: "3-Limiters"@,
            structure_type: StructureType::EZweiInv,
            cols: DimensionRange { typical: 13, min: 13, max: 13 },
            rows: DimensionRange { typical: 16, min: 16, max: 16 },
            data_size_range: (416usize, 416usize),
            factor: 1_000_000_000,
            offset: 0,
            unit: "-"@,
            signed: true,
            x_axis: air_mass_axis(),
            y_axis: rpm_axis(),
            address_range: Some((0x18AE00u32, 0x1D6E00u32)),
            occurrence_rate: 1000,
            priority: 85,
        },
        MapSignatureView {
            id_name: "EngPrt_trqLimP_MAP"@,
            display_name: "Torque Limiter"@,
            folder: "3-Limiters"@,
            structure_type: StructureType::EZweiInv,
            cols: DimensionRange { typical: 21, min: 20, max: 22 },
            rows: DimensionRange { typical: 4, min: 3, max: 4 },
            data_size_range: (120usize, 176usize),
            factor: 100_000_000_000,
            offset: 0,
            unit: "Nm"@,
            signed: true,
            x_axis: rpm_axis(),
            y_axis: pressure_mbar_axis(),
            address_range: Some((0x18A600u32, 0x1D4800u32)),
            occurrence_rate: 1000,
            priority: 92,
        },
        MapSignatureView {
            id_name: "FMTC_trq2qBas_MAP"@,
            display_name: "Torque to IQ Conversion"@,
            folder: "5-Injection"@,
            structure_type: StructureType::EZweiInv,
            cols: DimensionRange { typical: 18, min: 16, max: 18 },
            rows: DimensionRange { typical: 16, min: 15, max: 16 },
            data_size_range: (480usize, 576usize),
            factor: 10_000_000_000,
            offset: 0,
            unit: "mg/stroke"@,
            signed: true,
            x_axis: torque_axis(),
            y_axis: rpm_axis(),
            address_range: Some((0x1D3F00u32, 0x1D7300u32)),
            occurrence_rate: 1000,
            priority: 95,
        },
        MapSignatureView {
            id_name: "InjCrv_phiBas0_GMAP"@,
            display_name: "SOI 00"@,
            folder: "5-Injection"@,
            structure_type: StructureType::EZweiInv,
            cols: DimensionRange { typical: 14, min: 14, max: 14 },
            rows: DimensionRange { typical: 16, min: 16, max: 16 },
            data_size_range: (448usize, 448usize),
            factor: FACTOR_SOI,
            offset: 0,
            unit: "deg CrS"@,
            signed: true,
            x_axis: injection_qty_axis(),
            y_axis: rpm_axis(),
            address_range: Some((0x18AD00u32, 0x1DA000u32)),
            occurrence_rate: 1000,
            priority: 95,
        },
        MapSignatureView {
            id_name: "InjCrv_phiBas1_GMAP"@,
            display_name: "SOI 01"@,
            folder: "5-Injection"@,
            structure_type: StructureType::EZweiInv,
            cols: DimensionRange { typical: 14, min: 14, max: 14 },
            rows: DimensionRange { typical: 16, min: 16, max: 16 },
            data_size_range: (448usize, 448usize),
            factor: FACTOR_SOI,
            offset: 0,
            unit: "deg CrS"@,
            signed: true,
            x_axis: injection_qty_axis(),
            y_axis: rpm_axis(),
            address_range: Some((0x18AE00u32, 0x1DA200u32)),
            occurrence_rate: 1000,
            priority: 95,
        },
        MapSignatureView {
            id_name: "PCR_pBDesBas_MAP"@,
            display_name: "Boost Target"@,
            folder: "2-Turbo"@,
            structure_type: StructureType::EZweiInv,
            cols: DimensionRange { typical: 10, min: 10, max: 10 },
            rows: DimensionRange { typical: 16, min: 16, max: 16 },
            data_size_range: (320usize, 320usize),
            factor: 1_000_000_000_000,
            offset: 0,
            unit: "mbar"@,
            signed: true,
            x_axis: injection_qty_axis(),
            y_axis: rpm_axis(),
            address_range: Some((0x18F600u32, 0x1EB200u32)),
            occurrence_rate: 1000,
            priority: 92,
        },
        MapSignatureView {
            id_name: "PCR_pBDesBas2_MAP"@,
            display_name: "Boost Target 2"@,
            folder: "2-Turbo"@,
            structure_type: StructureType::EZweiInv,
            cols: DimensionRange { typical: 10, min: 10, max: 10 },
            rows: DimensionRange { typical: 16, min: 15, max: 16 },
            data_size_range: (300usize, 320usize),
            factor: 1_000_000_000_000,
            offset: 0,
            unit: "mbar"@,
            signed: true,
            x_axis: injection_qty_axis(),
            y_axis: rpm_axis(),
            address_range: Some((0x18F400u32, 0x1EB000u32)),
            occurrence_rate: 1000,
            priority: 92,
        },
        MapSignatureView {
            id_name: "PCR_pBDesMaxAP_MAP"@,
            display_name: "Boost Limiter (Altitude)"@,
            folder: "2-Turbo"@,
            structure_type: StructureType::EZweiInv,
            cols: DimensionRange { typical: 10, min: 10, max: 10 },
            rows: DimensionRange { typical: 11, min: 10, max: 11 },
            data_size_range: (200usize, 220usize),
            factor: 1_000_000_000_000,
            offset: 0,
            unit: "mbar"@,
            signed: true,
            x_axis: pressure_mbar_axis(),
            y_axis: rpm_axis(),
            address_range: Some((0x18F700u32, 0x1EB400u32)),
            occurrence_rate: 1000,
            priority: 90,
        },
        MapSignatureView {
            id_name: "PCR_pBDesMax_C"@,
            display_name: "Max Boost Pressure"@,
            folder: "3-Limiters"@,
            structure_type: StructureType::EEinzel,
            cols: DimensionRange { typical: 1, min: 1, max: 1 },
            rows: DimensionRange { typical: 1, min: 1, max: 1 },
            data_size_range: (2usize, 2usize),
            factor: 1_000_000_000_000,
            offset: 0,
            unit: "mbar"@,
            signed: true,
            x_axis: no_axis(),
            y_axis: no_axis(),
            address_range: Some((0x18F800u32, 0x1EB400u32)),
            occurrence_rate: 1000,
            priority: 95,
        },
        MapSignatureView {
            id_name: "INJVLV_PHIINJMI1_MAP0"@,
            display_name: "Duration 00"@,
            folder: "5-Injection"@,
            structure_type: StructureType::EZweiInv,
            cols: DimensionRange { typical: 10, min: 10, max: 10 },
            rows: DimensionRange { typical: 10, min: 10, max: 10 },
            data_size_range: (200usize, 200usize),
            factor: FACTOR_PILOT,
            offset: 0,
            unit: "deg CrS"@,
            signed: true,
            x_axis: injection_qty_axis(),
            y_axis: rpm_axis(),
            address_range: Some((0x1DF000u32, 0x1E5000u32)),
            occurrence_rate: 1000,
            priority: 90,
        },
        MapSignatureView {
            id_name: "INJVLV_PHIINJMI1_MAP1"@,
            display_name: "Duration 01"@,
            folder: "5-Injection"@,
            structure_type: StructureType::EZweiInv,
            cols: DimensionRange { typical: 15, min: 15, max: 15 },
            rows: DimensionRange { typical: 19, min: 17, max: 19 },
            data_size_range: (510usize, 570usize),
            factor: FACTOR_PILOT,
            offset: 0,
            unit: "deg CrS"@,
            signed: true,
            x_axis: injection_qty_axis(),
            y_axis: rpm_axis(),
            address_range: Some((0x1DF100u32, 0x1E5100u32)),
            occurrence_rate: 1000,
            priority: 90,
        },
        MapSignatureView {
            id_name: "INJVLV_PHIINJMI1_MAP2"@,
            display_name: "Duration 02"@,
            folder: "5-Injection"@,
            structure_type: StructureType::EZweiInv,
            cols: DimensionRange { typical: 15, min: 15, max: 15 },
            rows: DimensionRange { typical: 19, min: 16, max: 19 },
            data_size_range: (480usize, 570usize),
            factor: FACTOR_PILOT,
            offset: 0,
            unit: "deg CrS"@,
            signed: true,
            x_axis: injection_qty_axis(),
            y_axis: rpm_axis(),
            address_range: Some((0x1DF400u32, 0x1E5300u32)),
            occurrence_rate: 1000,
            priority: 90,
        },
        MapSignatureView {
            id_name: "INJVLV_PHIINJMI1_MAP3"@,
            display_name: "Duration 03"@,
            folder: "5-Injection"@,
            structure_type: StructureType::EZweiInv,
            cols: DimensionRange { typical: 15, min: 15, max: 15 },
            rows: DimensionRange { typical: 19, min: 16, max: 19 },
            data_size_range: (480usize, 570usize),
            factor: FACTOR_PILOT,
            offset: 0,
            unit: "deg CrS"@,
            signed: true,
            x_axis: injection_qty_axis(),
            y_axis: rpm_axis(),
            address_range: Some((0x1DF600u32, 0x1E5600u32)),
            occurrence_rate: 1000,
            priority: 90,
        },
        MapSignatureView {
            id_name: "INJVLV_PHIINJMI1_MAP4"@,
            display_name: "Duration 04"@,
            folder: "5-Injection"@,
            structure_type: StructureType::EZweiInv,
            cols: DimensionRange { typical: 15, min: 15, max: 15 },
            rows: DimensionRange { typical: 19, min: 16, max: 19 },
            data_size_range: (480usize, 570usize),
            factor: FACTOR_PILOT,
            offset: 0,
            unit: "deg CrS"@,
            signed: true,
            x_axis: injection_qty_axis(),
            y_axis: rpm_axis(),
            address_range: Some((0x1DF900u32, 0x1E5900u32)),
            occurrence_rate: 1000,
            priority: 90,
        },
        MapSignatureView {
            id_name: "INJVLV_PHIINJMI1_MAP5"@,
            display_name: "Duration 05"@,
            folder: "5-Injection"@,
            structure_type: StructureType::EZweiInv,
            cols: DimensionRange { typical: 10, min: 9, max: 10 },
            rows: DimensionRange { typical: 10, min: 9, max: 10 },
            data_size_range: (162usize, 200usize),
            factor: FACTOR_PILOT,
            offset: 0,
            unit: "deg CrS"@,
            signed: true,
            x_axis: injection_qty_axis(),
            y_axis: rpm_axis(),
            address_range: Some((0x1DFB00u32, 0x1E5B00u32)),
            occurrence_rate: 1000,
            priority: 90,
        },
        MapSignatureView {
            id_name: "AirCtl_qHigh1_CUR"@,
            display_name: "EGR Hysteresis 1"@,
            folder: "4-EGR"@,
            structure_type: StructureType::EEindim,
            cols: DimensionRange { typical: 20, min: 20, max: 20 },
            rows: DimensionRange { typical: 1, min: 1, max: 1 },
            data_size_range: (40usize, 40usize),
            factor: 10_000_000_000,
            offset: 0,
            unit: "mg/stroke"@,
            signed: true,
            x_axis: rpm_axis(),
            y_axis: no_axis(),
            address_range: Some((0x188500u32, 0x1CA100u32)),
            occurrence_rate: 1000,
            priority: 75,
        },
        MapSignatureView {
            id_name: "AirCtl_qHigh_CUR"@,
            display_name: "EGR Hysteresis 2"@,
            folder: "4-EGR"@,
            structure_type: StructureType::EEindim,
            cols: DimensionRange { typical: 20, min: 20, max: 20 },
            rows: DimensionRange { typical: 1, min: 1, max: 1 },
            data_size_range: (40usize, 40usize),
            factor: 10_000_000_000,
            offset: 0,
            unit: "mg/stroke"@,
            signed: true,
            x_axis: rpm_axis(),
            y_axis: no_axis(),
            address_range: Some((0x188600u32, 0x1CA100u32)),
            occurrence_rate: 850,
            priority: 75,
        },
        MapSignatureView {
            id_name: "AirCtl_qLow_CUR"@,
            display_name: "EGR Hysteresis 3"@,
            folder: "4-EGR"@,
            structure_type: StructureType::EEindim,
            cols: DimensionRange { typical: 20, min: 20, max: 20 },
            rows: DimensionRange { typical: 1, min: 1, max: 1 },
            data_size_range: (40usize, 40usize),
            factor: 10_000_000_000,
            offset: 0,
            unit: "mg/stroke"@,
            signed: true,
            x_axis: rpm_axis(),
            y_axis: no_axis(),
            address_range: Some((0x188600u32, 0x1CA200u32)),
            occurrence_rate: 850,
            priority: 75,
        },
        MapSignatureView {
            id_name: "EGT_swtEGTActv_C"@,
            display_name: "DPF Switch"@,
            folder: "6-Switches"@,
            structure_type: StructureType::EEinzel,
            cols: DimensionRange { typical: 1, min: 1, max: 1 },
            rows: DimensionRange { typical: 1, min: 1, max: 1 },
            data_size_range: (1usize, 1usize),
            factor: 1_000_000_000_000,
            offset: 0,
            unit: "-"@,
            signed: false,
            x_axis: no_axis(),
            y_axis: no_axis(),
            address_range: Some((0x1D1200u32, 0x1D4300u32)),
            occurrence_rate: 950,
            priority: 80,
        },
        MapSignatureView {
            id_name: "AFSCD_dmLin_CUR"@,
            display_name: "MAF Linearization"@,
            folder: "7-Calibrations"@,
            structure_type: StructureType::EEindim,
            cols: DimensionRange { typical: 32, min: 32, max: 32 },
            rows: DimensionRange { typical: 1, min: 1, max: 1 },
            data_size_range: (64usize, 64usize),
            factor: 100_000_000_000,
            offset: 0,
            unit: "kg/h"@,
            signed: true,
            x_axis: AxisSignatureView { present: true, name: "MAF Voltage"@, unit: "mV"@, factor: 4_887_600_000_000, typical_values: None, value_range: Some((0u16, 1024u16)) },
            y_axis: no_axis(),
            address_range: Some((0x1C3200u32, 0x1C4000u32)),
            occurrence_rate: 500,
            priority: 70,
        },
        MapSignatureView {
            id_name: "InjVlv_numMI1_CUR"@,
            display_name: "Duration Selector"@,
            folder: "5-Injection"@,
            structure_type: StructureType::EEindim,
            cols: DimensionRange { typical: 6, min: 6, max: 6 },
            rows: DimensionRange { typical: 1, min: 1, max: 1 },
            data_size_range: (12usize, 12usize),
            factor: FACTOR_SELECTOR,
            offset: 0,
            unit: "-"@,
            signed: false,
            x_axis: AxisSignatureView { present: true, name: "Index"@, unit: "-"@, factor: FACTOR_PILOT, typical_values: None, value_range: Some((0u16, 10000u16)) },
            y_axis: no_axis(),
            address_range: Some((0x1DF000u32, 0x1E5000u32)),
            occurrence_rate: 1000,
            priority: 85,
        },
        MapSignatureView {
            id_name: "InjVlv_tiMI1BreMin_MAP"@,
            display_name: "Min Injection Break"@,
            folder: "5-Injection"@,
            structure_type: StructureType::EZweiInv,
            cols: DimensionRange { typical: 4, min: 4, max: 4 },
            rows: DimensionRange { typical: 6, min: 6, max: 6 },
            data_size_range: (48usize, 48usize),
            factor: FACTOR_PILOT,
            offset: 0,
            unit: "deg CrS"@,
            signed: true,
            x_axis: injection_qty_axis(),
            y_axis: rpm_axis(),
            address_range: Some((0x1DFC00u32, 0x1E5E00u32)),
            occurrence_rate: 1000,
            priority: 85,
        },
    ]
}

fn signature(
    id_name: &str,
    display_name: &str,
    folder: &str,
    structure_type: StructureType,
    cols: DimensionRange,
    rows: DimensionRange,
    data_size_range: (usize, usize),
    factor: i64,
    offset: i64,
    unit: &str,
    signed: bool,
    x_axis: AxisSignature,
    y_axis: AxisSignature,
    address_range: Option<(u32, u32)>,
    occurrence_rate: u32,
    priority: u8,
) -> (r: EDC16MapSignature)
    ensures
        r@ == (MapSignatureView {
            id_name: id_name@,
            display_name: display_name@,
            folder: folder@,
            structure_type,
            cols,
            rows,
            data_size_range,
            factor,
            offset,
            unit: unit@,
            signed,
            x_axis: x_axis@,
            y_axis: y_axis@,
            address_range,
            occurrence_rate,
            priority,
        }),
{
    EDC16MapSignature {
        id_name: text(id_name),
        display_name: text(display_name),
        folder: text(folder),
        structure_type,
        cols,
        rows,
        data_size_range,
        factor,
        offset,
        unit: text(unit),
        signed,
        x_axis,
        y_axis,
        address_range,
        occurrence_rate,
        priority,
    }
}

/// The signatures of all known EDC16U31 maps, in the order of
/// [`signature_table`].
#[verifier::rlimit(100)]
pub fn load_edc16u31_signatures() -> (r: Vec<EDC16MapSignature>)
    ensures
        r@.len() == 37,
        r@[0]@ == signature_table()[0],
        r@[1]@ == signature_table()[1],
        r@[2]@ == signature_table()[2],
        r@[3]@ == signature_table()[3],
        r@[4]@ == signature_table()[4],
        r@[5]@ == signature_table()[5],
        r@[6]@ == signature_table()[6],
        r@[7]@ == signature_table()[7],
        r@[8]@ == signature_table()[8],
        r@[9]@ == signature_table()[9],
        r@[10]@ == signature_table()[10],
        r@[11]@ == signature_table()[11],
        r@[12]@ == signature_table()[12],
        r@[13]@ == signature_table()[13],
        r@[14]@ == signature_table()[14],
        r@[15]@ == signature_table()[15],
        r@[16]@ == signature_table()[16],
        r@[17]@ == signature_table()[17],
        r@[18]@ == signature_table()[18],
        r@[19]@ == signature_table()[19],
        r@[20]@ == signature_table()[20],
        r@[21]@ == signature_table()[21],
        r@[22]@ == signature_table()[22],
        r@[23]@ == signature_table()[23],
        r@[24]@ == signature_table()[24],
        r@[25]@ == signature_table()[25],
        r@[26]@ == signature_table()[26],
        r@[27]@ == signature_table()[27],
        r@[28]@ == signature_table()[28],
        r@[29]@ == signature_table()[29],
        r@[30]@ == signature_table()[30],
        r@[31]@ == signature_table()[31],
        r@[32]@ == signature_table()[32],
        r@[33]@ == signature_table()[33],
        r@[34]@ == signature_table()[34],
        r@[35]@ == signature_table()[35],
        r@[36]@ == signature_table()[36],
{
    let mut v: Vec<EDC16MapSignature> = Vec::new();
    v.push(signature(
        "AccPed_trqEng0Cold_MAP",
        "Driver Wish 01 (cold)",
        "1-Drivers Wish",
        StructureType::EZweiInv,
        DimensionRange::exact(8),
        DimensionRange::exact(16),
        (256, 256),
        100_000_000_000,
        0,
        "Nm",
        true,
        AxisSignature::pedal(),
        AxisSignature::rpm(),
        Some((0x186000, 0x1C3000)),
        1000,
        90,
    ));
    v.push(signature(
        "AccPed_trqEng0_MAP",
        "Driver Wish 02",
        "1-Drivers Wish",
        StructureType::EZweiInv,
        DimensionRange::exact(8),
        DimensionRange::exact(16),
        (256, 256),
        100_000_000_000,
        0,
        "Nm",
        true,
        AxisSignature::pedal(),
        AxisSignature::rpm(),
        Some((0x186000, 0x1C3200)),
        1000,
        90,
    ));
    v.push(signature(
        "AccPed_trqEng1_MAP",
        "Driver Wish 03",
        "1-Drivers Wish",
        StructureType::EZweiInv,
        DimensionRange::exact(8),
        DimensionRange::exact(16),
        (256, 256),
        100_000_000_000,
        0,
        "Nm",
        true,
        AxisSignature::pedal(),
        AxisSignature::rpm(),
        Some((0x186000, 0x1C3400)),
        1000,
        90,
    ));
    v.push(signature(
        "AccPed_trqEng2_MAP",
        "Driver Wish 04",
        "1-Drivers Wish",
        StructureType::EZweiInv,
        DimensionRange::exact(8),
        DimensionRange::exact(16),
        (256, 256),
        100_000_000_000,
        0,
        "Nm",
        true,
        AxisSignature::pedal(),
        AxisSignature::rpm(),
        Some((0x186000, 0x1C3600)),
        1000,
        90,
    ));
    v.push(signature(
        "AccPed_trqEng3_MAP",
        "Driver Wish 05",
        "1-Drivers Wish",
        StructureType::EZweiInv,
        DimensionRange::exact(8),
        DimensionRange::exact(16),
        (256, 256),
        100_000_000_000,
        0,
        "Nm",
        true,
        AxisSignature::pedal(),
        AxisSignature::rpm(),
        Some((0x186000, 0x1C3800)),
        1000,
        90,
    ));
    v.push(signature(
        "AccPed_trqEng4_MAP",
        "Driver Wish 06",
        "1-Drivers Wish",
        StructureType::EZweiInv,
        DimensionRange::exact(8),
        DimensionRange::exact(16),
        (256, 256),
        100_000_000_000,
        0,
        "Nm",
        true,
        AxisSignature::pedal(),
        AxisSignature::rpm(),
        Some((0x186000, 0x1C3A00)),
        1000,
        90,
    ));
    v.push(signature(
        "AccPed_trqEng5_MAP",
        "Driver Wish 07",
        "1-Drivers Wish",
        StructureType::EZweiInv,
        DimensionRange::exact(8),
        DimensionRange::exact(16),
        (256, 256),
        100_000_000_000,
        0,
        "Nm",
        true,
        AxisSignature::pedal(),
        AxisSignature::rpm(),
        Some((0x186000, 0x1C3C00)),
        1000,
        90,
    ));
    v.push(signature(
        "AccPed_trqEng6_MAP",
        "Driver Wish 08",
        "1-Drivers Wish",
        StructureType::EZweiInv,
        DimensionRange::exact(8),
        DimensionRange::exact(16),
        (256, 256),
        100_000_000_000,
        0,
        "Nm",
        true,
        AxisSignature::pedal(),
        AxisSignature::rpm(),
        Some((0x186000, 0x1C3E00)),
        1000,
        90,
    ));
    v.push(signature(
        "AccPed_trqEngLow_MAP",
        "Driver Wish AWD",
        "1-Drivers Wish",
        StructureType::EZweiInv,
        DimensionRange::exact(8),
        DimensionRange::exact(16),
        (256, 256),
        100_000_000_000,
        0,
        "Nm",
        true,
        AxisSignature::pedal(),
        AxisSignature::rpm(),
        Some((0x186000, 0x1C4000)),
        1000,
        90,
    ));
    v.push(signature(
        "AirCtl_mDesBase_MAP",
        "EGR",
        "4-EGR",
        StructureType::EZweiInv,
        DimensionRange::range(13, 13, 16),
        DimensionRange::exact(16),
        (416, 512),
        100_000_000_000,
        0,
        "mg/stroke air",
        true,
        AxisSignature::injection_qty(),
        AxisSignature::rpm(),
        Some((0x187000, 0x1C7000)),
        700,
        85,
    ));
    v.push(signature(
        "AirCtl_mDesBase0_MAP",
        "EGR (Gear 1,2,R)",
        "4-EGR",
        StructureType::EZweiInv,
        DimensionRange::range(13, 16, 16),
        DimensionRange::exact(16),
        (416, 512),
        100_000_000_000,
        0,
        "mg/stroke air",
        true,
        AxisSignature::injection_qty(),
        AxisSignature::rpm(),
        Some((0x187000, 0x1C7000)),
        1000,
        85,
    ));
    v.push(signature(
        "AirCtl_mDesBase1_MAP",
        "EGR (Gear 3,4)",
        "4-EGR",
        StructureType::EZweiInv,
        DimensionRange::range(13, 16, 16),
        DimensionRange::exact(16),
        (416, 512),
        100_000_000_000,
        0,
        "mg/stroke air",
        true,
        AxisSignature::injection_qty(),
        AxisSignature::rpm(),
        Some((0x187000, 0x1C7000)),
        1000,
        85,
    ));
    v.push(signature(
        "AirCtl_mDesBase2_MAP",
        "EGR (Gear 5,6)",
        "4-EGR",
        StructureType::EZweiInv,
        DimensionRange::range(13, 16, 16),
        DimensionRange::exact(16),
        (416, 512),
        100_000_000_000,
        0,
        "mg/stroke air",
        true,
        AxisSignature::injection_qty(),
        AxisSignature::rpm(),
        Some((0x187000, 0x1C7000)),
        1000,
        85,
    ));
    v.push(signature(
        "FlMng_rLmbdSmkLim0_MAP",
        "Smoke Limiter by Lambda 1",
        "3-Limiters",
        StructureType::EZweiInv,
        DimensionRange::exact(13),
        DimensionRange::exact(16),
        (416, 416),
        1_000_000_000,
        0,
        "-",
        true,
        AxisSignature::air_mass(),
        AxisSignature::rpm(),
        Some((0x18AA00, 0x1D6A00)),
        1000,
        85,
    ));
    v.push(signature(
        "FlMng_rLmbdSmkLim1_MAP",
        "Smoke Limiter by Lambda 2",
        "3-Limiters",
        StructureType::EZweiInv,
        DimensionRange::exact(13),
        DimensionRange::exact(16),
        (416, 416),
        1_000_000_000,
        0,
        "-",
        true,
        AxisSignature::air_mass(),
        AxisSignature::rpm(),
        Some((0x18AC00, 0x1D6C00)),
        1000,
        85,
    ));
    v.push(signature(
        "FlMng_rLmbdSmkLim2_MAP",
        "Smoke Limiter by Lambda 3",
        "3-Limiters",
        StructureType::EZweiInv,
        DimensionRange::exact(13),
        DimensionRange::exact(16),
        (416, 416),
        1_000_000_000,
        0,
        "-",
        true,
        AxisSignature::air_mass(),
        AxisSignature::rpm(),
        Some((0x18AE00, 0x1D6E00)),
        1000,
        85,
    ));
    v.push(signature(
        "EngPrt_trqLimP_MAP",
        "Torque Limiter",
        "3-Limiters",
        StructureType::EZweiInv,
        DimensionRange::range(20, 21, 22),
        DimensionRange::range(3, 4, 4),
        (120, 176),
        100_000_000_000,
        0,
        "Nm",
        true,
        AxisSignature::rpm(),
        AxisSignature::pressure_mbar(),
        Some((0x18A600, 0x1D4800)),
        1000,
        92,
    ));
    v.push(signature(
        "FMTC_trq2qBas_MAP",
        "Torque to IQ Conversion",
        "5-Injection",
        StructureType::EZweiInv,
        DimensionRange::range(16, 18, 18),
        DimensionRange::range(15, 16, 16),
        (480, 576),
        10_000_000_000,
        0,
        "mg/stroke",
        true,
        AxisSignature::torque(),
        AxisSignature::rpm(),
        Some((0x1D3F00, 0x1D7300)),
        1000,
        95,
    ));
    v.push(signature(
        "InjCrv_phiBas0_GMAP",
        "SOI 00",
        "5-Injection",
        StructureType::EZweiInv,
        DimensionRange::exact(14),
        DimensionRange::exact(16),
        (448, 448),
        FACTOR_SOI,
        0,
        "deg CrS",
        true,
        AxisSignature::injection_qty(),
        AxisSignature::rpm(),
        Some((0x18AD00, 0x1DA000)),
        1000,
        95,
    ));
    v.push(signature(
        "InjCrv_phiBas1_GMAP",
        "SOI 01",
        "5-Injection",
        StructureType::EZweiInv,
        DimensionRange::exact(14),
        DimensionRange::exact(16),
        (448, 448),
        FACTOR_SOI,
        0,
        "deg CrS",
        true,
        AxisSignature::injection_qty(),
        AxisSignature::rpm(),
        Some((0x18AE00, 0x1DA200)),
        1000,
        95,
    ));
    v.push(signature(
        "PCR_pBDesBas_MAP",
        "Boost Target",
        "2-Turbo",
        StructureType::EZweiInv,
        DimensionRange::exact(10),
        DimensionRange::exact(16),
        (320, 320),
        1_000_000_000_000,
        0,
        "mbar",
        true,
        AxisSignature::injection_qty(),
        AxisSignature::rpm(),
        Some((0x18F600, 0x1EB200)),
        1000,
        92,
    ));
    v.push(signature(
        "PCR_pBDesBas2_MAP",
        "Boost Target 2",
        "2-Turbo",
        StructureType::EZweiInv,
        DimensionRange::exact(10),
        DimensionRange::range(15, 16, 16),
        (300, 320),
        1_000_000_000_000,
        0,
        "mbar",
        true,
        AxisSignature::injection_qty(),
        AxisSignature::rpm(),
        Some((0x18F400, 0x1EB000)),
        1000,
        92,
    ));
    v.push(signature(
        "PCR_pBDesMaxAP_MAP",
        "Boost Limiter (Altitude)",
        "2-Turbo",
        StructureType::EZweiInv,
        DimensionRange::exact(10),
        DimensionRange::range(10, 11, 11),
        (200, 220),
        1_000_000_000_000,
        0,
        "mbar",
        true,
        AxisSignature::pressure_mbar(),
        AxisSignature::rpm(),
        Some((0x18F700, 0x1EB400)),
        1000,
        90,
    ));
    v.push(signature(
        "PCR_pBDesMax_C",
        "Max Boost Pressure",
        "3-Limiters",
        StructureType::EEinzel,
        DimensionRange::exact(1),
        DimensionRange::exact(1),
        (2, 2),
        1_000_000_000_000,
        0,
        "mbar",
        true,
        AxisSignature::none(),
        AxisSignature::none(),
        Some((0x18F800, 0x1EB400)),
        1000,
        95,
    ));
    v.push(signature(
        "INJVLV_PHIINJMI1_MAP0",
        "Duration 00",
        "5-Injection",
        StructureType::EZweiInv,
        DimensionRange::exact(10),
        DimensionRange::exact(10),
        (200, 200),
        FACTOR_PILOT,
        0,
        "deg CrS",
        true,
        AxisSignature::injection_qty(),
        AxisSignature::rpm(),
        Some((0x1DF000, 0x1E5000)),
        1000,
        90,
    ));
    v.push(signature(
        "INJVLV_PHIINJMI1_MAP1",
        "Duration 01",
        "5-Injection",
        StructureType::EZweiInv,
        DimensionRange::exact(15),
        DimensionRange::range(17, 19, 19),
        (510, 570),
        FACTOR_PILOT,
        0,
        "deg CrS",
        true,
        AxisSignature::injection_qty(),
        AxisSignature::rpm(),
        Some((0x1DF100, 0x1E5100)),
        1000,
        90,
    ));
    v.push(signature(
        "INJVLV_PHIINJMI1_MAP2",
        "Duration 02",
        "5-Injection",
        StructureType::EZweiInv,
        DimensionRange::exact(15),
        DimensionRange::range(16, 19, 19),
        (480, 570),
        FACTOR_PILOT,
        0,
        "deg CrS",
        true,
        AxisSignature::injection_qty(),
        AxisSignature::rpm(),
        Some((0x1DF400, 0x1E5300)),
        1000,
        90,
    ));
    v.push(signature(
        "INJVLV_PHIINJMI1_MAP3",
        "Duration 03",
        "5-Injection",
        StructureType::EZweiInv,
        DimensionRange::exact(15),
        DimensionRange::range(16, 19, 19),
        (480, 570),
        FACTOR_PILOT,
        0,
        "deg CrS",
        true,
        AxisSignature::injection_qty(),
        AxisSignature::rpm(),
        Some((0x1DF600, 0x1E5600)),
        1000,
        90,
    ));
    v.push(signature(
        "INJVLV_PHIINJMI1_MAP4",
        "Duration 04",
        "5-Injection",
        StructureType::EZweiInv,
        DimensionRange::exact(15),
        DimensionRange::range(16, 19, 19),
        (480, 570),
        FACTOR_PILOT,
        0,
        "deg CrS",
        true,
        AxisSignature::injection_qty(),
        AxisSignature::rpm(),
        Some((0x1DF900, 0x1E5900)),
        1000,
        90,
    ));
    v.push(signature(
        "INJVLV_PHIINJMI1_MAP5",
        "Duration 05",
        "5-Injection",
        StructureType::EZweiInv,
        DimensionRange::range(9, 10, 10),
        DimensionRange::range(9, 10, 10),
        (162, 200),
        FACTOR_PILOT,
        0,
        "deg CrS",
        true,
        AxisSignature::injection_qty(),
        AxisSignature::rpm(),
        Some((0x1DFB00, 0x1E5B00)),
        1000,
        90,
    ));
    v.push(signature(
        "AirCtl_qHigh1_CUR",
        "EGR Hysteresis 1",
        "4-EGR",
        StructureType::EEindim,
        DimensionRange::exact(20),
        DimensionRange::exact(1),
        (40, 40),
        10_000_000_000,
        0,
        "mg/stroke",
        true,
        AxisSignature::rpm(),
        AxisSignature::none(),
        Some((0x188500, 0x1CA100)),
        1000,
        75,
    ));
    v.push(signature(
        "AirCtl_qHigh_CUR",
        "EGR Hysteresis 2",
        "4-EGR",
        StructureType::EEindim,
        DimensionRange::exact(20),
        DimensionRange::exact(1),
        (40, 40),
        10_000_000_000,
        0,
        "mg/stroke",
        true,
        AxisSignature::rpm(),
        AxisSignature::none(),
        Some((0x188600, 0x1CA100)),
        850,
        75,
    ));
    v.push(signature(
        "AirCtl_qLow_CUR",
        "EGR Hysteresis 3",
        "4-EGR",
        StructureType::EEindim,
        DimensionRange::exact(20),
        DimensionRange::exact(1),
        (40, 40),
        10_000_000_000,
        0,
        "mg/stroke",
        true,
        AxisSignature::rpm(),
        AxisSignature::none(),
        Some((0x188600, 0x1CA200)),
        850,
        75,
    ));
    v.push(signature(
        "EGT_swtEGTActv_C",
        "DPF Switch",
        "6-Switches",
        StructureType::EEinzel,
        DimensionRange::exact(1),
        DimensionRange::exact(1),
        (1, 1),
        1_000_000_000_000,
        0,
        "-",
        false,
        AxisSignature::none(),
        AxisSignature::none(),
        Some((0x1D1200, 0x1D4300)),
        950,
        80,
    ));
    v.push(signature(
        "AFSCD_dmLin_CUR",
        "MAF Linearization",
        "7-Calibrations",
        StructureType::EEindim,
        DimensionRange::exact(32),
        DimensionRange::exact(1),
        (64, 64),
        100_000_000_000,
        0,
        "kg/h",
        true,
        AxisSignature {
                present: true,
                name: text("MAF Voltage"),
                unit: text("mV"),
                factor: 4_887_600_000_000,
                typical_values: None,
                value_range: Some((0, 1024)),
            },
        AxisSignature::none(),
        Some((0x1C3200, 0x1C4000)),
        500,
        70,
    ));
    v.push(signature(
        "InjVlv_numMI1_CUR",
        "Duration Selector",
        "5-Injection",
        StructureType::EEindim,
        DimensionRange::exact(6),
        DimensionRange::exact(1),
        (12, 12),
        FACTOR_SELECTOR,
        0,
        "-",
        false,
        AxisSignature {
                present: true,
                name: text("Index"),
                unit: text("-"),
                factor: FACTOR_PILOT,
                typical_values: None,
                value_range: Some((0, 10000)),
            },
        AxisSignature::none(),
        Some((0x1DF000, 0x1E5000)),
        1000,
        85,
    ));
    v.push(signature(
        "InjVlv_tiMI1BreMin_MAP",
        "Min Injection Break",
        "5-Injection",
        StructureType::EZweiInv,
        DimensionRange::exact(4),
        DimensionRange::exact(6),
        (48, 48),
        FACTOR_PILOT,
        0,
        "deg CrS",
        true,
        AxisSignature::injection_qty(),
        AxisSignature::rpm(),
        Some((0x1DFC00, 0x1E5E00)),
        1000,
        85,
    ));
    v
}

/// The groups of maps stored at known offsets from each other, each with
/// the identifiers of its members in storage order.
pub fn get_map_groups() -> (r: Vec<(String, Vec<String>)>)
    ensures
        r@.len() == 7,
        r@[0].0@ == "drivers_wish"@,
        r@[0].1@.len() == 9,
        r@[0].1@[0]@ == "AccPed_trqEng0_MAP"@,
        r@[0].1@[1]@ == "AccPed_trqEng1_MAP"@,
        r@[0].1@[2]@ == "AccPed_trqEng2_MAP"@,
        r@[0].1@[3]@ == "AccPed_trqEng3_MAP"@,
        r@[0].1@[4]@ == "AccPed_trqEng4_MAP"@,
        r@[0].1@[5]@ == "AccPed_trqEng5_MAP"@,
        r@[0].1@[6]@ == "AccPed_trqEng6_MAP"@,
        r@[0].1@[7]@ == "AccPed_trqEngLow_MAP"@,
        r@[0].1@[8]@ == "AccPed_trqEng0Cold_MAP"@,
        r@[1].0@ == "injection_timing"@,
        r@[1].1@.len() == 10,
        r@[1].1@[0]@ == "InjCrv_phiBas0_GMAP"@,
        r@[1].1@[1]@ == "InjCrv_phiBas1_GMAP"@,
        r@[1].1@[2]@ == "InjCrv_phiBas2_GMAP"@,
        r@[1].1@[3]@ == "InjCrv_phiBas3_GMAP"@,
        r@[1].1@[4]@ == "InjCrv_phiBas4_GMAP"@,
        r@[1].1@[5]@ == "InjCrv_phiBas5_GMAP"@,
        r@[1].1@[6]@ == "InjCrv_phiBas6_GMAP"@,
        r@[1].1@[7]@ == "InjCrv_phiBas7_GMAP"@,
        r@[1].1@[8]@ == "InjCrv_phiBas8_GMAP"@,
        r@[1].1@[9]@ == "InjCrv_phiBas9_GMAP"@,
        r@[2].0@ == "pilot_injection"@,
        r@[2].1@.len() == 7,
        r@[2].1@[0]@ == "INJVLV_PHIINJMI1_MAP0"@,
        r@[2].1@[1]@ == "INJVLV_PHIINJMI1_MAP1"@,
        r@[2].1@[2]@ == "INJVLV_PHIINJMI1_MAP2"@,
        r@[2].1@[3]@ == "INJVLV_PHIINJMI1_MAP3"@,
        r@[2].1@[4]@ == "INJVLV_PHIINJMI1_MAP4"@,
        r@[2].1@[5]@ == "INJVLV_PHIINJMI1_MAP5"@,
        r@[2].1@[6]@ == "INJVLV_PHIINJMI1_MAP6"@,
        r@[3].0@ == "boost_pressure"@,
        r@[3].1@.len() == 4,
        r@[3].1@[0]@ == "PCR_pBDesBas_MAP"@,
        r@[3].1@[1]@ == "PCR_pBDesBas2_MAP"@,
        r@[3].1@[2]@ == "PCR_pBDesMaxAP_MAP"@,
        r@[3].1@[3]@ == "PCR_pBDesMax_C"@,
        r@[4].0@ == "boost_duty"@,
        r@[4].1@.len() == 3,
        r@[4].1@[0]@ == "PCR_rBPCtlBas_MAP"@,
        r@[4].1@[1]@ == "PCR_rBPCtlBas2_MAP"@,
        r@[4].1@[2]@ == "PCR_rBPCtlGear_MAP"@,
        r@[5].0@ == "egr"@,
        r@[5].1@.len() == 4,
        r@[5].1@[0]@ == "AirCtl_mDesBase_MAP"@,
        r@[5].1@[1]@ == "AirCtl_mDesBase0_MAP"@,
        r@[5].1@[2]@ == "AirCtl_mDesBase1_MAP"@,
        r@[5].1@[3]@ == "AirCtl_mDesBase2_MAP"@,
        r@[6].0@ == "torque"@,
        r@[6].1@.len() == 2,
        r@[6].1@[0]@ == "EngPrt_trqLimP_MAP"@,
        r@[6].1@[1]@ == "FMTC_trq2qBas_MAP"@,
{
    let mut groups: Vec<(String, Vec<String>)> = Vec::new();
    let mut members: Vec<String> = Vec::new();
    members.push(text("AccPed_trqEng0_MAP"));
    members.push(text("AccPed_trqEng1_MAP"));
    members.push(text("AccPed_trqEng2_MAP"));
    members.push(text("AccPed_trqEng3_MAP"));
    members.push(text("AccPed_trqEng4_MAP"));
    members.push(text("AccPed_trqEng5_MAP"));
    members.push(text("AccPed_trqEng6_MAP"));
    members.push(text("AccPed_trqEngLow_MAP"));
    members.push(text("AccPed_trqEng0Cold_MAP"));
    groups.push((text("drivers_wish"), members));
    let mut members: Vec<String> = Vec::new();
    members.push(text("InjCrv_phiBas0_GMAP"));
    members.push(text("InjCrv_phiBas1_GMAP"));
    members.push(text("InjCrv_phiBas2_GMAP"));
    members.push(text("InjCrv_phiBas3_GMAP"));
    members.push(text("InjCrv_phiBas4_GMAP"));
    members.push(text("InjCrv_phiBas5_GMAP"));
    members.push(text("InjCrv_phiBas6_GMAP"));
    members.push(text("InjCrv_phiBas7_GMAP"));
    members.push(text("InjCrv_phiBas8_GMAP"));
    members.push(text("InjCrv_phiBas9_GMAP"));
    groups.push((text("injection_timing"), members));
    let mut members: Vec<String> = Vec::new();
    members.push(text("INJVLV_PHIINJMI1_MAP0"));
    members.push(text("INJVLV_PHIINJMI1_MAP1"));
    members.push(text("INJVLV_PHIINJMI1_MAP2"));
    members.push(text("INJVLV_PHIINJMI1_MAP3"));
    members.push(text("INJVLV_PHIINJMI1_MAP4"));
    members.push(text("INJVLV_PHIINJMI1_MAP5"));
    members.push(text("INJVLV_PHIINJMI1_MAP6"));
    groups.push((text("pilot_injection"), members));
    let mut members: Vec<String> = Vec::new();
    members.push(text("PCR_pBDesBas_MAP"));
    members.push(text("PCR_pBDesBas2_MAP"));
    members.push(text("PCR_pBDesMaxAP_MAP"));
    members.push(text("PCR_pBDesMax_C"));
    groups.push((text("boost_pressure"), members));
    let mut members: Vec<String> = Vec::new();
    members.push(text("PCR_rBPCtlBas_MAP"));
    members.push(text("PCR_rBPCtlBas2_MAP"));
    members.push(text("PCR_rBPCtlGear_MAP"));
    groups.push((text("boost_duty"), members));
    let mut members: Vec<String> = Vec::new();
    members.push(text("AirCtl_mDesBase_MAP"));
    members.push(text("AirCtl_mDesBase0_MAP"));
    members.push(text("AirCtl_mDesBase1_MAP"));
    members.push(text("AirCtl_mDesBase2_MAP"));
    groups.push((text("egr"), members));
    let mut members: Vec<String> = Vec::new();
    members.push(text("EngPrt_trqLimP_MAP"));
    members.push(text("FMTC_trq2qBas_MAP"));
    groups.push((text("torque"), members));
    groups
}


/// A few characters of an identifier (its length, its first and 14th
/// characters and its last five) that tell the identifiers of the table apart.
pub open spec fn sig_key(n: Seq<char>) -> (int, char, char, char, char, char, char, char) {
    (n.len() as int, n[0], n[13], n[n.len() - 1], n[n.len() - 2], n[n.len() - 3], n[n.len() - 4], n[n.len() - 5])
}

/// The position in the table of the identifier with key `k`.
pub open spec fn sig_key_index(k: (int, char, char, char, char, char, char, char)) -> int {
    if k == (22int, 'A', '0', 'P', 'A', 'M', '_', 'd') {
        0
    } else if k == (18int, 'A', '0', 'P', 'A', 'M', '_', '0') {
        1
    } else if k == (18int, 'A', '1', 'P', 'A', 'M', '_', '1') {
        2
    } else if k == (18int, 'A', '2', 'P', 'A', 'M', '_', '2') {
        3
    } else if k == (18int, 'A', '3', 'P', 'A', 'M', '_', '3') {
        4
    } else if k == (18int, 'A', '4', 'P', 'A', 'M', '_', '4') {
        5
    } else if k == (18int, 'A', '5', 'P', 'A', 'M', '_', '5') {
        6
    } else if k == (18int, 'A', '6', 'P', 'A', 'M', '_', '6') {
        7
    } else if k == (20int, 'A', 'L', 'P', 'A', 'M', '_', 'w') {
        8
    } else if k == (19int, 'A', 's', 'P', 'A', 'M', '_', 'e') {
        9
    } else if k == (20int, 'A', 's', 'P', 'A', 'M', '_', '0') {
        10
    } else if k == (20int, 'A', 's', 'P', 'A', 'M', '_', '1') {
        11
    } else if k == (20int, 'A', 's', 'P', 'A', 'M', '_', '2') {
        12
    } else if k == (22int, 'F', 'k', 'P', 'A', 'M', '_', '0') {
        13
    } else if k == (22int, 'F', 'k', 'P', 'A', 'M', '_', '1') {
        14
    } else if k == (22int, 'F', 'k', 'P', 'A', 'M', '_', '2') {
        15
    } else if k == (18int, 'E', 'P', 'P', 'A', 'M', '_', 'P') {
        16
    } else if k == (17int, 'F', '_', 'P', 'A', 'M', '_', 's') {
        17
    } else if k == (19int, 'I', '0', 'P', 'A', 'M', 'G', '_') {
        18
    } else if k == (19int, 'I', '1', 'P', 'A', 'M', 'G', '_') {
        19
    } else if k == (16int, 'P', 'M', 'P', 'A', 'M', '_', 's') {
        20
    } else if k == (17int, 'P', '_', 'P', 'A', 'M', '_', '2') {
        21
    } else if k == (18int, 'P', 'P', 'P', 'A', 'M', '_', 'P') {
        22
    } else if k == (14int, 'P', 'C', 'C', '_', 'x', 'a', 'M') {
        23
    } else if k == (21int, 'I', 'M', '0', 'P', 'A', 'M', '_') {
        24
    } else if k == (21int, 'I', 'M', '1', 'P', 'A', 'M', '_') {
        25
    } else if k == (21int, 'I', 'M', '2', 'P', 'A', 'M', '_') {
        26
    } else if k == (21int, 'I', 'M', '3', 'P', 'A', 'M', '_') {
        27
    } else if k == (21int, 'I', 'M', '4', 'P', 'A', 'M', '_') {
        28
    } else if k == (21int, 'I', 'M', '5', 'P', 'A', 'M', '_') {
        29
    } else if k == (17int, 'A', '_', 'R', 'U', 'C', '_', '1') {
        30
    } else if k == (16int, 'A', 'C', 'R', 'U', 'C', '_', 'h') {
        31
    } else if k == (15int, 'A', 'U', 'R', 'U', 'C', '_', 'w') {
        32
    } else if k == (16int, 'E', 'v', 'C', '_', 'v', 't', 'c') {
        33
    } else if k == (15int, 'A', 'U', 'R', 'U', 'C', '_', 'n') {
        34
    } else if k == (17int, 'I', '_', 'R', 'U', 'C', '_', '1') {
        35
    } else if k == (22int, 'I', 'r', 'P', 'A', 'M', '_', 'n') {
        36
    } else {
        -1
    }
}

proof fn lemma_signature_keys()
    ensures
        forall|i: int|
            0 <= i < signature_table().len() ==> sig_key_index(sig_key(#[trigger] signature_table()[i].id_name)) == i,
{
    reveal_strlit("AccPed_trqEng0Cold_MAP");
    reveal_strlit("AccPed_trqEng0_MAP");
    reveal_strlit("AccPed_trqEng1_MAP");
    reveal_strlit("AccPed_trqEng2_MAP");
    reveal_strlit("AccPed_trqEng3_MAP");
    reveal_strlit("AccPed_trqEng4_MAP");
    reveal_strlit("AccPed_trqEng5_MAP");
    reveal_strlit("AccPed_trqEng6_MAP");
    reveal_strlit("AccPed_trqEngLow_MAP");
    reveal_strlit("AirCtl_mDesBase_MAP");
    reveal_strlit("AirCtl_mDesBase0_MAP");
    reveal_strlit("AirCtl_mDesBase1_MAP");
    reveal_strlit("AirCtl_mDesBase2_MAP");
    reveal_strlit("FlMng_rLmbdSmkLim0_MAP");
    reveal_strlit("FlMng_rLmbdSmkLim1_MAP");
    reveal_strlit("FlMng_rLmbdSmkLim2_MAP");
    reveal_strlit("EngPrt_trqLimP_MAP");
    reveal_strlit("FMTC_trq2qBas_MAP");
    reveal_strlit("InjCrv_phiBas0_GMAP");
    reveal_strlit("InjCrv_phiBas1_GMAP");
    reveal_strlit("PCR_pBDesBas_MAP");
    reveal_strlit("PCR_pBDesBas2_MAP");
    reveal_strlit("PCR_pBDesMaxAP_MAP");
    reveal_strlit("PCR_pBDesMax_C");
    reveal_strlit("INJVLV_PHIINJMI1_MAP0");
    reveal_strlit("INJVLV_PHIINJMI1_MAP1");
    reveal_strlit("INJVLV_PHIINJMI1_MAP2");
    reveal_strlit("INJVLV_PHIINJMI1_MAP3");
    reveal_strlit("INJVLV_PHIINJMI1_MAP4");
    reveal_strlit("INJVLV_PHIINJMI1_MAP5");
    reveal_strlit("AirCtl_qHigh1_CUR");
    reveal_strlit("AirCtl_qHigh_CUR");
    reveal_strlit("AirCtl_qLow_CUR");
    reveal_strlit("EGT_swtEGTActv_C");
    reveal_strlit("AFSCD_dmLin_CUR");
    reveal_strlit("InjVlv_numMI1_CUR");
    reveal_strlit("InjVlv_tiMI1BreMin_MAP");
    assert(signature_table().len() == 37);
    assert forall|i: int| 0 <= i < signature_table().len() implies sig_key_index(
        sig_key(#[trigger] signature_table()[i].id_name),
    ) == i by {
        if i == 0 {
        } else if i == 1 {
        } else if i == 2 {
        } else if i == 3 {
        } else if i == 4 {
        } else if i == 5 {
        } else if i == 6 {
        } else if i == 7 {
        } else if i == 8 {
        } else if i == 9 {
        } else if i == 10 {
        } else if i == 11 {
        } else if i == 12 {
        } else if i == 13 {
        } else if i == 14 {
        } else if i == 15 {
        } else if i == 16 {
        } else if i == 17 {
        } else if i == 18 {
        } else if i == 19 {
        } else if i == 20 {
        } else if i == 21 {
        } else if i == 22 {
        } else if i == 23 {
        } else if i == 24 {
        } else if i == 25 {
        } else if i == 26 {
        } else if i == 27 {
        } else if i == 28 {
        } else if i == 29 {
        } else if i == 30 {
        } else if i == 31 {
        } else if i == 32 {
        } else if i == 33 {
        } else if i == 34 {
        } else if i == 35 {
        } else if i == 36 {
        }
    }
}

/// Every signature of the table has its own identifier.
pub proof fn lemma_signature_names_distinct()
    ensures
        forall|i: int, j: int|
            0 <= i < j < signature_table().len() ==> (#[trigger] signature_table()[i]).id_name != (
            #[trigger] signature_table()[j]).id_name,
{
    lemma_signature_keys();
    assert forall|i: int, j: int| 0 <= i < j < signature_table().len() implies (#[trigger] signature_table()[i]).id_name
        != (#[trigger] signature_table()[j]).id_name by {
        assert(sig_key_index(sig_key(signature_table()[i].id_name)) == i);
        assert(sig_key_index(sig_key(signature_table()[j].id_name)) == j);
    }
}

/// Every signature of the table is consistent: its typical dimensions lie
/// between its least and greatest, its size range is ordered (and, but for
/// the one-byte switch, runs from the smallest to the largest table of two
/// bytes per cell) and its address range, when it has one, is not empty.
#[verifier::rlimit(100)]
pub proof fn lemma_signature_table_consistent()
    ensures
        forall|i: int|
            0 <= i < signature_table().len() ==> {
                let e = #[trigger] signature_table()[i];
                &&& e.cols.min <= e.cols.typical <= e.cols.max
                &&& e.rows.min <= e.rows.typical <= e.rows.max
                &&& e.data_size_range.0 <= e.data_size_range.1
                &&& (e.address_range matches Some((lo, hi)) ==> lo < hi)
                &&& (e.id_name != "EGT_swtEGTActv_C"@ ==> e.data_size_range == (
                    (2 * e.cols.min * e.rows.min) as usize,
                    (2 * e.cols.max * e.rows.max) as usize,
                ))
            },
{
    assert(signature_table().len() == 37);
    lemma_signature_keys();
    assert forall|i: int| 0 <= i < signature_table().len() implies {
        let e = #[trigger] signature_table()[i];
        &&& e.cols.min <= e.cols.typical <= e.cols.max
        &&& e.rows.min <= e.rows.typical <= e.rows.max
        &&& e.data_size_range.0 <= e.data_size_range.1
        &&& (e.address_range matches Some((lo, hi)) ==> lo < hi)
        &&& (e.id_name != "EGT_swtEGTActv_C"@ ==> e.data_size_range == (
            (2 * e.cols.min * e.rows.min) as usize,
            (2 * e.cols.max * e.rows.max) as usize,
        ))
    } by {
        if i == 0 {
        } else if i == 1 {
        } else if i == 2 {
        } else if i == 3 {
        } else if i == 4 {
        } else if i == 5 {
        } else if i == 6 {
        } else if i == 7 {
        } else if i == 8 {
        } else if i == 9 {
        } else if i == 10 {
        } else if i == 11 {
        } else if i == 12 {
        } else if i == 13 {
        } else if i == 14 {
        } else if i == 15 {
        } else if i == 16 {
        } else if i == 17 {
        } else if i == 18 {
        } else if i == 19 {
        } else if i == 20 {
        } else if i == 21 {
        } else if i == 22 {
        } else if i == 23 {
        } else if i == 24 {
        } else if i == 25 {
        } else if i == 26 {
        } else if i == 27 {
        } else if i == 28 {
        } else if i == 29 {
        } else if i == 30 {
        } else if i == 31 {
        } else if i == 32 {
        } else if i == 33 {
        } else if i == 34 {
        } else if i == 35 {
        } else if i == 36 {
        }
    }
}

} // verus!
