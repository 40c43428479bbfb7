//! The map templates: for each kind of map found by its axes, the grids it
//! comes in, its axes, the display factor of its cells and the ranges of
//! physical values it takes (stock and modified images), all in fixed point
//! (units of 10^-12, see [`FIXED_ONE`]).
use vstd::prelude::*;
use crate::model::{MapCategory, FIXED_ONE};

verus! {

/// The kind of quantity on an axis.
#[derive(Clone, Copy, Debug, PartialEq, Eq, Structural)]
pub enum AxisType {
    Rpm,
    Pedal,
    InjectionQty,
    AtmosphericPressure,
    BoostError,
    Torque,
    AirMass,
    RailPressure,
    Temperature,
    /// No axis (a single value).
    NoAxis,
}

/// The kinds of map that the axis scan and the signature scans create from a template.
#[derive(Clone, Copy, Debug, PartialEq, Eq, Structural)]
pub enum MapType {
    BoostLimiter,
    BoostTarget,
    TorqueToIq,
    DriverWish,
    StartOfInjection,
    InjectionDuration,
    Egr,
    N75DutyCycle,
    TorqueLimiter,
    Duration,
    LambdaCalculations,
    FuelVolumeCorrection,
    ExpectedFuelTemp,
    /// Recognised by its axes, but without a template.
    SmokeLimiter,
}

/// A map template.
pub struct MapTemplate {
    pub name: String,
    pub category: MapCategory,
    /// Accepted grids as (rows, cols).
    pub grids: Vec<(usize, usize)>,
    /// Expected axes (X, Y).
    pub axes: (AxisType, AxisType),
    /// Display factor of the cells (fixed point).
    pub z_factor: i64,
    /// Range of the physical cell values on stock images (fixed point).
    pub z_range_stock: (i64, i64),
    /// Range of the physical cell values on modified images (fixed point).
    pub z_range_tuned: (i64, i64),
    /// Range of the axis that is not the engine speed (fixed point).
    pub other_axis_range: (i64, i64),
    pub unit: String,
    pub signed: bool,
    /// Largest number of maps of this kind expected in an image.
    pub max_count: usize,
    /// Higher is detected first.
    pub priority: u8,
}

/// The templates, in order.
pub open spec fn template_order() -> Seq<MapType> {
    seq![MapType::BoostLimiter, MapType::BoostTarget, MapType::TorqueToIq, MapType::DriverWish, MapType::StartOfInjection, MapType::InjectionDuration, MapType::Egr, MapType::N75DutyCycle, MapType::TorqueLimiter, MapType::Duration, MapType::LambdaCalculations, MapType::FuelVolumeCorrection, MapType::ExpectedFuelTemp]
}

/// The name of each template.
pub open spec fn template_name(t: MapType) -> Seq<char> {
    match t {
        MapType::BoostLimiter => "Boost Limiter"@,
        MapType::BoostTarget => "Boost Target"@,
        MapType::TorqueToIq => "Torque to IQ Conversion"@,
        MapType::DriverWish => "Driver Wish"@,
        MapType::StartOfInjection => "Start of Injection"@,
        MapType::InjectionDuration => "Injection Duration"@,
        MapType::Egr => "EGR"@,
        MapType::N75DutyCycle => "N75 Duty Cycle"@,
        MapType::TorqueLimiter => "Torque Limiter"@,
        MapType::Duration => "Duration"@,
        MapType::LambdaCalculations => "Lambda Calculations"@,
        MapType::FuelVolumeCorrection => "Fuel Volume Correction"@,
        MapType::ExpectedFuelTemp => "Expected Fuel Temp"@,
        MapType::SmokeLimiter => "Smoke Limiter"@,
    }
}

/// The folder of each template.
pub open spec fn template_category(t: MapType) -> MapCategory {
    match t {
        MapType::BoostLimiter => MapCategory::TurboBoostPressure,
        MapType::BoostTarget => MapCategory::TurboBoostPressure,
        MapType::TorqueToIq => MapCategory::InjectionSystem,
        MapType::DriverWish => MapCategory::EngineTorqueRequest,
        MapType::StartOfInjection => MapCategory::StartOfInjection,
        MapType::InjectionDuration => MapCategory::InjectionSystem,
        MapType::Egr => MapCategory::Egr,
        MapType::N75DutyCycle => MapCategory::TurboBoostPressure,
        MapType::TorqueLimiter => MapCategory::EngineTorqueLimiters,
        MapType::Duration => MapCategory::InjectionSystem,
        MapType::LambdaCalculations => MapCategory::Calibrations,
        MapType::FuelVolumeCorrection => MapCategory::FuelQuantity,
        MapType::ExpectedFuelTemp => MapCategory::Calibrations,
        MapType::SmokeLimiter => MapCategory::Calibrations,
    }
}

/// The grids of each template.
pub open spec fn template_grids(t: MapType) -> Seq<(usize, usize)> {
    match t {
        MapType::BoostLimiter => seq![(11usize, 10usize), (10usize, 10usize), (10usize, 11usize)],
        MapType::BoostTarget => seq![(16usize, 10usize), (15usize, 10usize), (10usize, 16usize), (10usize, 15usize)],
        MapType::TorqueToIq => seq![(16usize, 16usize), (16usize, 18usize), (15usize, 16usize), (15usize, 18usize), (18usize, 16usize)],
        MapType::DriverWish => seq![(16usize, 8usize), (8usize, 16usize)],
        MapType::StartOfInjection => seq![(16usize, 14usize), (14usize, 16usize)],
        MapType::InjectionDuration => seq![(10usize, 10usize), (19usize, 15usize), (15usize, 19usize), (17usize, 15usize), (15usize, 17usize), (16usize, 15usize), (15usize, 16usize)],
        MapType::Egr => seq![(16usize, 16usize), (16usize, 13usize), (13usize, 16usize)],
        MapType::N75DutyCycle => seq![(16usize, 12usize), (12usize, 16usize), (16usize, 13usize), (13usize, 16usize), (16usize, 11usize), (11usize, 16usize), (16usize, 10usize), (10usize, 16usize)],
        MapType::TorqueLimiter => seq![(4usize, 22usize), (4usize, 21usize), (4usize, 20usize), (22usize, 4usize), (21usize, 4usize), (20usize, 4usize), (3usize, 22usize), (3usize, 21usize)],
        MapType::Duration => seq![(10usize, 10usize), (15usize, 19usize), (19usize, 15usize), (15usize, 17usize), (17usize, 15usize), (15usize, 16usize), (16usize, 15usize)],
        MapType::LambdaCalculations => seq![(16usize, 13usize), (13usize, 16usize)],
        MapType::FuelVolumeCorrection => seq![(9usize, 8usize), (8usize, 9usize)],
        MapType::ExpectedFuelTemp => seq![(8usize, 8usize)],
        MapType::SmokeLimiter => seq![],
    }
}

/// The axes (X, Y) of each template.
pub open spec fn template_axes(t: MapType) -> (AxisType, AxisType) {
    match t {
        MapType::BoostLimiter => (AxisType::Rpm, AxisType::AtmosphericPressure),
        MapType::BoostTarget => (AxisType::Rpm, AxisType::InjectionQty),
        MapType::TorqueToIq => (AxisType::Rpm, AxisType::Torque),
        MapType::DriverWish => (AxisType::Rpm, AxisType::Pedal),
        MapType::StartOfInjection => (AxisType::Rpm, AxisType::InjectionQty),
        MapType::InjectionDuration => (AxisType::InjectionQty, AxisType::RailPressure),
        MapType::Egr => (AxisType::Rpm, AxisType::InjectionQty),
        MapType::N75DutyCycle => (AxisType::Rpm, AxisType::InjectionQty),
        MapType::TorqueLimiter => (AxisType::Rpm, AxisType::AtmosphericPressure),
        MapType::Duration => (AxisType::Rpm, AxisType::InjectionQty),
        MapType::LambdaCalculations => (AxisType::Rpm, AxisType::AirMass),
        MapType::FuelVolumeCorrection => (AxisType::Rpm, AxisType::InjectionQty),
        MapType::ExpectedFuelTemp => (AxisType::Rpm, AxisType::InjectionQty),
        MapType::SmokeLimiter => (AxisType::Rpm, AxisType::AirMass),
    }
}

/// Cell factor, stock range, modified range and other-axis range of each
/// template (fixed point).
pub open spec fn template_numbers(t: MapType) -> (i64, (i64, i64), (i64, i64), (i64, i64)) {
    match t {
        MapType::BoostLimiter => (1000000000000i64, (1100000000000000i64, 3500000000000000i64), (1100000000000000i64, 4000000000000000i64), (800000000000000i64, 1100000000000000i64)),
        MapType::BoostTarget => (1000000000000i64, (1000000000000000i64, 2800000000000000i64), (1000000000000000i64, 3500000000000000i64), (0i64, 80000000000000i64)),
        MapType::TorqueToIq => (10000000000i64, (0i64, 80000000000000i64), (0i64, 100000000000000i64), (0i64, 500000000000000i64)),
        MapType::DriverWish => (100000000000i64, (0i64, 500000000000000i64), (0i64, 600000000000000i64), (0i64, 100000000000000i64)),
        MapType::StartOfInjection => (23437000000i64, (-15000000000000i64, 35000000000000i64), (-20000000000000i64, 40000000000000i64), (0i64, 80000000000000i64)),
        MapType::InjectionDuration => (750000000000i64, (300000000000000i64, 2200000000000000i64), (300000000000000i64, 2500000000000000i64), (300000000000000i64, 1800000000000000i64)),
        MapType::Egr => (100000000000i64, (0i64, 100000000000000i64), (0i64, 100000000000000i64), (10000000000000i64, 60000000000000i64)),
        MapType::N75DutyCycle => (10000000000i64, (0i64, 96000000000000i64), (0i64, 115000000000000i64), (0i64, 70000000000000i64)),
        MapType::TorqueLimiter => (100000000000i64, (150000000000000i64, 450000000000000i64), (150000000000000i64, 550000000000000i64), (700000000000000i64, 1100000000000000i64)),
        MapType::Duration => (23427000000i64, (-20000000000000i64, 60000000000000i64), (-30000000000000i64, 70000000000000i64), (0i64, 80000000000000i64)),
        MapType::LambdaCalculations => (1000000000i64, (500000000000i64, 2000000000000i64), (400000000000i64, 2500000000000i64), (200000000000000i64, 1500000000000000i64)),
        MapType::FuelVolumeCorrection => (10000000000i64, (800000000000i64, 1200000000000i64), (700000000000i64, 1300000000000i64), (0i64, 80000000000000i64)),
        MapType::ExpectedFuelTemp => (100000000000i64, (-20000000000000i64, 100000000000000i64), (-30000000000000i64, 120000000000000i64), (0i64, 80000000000000i64)),
        MapType::SmokeLimiter => (0i64, (0i64, 0i64), (0i64, 0i64), (0i64, 0i64)),
    }
}

/// Unit, signedness, largest count and priority of each template.
pub open spec fn template_traits(t: MapType) -> (Seq<char>, bool, usize, u8) {
    match t {
        MapType::BoostLimiter => ("mbar"@, true, 2usize, 95u8),
        MapType::BoostTarget => ("mbar"@, true, 4usize, 92u8),
        MapType::TorqueToIq => ("mg/stroke"@, true, 1usize, 98u8),
        MapType::DriverWish => ("Nm"@, true, 30usize, 90u8),
        MapType::StartOfInjection => ("deg CrS"@, true, 35usize, 94u8),
        MapType::InjectionDuration => ("us"@, true, 10usize, 85u8),
        MapType::Egr => ("%"@, false, 12usize, 85u8),
        MapType::N75DutyCycle => ("%"@, true, 15usize, 82u8),
        MapType::TorqueLimiter => ("Nm"@, true, 1usize, 92u8),
        MapType::Duration => ("deg CrS"@, true, 8usize, 80u8),
        MapType::LambdaCalculations => ("[-]"@, true, 6usize, 78u8),
        MapType::FuelVolumeCorrection => ("[-]"@, true, 2usize, 70u8),
        MapType::ExpectedFuelTemp => ("degC"@, true, 2usize, 68u8),
        MapType::SmokeLimiter => (""@, false, 0usize, 0u8),
    }
}

/// `m` is the template of `t`.
pub open spec fn is_template(m: MapTemplate, t: MapType) -> bool {
    &&& m.name@ == template_name(t)
    &&& m.category == template_category(t)
    &&& m.grids@ == template_grids(t)
    &&& m.axes == template_axes(t)
    &&& (m.z_factor, m.z_range_stock, m.z_range_tuned, m.other_axis_range) == template_numbers(t)
    &&& (m.unit@, m.signed, m.max_count, m.priority) == template_traits(t)
}

fn grids_of(g: &[(usize, usize)]) -> (r: Vec<(usize, usize)>)
    ensures
        r@ == g@,
{
    let mut v: Vec<(usize, usize)> = Vec::new();
    let mut i: usize = 0;
    while i < g.len()
        invariant
            i <= g@.len(),
            v@ == g@.take(i as int),
        decreases g.len() - i,
    {
        v.push(g[i]);
        i += 1;
        assert(v@ =~= g@.take(i as int));
    }
    assert(g@.take(g@.len() as int) =~= g@);
    v
}

/// The template of `t`, if it has one (every kind but the smoke limiter).
pub fn template(t: MapType) -> (r: Option<MapTemplate>)
    ensures
        r is Some <==> t != MapType::SmokeLimiter,
        r matches Some(m) ==> is_template(m, t),
{
    match t {
        MapType::BoostLimiter => {
            let g: [(usize, usize); 3] = [(11, 10), (10, 10), (10, 11)];
            proof {
                reveal_strlit("Boost Limiter");
                reveal_strlit("mbar");
            }
            assert(g@ =~= template_grids(t));
            Some(MapTemplate {
                name: String::from_str("Boost Limiter"),
                category: MapCategory::TurboBoostPressure,
                grids: grids_of(&g),
                axes: (AxisType::Rpm, AxisType::AtmosphericPressure),
                z_factor: 1000000000000i64,
                z_range_stock: (1100000000000000i64, 3500000000000000i64),
                z_range_tuned: (1100000000000000i64, 4000000000000000i64),
                other_axis_range: (800000000000000i64, 1100000000000000i64),
                unit: String::from_str("mbar"),
                signed: true,
                max_count: 2,
                priority: 95,
            })
        },
        MapType::BoostTarget => {
            let g: [(usize, usize); 4] = [(16, 10), (15, 10), (10, 16), (10, 15)];
            proof {
                reveal_strlit("Boost Target");
                reveal_strlit("mbar");
            }
            assert(g@ =~= template_grids(t));
            Some(MapTemplate {
                name: String::from_str("Boost Target"),
                category: MapCategory::TurboBoostPressure,
                grids: grids_of(&g),
                axes: (AxisType::Rpm, AxisType::InjectionQty),
                z_factor: 1000000000000i64,
                z_range_stock: (1000000000000000i64, 2800000000000000i64),
                z_range_tuned: (1000000000000000i64, 3500000000000000i64),
                other_axis_range: (0i64, 80000000000000i64),
                unit: String::from_str("mbar"),
                signed: true,
                max_count: 4,
                priority: 92,
            })
        },
        MapType::TorqueToIq => {
            let g: [(usize, usize); 5] = [(16, 16), (16, 18), (15, 16), (15, 18), (18, 16)];
            proof {
                reveal_strlit("Torque to IQ Conversion");
                reveal_strlit("mg/stroke");
            }
            assert(g@ =~= template_grids(t));
            Some(MapTemplate {
                name: String::from_str("Torque to IQ Conversion"),
                category: MapCategory::InjectionSystem,
                grids: grids_of(&g),
                axes: (AxisType::Rpm, AxisType::Torque),
                z_factor: 10000000000i64,
                z_range_stock: (0i64, 80000000000000i64),
                z_range_tuned: (0i64, 100000000000000i64),
                other_axis_range: (0i64, 500000000000000i64),
                unit: String::from_str("mg/stroke"),
                signed: true,
                max_count: 1,
                priority: 98,
            })
        },
        MapType::DriverWish => {
            let g: [(usize, usize); 2] = [(16, 8), (8, 16)];
            proof {
                reveal_strlit("Driver Wish");
                reveal_strlit("Nm");
            }
            assert(g@ =~= template_grids(t));
            Some(MapTemplate {
                name: String::from_str("Driver Wish"),
                category: MapCategory::EngineTorqueRequest,
                grids: grids_of(&g),
                axes: (AxisType::Rpm, AxisType::Pedal),
                z_factor: 100000000000i64,
                z_range_stock: (0i64, 500000000000000i64),
                z_range_tuned: (0i64, 600000000000000i64),
                other_axis_range: (0i64, 100000000000000i64),
                unit: String::from_str("Nm"),
                signed: true,
                max_count: 30,
                priority: 90,
            })
        },
        MapType::StartOfInjection => {
            let g: [(usize, usize); 2] = [(16, 14), (14, 16)];
            proof {
                reveal_strlit("Start of Injection");
                reveal_strlit("deg CrS");
            }
            assert(g@ =~= template_grids(t));
            Some(MapTemplate {
                name: String::from_str("Start of Injection"),
                category: MapCategory::StartOfInjection,
                grids: grids_of(&g),
                axes: (AxisType::Rpm, AxisType::InjectionQty),
                z_factor: 23437000000i64,
                z_range_stock: (-15000000000000i64, 35000000000000i64),
                z_range_tuned: (-20000000000000i64, 40000000000000i64),
                other_axis_range: (0i64, 80000000000000i64),
                unit: String::from_str("deg CrS"),
                signed: true,
                max_count: 35,
                priority: 94,
            })
        },
        MapType::InjectionDuration => {
            let g: [(usize, usize); 7] = [(10, 10), (19, 15), (15, 19), (17, 15), (15, 17), (16, 15), (15, 16)];
            proof {
                reveal_strlit("Injection Duration");
                reveal_strlit("us");
            }
            assert(g@ =~= template_grids(t));
            Some(MapTemplate {
                name: String::from_str("Injection Duration"),
                category: MapCategory::InjectionSystem,
                grids: grids_of(&g),
                axes: (AxisType::InjectionQty, AxisType::RailPressure),
                z_factor: 750000000000i64,
                z_range_stock: (300000000000000i64, 2200000000000000i64),
                z_range_tuned: (300000000000000i64, 2500000000000000i64),
                other_axis_range: (300000000000000i64, 1800000000000000i64),
                unit: String::from_str("us"),
                signed: true,
                max_count: 10,
                priority: 85,
            })
        },
        MapType::Egr => {
            let g: [(usize, usize); 3] = [(16, 16), (16, 13), (13, 16)];
            proof {
                reveal_strlit("EGR");
                reveal_strlit("%");
            }
            assert(g@ =~= template_grids(t));
            Some(MapTemplate {
                name: String::from_str("EGR"),
                category: MapCategory::Egr,
                grids: grids_of(&g),
                axes: (AxisType::Rpm, AxisType::InjectionQty),
                z_factor: 100000000000i64,
                z_range_stock: (0i64, 100000000000000i64),
                z_range_tuned: (0i64, 100000000000000i64),
                other_axis_range: (10000000000000i64, 60000000000000i64),
                unit: String::from_str("%"),
                signed: false,
                max_count: 12,
                priority: 85,
            })
        },
        MapType::N75DutyCycle => {
            let g: [(usize, usize); 8] = [(16, 12), (12, 16), (16, 13), (13, 16), (16, 11), (11, 16), (16, 10), (10, 16)];
            proof {
                reveal_strlit("N75 Duty Cycle");
                reveal_strlit("%");
            }
            assert(g@ =~= template_grids(t));
            Some(MapTemplate {
                name: String::from_str("N75 Duty Cycle"),
                category: MapCategory::TurboBoostPressure,
                grids: grids_of(&g),
                axes: (AxisType::Rpm, AxisType::InjectionQty),
                z_factor: 10000000000i64,
                z_range_stock: (0i64, 96000000000000i64),
                z_range_tuned: (0i64, 115000000000000i64),
                other_axis_range: (0i64, 70000000000000i64),
                unit: String::from_str("%"),
                signed: true,
                max_count: 15,
                priority: 82,
            })
        },
        MapType::TorqueLimiter => {
            let g: [(usize, usize); 8] = [(4, 22), (4, 21), (4, 20), (22, 4), (21, 4), (20, 4), (3, 22), (3, 21)];
            proof {
                reveal_strlit("Torque Limiter");
                reveal_strlit("Nm");
            }
            assert(g@ =~= template_grids(t));
            Some(MapTemplate {
                name: String::from_str("Torque Limiter"),
                category: MapCategory::EngineTorqueLimiters,
                grids: grids_of(&g),
                axes: (AxisType::Rpm, AxisType::AtmosphericPressure),
                z_factor: 100000000000i64,
                z_range_stock: (150000000000000i64, 450000000000000i64),
                z_range_tuned: (150000000000000i64, 550000000000000i64),
                other_axis_range: (700000000000000i64, 1100000000000000i64),
                unit: String::from_str("Nm"),
                signed: true,
                max_count: 1,
                priority: 92,
            })
        },
        MapType::Duration => {
            let g: [(usize, usize); 7] = [(10, 10), (15, 19), (19, 15), (15, 17), (17, 15), (15, 16), (16, 15)];
            proof {
                reveal_strlit("Duration");
                reveal_strlit("deg CrS");
            }
            assert(g@ =~= template_grids(t));
            Some(MapTemplate {
                name: String::from_str("Duration"),
                category: MapCategory::InjectionSystem,
                grids: grids_of(&g),
                axes: (AxisType::Rpm, AxisType::InjectionQty),
                z_factor: 23427000000i64,
                z_range_stock: (-20000000000000i64, 60000000000000i64),
                z_range_tuned: (-30000000000000i64, 70000000000000i64),
                other_axis_range: (0i64, 80000000000000i64),
                unit: String::from_str("deg CrS"),
                signed: true,
                max_count: 8,
                priority: 80,
            })
        },
        MapType::LambdaCalculations => {
            let g: [(usize, usize); 2] = [(16, 13), (13, 16)];
            proof {
                reveal_strlit("Lambda Calculations");
                reveal_strlit("[-]");
            }
            assert(g@ =~= template_grids(t));
            Some(MapTemplate {
                name: String::from_str("Lambda Calculations"),
                category: MapCategory::Calibrations,
                grids: grids_of(&g),
                axes: (AxisType::Rpm, AxisType::AirMass),
                z_factor: 1000000000i64,
                z_range_stock: (500000000000i64, 2000000000000i64),
                z_range_tuned: (400000000000i64, 2500000000000i64),
                other_axis_range: (200000000000000i64, 1500000000000000i64),
                unit: String::from_str("[-]"),
                signed: true,
                max_count: 6,
                priority: 78,
            })
        },
        MapType::FuelVolumeCorrection => {
            let g: [(usize, usize); 2] = [(9, 8), (8, 9)];
            proof {
                reveal_strlit("Fuel Volume Correction");
                reveal_strlit("[-]");
            }
            assert(g@ =~= template_grids(t));
            Some(MapTemplate {
                name: String::from_str("Fuel Volume Correction"),
                category: MapCategory::FuelQuantity,
                grids: grids_of(&g),
                axes: (AxisType::Rpm, AxisType::InjectionQty),
                z_factor: 10000000000i64,
                z_range_stock: (800000000000i64, 1200000000000i64),
                z_range_tuned: (700000000000i64, 1300000000000i64),
                other_axis_range: (0i64, 80000000000000i64),
                unit: String::from_str("[-]"),
                signed: true,
                max_count: 2,
                priority: 70,
            })
        },
        MapType::ExpectedFuelTemp => {
            let g: [(usize, usize); 1] = [(8, 8)];
            proof {
                reveal_strlit("Expected Fuel Temp");
                reveal_strlit("degC");
            }
            assert(g@ =~= template_grids(t));
            Some(MapTemplate {
                name: String::from_str("Expected Fuel Temp"),
                category: MapCategory::Calibrations,
                grids: grids_of(&g),
                axes: (AxisType::Rpm, AxisType::InjectionQty),
                z_factor: 100000000000i64,
                z_range_stock: (-20000000000000i64, 100000000000000i64),
                z_range_tuned: (-30000000000000i64, 120000000000000i64),
                other_axis_range: (0i64, 80000000000000i64),
                unit: String::from_str("degC"),
                signed: true,
                max_count: 2,
                priority: 68,
            })
        },
        MapType::SmokeLimiter => None,
    }
}

/// All the templates, in order.
pub fn map_templates() -> (r: Vec<MapTemplate>)
    ensures
        r@.len() == template_order().len(),
        forall|i: int| 0 <= i < r@.len() ==> is_template(#[trigger] r@[i], template_order()[i]),
{
    let order: [MapType; 13] = [MapType::BoostLimiter, MapType::BoostTarget, MapType::TorqueToIq, MapType::DriverWish, MapType::StartOfInjection, MapType::InjectionDuration, MapType::Egr, MapType::N75DutyCycle, MapType::TorqueLimiter, MapType::Duration, MapType::LambdaCalculations, MapType::FuelVolumeCorrection, MapType::ExpectedFuelTemp];
    assert(order@ =~= template_order());
    let mut v: Vec<MapTemplate> = Vec::new();
    let mut i: usize = 0;
    while i < order.len()
        invariant
            i <= order@.len(),
            order@ == template_order(),
            v@.len() == i,
            forall|k: int| 0 <= k < i ==> is_template(#[trigger] v@[k], template_order()[k]),
        decreases order.len() - i,
    {
        match template(order[i]) {
            Some(m) => v.push(m),
            None => {},
        }
        i += 1;
    }
    v
}

} // verus!
