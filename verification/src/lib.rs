//! Calibration-map detection for Bosch EDC16U31 ECU images, with the
//! smaller detectors shared by the EDC15/EDC16 families and the WinOLS
//! project container reader.
pub mod bosch;
pub mod bytes;
pub mod detector;
pub mod model;
pub mod ols_import;
pub mod text;
pub mod update;
pub mod words;
pub mod edc16u31;

