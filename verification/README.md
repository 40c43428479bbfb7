# zedsuite

Map detection for Bosch EDC16 engine control unit images, verified with Verus.

- `src/` is the verified library:
  - `model.rs`: the detected map.
  - `detector.rs`: the entry points (`SmartDetector`, `MapDetector`) and how a list is finished for display.
  - `edc16u31/`: the EDC16U31 detector: one module per family of maps (scalars, smoke limiters, injection duration and timing, boost, EGR, idle speed, exhaust gas temperature, ...), the axis pass (`axis_scan.rs`) and the whole detection (`detect.rs`), with what the claiming of byte ranges keeps of each scan (`claims.rs`, `late.rs`, `phases.rs`).
  - `bosch/`: the scans shared by the Bosch families (launch control, EGR temperature, MAP/MAF switches).
  - `ols_import.rs`, `update.rs`: project import and the update check's logic.
- `tests/` runs the library on built images.
- `app/` is the desktop shell around it: commands, network and file access, and the floating-point scoring of candidate tables.
