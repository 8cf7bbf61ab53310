# reel

Verified core of the ReeL split-keyboard firmware, written in Verus.

`src/` holds the logic, each function with a contract proved by Verus:

- `rotary_decoder`, `rotary_state`, `rotary_accumulator`: the left-half rotary
  encoder (phase-A clocked decoding with debounce, settled-level direction,
  quadrature counts to detents).
- `trackball_transform`, `motion_gain`, `motion_smoother`: trackball motion
  shaping in fixed point (calibrated direction matrix with length
  normalization, gain, adaptive low-pass filter), each carrying the fraction
  of a count between reports.
- `calibration_config`: the direction matrix, its safety rule, the 28-byte
  `RLC1` record (FNV-1a checked) and the watcher that keeps the live matrix in
  step with it.
- `transformed_pointing_device`: poll and report intervals, the waits that
  pace polling and reporting, sensor initialisation retries and report
  assembly of the trackball device.
- `sharp_lcd`: frame buffer, flush decision and command framing of the Sharp
  memory LCD, and the status screen (drawn with embedded-graphics).
- `peripheral`: the static random BLE address of the left half.
- `fixed_point`: truncating division and `i16` saturation shared by the above.

Laws of the library (round trips of the record, single-byte corruption
detection, conservation of motion, debounce behaviour, filter draining,
pixel-exact drawing) are public proof functions next to the code they speak of.

`app/` is the firmware glue: RMK traits, the SPI bus and timers, the keymap.
`tests/` exercises the library on concrete values.
