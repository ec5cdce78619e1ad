# rmk_config_reel

Firmware logic of the ReeL split keyboard (two XIAO nRF52840 halves running RMK), written in
Verus: every function in `src/` carries a contract. Verus proves them all, except those of
the trusted wrappers around outside calls, which rest on the outside source.

- `src/` — the verified library: the trackball pipeline (calibration record, transform,
  adaptive heading filter, gain, direction-preserving report chunks, start-up and report decisions),
  the rotary encoder (frame decoder, sampled decoder, trace, log format and its replay, USB
  session), the Sharp LCD framebuffer and status screen, the diagnostic view, and the small
  decisions of the firmware tasks. `src/clock.rs` and `src/quick_mod_tap.rs` hold the calls
  into embassy-time and rmk-types, each behind a trusted wrapper whose contract says what
  the outside source gives.
- `tests/` — tests on concrete values, run against the compiled library.
- `app/` — ordinary Rust around the library: the host replay tool (`main.rs`) and the
  firmware glue in `app/firmware/` (peripherals, interrupts, timers, RMK events and
  drawing), which hands plain values to the library and acts on what it returns.
