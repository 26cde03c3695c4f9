# norbert

A patient SPI-NOR flasher for the Pico de Gallo USB bridge: it identifies a
flash chip (JEDEC id, SFDP, or a small table of known parts), erases,
programs, verifies and reads it back, and can run a wiring check-up.

## Layout

- `src/` — the verified library (Verus). Every operation on the flash is
  planned here as a *script*: SPI transactions, status polls, waits, bus
  hold and release, read-back checks and progress counts. Decisions that
  depend on the chip's answers (detection, status polls, read-back checks)
  are made here too, one answer at a time.
  - `profile.rs` — flash geometry, the erase menu and the erase planner.
  - `sfdp.rs` — SFDP header, parameter header and BFPT decoding.
  - `catalog.rs` — known part names and the no-SFDP fallback table.
  - `flash.rs` — command encoding, the scripts of every flash operation,
    detection, and the laws of chunking, page splitting and read-back.
  - `chip.rs` — a model of a SPI-NOR chip, and the laws that erasing,
    programming and reading the library's scripts leave the image in flash.
  - `ui.rs`, `voice.rs`, `text.rs` — everything the tool prints, for humans
    and for scripts.
  - `commands.rs`, `diagnose.rs`, `cli.rs`, `error.rs` — what each command
    checks, plans and says.
- `app/` — the program: argument parsing, the USB bridge, running scripts on
  the hardware with real time and Ctrl-C handling, progress bars.
- `tests/` — the library's tests, including a behavioural chip that runs
  the scripts the way the host does.
