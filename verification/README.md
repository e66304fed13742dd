# ue2emu (verified core)

The pure logic of the ue2 emulator front end and its disk-image tool, written in Verus and
proved against its contracts.

- `src/c64host.rs`: the C64 host interface: ROM windows, character sets, the frame, the backend,
  cartridge-slot and drive traits, and the register reset values.
- `src/cartslot.rs`: the `--cart-slot` option grammar, the debounced write-back state machine of
  the physical cartridge slot, `cart-info` / `cart-save` answers, and the temporary and backup
  file names of a CRT write.
- `src/mkimage.rs`: `ue2-mkimage` argument and `--size` parsing, the pre-build checks and the
  summary line.
- `src/window.rs`: letterboxed integer-scaled placement, the nearest-neighbour blit, and the
  redraw / title schedule.
- `src/keys.rs`: reference-counted held host keys and the window's key handling.
- `app/`: the file-system and process side (CRT reads and atomic writes, stale temporary sweep,
  the tool's command line from the environment).
