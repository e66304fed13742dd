//! Verified logic of the ue2 emulator front end: the C64 host interface types, the cartridge-slot
//! options and write-back state machine, the disk-image tool's argument parsing, and the window's
//! placement, scaling and held-key bookkeeping.

mod text;
pub mod c64host;
pub mod cartslot;
pub mod mkimage;
pub mod window;
pub mod keys;
