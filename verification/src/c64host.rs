//! The C64 behind the cart/DMA registers, seen from the core: the backend trait that the C64 device
//! drives and the frame it publishes. No emulator types cross this boundary.

use vstd::prelude::*;

verus! {

/// U64 ROM windows.
#[derive(Clone, Copy, Debug, PartialEq, Eq)]
pub enum C64Rom {
    /// U64_BASIC_BASE 0x10188000, 8 K, mapped at $A000.
    Basic,
    /// U64_KERNAL_BASE 0x1018A000, 8 K, mapped at $E000.
    Kernal,
    /// U64_CHARROM_BASE 0x1018C000, 4 K, mapped at $D000.
    Char,
}

/// The character set the VIC draws the text screen with, which decides how the text dump reads it.
#[derive(Clone, Copy, Debug, PartialEq, Eq)]
pub enum C64Charset {
    /// CHAR ROM upper case and graphics (character base $1000).
    Upper,
    /// CHAR ROM lower and upper case (character base $1800).
    Lower,
    /// A character set in RAM, e.g. the Freeze UI's `chars.bin` at $0800.
    Ram,
}

impl Default for C64Charset {
    /// Upper case and graphics.
    fn default() -> (c: C64Charset)
        ensures
            c == C64Charset::Upper,
    {
        C64Charset::Upper
    }
}

/// The last complete video frame of the C64 and its text screen.
#[derive(Clone, Debug, PartialEq, Eq)]
pub struct C64Frame {
    pub width: usize,
    pub height: usize,
    /// `width × height` colour indices 0-15, row by row.
    pub indices: Vec<u8>,
    /// 0x00RRGGBB per colour index: C64_PALETTE 0x10180800 as the firmware wrote it.
    pub palette: [u32; 16],
    /// The 1000 screen codes the VIC shows: 40×25 at `$D018 >> 4 << 10` in the VIC bank.
    pub screen: Vec<u8>,
    pub charset: C64Charset,
}

impl Default for C64Frame {
    /// An empty 0×0 frame: no indices, an all-black palette, no screen codes, upper case.
    fn default() -> (f: C64Frame)
        ensures
            f.width == 0,
            f.height == 0,
            f.indices@.len() == 0,
            forall|i: int| 0 <= i < 16 ==> f.palette@[i] == 0,
            f.screen@.len() == 0,
            f.charset == C64Charset::Upper,
    {
        C64Frame {
            width: 0,
            height: 0,
            indices: Vec::new(),
            palette: [0u32; 16],
            screen: Vec::new(),
            charset: C64Charset::Upper,
        }
    }
}

/// U64_CART_DETECT with an empty expansion port: GAME and EXROM pulled up, `(v & 3) == 3`.
pub const CART_DETECT_NONE: u8 = 0x03;

/// Half-track positions of a 1541 head on side 0: the floppy stream stops the stepper at 83.
pub const DRIVE_HALF_TRACKS: usize = 84;

/// A C64 driven by the C64 device. Addresses are C64 bus addresses; `now` is the 100 MHz clock.
pub trait C64Backend {
    /// Run the C64 up to `now` (monotonic). The first call anchors the C64 clock to `now`. While
    /// stopped only the chips run, while the reset is held only the VIC.
    fn advance_to(&mut self, now: u64);

    /// Hold (`true`) or release the reset line (C64_MODE bits 2/3). A release warm-resets the C64
    /// with the cartridge last given to [`C64Backend::set_cart`].
    fn set_reset(&mut self, held: bool);

    /// Hold the 6510 (C64_STOP bit 0) while VIC, CIAs and SID keep running.
    fn set_stopped(&mut self, stopped: bool);

    /// Force the ULTIMAX decode of the freezer cartridge (C64_MODE bit 1).
    fn set_ultimax(&mut self, on: bool);

    /// NMI line level: C64_MODE bit 4, MATRIX_KEYB[9] and the host RESTORE key together.
    fn set_nmi(&mut self, level: bool);

    /// One DMA read (0x10050000 + addr). `mem_only`: C64_DMA_MEMONLY, RAM without I/O or ROM.
    fn dma_read(&mut self, addr: u16, mem_only: bool) -> u8;

    /// One DMA write (0x10050000 + addr).
    fn dma_write(&mut self, addr: u16, val: u8, mem_only: bool);

    /// What a DMA read would return, without side effects (debugger). Takes `&self`, so a peek
    /// cannot run the C64; the cartridge serves its ROM and RAM windows here only while DDR is lent
    /// around the call ([`C64Backend::lend_ddr`]), and reads them as not served otherwise.
    fn dma_peek(&self, addr: u16) -> u8;

    fn rom_write(&mut self, rom: C64Rom, off: u16, val: u8);

    fn rom_read(&self, rom: C64Rom, off: u16) -> u8;

    /// (Re)build the cartridge from C64_CARTRIDGE_TYPE (type | variant) and the cart ROM copied to
    /// DDR 0x03C00000 (`rom`, 16 K). The cartridge starts enabled.
    fn set_cart(&mut self, type_variant: u8, rom: &[u8]);

    /// C64_CARTRIDGE_KILL bit 0: disable the cartridge.
    fn kill_cart(&mut self);

    /// C64_CARTRIDGE_ACTIVE bit 0.
    fn cart_active(&self) -> bool;

    /// C64_PALETTE RGB byte `off` of 16 × {R,G,B,pad}.
    fn set_palette_byte(&mut self, off: u8, val: u8);

    /// Host key at the key-matrix position.
    fn set_key(&mut self, row: u8, col: u8, down: bool);

    /// MATRIX_KEYB [0..7]: bit b of `rows[a]` = key (a, b) pressed, ORed with the host keys.
    fn set_matrix_keyb(&mut self, rows: [u8; 8]);

    /// Joystick port 1 or 2, lines active low (bit 0 up, 1 down, 2 left, 3 right, 4 fire).
    fn set_joystick(&mut self, port: u8, lines: u8);

    fn frame(&self) -> C64Frame;

    /// C64 core config latch 0x10180000 + `off` was written. The SID decode and UltiSID settings
    /// reach the backend here. Ignored by default.
    fn core_config_write(&mut self, _off: u8, _val: u8) {
    }

    /// Lend guest DDR (64 MB) for the backend calls that follow, or take it back with `None`. The
    /// device lends the guest RAM at the start of every access that can run the C64 or reach its bus
    /// and takes it back before the access returns, so the cartridge logic reads its ROM at
    /// 0x03C00000 and its RAM at 0x00EF0000 live. A backend must not use the memory once it is
    /// taken back. Default: ignored.
    fn lend_ddr(&mut self, _ddr: Option<&mut [u8]>) {
    }

    /// EEPROM_BASE 0x1004C000 + `off`: the dirty flag below +0x800, the 2 K GMOD2 EEPROM above.
    /// Reads 0 by default.
    fn eeprom_read(&self, _off: u16) -> (v: u8)
        default_ensures
            v == 0,
    {
        0
    }

    fn eeprom_write(&mut self, _off: u16, _val: u8) {
    }

    /// The freeze button of freezer cartridges, MATRIX_KEYB[10].
    fn set_freeze_button(&mut self, _down: bool) {
    }

    /// Disk drive `unit` (0 = drive A) on this C64's IEC bus, or None if the backend has none.
    fn drive(&mut self, _unit: u8) -> (d: Option<&mut dyn C64Drive>)
        default_ensures
            d is None,
    {
        None
    }

    /// U64_CART_DETECT (0x10100403): bit 0 GAME, bit 1 EXROM of the external expansion port,
    /// 1 = released. [`CART_DETECT_NONE`] without a cartridge in the port.
    fn cart_detect(&self) -> (v: u8)
        default_ensures
            v == CART_DETECT_NONE,
    {
        CART_DETECT_NONE
    }

    /// The cartridge in the physical expansion port, or None if the port is empty.
    fn cart_slot(&mut self) -> (s: Option<&mut dyn C64CartSlot>)
        default_ensures
            s is None,
    {
        None
    }
}

/// What `cart-info` reports about the physical cartridge.
#[derive(Clone, Debug, PartialEq, Eq)]
pub struct CartSlotInfo {
    /// Name from the CRT header.
    pub name: String,
    /// CRT hardware type (header offset 0x16).
    pub hw_type: u16,
    /// Cartridge family, e.g. "EasyFlash".
    pub family: String,
    /// The model serving it: "trx64" (TRX64's mapper), "trx64-flash" (a flash board on TRX64's
    /// chip models) or "u64-logic" (the U64 FPGA cartridge logic).
    pub model: String,
    /// Banks the cartridge holds.
    pub banks: usize,
    /// EXROM and GAME as the cartridge drives them, 1 = released.
    pub exrom: u8,
    pub game: u8,
    /// C64_BUS_INTERNAL and C64_BUS_EXTERNAL (0x1018002B/2C) as last written: bit 0 IO1, 1 IO2,
    /// 2 ROM, 3 IRQ.
    pub bus_internal: u8,
    pub bus_external: u8,
    /// C64_BUS_BRIDGE (0x1018002A) as last written: bit 0 mirrors writes to the expansion port.
    pub bus_bridge: u8,
    /// The flash command decode of a flash cartridge: "11", "15" or "both"; None for ROM
    /// cartridges.
    pub flash_decode: Option<String>,
    /// Flash or EEPROM changed since the cartridge was inserted.
    pub dirty: bool,
    /// Mutation counter of flash and EEPROM.
    pub generation: u64,
    /// The cartridge has flash or EEPROM that a CRT written by [`C64CartSlot::crt_image`] carries.
    pub writable: bool,
}

impl Default for CartSlotInfo {
    /// Empty strings, zero numbers, no flash decode, not dirty, not writable.
    fn default() -> (i: CartSlotInfo)
        ensures
            i.name@.len() == 0,
            i.hw_type == 0,
            i.family@.len() == 0,
            i.model@.len() == 0,
            i.banks == 0,
            i.exrom == 0,
            i.game == 0,
            i.bus_internal == 0,
            i.bus_external == 0,
            i.bus_bridge == 0,
            i.flash_decode is None,
            !i.dirty,
            i.generation == 0,
            !i.writable,
    {
        CartSlotInfo {
            name: String::new(),
            hw_type: 0,
            family: String::new(),
            model: String::new(),
            banks: 0,
            exrom: 0,
            game: 0,
            bus_internal: 0,
            bus_external: 0,
            bus_bridge: 0,
            flash_decode: None,
            dirty: false,
            generation: 0,
            writable: false,
        }
    }
}

/// A cartridge in the physical expansion port, independent of the internal cartridge emulation.
pub trait C64CartSlot {
    fn info(&self) -> CartSlotInfo;

    /// The cartridge as it is now, as a CRT: the inserted header and chip packets with their data
    /// taken from the cartridge (flash, EEPROM), plus packets for flash banks the inserted CRT did
    /// not have that are no longer erased.
    fn crt_image(&mut self) -> Result<Vec<u8>, String>;

    /// Mutation counter of flash and EEPROM; a change means `crt_image` differs.
    fn generation(&self) -> u64;
}

/// What the firmware drives through the drive registers.
#[derive(Clone, Copy, Debug, PartialEq, Eq)]
pub struct DriveLines {
    /// POWER bit 0: the drive CPU is clocked and may pull the IEC lines.
    pub power: bool,
    /// RESET bit 0: the drive CPU is held in reset. A release starts it from its ROM.
    pub reset: bool,
    /// RESET bit 1: the C64's reset resets the drive too.
    pub follow_c64_reset: bool,
    /// RESET bit 2: the drive stops while the C64 is stopped.
    pub stop_on_freeze: bool,
    /// HW_ADDR bits 1:0: device 8 + n, the VIA1 PB5/PB6 jumpers.
    pub device: u8,
    /// SENSOR bit 0 clear: the write-protect photo sensor is dark.
    pub write_protect: bool,
    /// DRIVETYPE bits 1:0: 0 = 1541, 1 = 1571, 2 = 1581.
    pub drive_type: u8,
}

impl Default for DriveLines {
    /// The register reset values: off, held in reset, sensor dark.
    fn default() -> (l: DriveLines)
        ensures
            !l.power,
            l.reset,
            l.follow_c64_reset,
            l.stop_on_freeze,
            l.device == 0,
            l.write_protect,
            l.drive_type == 0,
    {
        DriveLines {
            power: false,
            reset: true,
            follow_c64_reset: true,
            stop_on_freeze: true,
            device: 0,
            write_protect: true,
            drive_type: 0,
        }
    }
}

/// Head, motor and LED of a drive, as the drive registers report them.
#[derive(Clone, Copy, Debug, PartialEq, Eq)]
pub struct DriveStatus {
    /// Head position in half-tracks, 0 = track 1 (TRACK).
    pub half_track: u8,
    /// Spindle motor on, VIA2 PB2 (STATUS bit 0).
    pub motor: bool,
    /// Head in write mode, VIA2 CB2 low (STATUS bit 1).
    pub writing: bool,
    /// Activity LED, VIA2 PB3. No register reports it.
    pub led: bool,
}

impl Default for DriveStatus {
    /// Head on track 1, motor off, reading, LED off.
    fn default() -> (s: DriveStatus)
        ensures
            s.half_track == 0,
            !s.motor,
            !s.writing,
            !s.led,
    {
        DriveStatus { half_track: 0, motor: false, writing: false, led: false }
    }
}

/// A drive driven by the drive registers. The firmware owns the disk: it hands the drive GCR bytes
/// per half-track and takes back what the drive wrote.
pub trait C64Drive {
    /// Apply the firmware's lines. A reset release (RESET bit 0, or the C64's reset with
    /// `follow_c64_reset`) starts the drive CPU from `rom`, the 32 K image at drive area + 0x8000
    /// that the CPU sees at $8000-$FFFF.
    fn set_lines(&mut self, lines: DriveLines, rom: &[u8]);

    /// The surface at `half_track` (side 0) now holds `gcr`, one byte per 8 bit cells, wrapping at
    /// its end.
    fn set_track(&mut self, half_track: u8, gcr: &[u8]);

    /// The surface at `half_track`, including what the drive wrote.
    fn track(&self, half_track: u8) -> &[u8];

    /// Half-tracks the drive may have written since the last call, bit n = half-track n.
    fn take_written(&mut self) -> u128;

    fn status(&self) -> DriveStatus;

    /// Copy the drive CPU's RAM from $0000 into `out` (at most $0800 bytes).
    fn read_ram(&self, out: &mut [u8]);
}

} // verus!
