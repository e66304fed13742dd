//! `--cart-slot FILE.crt[,rw|,save=OUT.crt][,flash-decode=11|15|both]`: a cartridge in the physical
//! expansion port, and how its flash and EEPROM changes reach a CRT file; the `cart-info` and
//! `cart-save` control commands.
//!
//! - Default (`,ro`): the source file is never written.
//! - `,rw`: the current cartridge goes back into the source file on a clean exit, and while running
//!   once flash and EEPROM have been quiet for [`DEBOUNCE_MS`] emulated. Each write goes to a
//!   temporary file that replaces the target; before the first one the existing file is copied to
//!   `FILE.crt.bak`.
//! - `,save=OUT.crt`: the same debounced writes into OUT.crt, without a backup; a clean exit always
//!   writes it.
//! - `,flash-decode=11|15|both`: the command addresses a flash cartridge decodes (default `both`).
//!
//! The file system stays with the caller: [`CartSlot`] decides when a write is due and what it is,
//! the caller performs it and reports back what happened.

use vstd::prelude::*;

use crate::c64host::CartSlotInfo;
use crate::text::{lemma_decimal_digits, decimal, hex2, push_decimal, push_hex2, push_str, debug_quoted, starts_with, str_debug, string_of, sub_vec, range_eq, range_starts_with, chars_of};

verus! {

/// Emulated quiet time after the last flash or EEPROM change before a running `,rw` / `,save=`
/// writes the CRT.
pub const DEBOUNCE_MS: u64 = 2000;

/// Where the cartridge's changes go.
#[derive(Clone, Debug, PartialEq, Eq)]
pub enum Persist {
    ReadOnly,
    WriteBack,
    SaveTo(String),
}

/// [`Persist`] with its file name as characters.
pub enum PersistView {
    ReadOnly,
    WriteBack,
    SaveTo(Seq<char>),
}

impl View for Persist {
    type V = PersistView;

    open spec fn view(&self) -> PersistView {
        match self {
            Persist::ReadOnly => PersistView::ReadOnly,
            Persist::WriteBack => PersistView::WriteBack,
            Persist::SaveTo(out) => PersistView::SaveTo(out@),
        }
    }
}

/// A parsed `--cart-slot` argument.
#[derive(Clone, Debug, PartialEq, Eq)]
pub struct CartSlotSpec {
    pub path: String,
    pub persist: Persist,
    /// `flash-decode=`: "11", "15" or "both" (the default).
    pub flash_decode: String,
}

/// [`CartSlotSpec`] with its strings as characters.
pub struct CartSlotSpecView {
    pub path: Seq<char>,
    pub persist: PersistView,
    pub flash_decode: Seq<char>,
}

impl View for CartSlotSpec {
    type V = CartSlotSpecView;

    open spec fn view(&self) -> CartSlotSpecView {
        CartSlotSpecView { path: self.path@, persist: self.persist@, flash_decode: self.flash_decode@ }
    }
}

/// `i` is the position of the last comma of `s`.
pub open spec fn is_last_comma(s: Seq<char>, i: int) -> bool {
    &&& 0 <= i < s.len()
    &&& s[i] == ','
    &&& forall|j: int| i < j < s.len() ==> s[j] != ','
}

/// The position of the last comma of `s`, if it has one.
pub open spec fn last_comma(s: Seq<char>) -> Option<int> {
    if exists|i: int| is_last_comma(s, i) {
        Some(choose|i: int| is_last_comma(s, i))
    } else {
        None
    }
}

/// The error for a `flash-decode=` value other than 11, 15 and both, given the value as Rust's
/// `Debug` quotes it.
pub open spec fn flash_decode_error_text(quoted: Seq<char>) -> Seq<char> {
    "flash-decode must be 11, 15 or both, not "@ + quoted
}

/// The end of parsing: what is left is the file name.
pub open spec fn spec_parse_end(
    rest: Seq<char>,
    persist: Option<PersistView>,
    decode: Option<Seq<char>>,
) -> Result<CartSlotSpecView, Seq<char>> {
    if rest.len() == 0 {
        Err("needs a .crt file"@)
    } else {
        Ok(
            CartSlotSpecView {
                path: rest,
                persist: match persist {
                    Some(p) => p,
                    None => PersistView::ReadOnly,
                },
                flash_decode: match decode {
                    Some(d) => d,
                    None => "both"@,
                },
            },
        )
    }
}

/// Parsing of `rest`, whose options after it have set `persist` and `decode`: options are taken
/// from the end while they parse as options, so the file name may contain commas; a `save=` file
/// name may not.
pub open spec fn spec_parse_from(
    rest: Seq<char>,
    persist: Option<PersistView>,
    decode: Option<Seq<char>>,
) -> Result<CartSlotSpecView, Seq<char>>
    decreases rest.len(),
{
    match last_comma(rest) {
        None => spec_parse_end(rest, persist, decode),
        Some(i) => {
            let head = rest.take(i);
            let option = rest.skip(i + 1);
            if option == "rw"@ {
                if persist is Some {
                    Err("give one of ro, rw and save="@)
                } else {
                    spec_parse_from(head, Some(PersistView::WriteBack), decode)
                }
            } else if option == "ro"@ {
                if persist is Some {
                    Err("give one of ro, rw and save="@)
                } else {
                    spec_parse_from(head, Some(PersistView::ReadOnly), decode)
                }
            } else if starts_with(option, "save="@) {
                let out = option.skip("save="@.len() as int);
                if out.len() == 0 {
                    Err("',save=' needs a file name"@)
                } else if persist is Some {
                    Err("give one of ro, rw and save="@)
                } else {
                    spec_parse_from(head, Some(PersistView::SaveTo(out)), decode)
                }
            } else if starts_with(option, "flash-decode="@) {
                let d = option.skip("flash-decode="@.len() as int);
                if !(d == "11"@ || d == "15"@ || d == "both"@) {
                    Err(flash_decode_error_text(str_debug(d)))
                } else if decode is Some {
                    Err("flash-decode is given twice"@)
                } else {
                    spec_parse_from(head, persist, Some(d))
                }
            } else {
                spec_parse_end(rest, persist, decode)
            }
        },
    }
}

/// What parsing a `--cart-slot` argument gives: the option, or the message why it is refused.
pub open spec fn spec_parse(s: Seq<char>) -> Result<CartSlotSpecView, Seq<char>> {
    spec_parse_from(s, None, None)
}


proof fn lemma_last_comma(s: Seq<char>, k: int)
    requires
        is_last_comma(s, k),
    ensures
        last_comma(s) == Some(k),
{
    let c = choose|i: int| is_last_comma(s, i);
    assert(is_last_comma(s, c));
    if c < k {
        assert(s[k] != ',');
    } else if k < c {
        assert(s[c] != ',');
    }
}

proof fn lemma_no_comma(s: Seq<char>)
    requires
        forall|j: int| 0 <= j < s.len() ==> s[j] != ',',
    ensures
        last_comma(s) is None,
{
    if exists|i: int| is_last_comma(s, i) {
        let c = choose|i: int| is_last_comma(s, i);
        assert(s[c] == ',');
    }
}

/// [`Persist`] options by their characters.
pub open spec fn persist_view_of(p: Option<Persist>) -> Option<PersistView> {
    match p {
        Some(p) => Some(p@),
        None => None,
    }
}

/// Optional characters by their view.
pub open spec fn chars_view_of(d: Option<Vec<char>>) -> Option<Seq<char>> {
    match d {
        Some(d) => Some(d@),
        None => None,
    }
}

/// The error for a refused `flash-decode=` value, from the value as `Debug` quotes it.
pub fn flash_decode_error(quoted: &str) -> (e: String)
    ensures
        e@ == flash_decode_error_text(quoted@),
{
    let mut v: Vec<char> = Vec::new();
    crate::text::push_str(&mut v, "flash-decode must be 11, 15 or both, not ");
    crate::text::push_str(&mut v, quoted);
    string_of(&v)
}

impl CartSlotSpec {
    /// Parses a `--cart-slot` argument. Options are taken from the end while they parse as
    /// options, so the file name may contain commas; a `save=` file name may not.
    pub fn parse(s: &str) -> (r: Result<CartSlotSpec, String>)
        ensures
            match r {
                Ok(spec) => spec_parse(s@) == Ok::<CartSlotSpecView, Seq<char>>(spec@),
                Err(e) => spec_parse(s@) == Err::<CartSlotSpecView, Seq<char>>(e@),
            },
    {
        let cs = chars_of(s);
        let rw = chars_of("rw");
        let ro = chars_of("ro");
        let save = chars_of("save=");
        let flash = chars_of("flash-decode=");
        let d11 = chars_of("11");
        let d15 = chars_of("15");
        let dboth = chars_of("both");
        let mut end: usize = cs.len();
        let mut persist: Option<Persist> = None;
        let mut decode: Option<Vec<char>> = None;
        assert(cs@.take(end as int) =~= s@);
        loop
            invariant
                end <= cs.len(),
                cs@ == s@,
                rw@ == "rw"@,
                ro@ == "ro"@,
                save@ == "save="@,
                flash@ == "flash-decode="@,
                d11@ == "11"@,
                d15@ == "15"@,
                dboth@ == "both"@,
                spec_parse_from(cs@.take(end as int), persist_view_of(persist), chars_view_of(decode))
                    == spec_parse(s@),
            ensures
                end <= cs.len(),
                cs@ == s@,
                spec_parse_end(cs@.take(end as int), persist_view_of(persist), chars_view_of(decode))
                    == spec_parse(s@),
            decreases end,
        {
            let ghost rest = cs@.take(end as int);
            let mut i: usize = end;
            while i > 0 && cs[i - 1] != ','
                invariant
                    i <= end <= cs.len(),
                    forall|j: int| i <= j < end ==> cs@[j] != ',',
                decreases i,
            {
                i = i - 1;
            }
            if i == 0 {
                proof {
                    lemma_no_comma(rest);
                }
                break;
            }
            let k: usize = i - 1;
            proof {
                lemma_last_comma(rest, k as int);
                assert(rest.take(k as int) =~= cs@.take(k as int));
                assert(rest.skip(k + 1) =~= cs@.subrange(k + 1, end as int));
            }
            let ghost option = cs@.subrange(k + 1, end as int);
            if range_eq(&cs, k + 1, end, &rw) || range_eq(&cs, k + 1, end, &ro) {
                if persist.is_some() {
                    return Err("give one of ro, rw and save=".to_owned());
                }
                if range_eq(&cs, k + 1, end, &rw) {
                    persist = Some(Persist::WriteBack);
                } else {
                    persist = Some(Persist::ReadOnly);
                }
                end = k;
            } else if range_starts_with(&cs, k + 1, end, &save) {
                let out = sub_vec(&cs, k + 1 + save.len(), end);
                assert(out@ =~= option.skip("save="@.len() as int));
                if out.len() == 0 {
                    return Err("',save=' needs a file name".to_owned());
                }
                if persist.is_some() {
                    return Err("give one of ro, rw and save=".to_owned());
                }
                persist = Some(Persist::SaveTo(string_of(&out)));
                end = k;
            } else if range_starts_with(&cs, k + 1, end, &flash) {
                let d = sub_vec(&cs, k + 1 + flash.len(), end);
                assert(d@ =~= option.skip("flash-decode="@.len() as int));
                if !(range_eq(&d, 0, d.len(), &d11) || range_eq(&d, 0, d.len(), &d15) || range_eq(
                    &d,
                    0,
                    d.len(),
                    &dboth,
                )) {
                    assert(d@.subrange(0, d@.len() as int) =~= d@);
                    let shown = string_of(&d);
                    let quoted = debug_quoted(shown.as_str());
                    return Err(flash_decode_error(quoted.as_str()));
                }
                assert(d@.subrange(0, d@.len() as int) =~= d@);
                if decode.is_some() {
                    return Err("flash-decode is given twice".to_owned());
                }
                decode = Some(d);
                end = k;
            } else {
                break;
            }
        }
        if end == 0 {
            return Err("needs a .crt file".to_owned());
        }
        let path = string_of(&sub_vec(&cs, 0, end));
        assert(cs@.subrange(0, end as int) =~= cs@.take(end as int));
        let persist = match persist {
            Some(p) => p,
            None => Persist::ReadOnly,
        };
        let flash_decode = match decode {
            Some(d) => string_of(&d),
            None => "both".to_owned(),
        };
        Ok(CartSlotSpec { path, persist, flash_decode })
    }
}


impl std::str::FromStr for CartSlotSpec {
    type Err = String;

    /// See [`CartSlotSpec::parse`].
    fn from_str(s: &str) -> (r: Result<CartSlotSpec, String>)
        ensures
            match r {
                Ok(spec) => spec_parse(s@) == Ok::<CartSlotSpecView, Seq<char>>(spec@),
                Err(e) => spec_parse(s@) == Err::<CartSlotSpecView, Seq<char>>(e@),
            },
    {
        CartSlotSpec::parse(s)
    }
}

/// The file the changes go to, if any.
pub open spec fn spec_target(spec: CartSlotSpecView) -> Option<Seq<char>> {
    match spec.persist {
        PersistView::ReadOnly => None,
        PersistView::WriteBack => Some(spec.path),
        PersistView::SaveTo(out) => Some(out),
    }
}

/// `ro`, `rw` or `save=OUT`.
pub open spec fn spec_mode(spec: CartSlotSpecView) -> Seq<char> {
    match spec.persist {
        PersistView::ReadOnly => "ro"@,
        PersistView::WriteBack => "rw"@,
        PersistView::SaveTo(out) => "save="@ + out,
    }
}

impl CartSlotSpec {
    /// The file the changes go to, if any.
    pub fn target(&self) -> (t: Option<&String>)
        ensures
            match t {
                Some(p) => spec_target(self@) == Some(p@),
                None => spec_target(self@) is None,
            },
    {
        match &self.persist {
            Persist::ReadOnly => None,
            Persist::WriteBack => Some(&self.path),
            Persist::SaveTo(out) => Some(out),
        }
    }

    /// `ro`, `rw` or `save=OUT`.
    pub fn mode(&self) -> (m: String)
        ensures
            m@ == spec_mode(self@),
    {
        match &self.persist {
            Persist::ReadOnly => "ro".to_owned(),
            Persist::WriteBack => "rw".to_owned(),
            Persist::SaveTo(out) => {
                let mut v: Vec<char> = Vec::new();
                crate::text::push_str(&mut v, "save=");
                crate::text::push_str(&mut v, out.as_str());
                string_of(&v)
            },
        }
    }
}


/// A control request for the cartridge.
#[derive(Clone, Debug, PartialEq, Eq)]
pub enum CartRequest {
    /// `cart-info`.
    Info,
    /// `cart-save <path>`.
    Save(String),
}

/// A write of the cartridge, as a CRT, to `path` that is due; with `keep_bak` an existing file is
/// first copied to `<path>.bak`.
#[derive(Clone, Debug, PartialEq, Eq)]
pub struct CartWrite {
    pub path: String,
    pub keep_bak: bool,
}

/// A CRT image written to a file: its size, the flash/EEPROM generation taken right after the
/// image, and whether the file is the slot's own target.
#[derive(Clone, Copy, Debug, PartialEq, Eq)]
pub struct SaveDone {
    pub bytes: usize,
    pub generation: u64,
    pub same_as_target: bool,
}

/// The outside work done for a [`CartRequest`]: for `Info`, the cartridge's report if the port
/// holds one; for `Save`, the path and how writing it went.
#[derive(Debug, PartialEq, Eq)]
pub enum CartOutcome {
    Info(Option<CartSlotInfo>),
    Save(String, Result<SaveDone, String>),
}

/// The emulation thread's side: debounced write-back, the final write on a clean exit,
/// `cart-info` and `cart-save`.
pub struct CartSlot {
    spec: Option<CartSlotSpec>,
    /// Flash/EEPROM generation of the last write to the target (or at insertion).
    saved: u64,
    /// Generation at the last poll, and the emulated ms it was first seen.
    seen: u64,
    changed_ms: u64,
    /// The `.bak` of a `,rw` source exists.
    bak_done: bool,
}

/// The state of a [`CartSlot`].
pub struct CartSlotView {
    pub spec: Option<CartSlotSpecView>,
    pub saved: u64,
    pub seen: u64,
    pub changed_ms: u64,
    pub bak_done: bool,
}

/// An optional option by its view.
pub open spec fn spec_view_of(spec: Option<CartSlotSpec>) -> Option<CartSlotSpecView> {
    match spec {
        Some(s) => Some(s@),
        None => None,
    }
}

impl View for CartSlot {
    type V = CartSlotView;

    closed spec fn view(&self) -> CartSlotView {
        CartSlotView {
            spec: spec_view_of(self.spec),
            saved: self.saved,
            seen: self.seen,
            changed_ms: self.changed_ms,
            bak_done: self.bak_done,
        }
    }
}

/// The file a slot writes its changes to, if any.
pub open spec fn slot_target(v: CartSlotView) -> Option<Seq<char>> {
    match v.spec {
        Some(s) => spec_target(s),
        None => None,
    }
}

/// Whether the next write of the target keeps a backup first: a `,rw` source before its first
/// successful write.
pub open spec fn slot_keep_bak(v: CartSlotView) -> bool {
    &&& v.spec matches Some(s)
    &&& s.persist is WriteBack
    &&& !v.bak_done
}

/// `job` is the write of the slot's target, if the slot has one.
pub open spec fn is_target_write(job: Option<CartWrite>, v: CartSlotView) -> bool {
    match slot_target(v) {
        Some(t) => job matches Some(w) && w.path@ == t && w.keep_bak == slot_keep_bak(v),
        None => job is None,
    }
}

/// A poll at `now_ms` with the cartridge's generation (None: the port is empty): the next state,
/// and whether the target is written now. A change restarts the quiet time; a write is due once
/// the generation has been quiet for [`DEBOUNCE_MS`] and differs from the one last written.
pub open spec fn spec_poll(v: CartSlotView, generation: Option<u64>, now_ms: u64) -> (
    CartSlotView,
    bool,
) {
    if slot_target(v) is None || generation is None {
        (v, false)
    } else {
        let g = generation->0;
        if g != v.seen {
            (CartSlotView { seen: g, changed_ms: now_ms, ..v }, false)
        } else {
            (v, g != v.saved && now_ms >= v.changed_ms + DEBOUNCE_MS)
        }
    }
}

/// Whether a clean exit writes the target: `,save=` whenever a cartridge is in the port, `,rw` only
/// if the cartridge changed since the last write.
pub open spec fn spec_finish_due(v: CartSlotView, generation: Option<u64>) -> bool {
    match v.spec {
        None => false,
        Some(s) => match s.persist {
            PersistView::ReadOnly => false,
            PersistView::SaveTo(_) => generation is Some,
            PersistView::WriteBack => generation matches Some(g) && g != v.saved,
        },
    }
}

/// The state after a CRT was written: a write of the target itself records its generation as
/// saved and seen.
pub open spec fn spec_after_save(v: CartSlotView, done: SaveDone) -> CartSlotView {
    if slot_target(v) is Some && done.same_as_target {
        CartSlotView { saved: done.generation, seen: done.generation, ..v }
    } else {
        v
    }
}

/// The state after a due write of the target: on success as [`spec_after_save`], with the backup
/// recorded; on failure the current generation counts as saved, so it is not retried until the
/// cartridge changes again.
pub open spec fn spec_written(v: CartSlotView, keep_bak: bool, outcome: Result<SaveDone, String>) -> CartSlotView {
    match outcome {
        Ok(done) => {
            let w = spec_after_save(v, done);
            CartSlotView { bak_done: w.bak_done || keep_bak, ..w }
        },
        Err(_) => CartSlotView { saved: v.seen, ..v },
    }
}

/// The log line of a due write.
pub open spec fn written_line(path: Seq<char>, outcome: Result<SaveDone, String>) -> Seq<char> {
    match outcome {
        Ok(done) => "cart-slot: wrote "@ + path + " ("@ + decimal(done.bytes as nat)
            + " bytes, flash generation "@ + decimal(done.generation as nat) + ")"@,
        Err(e) => "cart-slot: "@ + e@,
    }
}

/// How `cart-info` names the memory configuration that EXROM and GAME select.
pub open spec fn cart_mode_text(exrom: u8, game: u8) -> Seq<char> {
    if exrom == 0 && game == 0 {
        "16K"@
    } else if exrom == 0 {
        "8K"@
    } else if game == 0 {
        "ULTIMAX"@
    } else {
        "off"@
    }
}

/// `yes` or `no`.
pub open spec fn yes_no(b: bool) -> Seq<char> {
    if b {
        "yes"@
    } else {
        "no"@
    }
}

/// The lines `cart-info` answers for the cartridge `i`, given the slot's option and the
/// generation last written.
pub open spec fn info_lines(i: CartSlotInfo, spec: Option<CartSlotSpecView>, saved: u64) -> Seq<
    Seq<char>,
> {
    seq![
        "type: "@ + i.family@,
        "name: "@ + i.name@,
        "hardware: "@ + decimal(i.hw_type as nat),
        "model: "@ + i.model@,
        "banks: "@ + decimal(i.banks as nat),
        "exrom: "@ + decimal(i.exrom as nat),
        "game: "@ + decimal(i.game as nat),
        "mode: "@ + cart_mode_text(i.exrom, i.game),
        "cart_detect: 0x"@ + hex2(i.game | (i.exrom << 1u8)),
        "bus_internal: 0x"@ + hex2(i.bus_internal),
        "bus_external: 0x"@ + hex2(i.bus_external),
        "bus_bridge: 0x"@ + hex2(i.bus_bridge),
        "flash_decode: "@ + match i.flash_decode {
            Some(d) => d@,
            None => "-"@,
        },
        "source: "@ + match spec {
            Some(s) => s.path,
            None => "-"@,
        },
        "persist: "@ + match spec {
            Some(s) => spec_mode(s),
            None => "ro"@,
        },
        "writable: "@ + yes_no(i.writable),
        "dirty: "@ + yes_no(i.dirty),
        "generation: "@ + decimal(i.generation as nat),
        "saved_generation: "@ + decimal(saved as nat),
        "unsaved: "@ + yes_no(i.writable && i.generation != saved),
    ]
}

/// The lines of a `cart-save` answer.
pub open spec fn saved_lines(path: Seq<char>, done: SaveDone) -> Seq<Seq<char>> {
    seq![
        "saved: "@ + path,
        "bytes: "@ + decimal(done.bytes as nat),
        "generation: "@ + decimal(done.generation as nat),
    ]
}

/// Lines by their characters.
pub open spec fn lines_view(v: Seq<String>) -> Seq<Seq<char>> {
    v.map_values(|s: String| s@)
}

fn text_line(prefix: &str, value: &str) -> (s: String)
    ensures
        s@ == prefix@ + value@,
{
    let mut v: Vec<char> = Vec::new();
    push_str(&mut v, prefix);
    push_str(&mut v, value);
    string_of(&v)
}

fn decimal_line(prefix: &str, n: u64) -> (s: String)
    ensures
        s@ == prefix@ + decimal(n as nat),
{
    let mut v: Vec<char> = Vec::new();
    push_str(&mut v, prefix);
    push_decimal(&mut v, n);
    string_of(&v)
}

fn hex_line(prefix: &str, b: u8) -> (s: String)
    ensures
        s@ == prefix@ + hex2(b),
{
    let mut v: Vec<char> = Vec::new();
    push_str(&mut v, prefix);
    push_hex2(&mut v, b);
    string_of(&v)
}

fn push_line(lines: &mut Vec<String>, line: String)
    ensures
        lines_view(final(lines)@) == lines_view(old(lines)@).push(line@),
{
    lines.push(line);
    assert(lines_view(lines@) =~= lines_view(old(lines)@).push(line@));
}

impl CartSlot {
    /// A slot for `spec` (None without `--cart-slot`), with the cartridge's generation at
    /// insertion (None if the port is empty, taken as 0).
    pub fn new(spec: Option<CartSlotSpec>, generation: Option<u64>) -> (slot: CartSlot)
        ensures
            slot@ == (CartSlotView {
                spec: spec_view_of(spec),
                saved: match generation {
                    Some(g) => g,
                    None => 0,
                },
                seen: match generation {
                    Some(g) => g,
                    None => 0,
                },
                changed_ms: 0,
                bak_done: false,
            }),
    {
        let g = match generation {
            Some(g) => g,
            None => 0,
        };
        CartSlot { spec, saved: g, seen: g, changed_ms: 0, bak_done: false }
    }

    /// The file the slot writes its changes to, if any.
    pub fn target(&self) -> (t: Option<&String>)
        ensures
            match t {
                Some(p) => slot_target(self@) == Some(p@),
                None => slot_target(self@) is None,
            },
    {
        match &self.spec {
            Some(spec) => spec.target(),
            None => None,
        }
    }

    /// The source whose stale hidden temporary files are removed at insertion: that of a `,rw`
    /// slot, the only one that writes its own source.
    pub fn sweep_path(&self) -> (p: Option<&String>)
        ensures
            match self@.spec {
                Some(s) => match s.persist {
                    PersistView::WriteBack => p matches Some(q) && q@ == s.path,
                    _ => p is None,
                },
                None => p is None,
            },
    {
        match &self.spec {
            Some(s) => match &s.persist {
                Persist::WriteBack => Some(&s.path),
                _ => None,
            },
            None => None,
        }
    }

    /// The write of the target, if the slot has one.
    fn target_write(&self) -> (job: Option<CartWrite>)
        ensures
            is_target_write(job, self@),
    {
        match &self.spec {
            None => None,
            Some(spec) => match spec.target() {
                None => None,
                Some(t) => {
                    let keep_bak = match &spec.persist {
                        Persist::WriteBack => !self.bak_done,
                        _ => false,
                    };
                    Some(CartWrite { path: t.clone(), keep_bak })
                },
            },
        }
    }

    /// After each slice, with the cartridge's generation (None: the port is empty) at `now_ms`
    /// emulated: the write of the target that is due once the cartridge's changes have been quiet
    /// for [`DEBOUNCE_MS`]. Report how it went to [`CartSlot::written`].
    pub fn poll(&mut self, generation: Option<u64>, now_ms: u64) -> (job: Option<CartWrite>)
        ensures
            final(self)@ == spec_poll(old(self)@, generation, now_ms).0,
            if spec_poll(old(self)@, generation, now_ms).1 {
                is_target_write(job, old(self)@)
            } else {
                job is None
            },
    {
        let has_target = match &self.spec {
            Some(spec) => spec.target().is_some(),
            None => false,
        };
        if !has_target {
            return None;
        }
        let g = match generation {
            Some(g) => g,
            None => return None,
        };
        if g != self.seen {
            self.seen = g;
            self.changed_ms = now_ms;
            None
        } else if g != self.saved && self.changed_ms <= now_ms && now_ms - self.changed_ms
            >= DEBOUNCE_MS {
            self.target_write()
        } else {
            None
        }
    }

    /// On a clean exit, with the cartridge's generation (None: the port is empty): `,save=` always
    /// writes its file; `,rw` rewrites the source only if the cartridge changed since the last
    /// write.
    pub fn finish(&self, generation: Option<u64>) -> (job: Option<CartWrite>)
        ensures
            if spec_finish_due(self@, generation) {
                is_target_write(job, self@)
            } else {
                job is None
            },
    {
        let due = match &self.spec {
            None => false,
            Some(s) => match &s.persist {
                Persist::ReadOnly => false,
                Persist::SaveTo(_) => generation.is_some(),
                Persist::WriteBack => match generation {
                    Some(g) => g != self.saved,
                    None => false,
                },
            },
        };
        if due {
            self.target_write()
        } else {
            None
        }
    }

    fn record_save(&mut self, done: SaveDone)
        ensures
            final(self)@ == spec_after_save(old(self)@, done),
    {
        let has_target = match &self.spec {
            Some(spec) => spec.target().is_some(),
            None => false,
        };
        if has_target && done.same_as_target {
            self.saved = done.generation;
            self.seen = done.generation;
        }
    }

    /// How the due write `job` went; returns the line to log.
    pub fn written(&mut self, job: &CartWrite, outcome: Result<SaveDone, String>) -> (line: String)
        ensures
            final(self)@ == spec_written(old(self)@, job.keep_bak, outcome),
            line@ == written_line(job.path@, outcome),
    {
        match outcome {
            Ok(done) => {
                self.record_save(done);
                self.bak_done = self.bak_done || job.keep_bak;
                let mut v: Vec<char> = Vec::new();
                push_str(&mut v, "cart-slot: wrote ");
                push_str(&mut v, job.path.as_str());
                push_str(&mut v, " (");
                push_decimal(&mut v, done.bytes as u64);
                push_str(&mut v, " bytes, flash generation ");
                push_decimal(&mut v, done.generation);
                push_str(&mut v, ")");
                string_of(&v)
            },
            Err(e) => {
                self.saved = self.seen;
                text_line("cart-slot: ", e.as_str())
            },
        }
    }

    /// The answer to a control request, from the outside work done for it.
    pub fn request(&mut self, outcome: CartOutcome) -> (r: Result<Vec<String>, String>)
        ensures
            match outcome {
                CartOutcome::Info(i) => final(self)@ == old(self)@ && (match i {
                    Some(i) => r matches Ok(lines) && lines_view(lines@) == info_lines(
                        i,
                        old(self)@.spec,
                        old(self)@.saved,
                    ),
                    None => r matches Err(e) && e@
                        == "cart-info: no cartridge in the expansion port (--cart-slot)"@,
                }),
                CartOutcome::Save(path, Ok(done)) => final(self)@ == spec_after_save(
                    old(self)@,
                    done,
                ) && (r matches Ok(lines) && lines_view(lines@) == saved_lines(path@, done)),
                CartOutcome::Save(path, Err(e)) => final(self)@ == old(self)@ && (r matches Err(m)
                    && m@ == "cart-save: "@ + e@),
            },
    {
        match outcome {
            CartOutcome::Info(i) => self.info(i),
            CartOutcome::Save(path, Ok(done)) => {
                self.record_save(done);
                let mut lines: Vec<String> = Vec::new();
                push_line(&mut lines, text_line("saved: ", path.as_str()));
                push_line(&mut lines, decimal_line("bytes: ", done.bytes as u64));
                push_line(&mut lines, decimal_line("generation: ", done.generation));
                assert(lines_view(lines@) =~= saved_lines(path@, done));
                Ok(lines)
            },
            CartOutcome::Save(_, Err(e)) => Err(text_line("cart-save: ", e.as_str())),
        }
    }

    /// `cart-info`, given the cartridge's report (None: the port is empty).
    pub fn info(&self, info: Option<CartSlotInfo>) -> (r: Result<Vec<String>, String>)
        ensures
            match info {
                Some(i) => r matches Ok(lines) && lines_view(lines@) == info_lines(
                    i,
                    self@.spec,
                    self@.saved,
                ),
                None => r matches Err(e) && e@
                    == "cart-info: no cartridge in the expansion port (--cart-slot)"@,
            },
    {
        let i = match info {
            Some(i) => i,
            None => {
                return Err("cart-info: no cartridge in the expansion port (--cart-slot)".to_owned());
            },
        };
        let mode = if i.exrom == 0 && i.game == 0 {
            "16K"
        } else if i.exrom == 0 {
            "8K"
        } else if i.game == 0 {
            "ULTIMAX"
        } else {
            "off"
        };
        let mut lines: Vec<String> = Vec::new();
        push_line(&mut lines, text_line("type: ", i.family.as_str()));
        push_line(&mut lines, text_line("name: ", i.name.as_str()));
        push_line(&mut lines, decimal_line("hardware: ", i.hw_type as u64));
        push_line(&mut lines, text_line("model: ", i.model.as_str()));
        push_line(&mut lines, decimal_line("banks: ", i.banks as u64));
        push_line(&mut lines, decimal_line("exrom: ", i.exrom as u64));
        push_line(&mut lines, decimal_line("game: ", i.game as u64));
        push_line(&mut lines, text_line("mode: ", mode));
        push_line(&mut lines, hex_line("cart_detect: 0x", i.game | (i.exrom << 1u8)));
        push_line(&mut lines, hex_line("bus_internal: 0x", i.bus_internal));
        push_line(&mut lines, hex_line("bus_external: 0x", i.bus_external));
        push_line(&mut lines, hex_line("bus_bridge: 0x", i.bus_bridge));
        let decode = match &i.flash_decode {
            Some(d) => d.as_str(),
            None => "-",
        };
        push_line(&mut lines, text_line("flash_decode: ", decode));
        match &self.spec {
            Some(spec) => {
                push_line(&mut lines, text_line("source: ", spec.path.as_str()));
                let m = spec.mode();
                push_line(&mut lines, text_line("persist: ", m.as_str()));
            },
            None => {
                push_line(&mut lines, text_line("source: ", "-"));
                push_line(&mut lines, text_line("persist: ", "ro"));
            },
        }
        let yes = "yes";
        let no = "no";
        push_line(&mut lines, text_line("writable: ", if i.writable { yes } else { no }));
        push_line(&mut lines, text_line("dirty: ", if i.dirty { yes } else { no }));
        push_line(&mut lines, decimal_line("generation: ", i.generation));
        push_line(&mut lines, decimal_line("saved_generation: ", self.saved));
        let unsaved = i.writable && i.generation != self.saved;
        push_line(&mut lines, text_line("unsaved: ", if unsaved { yes } else { no }));
        assert(lines_view(lines@) =~= info_lines(i, self@.spec, self@.saved));
        Ok(lines)
    }
}


/// A well-formed option: a non-empty file name, a `save=` name that is non-empty and holds no
/// comma, and a flash decode of 11, 15 or both.
pub open spec fn spec_well_formed(v: CartSlotSpecView) -> bool {
    &&& v.path.len() > 0
    &&& v.persist matches PersistView::SaveTo(out) ==> out.len() > 0 && !out.contains(',')
    &&& v.flash_decode == "11"@ || v.flash_decode == "15"@ || v.flash_decode == "both"@
}

proof fn lemma_parse_from_well_formed(
    rest: Seq<char>,
    persist: Option<PersistView>,
    decode: Option<Seq<char>>,
)
    requires
        persist matches Some(PersistView::SaveTo(out)) ==> out.len() > 0 && !out.contains(','),
        decode matches Some(d) ==> d == "11"@ || d == "15"@ || d == "both"@,
    ensures
        spec_parse_from(rest, persist, decode) matches Ok(v) ==> spec_well_formed(v),
    decreases rest.len(),
{
    match last_comma(rest) {
        None => {},
        Some(i) => {
            let head = rest.take(i);
            let option = rest.skip(i + 1);
            assert(is_last_comma(rest, i));
            if option == "rw"@ {
                lemma_parse_from_well_formed(head, Some(PersistView::WriteBack), decode);
            } else if option == "ro"@ {
                lemma_parse_from_well_formed(head, Some(PersistView::ReadOnly), decode);
            } else if starts_with(option, "save="@) {
                let out = option.skip("save="@.len() as int);
                if out.len() > 0 {
                    assert forall|j: int| 0 <= j < out.len() implies out[j] != ',' by {
                        assert(out[j] == rest[i + 1 + "save="@.len() + j]);
                    }
                    lemma_parse_from_well_formed(head, Some(PersistView::SaveTo(out)), decode);
                }
            } else if starts_with(option, "flash-decode="@) {
                let d = option.skip("flash-decode="@.len() as int);
                if d == "11"@ || d == "15"@ || d == "both"@ {
                    lemma_parse_from_well_formed(head, persist, Some(d));
                }
            }
        },
    }
}

/// Every option that parses is well formed: it names a file, a `save=` file name is non-empty
/// and holds no comma, and the flash decode is 11, 15 or both.
pub proof fn law_parsed_option_is_well_formed(s: Seq<char>)
    ensures
        spec_parse(s) matches Ok(v) ==> spec_well_formed(v),
{
    lemma_parse_from_well_formed(s, None, None);
}

/// No comma in `s`.
pub open spec fn comma_free(s: Seq<char>) -> bool {
    forall|j: int| 0 <= j < s.len() ==> s[j] != ','
}

proof fn lemma_split_at_last_comma(p: Seq<char>, t: Seq<char>)
    requires
        comma_free(t),
    ensures
        last_comma(p.push(',') + t) == Some(p.len() as int),
        (p.push(',') + t).take(p.len() as int) == p,
        (p.push(',') + t).skip(p.len() as int + 1) == t,
{
    let s = p.push(',') + t;
    assert(s[p.len() as int] == ',');
    assert forall|j: int| p.len() < j < s.len() implies s[j] != ',' by {
        assert(s[j] == t[j - p.len() - 1]);
    }
    lemma_last_comma(s, p.len() as int);
    assert(s.take(p.len() as int) =~= p);
    assert(s.skip(p.len() as int + 1) =~= t);
}

/// The option texts parsed here.
proof fn lemma_option_texts()
    ensures
        "rw"@ == seq!['r', 'w'],
        "ro"@ == seq!['r', 'o'],
        "save="@ == seq!['s', 'a', 'v', 'e', '='],
        "flash-decode="@ == seq!['f', 'l', 'a', 's', 'h', '-', 'd', 'e', 'c', 'o', 'd', 'e', '='],
        "11"@ == seq!['1', '1'],
        "15"@ == seq!['1', '5'],
        "both"@ == seq!['b', 'o', 't', 'h'],
{
    reveal_strlit("rw");
    reveal_strlit("ro");
    reveal_strlit("save=");
    reveal_strlit("flash-decode=");
    reveal_strlit("11");
    reveal_strlit("15");
    reveal_strlit("both");
}

/// A flash decode that the option accepts: 11, 15 or both.
pub open spec fn valid_decode(d: Seq<char>) -> bool {
    d == "11"@ || d == "15"@ || d == "both"@
}

proof fn lemma_decode_option(head: Seq<char>, persist: Option<PersistView>, d: Seq<char>)
    requires
        valid_decode(d),
    ensures
        spec_parse_from(head.push(',') + "flash-decode="@ + d, persist, None) == spec_parse_from(
            head,
            persist,
            Some(d),
        ),
{
    lemma_option_texts();
    let t = "flash-decode="@ + d;
    assert(comma_free(t)) by {
        assert forall|j: int| 0 <= j < t.len() implies t[j] != ',' by {
            if j < 13 {
                assert(t[j] == "flash-decode="@[j]);
            } else {
                assert(t[j] == d[j - 13]);
            }
        }
    }
    assert(head.push(',') + "flash-decode="@ + d =~= head.push(',') + t);
    lemma_split_at_last_comma(head, t);
    assert(t[0] == 'f');
    assert(t != "rw"@ && t != "ro"@);
    assert(!starts_with(t, "save="@)) by {
        if starts_with(t, "save="@) {
            assert(t.take(5)[0] == 's');
        }
    }
    assert(t.take(13) =~= "flash-decode="@);
    assert(t.skip(13) =~= d);
}

proof fn lemma_persist_option(
    head: Seq<char>,
    t: Seq<char>,
    value: PersistView,
    decode: Option<Seq<char>>,
)
    requires
        comma_free(head),
        head.len() > 0,
        t == "rw"@ && value == PersistView::WriteBack || t == "ro"@ && value
            == PersistView::ReadOnly || (t.len() > 5 && t.take(5) == "save="@ && comma_free(t)
            && value == PersistView::SaveTo(t.skip(5))),
    ensures
        spec_parse_from(head.push(',') + t, None, decode) == Ok::<CartSlotSpecView, Seq<char>>(
            CartSlotSpecView {
                path: head,
                persist: value,
                flash_decode: match decode {
                    Some(d) => d,
                    None => "both"@,
                },
            },
        ),
{
    lemma_option_texts();
    assert(comma_free(t)) by {
        if t == "rw"@ || t == "ro"@ {
            assert forall|j: int| 0 <= j < t.len() implies t[j] != ',' by {}
        }
    }
    lemma_split_at_last_comma(head, t);
    lemma_no_comma(head);
    assert(spec_parse_from(head, Some(value), decode) == spec_parse_end(head, Some(value), decode));
    if t.len() > 5 && t.take(5) == "save="@ {
        assert(t != "rw"@ && t != "ro"@);
        assert(starts_with(t, "save="@));
    }
}

/// Every well-formed option parses back to what it says: a non-empty file name without commas,
/// then `,rw`, `,ro` or `,save=OUT` (a non-empty comma-free OUT) or nothing, then
/// `,flash-decode=D` for D one of 11, 15 and both, or nothing. Without a persistence option the
/// slot is read-only; without a decode it is both.
pub proof fn law_well_formed_options_parse_back(p: Seq<char>, out: Seq<char>, d: Seq<char>)
    requires
        p.len() > 0,
        comma_free(p),
        out.len() > 0,
        comma_free(out),
        valid_decode(d),
    ensures
        spec_parse(p) == Ok::<CartSlotSpecView, Seq<char>>(
            CartSlotSpecView { path: p, persist: PersistView::ReadOnly, flash_decode: "both"@ },
        ),
        spec_parse(p.push(',') + "ro"@) == Ok::<CartSlotSpecView, Seq<char>>(
            CartSlotSpecView { path: p, persist: PersistView::ReadOnly, flash_decode: "both"@ },
        ),
        spec_parse(p.push(',') + "rw"@) == Ok::<CartSlotSpecView, Seq<char>>(
            CartSlotSpecView { path: p, persist: PersistView::WriteBack, flash_decode: "both"@ },
        ),
        spec_parse(p.push(',') + "save="@ + out) == Ok::<CartSlotSpecView, Seq<char>>(
            CartSlotSpecView { path: p, persist: PersistView::SaveTo(out), flash_decode: "both"@ },
        ),
        spec_parse(p.push(',') + "flash-decode="@ + d) == Ok::<CartSlotSpecView, Seq<char>>(
            CartSlotSpecView { path: p, persist: PersistView::ReadOnly, flash_decode: d },
        ),
        spec_parse(p.push(',') + "ro"@ + ","@ + "flash-decode="@ + d) == Ok::<
            CartSlotSpecView,
            Seq<char>,
        >(CartSlotSpecView { path: p, persist: PersistView::ReadOnly, flash_decode: d }),
        spec_parse(p.push(',') + "rw"@ + ","@ + "flash-decode="@ + d) == Ok::<
            CartSlotSpecView,
            Seq<char>,
        >(CartSlotSpecView { path: p, persist: PersistView::WriteBack, flash_decode: d }),
        spec_parse(p.push(',') + "save="@ + out + ","@ + "flash-decode="@ + d) == Ok::<
            CartSlotSpecView,
            Seq<char>,
        >(CartSlotSpecView { path: p, persist: PersistView::SaveTo(out), flash_decode: d }),
{
    lemma_option_texts();
    reveal_strlit(",");
    lemma_no_comma(p);
    let so = "save="@ + out;
    assert(comma_free(so)) by {
        assert forall|j: int| 0 <= j < so.len() implies so[j] != ',' by {
            if j < 5 {
                assert(so[j] == "save="@[j]);
            } else {
                assert(so[j] == out[j - 5]);
            }
        }
    }
    assert(so.take(5) =~= "save="@);
    assert(so.skip(5) =~= out);
    lemma_persist_option(p, "ro"@, PersistView::ReadOnly, None);
    lemma_persist_option(p, "rw"@, PersistView::WriteBack, None);
    lemma_persist_option(p, so, PersistView::SaveTo(out), None);
    lemma_persist_option(p, "ro"@, PersistView::ReadOnly, Some(d));
    lemma_persist_option(p, "rw"@, PersistView::WriteBack, Some(d));
    lemma_persist_option(p, so, PersistView::SaveTo(out), Some(d));
    assert(p.push(',') + "save="@ + out =~= p.push(',') + so);
    lemma_decode_option(p, None, d);
    assert(spec_parse_from(p, None, Some(d)) == spec_parse_end(p, None, Some(d)));
    let ro = p.push(',') + "ro"@;
    let rw = p.push(',') + "rw"@;
    let sv = p.push(',') + so;
    lemma_decode_option(ro, None, d);
    lemma_decode_option(rw, None, d);
    lemma_decode_option(sv, None, d);
    assert(ro + ","@ + "flash-decode="@ + d =~= ro.push(',') + "flash-decode="@ + d);
    assert(rw + ","@ + "flash-decode="@ + d =~= rw.push(',') + "flash-decode="@ + d);
    assert(p.push(',') + "save="@ + out + ","@ + "flash-decode="@ + d =~= sv.push(',')
        + "flash-decode="@ + d);
}

/// A read-only slot (`,ro`, or no `--cart-slot` at all) never writes: no poll and no clean exit
/// makes a write due.
pub proof fn law_read_only_never_writes(v: CartSlotView, generation: Option<u64>, now_ms: u64)
    requires
        slot_target(v) is None,
    ensures
        !spec_poll(v, generation, now_ms).1,
        !spec_finish_due(v, generation),
{
    match v.spec {
        Some(s) => {
            assert(s.persist is ReadOnly);
        },
        None => {},
    }
}

/// A poll makes a write due only when the cartridge's generation is the one already seen, has
/// been quiet for at least [`DEBOUNCE_MS`] of emulated time, and differs from the one last written.
pub proof fn law_write_only_after_quiet_time(v: CartSlotView, generation: Option<u64>, now_ms: u64)
    ensures
        spec_poll(v, generation, now_ms).1 ==> {
            &&& generation matches Some(g)
            &&& g == v.seen
            &&& g != v.saved
            &&& now_ms >= v.changed_ms + DEBOUNCE_MS
        },
        spec_poll(v, generation, now_ms).1 ==> spec_poll(v, generation, now_ms).0 == v,
{
}

/// Once the cartridge's generation has been quiet for at least [`DEBOUNCE_MS`] and differs from
/// the one last written, a poll of a slot with a target makes the write due, however late the
/// poll comes; the poll changes nothing else.
pub proof fn law_write_due_after_quiet_time(v: CartSlotView, g: u64, now_ms: u64)
    requires
        slot_target(v) is Some,
        g == v.seen,
        g != v.saved,
        now_ms >= v.changed_ms + DEBOUNCE_MS,
    ensures
        spec_poll(v, Some(g), now_ms).1,
        spec_poll(v, Some(g), now_ms).0 == v,
{
}

/// On a clean exit a `,save=` slot writes whenever a cartridge is in the port, a `,rw` slot only
/// if the cartridge's generation differs from the one last written, and a read-only slot never.
pub proof fn law_clean_exit_writes(v: CartSlotView, generation: Option<u64>)
    ensures
        v.spec matches Some(s) && s.persist is SaveTo ==> (spec_finish_due(v, generation)
            <==> generation is Some),
        v.spec matches Some(s) && s.persist is WriteBack ==> (spec_finish_due(v, generation)
            <==> (generation matches Some(g) && g != v.saved)),
        slot_target(v) is None ==> !spec_finish_due(v, generation),
        spec_finish_due(v, generation) ==> slot_target(v) is Some,
{
}

/// A change of the cartridge restarts the quiet time: the poll that first sees a new generation
/// writes nothing and remembers when it saw it.
pub proof fn law_change_restarts_quiet_time(v: CartSlotView, g: u64, now_ms: u64)
    requires
        slot_target(v) is Some,
        g != v.seen,
    ensures
        !spec_poll(v, Some(g), now_ms).1,
        spec_poll(v, Some(g), now_ms).0.seen == g,
        spec_poll(v, Some(g), now_ms).0.changed_ms == now_ms,
{
}

/// Once the target has been written, nothing more is due until the cartridge changes: no poll
/// with the generation written, and no `,rw` exit write.
pub proof fn law_written_target_is_quiet(
    v: CartSlotView,
    keep_bak: bool,
    done: SaveDone,
    now_ms: u64,
)
    requires
        slot_target(v) is Some,
        done.same_as_target,
    ensures
        ({
            let w = spec_written(v, keep_bak, Ok(done));
            &&& !spec_poll(w, Some(done.generation), now_ms).1
            &&& spec_poll(w, Some(done.generation), now_ms).0 == w
            &&& (w.spec matches Some(s) && s.persist is WriteBack) ==> !spec_finish_due(
                w,
                Some(done.generation),
            )
        }),
{
}

/// The backup of a `,rw` source is made at most once: after a successful write that kept it, no
/// later write keeps one.
pub proof fn law_backup_made_once(v: CartSlotView, done: SaveDone)
    ensures
        !slot_keep_bak(spec_written(v, slot_keep_bak(v), Ok(done))),
{
}

/// Only a `,rw` source keeps a backup: `,save=` writes its file without one.
pub proof fn law_only_write_back_keeps_backup(v: CartSlotView)
    requires
        slot_keep_bak(v),
    ensures
        v.spec matches Some(s) && s.persist is WriteBack,
{
}

/// `cart-info` answers twenty lines; the last says the cartridge is unsaved exactly when it is
/// writable and its generation differs from the one last written.
pub proof fn law_info_unsaved(i: CartSlotInfo, spec: Option<CartSlotSpecView>, saved: u64)
    ensures
        info_lines(i, spec, saved).len() == 20,
        i.writable && i.generation == saved ==> info_lines(i, spec, saved)[19] == "unsaved: no"@,
        !i.writable ==> info_lines(i, spec, saved)[19] == "unsaved: no"@,
        i.writable && i.generation != saved ==> info_lines(i, spec, saved)[19] == "unsaved: yes"@,
        info_lines(i, spec, saved)[17] == "generation: "@ + decimal(i.generation as nat),
        info_lines(i, spec, saved)[18] == "saved_generation: "@ + decimal(saved as nat),
{
    reveal_strlit("unsaved: ");
    reveal_strlit("unsaved: no");
    reveal_strlit("unsaved: yes");
    reveal_strlit("no");
    reveal_strlit("yes");
    assert("unsaved: "@ + "no"@ =~= "unsaved: no"@);
    assert("unsaved: "@ + "yes"@ =~= "unsaved: yes"@);
}

/// `cart-info` names the memory configuration that EXROM and GAME (0 = pulled) select: both
/// pulled 16K, EXROM alone 8K, GAME alone ULTIMAX, neither off; and it reports the detect value
/// with GAME in bit 0 and EXROM in bit 1 (for GAME given as 0 or 1).
pub proof fn law_info_mode(i: CartSlotInfo, spec: Option<CartSlotSpecView>, saved: u64)
    ensures
        i.exrom == 0 && i.game == 0 ==> info_lines(i, spec, saved)[7] == "mode: 16K"@,
        i.exrom == 0 && i.game != 0 ==> info_lines(i, spec, saved)[7] == "mode: 8K"@,
        i.exrom != 0 && i.game == 0 ==> info_lines(i, spec, saved)[7] == "mode: ULTIMAX"@,
        i.exrom != 0 && i.game != 0 ==> info_lines(i, spec, saved)[7] == "mode: off"@,
        ({
            let v = i.game | (i.exrom << 1u8);
            &&& info_lines(i, spec, saved)[8] == "cart_detect: 0x"@ + hex2(v)
            &&& v & 1 == i.game & 1
            &&& i.game <= 1 ==> (v >> 1u8) & 1 == i.exrom & 1
        }),
{
    reveal_strlit("mode: ");
    reveal_strlit("16K");
    reveal_strlit("8K");
    reveal_strlit("ULTIMAX");
    reveal_strlit("off");
    reveal_strlit("mode: 16K");
    reveal_strlit("mode: 8K");
    reveal_strlit("mode: ULTIMAX");
    reveal_strlit("mode: off");
    assert("mode: "@ + "16K"@ =~= "mode: 16K"@);
    assert("mode: "@ + "8K"@ =~= "mode: 8K"@);
    assert("mode: "@ + "ULTIMAX"@ =~= "mode: ULTIMAX"@);
    assert("mode: "@ + "off"@ =~= "mode: off"@);
    let g = i.game;
    let e = i.exrom;
    assert((g | (e << 1u8)) & 1 == g & 1) by (bit_vector);
    assert(g <= 1 ==> ((g | (e << 1u8)) >> 1u8) & 1 == e & 1) by (bit_vector);
}

/// A cartridge whose generation the slot has just written to its target reports itself saved in
/// `cart-info`, with that generation as the saved one.
pub proof fn law_written_generation_reports_saved(
    v: CartSlotView,
    keep_bak: bool,
    done: SaveDone,
    i: CartSlotInfo,
)
    requires
        slot_target(v) is Some,
        done.same_as_target,
        i.generation == done.generation,
    ensures
        ({
            let w = spec_written(v, keep_bak, Ok(done));
            &&& info_lines(i, w.spec, w.saved)[19] == "unsaved: no"@
            &&& info_lines(i, w.spec, w.saved)[18] == "saved_generation: "@ + decimal(
                done.generation as nat,
            )
        }),
{
    let w = spec_written(v, keep_bak, Ok(done));
    law_info_unsaved(i, w.spec, w.saved);
}

/// A cartridge just inserted is saved: a slot made for it reports "unsaved: no" in `cart-info`
/// while its generation stays the one it was inserted with, and no poll at that generation makes
/// a write due.
pub proof fn law_inserted_cartridge_is_saved(
    spec: Option<CartSlotSpecView>,
    g: u64,
    i: CartSlotInfo,
    now_ms: u64,
)
    requires
        i.generation == g,
    ensures
        ({
            let v = CartSlotView { spec, saved: g, seen: g, changed_ms: 0, bak_done: false };
            &&& info_lines(i, v.spec, v.saved)[19] == "unsaved: no"@
            &&& !spec_poll(v, Some(g), now_ms).1
        }),
{
    law_info_unsaved(i, spec, g);
}

/// A failed write is not retried until the cartridge changes again.
pub proof fn law_failed_write_not_retried(v: CartSlotView, keep_bak: bool, e: String, now_ms: u64)
    ensures
        !spec_poll(spec_written(v, keep_bak, Err(e)), Some(v.seen), now_ms).1,
{
}


/// The hidden temporary name `.<name>.tmp-<pid>` that a write of `name` goes through.
pub open spec fn spec_temp_name(name: Seq<char>, pid: Seq<char>) -> Seq<char> {
    "."@ + name + ".tmp-"@ + pid
}

/// An ASCII decimal digit.
pub open spec fn is_ascii_digit(c: char) -> bool {
    '0' <= c <= '9'
}

/// `entry` is a stale temporary of a write of `name`: exactly `.<name>.tmp-<pid>` with a
/// non-empty all-digit pid.
pub open spec fn spec_is_stale_temp(name: Seq<char>, entry: Seq<char>) -> bool {
    exists|pid: Seq<char>|
        #![trigger spec_temp_name(name, pid)]
        entry == spec_temp_name(name, pid) && pid.len() > 0 && forall|j: int|
            0 <= j < pid.len() ==> is_ascii_digit(#[trigger] pid[j])
}

/// The name of the temporary file, beside the target `name`, that process `pid` writes the CRT
/// to before renaming it over the target.
pub fn temp_file_name(name: &str, pid: u32) -> (t: String)
    ensures
        t@ == spec_temp_name(name@, decimal(pid as nat)),
{
    let mut v: Vec<char> = Vec::new();
    push_str(&mut v, ".");
    push_str(&mut v, name);
    push_str(&mut v, ".tmp-");
    push_decimal(&mut v, pid as u64);
    assert(v@ =~= spec_temp_name(name@, decimal(pid as nat)));
    string_of(&v)
}

/// The backup a `,rw` write keeps of `path`: `<path>.bak`.
pub fn backup_path(path: &str) -> (b: String)
    ensures
        b@ == path@ + ".bak"@,
{
    text_line(path, ".bak")
}

/// Whether the directory entry `entry` beside the target `name` is a hidden temporary left by a
/// run that was killed between creating it and renaming it over the target: exactly
/// `.<name>.tmp-<pid>` with an all-digit pid, so neither the CRT itself nor its `.bak` (nor an
/// unrelated file that merely starts or ends similarly) is ever at risk.
pub fn is_stale_temp(name: &str, entry: &str) -> (r: bool)
    ensures
        r == spec_is_stale_temp(name@, entry@),
{
    let n = chars_of(name);
    let e = chars_of(entry);
    let mut prefix: Vec<char> = Vec::new();
    push_str(&mut prefix, ".");
    push_str(&mut prefix, name);
    push_str(&mut prefix, ".tmp-");
    let plen = prefix.len();
    assert(prefix@ =~= "."@ + name@ + ".tmp-"@);
    if e.len() <= plen || !range_starts_with(&e, 0, e.len(), &prefix) {
        proof {
            if spec_is_stale_temp(name@, entry@) {
                let pid = choose|pid: Seq<char>|
                    #![trigger spec_temp_name(name@, pid)]
                    entry@ == spec_temp_name(name@, pid) && pid.len() > 0 && forall|j: int|
                        0 <= j < pid.len() ==> is_ascii_digit(#[trigger] pid[j]);
                assert(e@.subrange(0, e@.len() as int).take(prefix@.len() as int) =~= prefix@);
            }
        }
        return false;
    }
    let mut i: usize = plen;
    while i < e.len()
        invariant
            plen <= i <= e.len(),
            e@ == entry@,
            prefix@ == "."@ + name@ + ".tmp-"@,
            plen == prefix@.len(),
            e@.take(plen as int) == prefix@,
            forall|j: int| plen <= j < i ==> is_ascii_digit(#[trigger] e@[j]),
        decreases e.len() - i,
    {
        if !('0' <= e[i] && e[i] <= '9') {
            proof {
                if spec_is_stale_temp(name@, entry@) {
                    let pid = choose|pid: Seq<char>|
                        #![trigger spec_temp_name(name@, pid)]
                        entry@ == spec_temp_name(name@, pid) && pid.len() > 0 && forall|j: int|
                            0 <= j < pid.len() ==> is_ascii_digit(#[trigger] pid[j]);
                    assert(entry@ =~= prefix@ + pid);
                    assert(e@[i as int] == pid[i - plen]);
                }
            }
            return false;
        }
        i = i + 1;
    }
    assert(e@.subrange(0, e@.len() as int).take(prefix@.len() as int) =~= e@.take(plen as int));
    proof {
        let pid = e@.skip(plen as int);
        assert(e@.subrange(0, e@.len() as int) =~= e@);
        assert(e@ =~= spec_temp_name(name@, pid));
        assert forall|j: int| 0 <= j < pid.len() implies is_ascii_digit(#[trigger] pid[j]) by {
            assert(pid[j] == e@[plen + j]);
        }
    }
    true
}

/// Whether the sweep removes the directory entry `entry` beside the target `name`: only a
/// regular file (`is_file`) that is a stale temporary of a write of `name`.
pub fn should_remove(name: &str, entry: &str, is_file: bool) -> (r: bool)
    ensures
        r == (is_file && spec_is_stale_temp(name@, entry@)),
{
    is_file && is_stale_temp(name, entry)
}

/// What a killed write leaves behind is exactly what the sweep at the next `,rw` insertion
/// removes, and the sweep never touches the CRT itself or its backup.
pub proof fn law_sweep_removes_only_write_temporaries(name: Seq<char>, pid: u32)
    ensures
        spec_is_stale_temp(name, spec_temp_name(name, decimal(pid as nat))),
        !spec_is_stale_temp(name, name),
        !spec_is_stale_temp(name, name + ".bak"@),
{
    let d = decimal(pid as nat);
    lemma_decimal_digits(pid as nat);
    reveal_strlit(".");
    reveal_strlit(".tmp-");
    reveal_strlit(".bak");
    if spec_is_stale_temp(name, name) {
        let p = choose|p: Seq<char>|
            #![trigger spec_temp_name(name, p)]
            name == spec_temp_name(name, p) && p.len() > 0 && forall|j: int|
                0 <= j < p.len() ==> is_ascii_digit(#[trigger] p[j]);
        assert(name.len() == spec_temp_name(name, p).len());
    }
    if spec_is_stale_temp(name, name + ".bak"@) {
        let p = choose|p: Seq<char>|
            #![trigger spec_temp_name(name, p)]
            name + ".bak"@ == spec_temp_name(name, p) && p.len() > 0 && forall|j: int|
                0 <= j < p.len() ==> is_ascii_digit(#[trigger] p[j]);
        assert((name + ".bak"@).len() == spec_temp_name(name, p).len());
    }
    assert(spec_temp_name(name, d) == spec_temp_name(name, d));
}

} // verus!
