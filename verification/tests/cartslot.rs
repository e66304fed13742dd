use ue2emu::c64host::CartSlotInfo;
use ue2emu::cartslot::{
    backup_path, is_stale_temp, should_remove, temp_file_name, CartOutcome, CartSlot, CartSlotSpec, CartWrite, Persist, SaveDone,
    DEBOUNCE_MS,
};

#[test]
fn spec_parses_modes_and_flash_decode() {
    let spec = |s: &str| s.parse::<CartSlotSpec>();
    let ro = |p: &str| CartSlotSpec { path: p.into(), persist: Persist::ReadOnly, flash_decode: "both".into() };
    assert_eq!(spec("a.crt").unwrap(), ro("a.crt"));
    assert_eq!(spec("dir,x/a.crt,ro").unwrap(), ro("dir,x/a.crt"));
    assert_eq!(spec("a.crt,rw").unwrap().persist, Persist::WriteBack);
    let save = spec("in,1.crt,save=out/b.crt").unwrap();
    assert_eq!(
        (Some(save.path.as_str()), save.target().map(|t| t.as_str()), save.mode()),
        (Some("in,1.crt"), Some("out/b.crt"), "save=out/b.crt".into())
    );
    let both = spec("a.crt,rw,flash-decode=15").unwrap();
    assert_eq!((both.persist, both.flash_decode.as_str()), (Persist::WriteBack, "15"));
    assert_eq!(spec("a.crt,flash-decode=11,save=o.crt").unwrap().flash_decode, "11");
    assert!(spec("a.crt,save=").is_err());
    assert!(spec(",rw").is_err());
    assert!(spec("a.crt,rw,ro").unwrap_err().contains("one of"));
    assert!(spec("a.crt,flash-decode=16").unwrap_err().contains("11, 15 or both"));
    assert_eq!(spec("a.crt").unwrap().target(), None);
}

#[test]
fn spec_errors_are_exact() {
    let err = |s: &str| CartSlotSpec::parse(s).unwrap_err();
    assert_eq!(err("a.crt,save="), "',save=' needs a file name");
    assert_eq!(err(",rw"), "needs a .crt file");
    assert_eq!(err(""), "needs a .crt file");
    assert_eq!(err("a.crt,rw,ro"), "give one of ro, rw and save=");
    assert_eq!(err("a.crt,flash-decode=16"), "flash-decode must be 11, 15 or both, not \"16\"");
    assert_eq!(err("a.crt,flash-decode=11,flash-decode=15"), "flash-decode is given twice");
}

#[test]
fn spec_keeps_unknown_tails_in_the_file_name() {
    let s = CartSlotSpec::parse("my,cart.crt,xyz,rw").unwrap();
    assert_eq!((s.path.as_str(), s.persist), ("my,cart.crt,xyz", Persist::WriteBack));
    let s = CartSlotSpec::parse("a.crt,").unwrap();
    assert_eq!(s.path, "a.crt,");
    assert_eq!(CartSlotSpec::parse("x,rw").unwrap().mode(), "rw");
    assert_eq!(CartSlotSpec::parse("x").unwrap().mode(), "ro");
    assert_eq!(CartSlotSpec::parse("x,rw").unwrap().target().map(|t| t.as_str()), Some("x"));
}

fn spec(s: &str) -> Option<CartSlotSpec> {
    Some(CartSlotSpec::parse(s).unwrap())
}

fn done(generation: u64) -> SaveDone {
    SaveDone { bytes: 100, generation, same_as_target: true }
}

#[test]
fn poll_writes_after_the_quiet_time() {
    let mut slot = CartSlot::new(spec("a.crt,rw"), Some(5));
    assert_eq!(slot.sweep_path().map(|p| p.as_str()), Some("a.crt"));
    assert_eq!(slot.poll(Some(5), 10_000), None, "nothing changed");
    assert_eq!(slot.poll(Some(6), 1_000), None, "a change starts the quiet time");
    assert_eq!(slot.poll(Some(6), 1_000 + DEBOUNCE_MS - 1), None);
    let job = slot.poll(Some(6), 1_000 + DEBOUNCE_MS).unwrap();
    assert_eq!(job, CartWrite { path: "a.crt".into(), keep_bak: true });
    let line = slot.written(&job, Ok(done(6)));
    assert_eq!(line, "cart-slot: wrote a.crt (100 bytes, flash generation 6)");
    assert_eq!(slot.poll(Some(6), 100_000), None, "written: quiet until the next change");
    assert_eq!(slot.poll(Some(7), 100_000), None);
    let job = slot.poll(Some(7), 100_000 + DEBOUNCE_MS).unwrap();
    assert_eq!(job, CartWrite { path: "a.crt".into(), keep_bak: false }, "one backup only");
    assert_eq!(slot.poll(None, 200_000), None, "empty port");
}

#[test]
fn failed_writes_wait_for_the_next_change() {
    let mut slot = CartSlot::new(spec("a.crt,save=b.crt"), Some(0));
    assert_eq!(slot.sweep_path(), None);
    slot.poll(Some(1), 0);
    let job = slot.poll(Some(1), DEBOUNCE_MS).unwrap();
    assert_eq!(job, CartWrite { path: "b.crt".into(), keep_bak: false });
    assert_eq!(slot.written(&job, Err("write b.crt: denied".into())), "cart-slot: write b.crt: denied");
    assert_eq!(slot.poll(Some(1), 10 * DEBOUNCE_MS), None);
    assert_eq!(slot.poll(Some(2), 10 * DEBOUNCE_MS), None);
    assert!(slot.poll(Some(2), 11 * DEBOUNCE_MS).is_some());
}

#[test]
fn read_only_never_writes() {
    let mut slot = CartSlot::new(spec("a.crt"), Some(0));
    assert_eq!(slot.poll(Some(1), 0), None);
    assert_eq!(slot.poll(Some(1), DEBOUNCE_MS * 5), None);
    assert_eq!(slot.finish(Some(1)), None);
    let slot = CartSlot::new(None, None);
    assert_eq!(slot.finish(Some(3)), None);
}

#[test]
fn finish_writes_save_always_and_rw_when_changed() {
    let slot = CartSlot::new(spec("a.crt,save=o.crt"), Some(4));
    assert_eq!(slot.finish(Some(4)), Some(CartWrite { path: "o.crt".into(), keep_bak: false }));
    assert_eq!(slot.finish(None), None, "no cartridge in the port");
    let slot = CartSlot::new(spec("a.crt,rw"), Some(4));
    assert_eq!(slot.finish(Some(4)), None, "unchanged since insertion");
    assert_eq!(slot.finish(Some(5)), Some(CartWrite { path: "a.crt".into(), keep_bak: true }));
}

fn info() -> CartSlotInfo {
    CartSlotInfo {
        name: "EasyFlash".into(),
        hw_type: 32,
        family: "EasyFlash".into(),
        model: "trx64-flash".into(),
        banks: 64,
        exrom: 0,
        game: 1,
        bus_internal: 0x0F,
        bus_external: 0xA0,
        bus_bridge: 1,
        flash_decode: Some("both".into()),
        dirty: true,
        generation: 9,
        writable: true,
    }
}

#[test]
fn cart_info_reports_every_field() {
    let mut slot = CartSlot::new(spec("game,1.crt,rw"), Some(3));
    let lines = slot.request(CartOutcome::Info(Some(info()))).unwrap();
    let want = [
        "type: EasyFlash",
        "name: EasyFlash",
        "hardware: 32",
        "model: trx64-flash",
        "banks: 64",
        "exrom: 0",
        "game: 1",
        "mode: 8K",
        "cart_detect: 0x01",
        "bus_internal: 0x0F",
        "bus_external: 0xA0",
        "bus_bridge: 0x01",
        "flash_decode: both",
        "source: game,1.crt",
        "persist: rw",
        "writable: yes",
        "dirty: yes",
        "generation: 9",
        "saved_generation: 3",
        "unsaved: yes",
    ];
    assert_eq!(lines, want);
    assert_eq!(
        slot.request(CartOutcome::Info(None)).unwrap_err(),
        "cart-info: no cartridge in the expansion port (--cart-slot)"
    );
}

#[test]
fn cart_info_modes_and_defaults() {
    let slot = CartSlot::new(None, None);
    let mut i = info();
    i.exrom = 1;
    i.game = 1;
    i.flash_decode = None;
    i.writable = false;
    let lines = slot.info(Some(i.clone())).unwrap();
    assert_eq!(lines[7], "mode: off");
    assert_eq!(lines[8], "cart_detect: 0x03");
    assert_eq!(lines[12], "flash_decode: -");
    assert_eq!(lines[13], "source: -");
    assert_eq!(lines[14], "persist: ro");
    assert_eq!(lines[19], "unsaved: no");
    i.exrom = 0;
    i.game = 0;
    assert_eq!(slot.info(Some(i.clone())).unwrap()[7], "mode: 16K");
    i.exrom = 1;
    assert_eq!(slot.info(Some(i.clone())).unwrap()[7], "mode: ULTIMAX");
    i.exrom = 0xFF;
    i.game = 0;
    assert_eq!(slot.info(Some(i)).unwrap()[8], "cart_detect: 0xFE");
}

#[test]
fn cart_save_answers_and_records_the_target() {
    let mut slot = CartSlot::new(spec("a.crt,save=s.crt"), Some(1));
    let lines = slot
        .request(CartOutcome::Save("s.crt".into(), Ok(SaveDone { bytes: 65616, generation: 4, same_as_target: true })))
        .unwrap();
    assert_eq!(lines, ["saved: s.crt", "bytes: 65616", "generation: 4"]);
    assert_eq!(slot.info(Some(info())).unwrap()[18], "saved_generation: 4");
    let lines = slot
        .request(CartOutcome::Save("other.crt".into(), Ok(SaveDone { bytes: 1, generation: 8, same_as_target: false })))
        .unwrap();
    assert_eq!(lines[2], "generation: 8");
    assert_eq!(slot.info(Some(info())).unwrap()[18], "saved_generation: 4", "another file leaves the target's state");
    assert_eq!(
        slot.request(CartOutcome::Save("x.crt".into(), Err("no cartridge in the expansion port".into()))).unwrap_err(),
        "cart-save: no cartridge in the expansion port"
    );
}

#[test]
fn temp_and_backup_names() {
    assert_eq!(temp_file_name("game.crt", 424242), ".game.crt.tmp-424242");
    assert_eq!(backup_path("dir/game.crt"), "dir/game.crt.bak");
}

#[test]
fn stale_temps_match_only_the_exact_hidden_temp_name() {
    assert!(is_stale_temp("game.crt", ".game.crt.tmp-424242"));
    assert!(is_stale_temp("game.crt", &temp_file_name("game.crt", 7)));
    assert!(!is_stale_temp("game.crt", ".other.crt.tmp-1"), "a different target's temp file must survive");
    assert!(!is_stale_temp("game.crt", ".game.crt.tmp-abc"), "a name whose suffix is not all digits must survive");
    assert!(!is_stale_temp("game.crt", ".game.crt.tmp-"));
    assert!(!is_stale_temp("game.crt", "game.crt"));
    assert!(!is_stale_temp("game.crt", "game.crt.bak"));
    assert!(!is_stale_temp("game.crt", ".game.crt.tmp-12x"));
}

#[test]
fn sweep_removes_only_regular_files_with_the_temp_name() {
    assert!(should_remove("game.crt", ".game.crt.tmp-424242", true));
    assert!(!should_remove("game.crt", ".game.crt.tmp-7", false), "a directory with a matching name must survive");
    assert!(!should_remove("game.crt", "game.crt.bak", true));
    assert!(!should_remove("game.crt", ".other.crt.tmp-1", true));
}
