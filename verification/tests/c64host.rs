use ue2emu::c64host::{
    C64Charset, C64Frame, CartSlotInfo, DriveLines, DriveStatus, CART_DETECT_NONE, DRIVE_HALF_TRACKS,
};

#[test]
fn register_reset_values() {
    let l = DriveLines::default();
    assert_eq!(
        l,
        DriveLines {
            power: false,
            reset: true,
            follow_c64_reset: true,
            stop_on_freeze: true,
            device: 0,
            write_protect: true,
            drive_type: 0
        }
    );
    assert_eq!(DriveStatus::default(), DriveStatus { half_track: 0, motor: false, writing: false, led: false });
    assert_eq!(CART_DETECT_NONE, 3);
    assert_eq!(DRIVE_HALF_TRACKS, 84);
}

#[test]
fn empty_frame_and_info() {
    let f = C64Frame::default();
    assert_eq!((f.width, f.height, f.indices.len(), f.screen.len()), (0, 0, 0, 0));
    assert_eq!(f.palette, [0; 16]);
    assert_eq!(f.charset, C64Charset::Upper);
    assert_eq!(C64Charset::default(), C64Charset::Upper);
    let i = CartSlotInfo::default();
    assert!(i.name.is_empty() && i.flash_decode.is_none() && !i.writable && i.generation == 0);
}
