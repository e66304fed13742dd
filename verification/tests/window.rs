use ue2emu::window::{about_to_wait, blit, place, Tick, FRAME_NS, TITLE_EVERY_NS};

#[test]
fn placement_is_integer_scaled_in_a_4_3_area() {
    // Default 40×25 grid of 8×9 cells in the 2× window.
    assert_eq!(place(640, 480, 320, 225), (0, 15, 640, 450));
    // Retina backing store of the same window.
    assert_eq!(place(1280, 960, 320, 225), (0, 30, 1280, 900));
    // Wide window: the 4:3 area (960×720) limits the scale to 3.
    assert_eq!(place(1280, 720, 320, 225), (160, 22, 960, 675));
    assert_eq!(place(1600, 900, 320, 225), (320, 112, 960, 675));
    // 720p stretch mode (320×400) only fits at 1×.
    assert_eq!(place(640, 480, 320, 400), (160, 40, 320, 400));
    // 1080p big-font grid (480×575) is larger than the area: shrunk, aspect kept.
    assert_eq!(place(640, 480, 480, 575), (120, 0, 400, 480));
}

#[test]
fn placement_edges() {
    // An empty surface and an empty frame.
    assert_eq!(place(0, 0, 320, 200), (0, 0, 0, 0));
    assert_eq!(place(640, 480, 0, 0), (80, 0, 480, 480));
    // A tall surface: the area is the full width.
    assert_eq!(place(300, 1000, 100, 75), (0, 387, 300, 225));
    // The largest sizes stay within u32.
    assert_eq!(place(u32::MAX, u32::MAX, 1, 1), (536870912, 536870912, 3221225471, 3221225471));
}

#[test]
fn blit_scales_and_letterboxes() {
    let src = [0x11, 0x22];
    let mut dst = vec![0xFFu32; 6 * 4];
    blit(&src, 2, 1, &mut dst, 6, 4);
    let want = [
        0, 0,    0,    0,    0,    0,
        0, 0x11, 0x11, 0x22, 0x22, 0,
        0, 0x11, 0x11, 0x22, 0x22, 0,
        0, 0,    0,    0,    0,    0,
    ];
    assert_eq!(dst, want);

    blit(&[], 0, 0, &mut dst, 6, 4);
    assert!(dst.iter().all(|&p| p == 0), "no frame yet: black");
}

#[test]
fn blit_short_buffers_give_black() {
    let mut dst = vec![7u32; 10];
    blit(&[1, 2, 3], 2, 2, &mut dst, 2, 2);
    assert!(dst.iter().all(|&p| p == 0), "source shorter than sw×sh");
    let mut dst = vec![7u32; 3];
    blit(&[1, 2, 3, 4], 2, 2, &mut dst, 2, 2);
    assert!(dst.iter().all(|&p| p == 0), "surface shorter than dw×dh");
}

#[test]
fn blit_shrinks_larger_frames() {
    // A 4×2 frame into a 4×3 surface: its 4:3 area is 4×3, the frame fits at 1×.
    let src = [1, 2, 3, 4, 5, 6, 7, 8];
    let mut dst = vec![9u32; 4 * 3 + 2];
    blit(&src, 4, 2, &mut dst, 4, 3);
    assert_eq!(dst, vec![1, 2, 3, 4, 5, 6, 7, 8, 0, 0, 0, 0, 0, 0]);
    // Into a 2×2 surface (area 2×1) the frame is halved: every other column of the first row.
    let mut dst = vec![9u32; 4];
    blit(&src, 4, 2, &mut dst, 2, 2);
    assert_eq!(dst, vec![1, 3, 0, 0]);
}

#[test]
fn ticks_redraw_and_refresh_when_due() {
    let t = about_to_wait(100, true, None, 100, 1000);
    assert_eq!(
        t,
        Tick { exit: false, redraw: true, update_title: false, next_frame: 100 + FRAME_NS, next_title: 1000, wait_until: 1000 }
    );
    let t = about_to_wait(1000, true, None, 2000, 1000);
    assert_eq!(t.next_title, 1000 + TITLE_EVERY_NS);
    assert_eq!(t.wait_until, 2000);
    assert!(about_to_wait(5, false, None, 0, 0).exit);
    assert!(about_to_wait(5, true, Some(5), 0, 0).exit);
    assert!(!about_to_wait(4, true, Some(5), 0, 0).exit);
}

#[test]
fn blit_one_pixel_source() {
    // A 1×1 frame in a 4×3 surface: its 4:3 area is 4×3, the square frame is scaled 3×.
    let mut dst = vec![0u32; 12];
    blit(&[5], 1, 1, &mut dst, 4, 3);
    assert_eq!(dst, vec![5, 5, 5, 0, 5, 5, 5, 0, 5, 5, 5, 0]);
}
