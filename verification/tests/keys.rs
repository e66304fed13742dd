use ue2emu::keys::{lshift, HeldKeys, HostInput, MatrixKey, WindowKey, WindowKeys};

const SHIFT_LEFT: u32 = 1;
const ARROW_UP: u32 = 2;
const ARROW_LEFT: u32 = 3;
const KEY_A: u32 = 4;
const SHIFT_RIGHT: u32 = 5;

/// The matrix keys of the host keys used here.
fn host_key(code: u32) -> MatrixKey {
    match code {
        SHIFT_LEFT => MatrixKey { row: 1, col: 7, shift: false },
        ARROW_UP => MatrixKey { row: 0, col: 7, shift: true },
        ARROW_LEFT => MatrixKey { row: 0, col: 2, shift: true },
        KEY_A => MatrixKey { row: 1, col: 2, shift: false },
        SHIFT_RIGHT => MatrixKey { row: 6, col: 4, shift: false },
        _ => unreachable!(),
    }
}

fn key(row: u8, col: u8, down: bool) -> HostInput {
    HostInput::Key { row, col, down }
}

#[test]
fn held_keys_press_and_release() {
    let mut held = HeldKeys::default();
    let up = host_key(ARROW_UP);
    let shift = host_key(SHIFT_LEFT);

    assert_eq!(held.press(SHIFT_LEFT, shift), vec![key(1, 7, true)]);
    assert_eq!(held.press(ARROW_UP, up), vec![key(0, 7, true)], "SHIFT already down");
    assert_eq!(held.press(ARROW_UP, up), vec![], "a second press without release is ignored");
    assert_eq!(held.release(ARROW_UP), vec![key(0, 7, false)], "held Shift stays down");
    assert_eq!(held.release(SHIFT_LEFT), vec![key(1, 7, false)]);
    assert_eq!(held.release(SHIFT_LEFT), vec![]);

    let left = host_key(ARROW_LEFT);
    assert_eq!(held.press(ARROW_LEFT, left), vec![key(1, 7, true), key(0, 2, true)]);
    assert_eq!(held.release(ARROW_LEFT), vec![key(0, 2, false), key(1, 7, false)]);
}

#[test]
fn release_all_lifts_everything() {
    let mut held = HeldKeys::default();
    for code in [KEY_A, ARROW_UP, SHIFT_RIGHT] {
        held.press(code, host_key(code));
    }
    let mut released = held.release_all();
    released.sort_by_key(|ev| format!("{ev:?}"));
    let mut want = vec![key(1, 2, false), key(0, 7, false), key(1, 7, false), key(6, 4, false)];
    want.sort_by_key(|ev| format!("{ev:?}"));
    assert_eq!(released, want);
    assert!(held.is_empty());
}

#[test]
fn lshift_is_row_1_column_7() {
    assert_eq!(lshift(), MatrixKey { row: 1, col: 7, shift: false });
}

#[test]
fn can_press_checks_the_key_of_a_held_code() {
    let mut held = HeldKeys::new();
    assert!(held.can_press(KEY_A, host_key(KEY_A)));
    held.press(KEY_A, host_key(KEY_A));
    assert!(held.can_press(KEY_A, host_key(KEY_A)));
    assert!(!held.can_press(KEY_A, host_key(SHIFT_LEFT)));
}

#[test]
fn window_keys_menu_and_restore_report_changes_only() {
    let mut keys = WindowKeys::new();
    assert_eq!(keys.key(false, WindowKey::Menu, true), vec![HostInput::MenuButton(true)]);
    assert_eq!(keys.key(false, WindowKey::Menu, true), vec![]);
    assert_eq!(keys.key(true, WindowKey::Restore, true), vec![], "a repeat is dropped");
    assert_eq!(keys.key(false, WindowKey::Restore, true), vec![HostInput::Restore(true)]);
    assert_eq!(keys.key(false, WindowKey::Matrix(ARROW_UP, host_key(ARROW_UP)), true), vec![key(1, 7, true), key(0, 7, true)]);
    let out = keys.release_all();
    assert_eq!(out.len(), 4);
    let mut matrix = out[..2].to_vec();
    matrix.sort_by_key(|ev| format!("{ev:?}"));
    let mut want = vec![key(0, 7, false), key(1, 7, false)];
    want.sort_by_key(|ev| format!("{ev:?}"));
    assert_eq!(matrix, want);
    assert_eq!(out[2..], [HostInput::MenuButton(false), HostInput::Restore(false)]);
    assert!(!keys.menu_down && !keys.restore_down && keys.held.is_empty());
    assert_eq!(keys.release_all(), vec![]);
}

#[test]
fn events_of_each_position_alternate() {
    let mut held = HeldKeys::default();
    let mut events = Vec::new();
    for (code, down) in [
        (ARROW_UP, true),
        (SHIFT_LEFT, true),
        (ARROW_LEFT, true),
        (ARROW_UP, false),
        (ARROW_UP, true),
        (SHIFT_LEFT, false),
        (ARROW_LEFT, false),
        (ARROW_UP, false),
        (KEY_A, true),
    ] {
        if down {
            events.extend(held.press(code, host_key(code)));
        } else {
            events.extend(held.release(code));
        }
    }
    events.extend(held.release_all());
    for (row, col) in [(1, 7), (0, 7), (0, 2), (1, 2)] {
        let at: Vec<bool> = events
            .iter()
            .filter_map(|e| match *e {
                HostInput::Key { row: r, col: c, down } if (r, c) == (row, col) => Some(down),
                _ => None,
            })
            .collect();
        assert!(!at.is_empty());
        for (i, down) in at.iter().enumerate() {
            assert_eq!(*down, i % 2 == 0, "position ({row}, {col}) alternates: {at:?}");
        }
        assert_eq!(at.len() % 2, 0, "everything is up at the end");
    }
}
