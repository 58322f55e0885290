use swapbytes::cursor::Cursor;

#[test]
fn cursor_starts_at_zero() {
    let c = Cursor::default();
    assert_eq!(c.pos, 0);
}

#[test]
fn cursor_moves_within_bounds() {
    let mut c = Cursor::default();
    c.move_cursor_right(3);
    assert_eq!(c.pos, 1);
    c.move_cursor_right(3);
    c.move_cursor_right(3);
    c.move_cursor_right(3);
    assert_eq!(c.pos, 3);
    c.move_cursor_left(3);
    assert_eq!(c.pos, 2);
}

#[test]
fn cursor_left_stops_at_zero() {
    let mut c = Cursor::default();
    c.move_cursor_left(5);
    assert_eq!(c.pos, 0);
}

#[test]
fn cursor_clamps_to_shrunk_input() {
    let mut c = Cursor { pos: 9 };
    c.move_cursor_right(4);
    assert_eq!(c.pos, 4);
}

#[test]
fn clamp_cursor_clamps() {
    let c = Cursor { pos: 0 };
    assert_eq!(c.clamp_cursor(7, 4), 4);
    assert_eq!(c.clamp_cursor(2, 4), 2);
    assert_eq!(c.clamp_cursor(0, 0), 0);
}

#[test]
fn reset_cursor_returns_to_left_edge() {
    let mut c = Cursor { pos: 9 };
    c.reset_cursor();
    assert_eq!(c.pos, 0);
}
