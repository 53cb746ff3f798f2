//! Tests of the cursor and screen escape-sequence encoders and the
//! cursor-position reply parser.
use sl_console::console::ConError;
use sl_console::cursor::{
    cursor_pos, cursor_pos_query, goto, Down, Goto, Hide, Left, Restore, Right, Save, Show, Up,
};
use sl_console::screen::{ToAlternateScreen, ToMainScreen};

#[test]
fn test_goto_sequence() {
    assert_eq!(goto(5, 3), "\x1b[3;5H");
    assert_eq!(Goto(1, 1).sequence(), "\x1b[1;1H");
    assert_eq!(Goto(65535, 9).sequence(), "\x1b[9;65535H");
}

#[test]
fn test_goto_default() {
    assert_eq!(Goto::default(), Goto(1, 1));
}

#[test]
fn test_move_sequences() {
    assert_eq!(Left(7).sequence(), "\x1b[7D");
    assert_eq!(Right(0).sequence(), "\x1b[0C");
    assert_eq!(Up(12).sequence(), "\x1b[12A");
    assert_eq!(Down(300).sequence(), "\x1b[300B");
}

#[test]
fn test_cursor_visibility_sequences() {
    assert_eq!(Hide.sequence(), "\x1b[?25l");
    assert_eq!(Show.sequence(), "\x1b[?25h");
    assert_eq!(Save.sequence(), "\x1b[s");
    assert_eq!(Restore.sequence(), "\x1b[u");
}

#[test]
fn test_screen_sequences() {
    assert_eq!(ToMainScreen.sequence(), "\x1b[?1049l");
    assert_eq!(ToAlternateScreen.sequence(), "\x1b[?1049h");
}

#[test]
fn test_cursor_pos_reply() {
    assert_eq!(cursor_pos_query(), "\x1b[6n");
    // The terminal answers `ESC [ row ; col R`; the result is (col, row).
    assert_eq!(cursor_pos(b"\x1b[12;5R"), Ok((5, 12)));
    assert_eq!(cursor_pos(b"\x1b[1;1R"), Ok((1, 1)));
}

#[test]
fn test_cursor_pos_timeout() {
    // A terminal that never answers leaves no terminator: that reads as a
    // timeout, never as a hang.
    assert_eq!(cursor_pos(b""), Err(ConError::TimedOut));
    assert_eq!(cursor_pos(b"\x1b[12;5"), Err(ConError::TimedOut));
}

#[test]
fn test_cursor_pos_malformed() {
    assert_eq!(cursor_pos(b"\x1b[xyR"), Err(ConError::ParseFailed));
    assert_eq!(cursor_pos(b"12;5R"), Err(ConError::ParseFailed));
    assert_eq!(cursor_pos(b"\x1b[12R"), Err(ConError::ParseFailed));
}
