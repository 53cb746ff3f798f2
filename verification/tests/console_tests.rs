//! Tests of the console state logic: raw-mode switching, the non-blocking
//! read decisions, and mouse-reporting control.
use sl_console::console::{
    read_follow_up, read_plan, set_raw_mode_step, take_leftover, begin_event_read, end_event_read,
    ConError, ConsoleInState, ConsoleOutState, ConsoleWrite, OutputBuffer, RawModeGuard, RawSwitch,
    ReadPlan, SEQUENCE_WINDOW_MS,
};
use sl_console::input::{ConsoleMouseExt, ENTER_MOUSE_SEQUENCE, EXIT_MOUSE_SEQUENCE};

#[test]
fn test_raw_mode_idempotent() {
    let mut s = ConsoleOutState { raw_mode: false };
    let (r1, a1) = set_raw_mode_step(&mut s, true, true);
    assert_eq!(r1, Ok(false));
    assert_eq!(a1, RawSwitch::Activate);
    assert!(s.raw_mode);

    // The second enable is a no-op and reports the same previous state,
    // even without the input-side lock.
    let (r2, a2) = set_raw_mode_step(&mut s, true, false);
    assert_eq!(r2, Ok(true));
    assert_eq!(a2, RawSwitch::NoChange);
    assert!(s.raw_mode);
}

#[test]
fn test_raw_mode_would_block_when_conin_locked() {
    let mut s = ConsoleOutState { raw_mode: false };
    let (r, a) = set_raw_mode_step(&mut s, true, false);
    assert_eq!(r, Err(ConError::WouldBlock));
    assert_eq!(a, RawSwitch::NoChange);
    assert!(!s.raw_mode);
}

#[test]
fn test_raw_guard_restores_prior_mode() {
    // Entering from non-raw and releasing brings non-raw back.
    let mut s = ConsoleOutState { raw_mode: false };
    let g = RawModeGuard::enter(&mut s, true).unwrap();
    assert!(s.raw_mode);
    assert_eq!(g.release(&mut s, true), Ok(true));
    assert!(!s.raw_mode);

    // Entering while raw mode is already active restores "active", and the
    // release needs no lock at all.
    let mut s = ConsoleOutState { raw_mode: true };
    let g = RawModeGuard::enter(&mut s, false).unwrap();
    assert!(s.raw_mode);
    assert_eq!(g.release(&mut s, false), Ok(true));
    assert!(s.raw_mode);
}

#[test]
fn test_would_block_contract() {
    // A non-blocking handle with a pending timeout polls first; if no data
    // came in time the read fails with a would-block condition.
    let mut s = ConsoleInState { blocking: false, read_timeout_ms: Some(25), leftover: None };
    assert_eq!(read_plan(&s), ReadPlan::Poll(25));
    assert_eq!(read_follow_up(&mut s, false), Err(ConError::WouldBlock));
    assert_eq!(s.read_timeout_ms, None);

    // Once a later poll reports data, the follow-up proceeds to a device
    // read and leaves the short escape-sequence window.
    assert_eq!(read_plan(&s), ReadPlan::Immediate);
    assert_eq!(read_follow_up(&mut s, true), Ok(()));
    assert_eq!(s.read_timeout_ms, Some(SEQUENCE_WINDOW_MS));

    // A blocking handle never reports would-block from the plan.
    let b = ConsoleInState { blocking: true, read_timeout_ms: None, leftover: None };
    assert_eq!(read_plan(&b), ReadPlan::Blocking);
}

#[test]
fn test_leftover_is_drained_before_reads() {
    let mut s = ConsoleInState { blocking: true, read_timeout_ms: None, leftover: Some(b'q') };
    assert_eq!(take_leftover(&mut s), Some(b'q'));
    assert_eq!(s.leftover, None);
    assert_eq!(take_leftover(&mut s), None);
}

#[test]
fn test_event_read_restores_mode() {
    let mut s = ConsoleInState { blocking: true, read_timeout_ms: None, leftover: None };
    let saved = begin_event_read(&mut s, Some(10));
    assert!(!s.blocking);
    assert_eq!(s.read_timeout_ms, Some(10));
    end_event_read(&mut s, &saved);
    assert!(s.blocking);
    assert_eq!(s.read_timeout_ms, None);
}

#[test]
fn test_mouse_sequences() {
    let mut out = OutputBuffer::new();
    out.mouse_on().unwrap();
    assert_eq!(out.written, ENTER_MOUSE_SEQUENCE.as_bytes());
    let before = out.written.len();
    out.mouse_off().unwrap();
    assert_eq!(&out.written[before..], EXIT_MOUSE_SEQUENCE.as_bytes());
    assert_eq!(
        ENTER_MOUSE_SEQUENCE,
        "\x1b[?1000h\x1b[?1002h\x1b[?1015h\x1b[?1006h"
    );
    assert_eq!(
        EXIT_MOUSE_SEQUENCE,
        "\x1b[?1006l\x1b[?1015l\x1b[?1002l\x1b[?1000l"
    );
}

#[test]
fn test_output_buffer_tracks_raw_mode() {
    let mut out = OutputBuffer::new();
    assert!(!out.is_raw_mode());
    assert_eq!(out.set_raw_mode(true), Ok(false));
    assert!(out.is_raw_mode());
    assert_eq!(out.set_raw_mode(true), Ok(true));
    out.write_all(b"hey").unwrap();
    out.flush().unwrap();
    assert_eq!(out.written, b"hey");
}
