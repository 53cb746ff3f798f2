//! Mouse and key events, and the decoder that turns raw console bytes into
//! them.
//!
//! The decoder is a single dispatch on the first byte of an event: control
//! bytes become `Ctrl` keys, `ESC` (or its 8-bit form `0x9B`) opens an escape
//! sequence, and anything else is decoded as a UTF-8 character.  Escape
//! sequences cover several terminal dialects: xterm arrows and special keys,
//! X10, rxvt and SGR mouse reports, and the fixterms (`u`-terminated)
//! modified-key form.  A sequence the decoder does not recognize is never an
//! error: it is surfaced as [`Event::Unsupported`] with the bytes consumed,
//! so one malformed sequence cannot abort a read loop.
use crate::bytes::{
    csi_final_p, dec_bytes, dec_val, first_from, lemma_dec_bytes, lemma_first_from,
    lemma_first_from_found, lemma_split_two, mouse_end_p, nums_u8, parse_u16_bytes, parse_u8_bytes,
    spec_nums_u8, spec_parse_u16, spec_parse_u8, split_from, split_semis,
};
use crate::source::ByteSource;
use vstd::prelude::*;
use vstd::utf8::*;

verus! {

/// An event reported by the terminal.
#[derive(Debug, Clone, PartialEq, Eq, Hash)]
pub enum Event {
    /// A key press.
    Key(Key),
    /// A mouse button press, release or wheel use at specific coordinates.
    Mouse(MouseEvent),
    /// An event that cannot currently be evaluated.
    Unsupported(Vec<u8>),
}

/// The mathematical value of an [`Event`]: the same shape, with the raw
/// bytes of an unsupported sequence abstracted to a byte sequence.
pub enum EventView {
    /// A key press.
    Key(Key),
    /// A mouse action.
    Mouse(MouseEvent),
    /// An unrecognized byte sequence.
    Unsupported(Seq<u8>),
}

impl View for Event {
    type V = EventView;

    open spec fn view(&self) -> EventView {
        match self {
            Event::Key(k) => EventView::Key(*k),
            Event::Mouse(m) => EventView::Mouse(*m),
            Event::Unsupported(v) => EventView::Unsupported(v@),
        }
    }
}

/// A mouse related event.
#[derive(Debug, Copy, Clone, PartialEq, Eq, Hash)]
pub enum MouseEvent {
    /// A mouse button was pressed; the coordinates are one-based.
    Press(MouseButton, u16, u16),
    /// A mouse button was released; the coordinates are one-based.
    Release(u16, u16),
    /// A mouse button is held over the given coordinates (one-based).
    Hold(u16, u16),
}

/// A mouse button.
#[derive(Debug, Copy, Clone, PartialEq, Eq, Hash)]
pub enum MouseButton {
    /// The left mouse button.
    Left,
    /// The right mouse button.
    Right,
    /// The middle mouse button.
    Middle,
    /// Mouse wheel is going up; typically reported as a press.
    WheelUp,
    /// Mouse wheel is going down; typically reported as a press.
    WheelDown,
}

/// A key press: a key code together with the modifier combination that was
/// observed with it.
///
/// A terminal can only report the modifiers it can distinguish on the wire:
/// Shift together with a letter arrives as the capital letter and is never
/// reported as a modifier, and several other combinations collapse in the
/// same way.  The decoder therefore never fabricates a modifier it cannot
/// observe.
#[derive(Debug, Copy, Clone, Hash, PartialEq, Eq)]
pub struct Key {
    /// The key that was pressed.
    pub code: KeyCode,
    /// The modifier combination observed with it, if any.
    pub mods: Option<KeyMod>,
}

impl Key {
    /// A key press without modifiers.
    pub fn new(key: KeyCode) -> (r: Self)
        ensures
            r == (Key { code: key, mods: None::<KeyMod> }),
    {
        Self { code: key, mods: None }
    }

    /// A key press with the given modifier combination.
    pub fn new_mod(key: KeyCode, mods: KeyMod) -> (r: Self)
        ensures
            r == (Key { code: key, mods: Some(mods) }),
    {
        Self { code: key, mods: Some(mods) }
    }
}

/// A key.
#[derive(Debug, Copy, Clone, PartialEq, Eq, Hash)]
#[non_exhaustive]
pub enum KeyCode {
    /// Backspace.
    Backspace,
    /// Left arrow.
    Left,
    /// Right arrow.
    Right,
    /// Up arrow.
    Up,
    /// Down arrow.
    Down,
    /// Home key.
    Home,
    /// End key.
    End,
    /// Page Up key.
    PageUp,
    /// Page Down key.
    PageDown,
    /// Backward Tab key.
    BackTab,
    /// Delete key.
    Delete,
    /// Insert key.
    Insert,
    /// Function keys; only 1 through 12 are reported.
    F(u8),
    /// Normal character.
    Char(char),
    /// Null byte.
    Null,
    /// Esc key.
    Esc,
}

/// A modifier combination: one, two or all three of Alt, Ctrl and Shift.
#[derive(Debug, Copy, Clone, PartialEq, Eq, Hash)]
pub enum KeyMod {
    /// The Alt key.
    Alt,
    /// The Ctrl key; some keys cannot be modified with Ctrl on a terminal.
    Ctrl,
    /// The Shift key; capital letters arrive without it, so it is only
    /// reported for special keys.
    Shift,
    /// Alt and Ctrl.
    AltCtrl,
    /// Alt and Shift.
    AltShift,
    /// Ctrl and Shift.
    CtrlShift,
    /// Alt, Ctrl and Shift.
    AltCtrlShift,
}

/// The letter reported for the control byte `c`: `0x01` is `a`, `0x1A` is
/// `z`.
pub open spec fn spec_ctrl_letter(c: u8) -> char
    recommends
        1 <= c <= 26,
{
    ((c + 96) as u8) as char
}

/// The digit reported for the control byte `c`: `0x1C` is `4`, `0x1F` is
/// `7`.
pub open spec fn spec_ctrl_digit(c: u8) -> char
    recommends
        28 <= c <= 31,
{
    ((c + 24) as u8) as char
}

/// The special key selected by the first number of a `~`-terminated CSI
/// sequence (also used by the rxvt `^` form).
pub open spec fn spec_special_key_code(code: u8) -> Option<KeyCode> {
    if code == 1 || code == 7 {
        Some(KeyCode::Home)
    } else if code == 2 {
        Some(KeyCode::Insert)
    } else if code == 3 {
        Some(KeyCode::Delete)
    } else if code == 4 || code == 8 {
        Some(KeyCode::End)
    } else if code == 5 {
        Some(KeyCode::PageUp)
    } else if code == 6 {
        Some(KeyCode::PageDown)
    } else if 11 <= code <= 15 {
        Some(KeyCode::F((code - 10) as u8))
    } else if 17 <= code <= 21 {
        Some(KeyCode::F((code - 11) as u8))
    } else if 23 <= code <= 24 {
        Some(KeyCode::F((code - 12) as u8))
    } else {
        None
    }
}

/// The key selected by a CSI final byte that names a key directly (arrows,
/// Home/End, BackTab, and `P..S` for F1 to F4).
pub open spec fn spec_other_special_key_code(code: u8) -> Option<KeyCode> {
    if code == 68 {
        Some(KeyCode::Left)
    } else if code == 67 {
        Some(KeyCode::Right)
    } else if code == 65 {
        Some(KeyCode::Up)
    } else if code == 66 {
        Some(KeyCode::Down)
    } else if code == 72 {
        Some(KeyCode::Home)
    } else if code == 70 {
        Some(KeyCode::End)
    } else if code == 90 {
        Some(KeyCode::BackTab)
    } else if code == 80 {
        Some(KeyCode::F(1))
    } else if code == 81 {
        Some(KeyCode::F(2))
    } else if code == 82 {
        Some(KeyCode::F(3))
    } else if code == 83 {
        Some(KeyCode::F(4))
    } else {
        None
    }
}

/// The key named by a character code in the fixterms (`u`-terminated) form:
/// 27 is Esc, 127 is Backspace, anything else is the character itself.
pub open spec fn spec_libtickit_key_code(code: u8) -> KeyCode {
    if code == 27 {
        KeyCode::Esc
    } else if code == 127 {
        KeyCode::Backspace
    } else {
        KeyCode::Char(code as char)
    }
}

/// The modifier combination selected by the second number of a modified-key
/// sequence: 2 is Shift, 8 is Alt+Ctrl+Shift.
pub open spec fn spec_key_mods(mods: u8) -> Option<KeyMod> {
    if mods == 2 {
        Some(KeyMod::Shift)
    } else if mods == 3 {
        Some(KeyMod::Alt)
    } else if mods == 4 {
        Some(KeyMod::AltShift)
    } else if mods == 5 {
        Some(KeyMod::Ctrl)
    } else if mods == 6 {
        Some(KeyMod::CtrlShift)
    } else if mods == 7 {
        Some(KeyMod::AltCtrl)
    } else if mods == 8 {
        Some(KeyMod::AltCtrlShift)
    } else {
        None
    }
}

/// Exec form of [`spec_special_key_code`].
pub fn parse_special_key_code(code: u8) -> (r: Option<KeyCode>)
    ensures
        r == spec_special_key_code(code),
{
    if code == 1 || code == 7 {
        Some(KeyCode::Home)
    } else if code == 2 {
        Some(KeyCode::Insert)
    } else if code == 3 {
        Some(KeyCode::Delete)
    } else if code == 4 || code == 8 {
        Some(KeyCode::End)
    } else if 11 <= code && code <= 15 {
        Some(KeyCode::F(code - 10))
    } else if 17 <= code && code <= 21 {
        Some(KeyCode::F(code - 11))
    } else if 23 <= code && code <= 24 {
        Some(KeyCode::F(code - 12))
    } else if code == 5 {
        Some(KeyCode::PageUp)
    } else if code == 6 {
        Some(KeyCode::PageDown)
    } else {
        None
    }
}

/// Exec form of [`spec_other_special_key_code`].
pub fn parse_other_special_key_code(code: u8) -> (r: Option<KeyCode>)
    ensures
        r == spec_other_special_key_code(code),
{
    if code == 68 {
        Some(KeyCode::Left)
    } else if code == 67 {
        Some(KeyCode::Right)
    } else if code == 65 {
        Some(KeyCode::Up)
    } else if code == 66 {
        Some(KeyCode::Down)
    } else if code == 72 {
        Some(KeyCode::Home)
    } else if code == 70 {
        Some(KeyCode::End)
    } else if code == 90 {
        Some(KeyCode::BackTab)
    } else if code == 80 {
        Some(KeyCode::F(1))
    } else if code == 81 {
        Some(KeyCode::F(2))
    } else if code == 82 {
        Some(KeyCode::F(3))
    } else if code == 83 {
        Some(KeyCode::F(4))
    } else {
        None
    }
}

/// Exec form of [`spec_libtickit_key_code`].
pub fn parse_libtickit_key_codes(code: u8) -> (r: KeyCode)
    ensures
        r == spec_libtickit_key_code(code),
{
    if code == 27 {
        KeyCode::Esc
    } else if code == 127 {
        KeyCode::Backspace
    } else {
        KeyCode::Char(code as char)
    }
}

/// Exec form of [`spec_key_mods`].
pub fn parse_key_mods(mods: u8) -> (r: Option<KeyMod>)
    ensures
        r == spec_key_mods(mods),
{
    if mods == 2 {
        Some(KeyMod::Shift)
    } else if mods == 3 {
        Some(KeyMod::Alt)
    } else if mods == 4 {
        Some(KeyMod::AltShift)
    } else if mods == 5 {
        Some(KeyMod::Ctrl)
    } else if mods == 6 {
        Some(KeyMod::CtrlShift)
    } else if mods == 7 {
        Some(KeyMod::AltCtrl)
    } else if mods == 8 {
        Some(KeyMod::AltCtrlShift)
    } else {
        None
    }
}

/// How many bytes a UTF-8 encoding starting with `c` occupies, or 0 when `c`
/// cannot start one (a continuation byte, or a byte no encoding uses).
pub open spec fn utf8_expected_len(c: u8) -> int {
    if is_leading_byte_width_2(c) {
        2
    } else if is_leading_byte_width_3(c) {
        3
    } else if is_leading_byte_width_4(c) {
        4
    } else {
        0
    }
}

/// The character decoded from `c` and the following bytes, when `c` starts a
/// well-formed UTF-8 encoding whose continuation bytes are all present.
/// ASCII decodes to itself and needs no further bytes.
pub open spec fn spec_utf8_result(c: u8, rest: Seq<u8>) -> Option<char> {
    if c < 128 {
        Some(c as char)
    } else {
        let l = utf8_expected_len(c);
        if l >= 2 && rest.len() >= l - 1 {
            let bytes = seq![c] + rest.take(l - 1);
            if valid_first_scalar(bytes) {
                Some(decode_first_scalar(bytes) as char)
            } else {
                None
            }
        } else {
            None
        }
    }
}

/// How many bytes after `c` the decoder consumes: the continuation bytes of
/// a successful decode, and otherwise up to three bytes while it looks for a
/// decodable prefix before giving up.
pub open spec fn spec_utf8_consumed(c: u8, rest: Seq<u8>) -> int {
    if c < 128 {
        0
    } else if spec_utf8_result(c, rest) is Some {
        utf8_expected_len(c) - 1
    } else if rest.len() < 3 {
        rest.len() as int
    } else {
        3
    }
}

/// Relies on `char::from_u32`: every value that is not a surrogate and is at
/// most `0x10FFFF` is a valid `char`, and converts to the `char` with that
/// scalar value.
#[verifier::external_body]
fn char_from_scalar(v: u32) -> (c: char)
    requires
        is_scalar(v),
    ensures
        c == v as char,
{
    char::from_u32(v).unwrap()
}

/// True when `b` is a UTF-8 continuation byte.
fn is_cont_byte(b: u8) -> (r: bool)
    ensures
        r == is_continuation_byte(b),
{
    0x80 <= b && b <= 0xbf
}

/// Parse `c`, plus further bytes from `iter` as needed, as one UTF-8
/// character: the ASCII fast path takes no further bytes; otherwise up to
/// three continuation bytes are pulled, and an encoding that never becomes
/// valid is abandoned after at most four bytes in total.
pub fn parse_utf8_char(c: u8, iter: &mut ByteSource) -> (r: Option<char>)
    requires
        old(iter).wf(),
    ensures
        final(iter).wf(),
        final(iter).data@ == old(iter).data@,
        final(iter).pos == old(iter).pos + spec_utf8_consumed(c, old(iter).remaining()),
        final(iter).pos >= old(iter).pos,
        r == spec_utf8_result(c, old(iter).remaining()),
{
    let ghost rest = old(iter).remaining();
    if c < 128 {
        return Some(c as char);
    }
    let r0 = iter.next();
    let b1 = match r0 {
        Some(b) => b,
        None => {
            return None;
        },
    };
    if 0xc0 <= c && c <= 0xdf {
        proof {
            assert((seq![c] + rest.take(1))[0] == c);
            assert((seq![c] + rest.take(1))[1] == rest[0]);
        }
        if is_cont_byte(b1) {
            let cp: u32 = (((c & 0x1f) as u32) << 6) | ((b1 & 0x3f) as u32);
            proof {
                assert(cp == codepoint_width_2(c, b1));
                assert(cp <= 0x7ff) by (bit_vector)
                    requires
                        cp == (((c & 0x1f) as u32) << 6) | ((b1 & 0x3f) as u32),
                ;
            }
            if cp >= 0x80 {
                return Some(char_from_scalar(cp));
            }
        }
        let _ = iter.next();
        let _ = iter.next();
        None
    } else if 0xe0 <= c && c <= 0xef {
        let r1 = iter.next();
        let b2 = match r1 {
            Some(b) => b,
            None => {
                return None;
            },
        };
        proof {
            assert((seq![c] + rest.take(2))[0] == c);
            assert((seq![c] + rest.take(2))[1] == rest[0]);
            assert((seq![c] + rest.take(2))[2] == rest[1]);
        }
        if is_cont_byte(b1) && is_cont_byte(b2) {
            let cp: u32 = (((c & 0x0f) as u32) << 12) | (((b1 & 0x3f) as u32) << 6) | ((b2
                & 0x3f) as u32);
            proof {
                assert(cp == codepoint_width_3(c, b1, b2));
                assert(cp <= 0xffff) by (bit_vector)
                    requires
                        cp == (((c & 0x0f) as u32) << 12) | (((b1 & 0x3f) as u32) << 6) | ((b2
                            & 0x3f) as u32),
                ;
            }
            if cp >= 0x800 && !(0xd800 <= cp && cp <= 0xdfff) {
                return Some(char_from_scalar(cp));
            }
        }
        let _ = iter.next();
        None
    } else if 0xf0 <= c && c <= 0xf7 {
        let r1 = iter.next();
        let b2 = match r1 {
            Some(b) => b,
            None => {
                let _ = iter.next();
                return None;
            },
        };
        let r2 = iter.next();
        let b3 = match r2 {
            Some(b) => b,
            None => {
                return None;
            },
        };
        proof {
            assert((seq![c] + rest.take(3))[0] == c);
            assert((seq![c] + rest.take(3))[1] == rest[0]);
            assert((seq![c] + rest.take(3))[2] == rest[1]);
            assert((seq![c] + rest.take(3))[3] == rest[2]);
        }
        if is_cont_byte(b1) && is_cont_byte(b2) && is_cont_byte(b3) {
            let cp: u32 = (((c & 0x07) as u32) << 18) | (((b1 & 0x3f) as u32) << 12) | (((b2
                & 0x3f) as u32) << 6) | ((b3 & 0x3f) as u32);
            proof {
                assert(cp == codepoint_width_4(c, b1, b2, b3));
            }
            if 0x10000 <= cp && cp <= 0x10ffff {
                return Some(char_from_scalar(cp));
            }
        }
        None
    } else {
        let _ = iter.next();
        let _ = iter.next();
        None
    }
}

/// The result of subtracting 32 from an X10 mouse payload byte with
/// wrap-around, as the byte arithmetic of the original encoding does.
pub open spec fn spec_wrap_sub32(b: u8) -> u8 {
    if b >= 32 {
        (b - 32) as u8
    } else {
        (b + 224) as u8
    }
}

/// The result of subtracting 32 from an X10 coordinate byte, saturating at
/// zero.
pub open spec fn spec_sat_sub32(b: u8) -> u8 {
    if b >= 32 {
        (b - 32) as u8
    } else {
        0
    }
}

/// The mouse event encoded by the three payload bytes of an X10 report:
/// the low two bits of the button byte select the button, bit `0x40` marks
/// the wheel, and the coordinate bytes carry position plus 32.
pub open spec fn spec_x10_mouse(cb_raw: u8, cx_raw: u8, cy_raw: u8) -> MouseEvent {
    let cb = spec_wrap_sub32(cb_raw);
    let cx = spec_sat_sub32(cx_raw) as u16;
    let cy = spec_sat_sub32(cy_raw) as u16;
    if cb & 3 == 0 {
        if cb & 0x40 != 0 {
            MouseEvent::Press(MouseButton::WheelUp, cx, cy)
        } else {
            MouseEvent::Press(MouseButton::Left, cx, cy)
        }
    } else if cb & 3 == 1 {
        if cb & 0x40 != 0 {
            MouseEvent::Press(MouseButton::WheelDown, cx, cy)
        } else {
            MouseEvent::Press(MouseButton::Middle, cx, cy)
        }
    } else if cb & 3 == 2 {
        MouseEvent::Press(MouseButton::Right, cx, cy)
    } else {
        MouseEvent::Release(cx, cy)
    }
}

/// A key event without modifiers, as a decode result.
pub open spec fn key_ev(c: KeyCode) -> Option<EventView> {
    Some(EventView::Key(Key { code: c, mods: None }))
}

/// A key event with a modifier combination, as a decode result.
pub open spec fn key_mod_ev(c: KeyCode, m: KeyMod) -> Option<EventView> {
    Some(EventView::Key(Key { code: c, mods: Some(m) }))
}

/// The event of an SGR (`ESC [ <`) mouse report whose parameter bytes are
/// `buf` and whose final byte is `term` (`M` for press or hold, `m` for
/// release).  The parameters must be text with at least three
/// semicolon-separated numbers: button, column, row.
pub open spec fn spec_xterm_mouse(buf: Seq<u8>, term: u8) -> Option<EventView> {
    let pieces = split_from(buf, 0);
    if buf.len() > 0 && valid_utf8(buf) && pieces.len() >= 3 {
        match (spec_parse_u16(pieces[0]), spec_parse_u16(pieces[1]), spec_parse_u16(pieces[2])) {
            (Some(cb), Some(cx), Some(cy)) => {
                if cb <= 2 || cb == 64 || cb == 65 {
                    let button = if cb == 0 {
                        MouseButton::Left
                    } else if cb == 1 {
                        MouseButton::Middle
                    } else if cb == 2 {
                        MouseButton::Right
                    } else if cb == 64 {
                        MouseButton::WheelUp
                    } else {
                        MouseButton::WheelDown
                    };
                    if term == 77 {
                        Some(EventView::Mouse(MouseEvent::Press(button, cx, cy)))
                    } else {
                        Some(EventView::Mouse(MouseEvent::Release(cx, cy)))
                    }
                } else if cb == 32 {
                    Some(EventView::Mouse(MouseEvent::Hold(cx, cy)))
                } else if cb == 3 {
                    Some(EventView::Mouse(MouseEvent::Release(cx, cy)))
                } else {
                    None
                }
            },
            _ => None,
        }
    } else {
        None
    }
}

/// The event of an rxvt (`ESC [ Cb ; Cx ; Cy ; M`) mouse report whose
/// parameter bytes are `buf`: the button code picks the action from a fixed
/// table.
pub open spec fn spec_rxvt_mouse(buf: Seq<u8>) -> Option<EventView> {
    let pieces = split_from(buf, 0);
    if valid_utf8(buf) && pieces.len() >= 3 {
        match (spec_parse_u16(pieces[0]), spec_parse_u16(pieces[1]), spec_parse_u16(pieces[2])) {
            (Some(cb), Some(cx), Some(cy)) => {
                if cb == 32 {
                    Some(EventView::Mouse(MouseEvent::Press(MouseButton::Left, cx, cy)))
                } else if cb == 33 {
                    Some(EventView::Mouse(MouseEvent::Press(MouseButton::Middle, cx, cy)))
                } else if cb == 34 {
                    Some(EventView::Mouse(MouseEvent::Press(MouseButton::Right, cx, cy)))
                } else if cb == 35 {
                    Some(EventView::Mouse(MouseEvent::Release(cx, cy)))
                } else if cb == 64 {
                    Some(EventView::Mouse(MouseEvent::Hold(cx, cy)))
                } else if cb == 96 || cb == 97 {
                    Some(EventView::Mouse(MouseEvent::Press(MouseButton::WheelUp, cx, cy)))
                } else {
                    None
                }
            },
            _ => None,
        }
    } else {
        None
    }
}

/// The event of a `~`-terminated special-key sequence: one number selects
/// the key, an optional second selects a modifier, and any other shape
/// passes the numbers through unrecognized.
pub open spec fn spec_tilde_key(buf: Seq<u8>) -> Option<EventView> {
    let nums = spec_nums_u8(split_from(buf, 0));
    if !valid_utf8(buf) {
        None
    } else if nums.len() == 0 {
        None
    } else if nums.len() == 1 {
        match spec_special_key_code(nums[0]) {
            Some(k) => key_ev(k),
            None => Some(EventView::Unsupported(nums)),
        }
    } else if nums.len() == 2 {
        match spec_special_key_code(nums[0]) {
            Some(k) => match spec_key_mods(nums[1]) {
                Some(m) => key_mod_ev(k, m),
                None => Some(EventView::Unsupported(nums)),
            },
            None => Some(EventView::Unsupported(nums)),
        }
    } else {
        Some(EventView::Unsupported(nums))
    }
}

/// The event of a fixterms (`u`-terminated) modified-key sequence: a
/// character code and a modifier number.
pub open spec fn spec_tickit_key(buf: Seq<u8>) -> Option<EventView> {
    let nums = spec_nums_u8(split_from(buf, 0));
    if !valid_utf8(buf) {
        None
    } else if nums.len() == 0 {
        None
    } else if nums.len() == 1 {
        Some(EventView::Unsupported(nums))
    } else if nums.len() == 2 {
        match spec_key_mods(nums[1]) {
            Some(m) => key_mod_ev(spec_libtickit_key_code(nums[0]), m),
            None => Some(EventView::Unsupported(nums)),
        }
    } else {
        Some(EventView::Unsupported(nums))
    }
}

/// The event of a parameterized CSI sequence whose final byte names a key
/// directly (`1;5F` and the like): with exactly two numbers the second is a
/// modifier, and any other shape passes the numbers through unrecognized.
pub open spec fn spec_other_key(buf: Seq<u8>, term: u8) -> Option<EventView> {
    match spec_other_special_key_code(term) {
        Some(k) => if !valid_utf8(buf) {
            None
        } else {
            let nums = spec_nums_u8(split_from(buf, 0));
            if nums.len() == 2 && spec_key_mods(nums[1]) is Some {
                key_mod_ev(k, spec_key_mods(nums[1])->0)
            } else {
                Some(EventView::Unsupported(nums))
            }
        },
        None => None,
    }
}

/// The event of an rxvt Ctrl form (`^`-terminated): the whole parameter run
/// is one special-key number, reported with Ctrl.
pub open spec fn spec_caret_key(buf: Seq<u8>) -> Option<EventView> {
    if !valid_utf8(buf) {
        None
    } else {
        match spec_parse_u8(buf) {
            Some(n) => match spec_special_key_code(n) {
                Some(k) => key_mod_ev(k, KeyMod::Ctrl),
                None => None,
            },
            None => None,
        }
    }
}

/// What a CSI sequence decodes to, and how many bytes of `rest` (the bytes
/// after `ESC [`) it consumes.  `None` with its consumed count marks an
/// unrecognized or truncated sequence; the caller reports those bytes as an
/// unsupported event.
pub open spec fn spec_parse_csi(rest: Seq<u8>) -> (Option<EventView>, int) {
    if rest.len() == 0 {
        (None::<EventView>, 0int)
    } else {
        let b0 = rest[0];
        if b0 == 91 {
            if rest.len() >= 2 {
                if 65 <= rest[1] <= 69 {
                    (key_ev(KeyCode::F((rest[1] - 64) as u8)), 2int)
                } else {
                    (None::<EventView>, 2int)
                }
            } else {
                (None::<EventView>, 1int)
            }
        } else if b0 == 68 {
            (key_ev(KeyCode::Left), 1int)
        } else if b0 == 67 {
            (key_ev(KeyCode::Right), 1int)
        } else if b0 == 65 {
            (key_ev(KeyCode::Up), 1int)
        } else if b0 == 66 {
            (key_ev(KeyCode::Down), 1int)
        } else if b0 == 72 {
            (key_ev(KeyCode::Home), 1int)
        } else if b0 == 70 {
            (key_ev(KeyCode::End), 1int)
        } else if b0 == 90 {
            (key_ev(KeyCode::BackTab), 1int)
        } else if b0 == 77 {
            if rest.len() >= 4 {
                (Some(EventView::Mouse(spec_x10_mouse(rest[1], rest[2], rest[3]))), 4int)
            } else {
                (None::<EventView>, rest.len() as int)
            }
        } else if b0 == 60 {
            let j = first_from(rest, 1, mouse_end_p());
            if j >= rest.len() {
                (None::<EventView>, rest.len() as int)
            } else {
                (spec_xterm_mouse(rest.subrange(1, j), rest[j]), j + 1)
            }
        } else if 48 <= b0 <= 57 {
            let j = first_from(rest, 1, csi_final_p());
            if j >= rest.len() {
                (None::<EventView>, rest.len() as int)
            } else {
                let buf = rest.subrange(0, j);
                let term = rest[j];
                let ev = if term == 94 {
                    spec_caret_key(buf)
                } else if term == 77 {
                    spec_rxvt_mouse(buf)
                } else if term == 126 {
                    spec_tilde_key(buf)
                } else if term == 117 {
                    spec_tickit_key(buf)
                } else {
                    spec_other_key(buf, term)
                };
                (ev, j + 1)
            }
        } else {
            (None::<EventView>, 1int)
        }
    }
}

/// What one decode call yields for a first byte `item` and the bytes after
/// it, and how many of those bytes it consumes.  `None` marks input the
/// decoder does not recognize; [`spec_event_total`] turns that into an
/// unsupported event carrying the consumed bytes.
pub open spec fn spec_parse_event(item: u8, rest: Seq<u8>) -> (Option<EventView>, int) {
    if item == 0x1b || item == 0x9b {
        if rest.len() == 0 {
            (None::<EventView>, 0int)
        } else {
            let b0 = rest[0];
            if b0 == 79 {
                if rest.len() == 1 {
                    (None::<EventView>, 1int)
                } else {
                    let b1 = rest[1];
                    if 80 <= b1 <= 83 {
                        (key_ev(KeyCode::F((b1 - 79) as u8)), 2int)
                    } else if b1 == 53 {
                        if rest.len() >= 3 && 80 <= rest[2] <= 83 {
                            (key_mod_ev(KeyCode::F((rest[2] - 79) as u8), KeyMod::Ctrl), 3int)
                        } else {
                            (None::<EventView>, if rest.len() >= 3 { 3int } else { 2int })
                        }
                    } else {
                        (None::<EventView>, 2int)
                    }
                }
            } else if b0 == 91 {
                let r = spec_parse_csi(rest.skip(1));
                (r.0, 1 + r.1)
            } else {
                let ch = spec_utf8_result(b0, rest.skip(1));
                let n = 1 + spec_utf8_consumed(b0, rest.skip(1));
                match ch {
                    Some(ch) => if 1 <= b0 <= 26 {
                        (key_mod_ev(KeyCode::Char(spec_ctrl_letter(b0)), KeyMod::AltCtrl), n)
                    } else if b0 == 27 {
                        (key_mod_ev(KeyCode::Esc, KeyMod::Alt), n)
                    } else if b0 == 127 {
                        (key_mod_ev(KeyCode::Backspace, KeyMod::Alt), n)
                    } else {
                        (key_mod_ev(KeyCode::Char(ch), KeyMod::Alt), n)
                    },
                    None => (None::<EventView>, n),
                }
            }
        }
    } else if item == 10 || item == 13 {
        (key_ev(KeyCode::Char('\n')), 0int)
    } else if item == 9 {
        (key_ev(KeyCode::Char('\t')), 0int)
    } else if item == 0x7f {
        (key_ev(KeyCode::Backspace), 0int)
    } else if 1 <= item <= 26 {
        (key_mod_ev(KeyCode::Char(spec_ctrl_letter(item)), KeyMod::Ctrl), 0int)
    } else if 28 <= item <= 31 {
        (key_mod_ev(KeyCode::Char(spec_ctrl_digit(item)), KeyMod::Ctrl), 0int)
    } else if item == 0 {
        (key_ev(KeyCode::Null), 0int)
    } else {
        let ch = spec_utf8_result(item, rest);
        let n = spec_utf8_consumed(item, rest);
        match ch {
            Some(ch) => (key_ev(KeyCode::Char(ch)), n),
            None => (None::<EventView>, n),
        }
    }
}

/// The event a decode call reports: the decoded event, or, for input the
/// decoder does not recognize, an unsupported event carrying `item` and the
/// bytes consumed while trying.
pub open spec fn spec_event_total(item: u8, rest: Seq<u8>) -> EventView {
    let (ev, n) = spec_parse_event(item, rest);
    match ev {
        Some(e) => e,
        None => EventView::Unsupported(seq![item] + rest.take(n)),
    }
}

/// The value of an optional decode result.
pub open spec fn opt_ev(r: Option<Event>) -> Option<EventView> {
    match r {
        Some(e) => Some(e@),
        None => None,
    }
}


/// A sequence of ASCII bytes is valid UTF-8.
pub proof fn lemma_ascii_valid_utf8(s: Seq<u8>)
    requires
        forall|i: int| 0 <= i < s.len() ==> #[trigger] s[i] < 128,
    ensures
        valid_utf8(s),
    decreases s.len(),
{
    if s.len() > 0 {
        let c = s[0];
        let cp = codepoint_width_1(c);
        assert(cp == (c & 0x7f) as u32);
        assert(c < 128 ==> (c & 0x7f) == c) by (bit_vector);
        assert(not_surrogate(cp) && not_overlong_encoding(cp, 1));
        assert(valid_first_scalar(s));
        assert(pop_first_scalar(s) =~= s.skip(1));
        lemma_ascii_valid_utf8(s.skip(1));
    }
}

/// Length of the first UTF-8 scalar encoded at `s[i..]`, or `None` when the
/// bytes there do not begin a well-formed encoding.
fn first_scalar_info(s: &[u8], i: usize) -> (r: Option<usize>)
    requires
        i < s@.len(),
    ensures
        match r {
            Some(l) => valid_first_scalar(s@.skip(i as int)) && l == length_of_first_scalar(
                s@.skip(i as int),
            ),
            None => !valid_first_scalar(s@.skip(i as int)),
        },
{
    let ghost t = s@.skip(i as int);
    let n = s.len();
    let c = *vstd::slice::slice_index_get(s, i);
    proof {
        assert(t.len() == n - i);
        assert(t[0] == s@[i as int]);
    }
    if c < 128 {
        proof {
            let cp = codepoint_width_1(c);
            assert(cp == (c & 0x7f) as u32);
            assert(c < 128 ==> (c & 0x7f) == c) by (bit_vector);
            assert(not_surrogate(cp) && not_overlong_encoding(cp, 1));
        }
        Some(1)
    } else if 0xc0 <= c && c <= 0xdf {
        if i + 1 < n {
            let b1 = *vstd::slice::slice_index_get(s, i + 1);
            proof {
                assert(t[1] == s@[i as int + 1]);
            }
            if is_cont_byte(b1) {
                let cp: u32 = (((c & 0x1f) as u32) << 6) | ((b1 & 0x3f) as u32);
                proof {
                    assert(cp == codepoint_width_2(c, b1));
                    assert(cp <= 0x7ff) by (bit_vector)
                        requires
                            cp == (((c & 0x1f) as u32) << 6) | ((b1 & 0x3f) as u32),
                    ;
                }
                if cp >= 0x80 {
                    return Some(2);
                }
            }
        }
        None
    } else if 0xe0 <= c && c <= 0xef {
        if n - i > 2 {
            let b1 = *vstd::slice::slice_index_get(s, i + 1);
            let b2 = *vstd::slice::slice_index_get(s, i + 2);
            proof {
                assert(t[1] == s@[i as int + 1]);
                assert(t[2] == s@[i as int + 2]);
            }
            if is_cont_byte(b1) && is_cont_byte(b2) {
                let cp: u32 = (((c & 0x0f) as u32) << 12) | (((b1 & 0x3f) as u32) << 6) | ((b2
                    & 0x3f) as u32);
                proof {
                    assert(cp == codepoint_width_3(c, b1, b2));
                }
                if cp >= 0x800 && !(0xd800 <= cp && cp <= 0xdfff) {
                    return Some(3);
                }
            }
        }
        None
    } else if 0xf0 <= c && c <= 0xf7 {
        if n - i > 3 {
            let b1 = *vstd::slice::slice_index_get(s, i + 1);
            let b2 = *vstd::slice::slice_index_get(s, i + 2);
            let b3 = *vstd::slice::slice_index_get(s, i + 3);
            proof {
                assert(t[1] == s@[i as int + 1]);
                assert(t[2] == s@[i as int + 2]);
                assert(t[3] == s@[i as int + 3]);
            }
            if is_cont_byte(b1) && is_cont_byte(b2) && is_cont_byte(b3) {
                let cp: u32 = (((c & 0x07) as u32) << 18) | (((b1 & 0x3f) as u32) << 12) | (((b2
                    & 0x3f) as u32) << 6) | ((b3 & 0x3f) as u32);
                proof {
                    assert(cp == codepoint_width_4(c, b1, b2, b3));
                }
                if 0x10000 <= cp && cp <= 0x10ffff {
                    return Some(4);
                }
            }
        }
        None
    } else {
        None
    }
}

/// Whether `s` is a well-formed UTF-8 encoding, as `str::from_utf8` decides
/// it.
#[verifier::loop_isolation(false)]
pub fn check_valid_utf8(s: &[u8]) -> (r: bool)
    ensures
        r == valid_utf8(s@),
{
    let n = s.len();
    let mut i: usize = 0;
    proof {
        assert(s@.skip(0) =~= s@);
    }
    while i < n
        invariant
            i <= n,
            valid_utf8(s@) == valid_utf8(s@.skip(i as int)),
        decreases n - i,
    {
        match first_scalar_info(s, i) {
            Some(l) => {
                proof {
                    let t = s@.skip(i as int);
                    assert(1 <= l <= 4);
                    assert(l <= t.len());
                    assert(pop_first_scalar(t) =~= s@.skip(i + l));
                }
                i = i + l;
            },
            None => {
                return false;
            },
        }
    }
    proof {
        assert(s@.skip(n as int) =~= Seq::<u8>::empty());
    }
    true
}

/// Decode the rxvt Ctrl form: the parameter run is one special-key number.
fn csi_caret(buf: &Vec<u8>) -> (r: Option<Event>)
    ensures
        opt_ev(r) == spec_caret_key(buf@),
{
    if !check_valid_utf8(buf.as_slice()) {
        return None;
    }
    match parse_u8_bytes(buf.as_slice()) {
        Some(n) => match parse_special_key_code(n) {
            Some(k) => Some(Event::Key(Key::new_mod(k, KeyMod::Ctrl))),
            None => None,
        },
        None => None,
    }
}

/// Decode an rxvt mouse report from its parameter bytes.
fn csi_rxvt_mouse(buf: &Vec<u8>) -> (r: Option<Event>)
    ensures
        opt_ev(r) == spec_rxvt_mouse(buf@),
{
    if !check_valid_utf8(buf.as_slice()) {
        return None;
    }
    let pieces = split_semis(buf.as_slice());
    if pieces.len() < 3 {
        return None;
    }
    proof {
        assert(pieces@[0].deep_view() =~= pieces@[0]@);
        assert(pieces@[1].deep_view() =~= pieces@[1]@);
        assert(pieces@[2].deep_view() =~= pieces@[2]@);
    }
    let cb = match parse_u16_bytes(pieces[0].as_slice()) {
        Some(v) => v,
        None => {
            return None;
        },
    };
    let cx = match parse_u16_bytes(pieces[1].as_slice()) {
        Some(v) => v,
        None => {
            return None;
        },
    };
    let cy = match parse_u16_bytes(pieces[2].as_slice()) {
        Some(v) => v,
        None => {
            return None;
        },
    };
    if cb == 32 {
        Some(Event::Mouse(MouseEvent::Press(MouseButton::Left, cx, cy)))
    } else if cb == 33 {
        Some(Event::Mouse(MouseEvent::Press(MouseButton::Middle, cx, cy)))
    } else if cb == 34 {
        Some(Event::Mouse(MouseEvent::Press(MouseButton::Right, cx, cy)))
    } else if cb == 35 {
        Some(Event::Mouse(MouseEvent::Release(cx, cy)))
    } else if cb == 64 {
        Some(Event::Mouse(MouseEvent::Hold(cx, cy)))
    } else if cb == 96 || cb == 97 {
        Some(Event::Mouse(MouseEvent::Press(MouseButton::WheelUp, cx, cy)))
    } else {
        None
    }
}

/// Decode an SGR mouse report from its parameter bytes and final byte.
fn csi_xterm_mouse(buf: &Vec<u8>, term: u8) -> (r: Option<Event>)
    ensures
        opt_ev(r) == spec_xterm_mouse(buf@, term),
{
    if buf.len() == 0 {
        return None;
    }
    if !check_valid_utf8(buf.as_slice()) {
        return None;
    }
    let pieces = split_semis(buf.as_slice());
    if pieces.len() < 3 {
        return None;
    }
    proof {
        assert(pieces@[0].deep_view() =~= pieces@[0]@);
        assert(pieces@[1].deep_view() =~= pieces@[1]@);
        assert(pieces@[2].deep_view() =~= pieces@[2]@);
    }
    let cb = match parse_u16_bytes(pieces[0].as_slice()) {
        Some(v) => v,
        None => {
            return None;
        },
    };
    let cx = match parse_u16_bytes(pieces[1].as_slice()) {
        Some(v) => v,
        None => {
            return None;
        },
    };
    let cy = match parse_u16_bytes(pieces[2].as_slice()) {
        Some(v) => v,
        None => {
            return None;
        },
    };
    if cb <= 2 || cb == 64 || cb == 65 {
        let button = if cb == 0 {
            MouseButton::Left
        } else if cb == 1 {
            MouseButton::Middle
        } else if cb == 2 {
            MouseButton::Right
        } else if cb == 64 {
            MouseButton::WheelUp
        } else {
            MouseButton::WheelDown
        };
        if term == 77 {
            Some(Event::Mouse(MouseEvent::Press(button, cx, cy)))
        } else {
            Some(Event::Mouse(MouseEvent::Release(cx, cy)))
        }
    } else if cb == 32 {
        Some(Event::Mouse(MouseEvent::Hold(cx, cy)))
    } else if cb == 3 {
        Some(Event::Mouse(MouseEvent::Release(cx, cy)))
    } else {
        None
    }
}

/// Decode a `~`-terminated special-key sequence from its parameter bytes.
fn csi_tilde(buf: &Vec<u8>) -> (r: Option<Event>)
    ensures
        opt_ev(r) == spec_tilde_key(buf@),
{
    if !check_valid_utf8(buf.as_slice()) {
        return None;
    }
    let pieces = split_semis(buf.as_slice());
    let nums = nums_u8(&pieces);
    if nums.len() == 0 {
        None
    } else if nums.len() == 1 {
        match parse_special_key_code(nums[0]) {
            Some(k) => Some(Event::Key(Key::new(k))),
            None => Some(Event::Unsupported(nums)),
        }
    } else if nums.len() == 2 {
        match parse_special_key_code(nums[0]) {
            Some(k) => match parse_key_mods(nums[1]) {
                Some(m) => Some(Event::Key(Key::new_mod(k, m))),
                None => Some(Event::Unsupported(nums)),
            },
            None => Some(Event::Unsupported(nums)),
        }
    } else {
        Some(Event::Unsupported(nums))
    }
}

/// Decode a fixterms (`u`-terminated) modified-key sequence from its
/// parameter bytes.
fn csi_tickit(buf: &Vec<u8>) -> (r: Option<Event>)
    ensures
        opt_ev(r) == spec_tickit_key(buf@),
{
    if !check_valid_utf8(buf.as_slice()) {
        return None;
    }
    let pieces = split_semis(buf.as_slice());
    let nums = nums_u8(&pieces);
    if nums.len() == 0 {
        None
    } else if nums.len() == 1 {
        Some(Event::Unsupported(nums))
    } else if nums.len() == 2 {
        let k = parse_libtickit_key_codes(nums[0]);
        match parse_key_mods(nums[1]) {
            Some(m) => Some(Event::Key(Key::new_mod(k, m))),
            None => Some(Event::Unsupported(nums)),
        }
    } else {
        Some(Event::Unsupported(nums))
    }
}

/// Decode a parameterized CSI sequence whose final byte names a key
/// directly.
fn csi_other_key(buf: &Vec<u8>, term: u8) -> (r: Option<Event>)
    ensures
        opt_ev(r) == spec_other_key(buf@, term),
{
    match parse_other_special_key_code(term) {
        Some(k) => {
            if !check_valid_utf8(buf.as_slice()) {
                return None;
            }
            let pieces = split_semis(buf.as_slice());
            let nums = nums_u8(&pieces);
            if nums.len() == 2 {
                match parse_key_mods(nums[1]) {
                    Some(m) => {
                        return Some(Event::Key(Key::new_mod(k, m)));
                    },
                    None => {},
                }
            }
            Some(Event::Unsupported(nums))
        },
        None => None,
    }
}

/// Parse a CSI sequence, after its `ESC [` introducer has been consumed.
///
/// Exactly the bytes of the sequence are consumed from `iter`; `None` marks
/// an unrecognized or truncated sequence, whose bytes the caller reports as
/// an unsupported event.
#[verifier::loop_isolation(false)]
pub fn parse_csi(iter: &mut ByteSource) -> (r: Option<Event>)
    requires
        old(iter).wf(),
    ensures
        final(iter).wf(),
        final(iter).data@ == old(iter).data@,
        final(iter).pos == old(iter).pos + spec_parse_csi(old(iter).remaining()).1,
        final(iter).pos >= old(iter).pos,
        opt_ev(r) == spec_parse_csi(old(iter).remaining()).0,
{
    let ghost rest = old(iter).remaining();
    let first = iter.next();
    let b0 = match first {
        Some(b) => b,
        None => {
            return None;
        },
    };
    if b0 == 91 {
        let second = iter.next();
        match second {
            Some(b1) => {
                if 65 <= b1 && b1 <= 69 {
                    Some(Event::Key(Key::new(KeyCode::F(b1 - 64))))
                } else {
                    None
                }
            },
            None => None,
        }
    } else if b0 == 68 {
        Some(Event::Key(Key::new(KeyCode::Left)))
    } else if b0 == 67 {
        Some(Event::Key(Key::new(KeyCode::Right)))
    } else if b0 == 65 {
        Some(Event::Key(Key::new(KeyCode::Up)))
    } else if b0 == 66 {
        Some(Event::Key(Key::new(KeyCode::Down)))
    } else if b0 == 72 {
        Some(Event::Key(Key::new(KeyCode::Home)))
    } else if b0 == 70 {
        Some(Event::Key(Key::new(KeyCode::End)))
    } else if b0 == 90 {
        Some(Event::Key(Key::new(KeyCode::BackTab)))
    } else if b0 == 77 {
        let c1 = iter.next();
        let c2 = iter.next();
        let c3 = iter.next();
        match (c1, c2, c3) {
            (Some(cb), Some(cx), Some(cy)) => {
                let cbs = if cb >= 32 {
                    cb - 32
                } else {
                    cb + 224
                };
                let cxs: u16 = if cx >= 32 {
                    (cx - 32) as u16
                } else {
                    0
                };
                let cys: u16 = if cy >= 32 {
                    (cy - 32) as u16
                } else {
                    0
                };
                let low = cbs & 3;
                let ev = if low == 0 {
                    if cbs & 0x40 != 0 {
                        MouseEvent::Press(MouseButton::WheelUp, cxs, cys)
                    } else {
                        MouseEvent::Press(MouseButton::Left, cxs, cys)
                    }
                } else if low == 1 {
                    if cbs & 0x40 != 0 {
                        MouseEvent::Press(MouseButton::WheelDown, cxs, cys)
                    } else {
                        MouseEvent::Press(MouseButton::Middle, cxs, cys)
                    }
                } else if low == 2 {
                    MouseEvent::Press(MouseButton::Right, cxs, cys)
                } else {
                    proof {
                        assert(cbs & 3 == 3) by (bit_vector)
                            requires
                                cbs & 3 != 0 && cbs & 3 != 1 && cbs & 3 != 2,
                        ;
                    }
                    MouseEvent::Release(cxs, cys)
                };
                Some(Event::Mouse(ev))
            },
            _ => None,
        }
    } else if b0 == 60 {
        let mut buf: Vec<u8> = Vec::new();
        loop
            invariant
                iter.wf(),
                iter.data@ == old(iter).data@,
                iter.pos == old(iter).pos + 1 + buf@.len(),
                1 + buf@.len() <= rest.len(),
                buf@ == rest.subrange(1, 1 + buf@.len() as int),
                forall|k: int| 1 <= k < 1 + buf@.len() ==> !mouse_end_p()(#[trigger] rest[k]),
            decreases rest.len() - buf@.len(),
        {
            let nx = iter.next();
            match nx {
                None => {
                    proof {
                        assert(1 + buf@.len() == rest.len());
                        lemma_first_from(rest, 1, mouse_end_p());
                    }
                    return None;
                },
                Some(c2) => {
                    if c2 == 109 || c2 == 77 {
                        proof {
                            assert(rest[1 + buf@.len() as int] == c2);
                            lemma_first_from_found(
                                rest,
                                1,
                                1 + buf@.len() as int,
                                mouse_end_p(),
                            );
                        }
                        return csi_xterm_mouse(&buf, c2);
                    } else {
                        buf.push(c2);
                        proof {
                            assert(buf@ =~= rest.subrange(1, 1 + buf@.len() as int));
                        }
                    }
                },
            }
        }
    } else if 48 <= b0 && b0 <= 57 {
        let mut buf: Vec<u8> = Vec::new();
        buf.push(b0);
        proof {
            assert(buf@ =~= rest.subrange(0, 1));
        }
        loop
            invariant
                iter.wf(),
                iter.data@ == old(iter).data@,
                iter.pos == old(iter).pos + buf@.len(),
                1 <= buf@.len() <= rest.len(),
                buf@ == rest.subrange(0, buf@.len() as int),
                forall|k: int| 1 <= k < buf@.len() ==> !csi_final_p()(#[trigger] rest[k]),
            decreases rest.len() - buf@.len(),
        {
            let nx = iter.next();
            match nx {
                None => {
                    proof {
                        assert(buf@.len() == rest.len());
                        lemma_first_from(rest, 1, csi_final_p());
                    }
                    return None;
                },
                Some(c2) => {
                    if 64 <= c2 && c2 <= 126 {
                        proof {
                            assert(rest[buf@.len() as int] == c2);
                            lemma_first_from_found(rest, 1, buf@.len() as int, csi_final_p());
                        }
                        let r = if c2 == 94 {
                            csi_caret(&buf)
                        } else if c2 == 77 {
                            csi_rxvt_mouse(&buf)
                        } else if c2 == 126 {
                            csi_tilde(&buf)
                        } else if c2 == 117 {
                            csi_tickit(&buf)
                        } else {
                            csi_other_key(&buf, c2)
                        };
                        return r;
                    } else {
                        buf.push(c2);
                        proof {
                            assert(buf@ =~= rest.subrange(0, buf@.len() as int));
                        }
                    }
                },
            }
        }
    } else {
        None
    }
}

/// The dispatch of one decode call; `None` marks input the decoder does not
/// recognize, which [`parse_event`] reports as an unsupported event.
fn parse_event_inner(item: u8, iter: &mut ByteSource) -> (r: Option<Event>)
    requires
        old(iter).wf(),
    ensures
        final(iter).wf(),
        final(iter).data@ == old(iter).data@,
        final(iter).pos == old(iter).pos + spec_parse_event(item, old(iter).remaining()).1,
        final(iter).pos >= old(iter).pos,
        opt_ev(r) == spec_parse_event(item, old(iter).remaining()).0,
{
    let ghost rest = old(iter).remaining();
    if item == 0x1b || item == 0x9b {
        let first = iter.next();
        match first {
            None => None,
            Some(b0) => {
                proof {
                    assert(iter.remaining() =~= rest.skip(1));
                }
                if b0 == 79 {
                    let second = iter.next();
                    match second {
                        None => None,
                        Some(b1) => {
                            if 80 <= b1 && b1 <= 83 {
                                Some(Event::Key(Key::new(KeyCode::F(b1 - 79))))
                            } else if b1 == 53 {
                                let third = iter.next();
                                match third {
                                    Some(v) => {
                                        if 80 <= v && v <= 83 {
                                            Some(
                                                Event::Key(
                                                    Key::new_mod(KeyCode::F(v - 79), KeyMod::Ctrl),
                                                ),
                                            )
                                        } else {
                                            None
                                        }
                                    },
                                    None => None,
                                }
                            } else {
                                None
                            }
                        },
                    }
                } else if b0 == 91 {
                    parse_csi(iter)
                } else {
                    let ch = parse_utf8_char(b0, iter);
                    match ch {
                        Some(ch) => {
                            if 1 <= b0 && b0 <= 26 {
                                Some(
                                    Event::Key(
                                        Key::new_mod(
                                            KeyCode::Char((b0 + 96) as char),
                                            KeyMod::AltCtrl,
                                        ),
                                    ),
                                )
                            } else if b0 == 27 {
                                Some(Event::Key(Key::new_mod(KeyCode::Esc, KeyMod::Alt)))
                            } else if b0 == 127 {
                                Some(Event::Key(Key::new_mod(KeyCode::Backspace, KeyMod::Alt)))
                            } else {
                                Some(Event::Key(Key::new_mod(KeyCode::Char(ch), KeyMod::Alt)))
                            }
                        },
                        None => None,
                    }
                }
            },
        }
    } else if item == 10 || item == 13 {
        Some(Event::Key(Key::new(KeyCode::Char('\n'))))
    } else if item == 9 {
        Some(Event::Key(Key::new(KeyCode::Char('\t'))))
    } else if item == 0x7f {
        Some(Event::Key(Key::new(KeyCode::Backspace)))
    } else if 1 <= item && item <= 26 {
        Some(Event::Key(Key::new_mod(KeyCode::Char((item + 96) as char), KeyMod::Ctrl)))
    } else if 28 <= item && item <= 31 {
        Some(Event::Key(Key::new_mod(KeyCode::Char((item + 24) as char), KeyMod::Ctrl)))
    } else if item == 0 {
        Some(Event::Key(Key::new(KeyCode::Null)))
    } else {
        match parse_utf8_char(item, iter) {
            Some(ch) => Some(Event::Key(Key::new(KeyCode::Char(ch)))),
            None => None,
        }
    }
}

/// Parse one event from `item` and, as far as the event needs them, further
/// bytes pulled from `iter`.
///
/// Decoding never fails: input the decoder does not recognize comes back as
/// [`Event::Unsupported`] holding exactly the bytes consumed, so a caller's
/// read loop survives any byte stream.
pub fn parse_event(item: u8, iter: &mut ByteSource) -> (r: Event)
    requires
        old(iter).wf(),
    ensures
        final(iter).wf(),
        final(iter).data@ == old(iter).data@,
        final(iter).pos == old(iter).pos + spec_parse_event(item, old(iter).remaining()).1,
        r@ == spec_event_total(item, old(iter).remaining()),
{
    let ghost rest = old(iter).remaining();
    let start = iter.pos;
    let inner = parse_event_inner(item, iter);
    match inner {
        Some(ev) => ev,
        None => {
            let mut raw: Vec<u8> = Vec::new();
            raw.push(item);
            let mut consumed = iter.copy_range(start, iter.pos);
            raw.append(&mut consumed);
            proof {
                let n = spec_parse_event(item, rest).1;
                assert(rest.take(n) =~= iter.data@.subrange(
                    start as int,
                    start as int + n,
                ));
                assert(raw@ =~= seq![item] + rest.take(n));
            }
            Event::Unsupported(raw)
        },
    }
}

/// A UTF-8 decode consumes at most what the source still holds.
pub proof fn lemma_utf8_consumed(c: u8, rest: Seq<u8>)
    ensures
        0 <= spec_utf8_consumed(c, rest) <= rest.len(),
{
}

/// A CSI decode consumes at most what the source still holds.
pub proof fn lemma_csi_consumed(rest: Seq<u8>)
    ensures
        0 <= spec_parse_csi(rest).1 <= rest.len(),
{
    if rest.len() > 0 {
        let b0 = rest[0];
        if b0 == 60 {
            lemma_first_from(rest, 1, mouse_end_p());
        } else if 48 <= b0 <= 57 {
            lemma_first_from(rest, 1, csi_final_p());
        }
    }
}

/// One decode call consumes at most what the source still holds.
pub proof fn lemma_event_consumed(item: u8, rest: Seq<u8>)
    ensures
        0 <= spec_parse_event(item, rest).1 <= rest.len(),
{
    if item == 0x1b || item == 0x9b {
        if rest.len() > 0 {
            let b0 = rest[0];
            if b0 == 91 {
                lemma_csi_consumed(rest.skip(1));
            } else if b0 != 79 {
                lemma_utf8_consumed(b0, rest.skip(1));
            }
        }
    } else if !(item == 10 || item == 13 || item == 9 || item == 0x7f || (1 <= item && item <= 26)
        || (28 <= item && item <= 31) || item == 0) {
        lemma_utf8_consumed(item, rest);
    }
}

/// The shared shape of the modified-key forms: the parameter run
/// `digits(a) ; digits(b)` followed by a final byte scans to exactly that
/// run, and its two fields parse back to `a` and `b`.
proof fn lemma_two_number_run(a: u8, b: u8, term: u8)
    requires
        64 <= term <= 126,
    ensures
        ({
            let bytes = dec_bytes(a as nat) + seq![59u8] + dec_bytes(b as nat) + seq![term];
            &&& 48 <= bytes[0] <= 57
            &&& first_from(bytes, 1, csi_final_p()) == bytes.len() - 1
            &&& bytes[bytes.len() - 1] == term
            &&& bytes.subrange(0, bytes.len() - 1) =~= dec_bytes(a as nat) + seq![59u8]
                + dec_bytes(b as nat)
            &&& split_from(
                dec_bytes(a as nat) + seq![59u8] + dec_bytes(b as nat),
                0,
            ) == seq![dec_bytes(a as nat), dec_bytes(b as nat)]
            &&& spec_parse_u8(dec_bytes(a as nat)) == Some(a)
            &&& spec_parse_u8(dec_bytes(b as nat)) == Some(b)
            &&& spec_nums_u8(
                seq![dec_bytes(a as nat), dec_bytes(b as nat)],
            ) == seq![a, b]
            &&& valid_utf8(dec_bytes(a as nat) + seq![59u8] + dec_bytes(b as nat))
        }),
{
    let da = dec_bytes(a as nat);
    let db = dec_bytes(b as nat);
    lemma_dec_bytes(a as nat);
    lemma_dec_bytes(b as nat);
    let buf = da + seq![59u8] + db;
    let bytes = buf + seq![term];
    assert(bytes[0] == da[0]);
    assert(forall|k: int| 0 <= k < da.len() ==> #[trigger] bytes[k] == da[k]);
    assert(forall|k: int| 0 <= k < db.len() ==> #[trigger] bytes[da.len() + 1 + k] == db[k]);
    assert(forall|k: int| 1 <= k < bytes.len() - 1 ==> !csi_final_p()(#[trigger] bytes[k])) by {
        assert(forall|k: int|
            1 <= k < bytes.len() - 1 ==> bytes[k] == buf[k] && (bytes[k] == 59 || (48 <= bytes[k]
                <= 57)));
    }
    assert(bytes[bytes.len() - 1] == term);
    lemma_first_from_found(bytes, 1, bytes.len() - 1, csi_final_p());
    assert(bytes.subrange(0, bytes.len() - 1) =~= buf);
    assert(forall|k: int| 0 <= k < da.len() ==> #[trigger] da[k] != 59);
    assert(forall|k: int| 0 <= k < db.len() ==> #[trigger] db[k] != 59);
    lemma_split_two(da, db);
    assert(da + seq![59u8] + db =~= buf);
    assert(spec_parse_u8(da) == Some(a)) by {
        assert(da[0] != 43);
        assert(dec_val(da) == a as nat);
    }
    assert(spec_parse_u8(db) == Some(b)) by {
        assert(db[0] != 43);
        assert(dec_val(db) == b as nat);
    }
    let pieces = seq![da, db];
    assert(forall|i: int| 0 <= i < buf.len() ==> #[trigger] buf[i] < 128);
    lemma_ascii_valid_utf8(buf);
    assert(pieces.skip(1) =~= seq![db]);
    assert(seq![db].skip(1) =~= Seq::<Seq<u8>>::empty());
    assert(spec_nums_u8(Seq::<Seq<u8>>::empty()) =~= Seq::<u8>::empty());
    assert(seq![db][0] == db);
    assert(spec_nums_u8(seq![db]) =~= seq![b]);
    assert(pieces[0] == da);
    assert(pieces.len() == 2);
    assert(spec_nums_u8(pieces) == seq![a] + spec_nums_u8(pieces.skip(1)));
    assert(spec_nums_u8(pieces) =~= seq![a, b]);
}

/// Modifier-table completeness, `~` form: for every special-key number in
/// the table and every modifier number, `ESC [ key ; mod ~` decodes to the
/// keyed pair given by the two tables, and an unknown modifier number
/// degrades to an unsupported event carrying the two numbers.
pub proof fn lemma_modifier_table_tilde(base: u8, m: u8)
    requires
        spec_special_key_code(base) is Some,
    ensures
        ({
            let bytes = dec_bytes(base as nat) + seq![59u8] + dec_bytes(m as nat) + seq![126u8];
            spec_parse_csi(bytes) == (
                (match spec_key_mods(m) {
                    Some(km) => key_mod_ev(spec_special_key_code(base)->0, km),
                    None => Some(EventView::Unsupported(seq![base, m])),
                }),
                bytes.len() as int,
            )
        }),
{
    lemma_two_number_run(base, m, 126);
}

/// Modifier-table completeness, fixterms `u` form: for every character
/// code and every modifier number in the table, `ESC [ code ; mod u`
/// decodes to the character named by the code with that modifier, and an
/// unknown modifier number degrades to an unsupported event carrying the
/// two numbers.
pub proof fn lemma_modifier_table_tickit(base: u8, m: u8)
    ensures
        ({
            let bytes = dec_bytes(base as nat) + seq![59u8] + dec_bytes(m as nat) + seq![117u8];
            spec_parse_csi(bytes) == (
                (match spec_key_mods(m) {
                    Some(km) => key_mod_ev(spec_libtickit_key_code(base), km),
                    None => Some(EventView::Unsupported(seq![base, m])),
                }),
                bytes.len() as int,
            )
        }),
{
    lemma_two_number_run(base, m, 117);
}

/// Modifier-table completeness, rxvt `^` form: for every special-key
/// number in the table, `ESC [ key ^` decodes to that key with Ctrl, and a
/// number outside the table is not recognized.
pub proof fn lemma_ctrl_table_caret(base: u8)
    ensures
        ({
            let bytes = dec_bytes(base as nat) + seq![94u8];
            spec_parse_csi(bytes) == (
                (match spec_special_key_code(base) {
                    Some(k) => key_mod_ev(k, KeyMod::Ctrl),
                    None => None::<EventView>,
                }),
                bytes.len() as int,
            )
        }),
{
    let da = dec_bytes(base as nat);
    lemma_dec_bytes(base as nat);
    let bytes = da + seq![94u8];
    assert(bytes[0] == da[0]);
    assert(48 <= bytes[0] <= 57);
    assert(forall|k: int| 0 <= k < da.len() ==> #[trigger] bytes[k] == da[k]);
    assert(forall|k: int| 1 <= k < bytes.len() - 1 ==> !csi_final_p()(#[trigger] bytes[k]));
    assert(bytes[bytes.len() - 1] == 94);
    lemma_first_from_found(bytes, 1, bytes.len() - 1, csi_final_p());
    assert(bytes.subrange(0, bytes.len() - 1) =~= da);
    assert(forall|i: int| 0 <= i < da.len() ==> #[trigger] da[i] < 128);
    lemma_ascii_valid_utf8(da);
    assert(spec_parse_u8(da) == Some(base)) by {
        assert(da[0] != 43);
        assert(dec_val(da) == base as nat);
    }
}

/// What one decode step yields on the buffered bytes `rest`: nothing at end
/// of input; the bare escape key when a single escape byte is all there is
/// (the one ambiguity a lookahead must settle); otherwise the decoded event
/// and the exact bytes it consumed.
pub open spec fn spec_event_and_raw(rest: Seq<u8>) -> Option<(EventView, Seq<u8>)> {
    if rest.len() == 0 {
        None
    } else if rest.len() == 1 && rest[0] == 0x1b {
        Some((EventView::Key(Key { code: KeyCode::Esc, mods: None }), seq![0x1bu8]))
    } else {
        let n = spec_parse_event(rest[0], rest.skip(1)).1;
        Some((spec_event_total(rest[0], rest.skip(1)), seq![rest[0]] + rest.skip(1).take(n)))
    }
}

/// How many bytes one decode step consumes.
pub open spec fn spec_event_consumed(rest: Seq<u8>) -> int {
    if rest.len() == 0 {
        0
    } else if rest.len() == 1 && rest[0] == 0x1b {
        1
    } else {
        1 + spec_parse_event(rest[0], rest.skip(1)).1
    }
}

/// The events of a whole byte stream, decoded one after the other by
/// [`event_and_raw`] until the stream is exhausted.
pub open spec fn spec_events_of(s: Seq<u8>) -> Seq<EventView>
    decreases s.len(),
{
    if s.len() == 0 {
        seq![]
    } else if s.len() == 1 && s[0] == 0x1b {
        seq![EventView::Key(Key { code: KeyCode::Esc, mods: None })]
    } else {
        let n0 = spec_parse_event(s[0], s.skip(1)).1;
        let n = if n0 < 0 {
            0
        } else if n0 > s.len() - 1 {
            s.len() - 1
        } else {
            n0
        };
        seq![spec_event_total(s[0], s.skip(1))] + spec_events_of(s.skip(1 + n))
    }
}

/// Unfolds one step of [`spec_events_of`]: the decode consumes what
/// [`spec_event_consumed`] says, and the rest of the stream is decoded
/// after it.
pub proof fn lemma_events_of_step(s: Seq<u8>)
    requires
        s.len() > 0,
        !(s.len() == 1 && s[0] == 0x1b),
    ensures
        spec_events_of(s) == seq![spec_event_total(s[0], s.skip(1))] + spec_events_of(
            s.skip(spec_event_consumed(s)),
        ),
{
    lemma_event_consumed(s[0], s.skip(1));
}

/// Decoding a stream that holds exactly one escape byte yields exactly the
/// escape key: no stall waiting for a sequence, and no unsupported event.
pub proof fn lemma_bare_esc_is_esc_key()
    ensures
        spec_events_of(seq![0x1bu8]) == seq![
            EventView::Key(Key { code: KeyCode::Esc, mods: None }),
        ],
        spec_event_and_raw(seq![0x1bu8]) == Some(
            (EventView::Key(Key { code: KeyCode::Esc, mods: None }), seq![0x1bu8]),
        ),
{
}

/// The key event of typing one character.
pub open spec fn char_key_event(c: char) -> EventView {
    EventView::Key(Key { code: KeyCode::Char(c), mods: None })
}

/// A character that is input data rather than control input: codepoint 32
/// or above, and not the delete byte.  The bytes below 32 and the byte 127
/// are keystrokes of their own (control keys, tab, return, escape), so only
/// on these characters can a byte stream read back as plain text.
pub open spec fn is_plain_char(c: char) -> bool {
    c as u32 >= 32 && c as u32 != 127
}

/// UTF-8 fidelity: decoding the UTF-8 encoding of any sequence of plain
/// characters reproduces exactly those characters, one key event per
/// codepoint.
pub proof fn lemma_utf8_fidelity(chars: Seq<char>)
    requires
        forall|i: int| 0 <= i < chars.len() ==> is_plain_char(#[trigger] chars[i]),
    ensures
        spec_events_of(encode_utf8(chars)).len() == chars.len(),
        forall|i: int|
            0 <= i < chars.len() ==> spec_events_of(encode_utf8(chars))[i] == char_key_event(
                chars[i],
            ),
    decreases chars.len(),
{
    let s = encode_utf8(chars);
    if chars.len() == 0 {
        assert(spec_events_of(s) =~= Seq::<EventView>::empty());
    } else {
        let c0 = chars[0];
        let cp = c0 as u32;
        char_is_scalar(c0);
        char_u32_cast(c0, cp);
        encode_utf8_first_scalar(chars);
        let e0 = encode_scalar(cp);
        let l = e0.len() as int;
        assert(s == e0 + encode_utf8(chars.drop_first()));
        assert(1 <= l <= 4);
        let item = s[0];
        assert(item == e0[0]);
        let tail = s.skip(1);
        let consumed = spec_parse_event(item, tail).1;
        if cp < 128 {
            assert(l == 1);
            assert(item == ((cp & 0x7f) as u8));
            assert(cp < 128 ==> ((cp & 0x7f) as u8) as u32 == cp) by (bit_vector);
            assert(item as u32 == cp);
            assert(32 <= item <= 126 && item != 127);
            assert(spec_utf8_result(item, tail) == Some(item as char));
            assert(item as char == c0);
            assert(spec_parse_event(item, tail) == (key_ev(KeyCode::Char(c0)), 0int));
        } else {
            assert(l >= 2);
            assert(item >= 0xc0) by {
                assert(!vstd::utf8::is_leading_byte_width_1(item));
                assert(!vstd::utf8::is_continuation_byte(item)) by {
                    if vstd::utf8::is_continuation_byte(item) {
                        assert(length_of_first_scalar(s) == l);
                        assert(false);
                    }
                }
            }
            assert(utf8_expected_len(item) == l) by {
                assert(length_of_first_scalar(s) == l);
            }
            let bytes = seq![item] + tail.take(l - 1);
            assert(bytes =~= s.take(l));
            assert(valid_first_scalar(bytes)) by {
                assert(valid_first_scalar(s));
                assert(forall|k: int| 0 <= k < l ==> #[trigger] bytes[k] == s[k]);
                assert(bytes.len() == l);
            }
            assert(decode_first_scalar(bytes) == decode_first_scalar(s));
            assert(spec_utf8_result(item, tail) == Some(cp as char));
            assert(cp as char == c0);
            assert(spec_utf8_consumed(item, tail) == l - 1);
            assert(spec_parse_event(item, tail) == (key_ev(KeyCode::Char(c0)), l - 1));
        }
        assert(consumed == l - 1);
        assert(spec_event_total(item, tail) == char_key_event(c0));
        assert(!(s.len() == 1 && s[0] == 0x1b));
        lemma_events_of_step(s);
        assert(spec_event_consumed(s) == l);
        let s2 = s.skip(l);
        assert(s2 =~= encode_utf8(chars.drop_first()));
        assert(forall|i: int|
            0 <= i < chars.drop_first().len() ==> is_plain_char(
                #[trigger] chars.drop_first()[i],
            )) by {
            assert(forall|i: int|
                0 <= i < chars.drop_first().len() ==> chars.drop_first()[i] == chars[i + 1]);
        }
        lemma_utf8_fidelity(chars.drop_first());
        assert(spec_events_of(s) == seq![char_key_event(c0)] + spec_events_of(s2));
        assert(spec_events_of(s).len() == chars.len());
        assert(forall|i: int|
            0 <= i < chars.len() ==> spec_events_of(s)[i] == char_key_event(chars[i])) by {
            assert(forall|i: int|
                1 <= i < chars.len() ==> spec_events_of(s)[i] == spec_events_of(s2)[i - 1]
                    && chars[i] == chars.drop_first()[i - 1]);
        }
    }
}

/// The first key event of an event stream, skipping any events that are
/// not key presses.
pub open spec fn first_key_of(events: Seq<EventView>) -> Option<Key>
    decreases events.len(),
{
    if events.len() == 0 {
        None
    } else {
        match events[0] {
            EventView::Key(k) => Some(k),
            _ => first_key_of(events.drop_first()),
        }
    }
}

/// A non-empty stream always decodes to at least one event, and the head
/// of [`spec_events_of`] is exactly what [`spec_event_and_raw`] yields.
pub proof fn lemma_first_event(s: Seq<u8>)
    requires
        s.len() > 0,
    ensures
        spec_event_and_raw(s) is Some,
        spec_events_of(s).len() > 0,
        spec_events_of(s)[0] == (spec_event_and_raw(s)->0).0,
{
    if !(s.len() == 1 && s[0] == 0x1b) {
        lemma_event_consumed(s[0], s.skip(1));
    }
}

} // verus!
