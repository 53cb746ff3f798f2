//! Decoder tests: every terminal dialect the event parser understands.
use sl_console::event::{
    parse_event, parse_utf8_char, Event, Key, KeyCode, KeyMod, MouseButton, MouseEvent,
};
use sl_console::source::ByteSource;

fn pe(item: u8, s: &str) -> Event {
    let mut src = ByteSource::new(s.bytes().collect());
    parse_event(item, &mut src)
}

fn pe_bytes(item: u8, s: &[u8]) -> Event {
    let mut src = ByteSource::new(s.to_vec());
    parse_event(item, &mut src)
}

#[test]
fn test_parse_utf8() {
    let st = "abcéŷ¤£€ù%323";
    let mut src = ByteSource::new(st.bytes().collect());
    for c in st.chars() {
        let b = src.next().unwrap();
        assert!(c == parse_utf8_char(b, &mut src).unwrap());
    }
}

#[test]
fn test_parse_valid_csi_special_codes() {
    let item = b'\x1B';
    let cases: Vec<(&str, Event)> = vec![
        ("[1~", Event::Key(Key::new(KeyCode::Home))),
        ("[7~", Event::Key(Key::new(KeyCode::Home))),
        ("[7^", Event::Key(Key::new_mod(KeyCode::Home, KeyMod::Ctrl))),
        ("[2~", Event::Key(Key::new(KeyCode::Insert))),
        ("[4~", Event::Key(Key::new(KeyCode::End))),
        ("[8~", Event::Key(Key::new(KeyCode::End))),
        ("[5~", Event::Key(Key::new(KeyCode::PageUp))),
        ("[6~", Event::Key(Key::new(KeyCode::PageDown))),
        ("[H", Event::Key(Key::new(KeyCode::Home))),
        ("[F", Event::Key(Key::new(KeyCode::End))),
        ("[D", Event::Key(Key::new(KeyCode::Left))),
        ("[Z", Event::Key(Key::new(KeyCode::BackTab))),
        ("[1;2F", Event::Key(Key::new_mod(KeyCode::End, KeyMod::Shift))),
        ("[1;3F", Event::Key(Key::new_mod(KeyCode::End, KeyMod::Alt))),
        ("[1;4F", Event::Key(Key::new_mod(KeyCode::End, KeyMod::AltShift))),
        ("[1;5F", Event::Key(Key::new_mod(KeyCode::End, KeyMod::Ctrl))),
        ("[1;6F", Event::Key(Key::new_mod(KeyCode::End, KeyMod::CtrlShift))),
        ("[1;7F", Event::Key(Key::new_mod(KeyCode::End, KeyMod::AltCtrl))),
        ("[1;8F", Event::Key(Key::new_mod(KeyCode::End, KeyMod::AltCtrlShift))),
        ("[1;2C", Event::Key(Key::new_mod(KeyCode::Right, KeyMod::Shift))),
        ("[1;3C", Event::Key(Key::new_mod(KeyCode::Right, KeyMod::Alt))),
        ("[1;4C", Event::Key(Key::new_mod(KeyCode::Right, KeyMod::AltShift))),
        ("[1;5C", Event::Key(Key::new_mod(KeyCode::Right, KeyMod::Ctrl))),
        ("[1;6C", Event::Key(Key::new_mod(KeyCode::Right, KeyMod::CtrlShift))),
        ("[1;7C", Event::Key(Key::new_mod(KeyCode::Right, KeyMod::AltCtrl))),
        ("[1;8C", Event::Key(Key::new_mod(KeyCode::Right, KeyMod::AltCtrlShift))),
        ("[C", Event::Key(Key::new(KeyCode::Right))),
        ("[A", Event::Key(Key::new(KeyCode::Up))),
        ("[B", Event::Key(Key::new(KeyCode::Down))),
        ("[11^", Event::Key(Key::new_mod(KeyCode::F(1), KeyMod::Ctrl))),
        ("[11~", Event::Key(Key::new(KeyCode::F(1)))),
        ("[12~", Event::Key(Key::new(KeyCode::F(2)))),
        ("[13~", Event::Key(Key::new(KeyCode::F(3)))),
        ("[14~", Event::Key(Key::new(KeyCode::F(4)))),
        ("[15~", Event::Key(Key::new(KeyCode::F(5)))),
        ("[17~", Event::Key(Key::new(KeyCode::F(6)))),
        ("[18~", Event::Key(Key::new(KeyCode::F(7)))),
        ("[19~", Event::Key(Key::new(KeyCode::F(8)))),
        ("[20~", Event::Key(Key::new(KeyCode::F(9)))),
        ("[21~", Event::Key(Key::new(KeyCode::F(10)))),
        ("[23~", Event::Key(Key::new(KeyCode::F(11)))),
        ("[24~", Event::Key(Key::new(KeyCode::F(12)))),
        ("[3;2~", Event::Key(Key::new_mod(KeyCode::Delete, KeyMod::Shift))),
        ("[3;3~", Event::Key(Key::new_mod(KeyCode::Delete, KeyMod::Alt))),
        ("[3;4~", Event::Key(Key::new_mod(KeyCode::Delete, KeyMod::AltShift))),
        ("[3;5~", Event::Key(Key::new_mod(KeyCode::Delete, KeyMod::Ctrl))),
        ("[3;6~", Event::Key(Key::new_mod(KeyCode::Delete, KeyMod::CtrlShift))),
        ("[3;7~", Event::Key(Key::new_mod(KeyCode::Delete, KeyMod::AltCtrl))),
        ("[3;8~", Event::Key(Key::new_mod(KeyCode::Delete, KeyMod::AltCtrlShift))),
        ("[5;2~", Event::Key(Key::new_mod(KeyCode::PageUp, KeyMod::Shift))),
        ("[6;2~", Event::Key(Key::new_mod(KeyCode::PageDown, KeyMod::Shift))),
        ("[15;2~", Event::Key(Key::new_mod(KeyCode::F(5), KeyMod::Shift))),
        ("[17;2~", Event::Key(Key::new_mod(KeyCode::F(6), KeyMod::Shift))),
        ("[18;2~", Event::Key(Key::new_mod(KeyCode::F(7), KeyMod::Shift))),
        ("[19;2~", Event::Key(Key::new_mod(KeyCode::F(8), KeyMod::Shift))),
        ("[20;2~", Event::Key(Key::new_mod(KeyCode::F(9), KeyMod::Shift))),
        ("[21;2~", Event::Key(Key::new_mod(KeyCode::F(10), KeyMod::Shift))),
        ("[23;2~", Event::Key(Key::new_mod(KeyCode::F(11), KeyMod::Shift))),
        ("[24;2~", Event::Key(Key::new_mod(KeyCode::F(12), KeyMod::Shift))),
    ];
    for (s, expected) in cases {
        assert_eq!(pe(item, s), expected, "sequence {:?}", s);
    }
}

#[test]
fn test_parse_x10_emulation_mouse_encoding() {
    let item = b'\x1B';
    let cases: Vec<(&[u8], Event)> = vec![
        (
            b"[M\x00\x00\x00",
            Event::Mouse(MouseEvent::Press(MouseButton::WheelUp, 0, 0)),
        ),
        (
            b"[M\x40\x30\x32",
            Event::Mouse(MouseEvent::Press(MouseButton::Left, 16, 18)),
        ),
        (
            b"[M\x01\x00\x00",
            Event::Mouse(MouseEvent::Press(MouseButton::WheelDown, 0, 0)),
        ),
        (
            b"[M\x41\x29\x30",
            Event::Mouse(MouseEvent::Press(MouseButton::Middle, 9, 16)),
        ),
        (
            b"[M\x02\x00\x30",
            Event::Mouse(MouseEvent::Press(MouseButton::Right, 0, 16)),
        ),
        (b"[M\x03\x30\x7F", Event::Mouse(MouseEvent::Release(16, 95))),
    ];
    for (s, expected) in cases {
        assert_eq!(pe_bytes(item, s), expected, "sequence {:?}", s);
    }
}

#[test]
fn test_parse_rxvt_mouse_encoding() {
    let item = b'\x1B';
    let cases: Vec<(&str, Event)> = vec![
        (
            "[32;65;8;M",
            Event::Mouse(MouseEvent::Press(MouseButton::Left, 65, 8)),
        ),
        (
            "[33;5;2;M",
            Event::Mouse(MouseEvent::Press(MouseButton::Middle, 5, 2)),
        ),
        (
            "[34;65;8;M",
            Event::Mouse(MouseEvent::Press(MouseButton::Right, 65, 8)),
        ),
        ("[35;65;8;M", Event::Mouse(MouseEvent::Release(65, 8))),
        ("[64;113;234;M", Event::Mouse(MouseEvent::Hold(113, 234))),
        (
            "[96;65;8;M",
            Event::Mouse(MouseEvent::Press(MouseButton::WheelUp, 65, 8)),
        ),
        (
            "[97;65;8;M",
            Event::Mouse(MouseEvent::Press(MouseButton::WheelUp, 65, 8)),
        ),
    ];
    for (s, expected) in cases {
        assert_eq!(pe(item, s), expected, "sequence {:?}", s);
    }
}

#[test]
fn test_parse_valid_csi_xterm_mouse() {
    let item = b'\x1B';
    let cases: Vec<(&str, Event)> = vec![
        (
            "[<0;65;8;M",
            Event::Mouse(MouseEvent::Press(MouseButton::Left, 65, 8)),
        ),
        (
            "[<1;5;2;M",
            Event::Mouse(MouseEvent::Press(MouseButton::Middle, 5, 2)),
        ),
        (
            "[<2;65;8;M",
            Event::Mouse(MouseEvent::Press(MouseButton::Right, 65, 8)),
        ),
        (
            "[<64;65;8;M",
            Event::Mouse(MouseEvent::Press(MouseButton::WheelUp, 65, 8)),
        ),
        (
            "[<65;82;1;M",
            Event::Mouse(MouseEvent::Press(MouseButton::WheelDown, 82, 1)),
        ),
        ("[<3;65;8;m", Event::Mouse(MouseEvent::Release(65, 8))),
        ("[<32;113;234;m", Event::Mouse(MouseEvent::Hold(113, 234))),
    ];
    for (s, expected) in cases {
        assert_eq!(pe(item, s), expected, "sequence {:?}", s);
    }
}

#[test]
fn test_parse_ctrl_key_alphanumeric() {
    assert_eq!(
        pe(b'\x01', ""),
        Event::Key(Key::new_mod(KeyCode::Char('a'), KeyMod::Ctrl))
    );
    assert_eq!(
        pe(b'\x1A', ""),
        Event::Key(Key::new_mod(KeyCode::Char('z'), KeyMod::Ctrl))
    );
    assert_eq!(
        pe(b'\x1C', ""),
        Event::Key(Key::new_mod(KeyCode::Char('4'), KeyMod::Ctrl))
    );
    assert_eq!(
        pe(b'\x1F', ""),
        Event::Key(Key::new_mod(KeyCode::Char('7'), KeyMod::Ctrl))
    );
    assert_eq!(pe(b'\n', ""), Event::Key(Key::new(KeyCode::Char('\n'))));
    assert_eq!(pe(b'\r', ""), Event::Key(Key::new(KeyCode::Char('\n'))));
    assert_eq!(pe(b'\t', ""), Event::Key(Key::new(KeyCode::Char('\t'))));
    assert_eq!(pe(b'\x7F', ""), Event::Key(Key::new(KeyCode::Backspace)));
    assert_eq!(pe(b'\0', ""), Event::Key(Key::new(KeyCode::Null)));
}

#[test]
fn test_parse_non_csi_escape_codes() {
    let item = b'\x1B';
    let cases: Vec<(&str, Event)> = vec![
        ("OP", Event::Key(Key::new(KeyCode::F(1)))),
        ("OS", Event::Key(Key::new(KeyCode::F(4)))),
        ("O5P^", Event::Key(Key::new_mod(KeyCode::F(1), KeyMod::Ctrl))),
        ("O5Q^", Event::Key(Key::new_mod(KeyCode::F(2), KeyMod::Ctrl))),
        ("O5R^", Event::Key(Key::new_mod(KeyCode::F(3), KeyMod::Ctrl))),
        ("O5S^", Event::Key(Key::new_mod(KeyCode::F(4), KeyMod::Ctrl))),
        (
            "\u{1}",
            Event::Key(Key::new_mod(KeyCode::Char('a'), KeyMod::AltCtrl)),
        ),
        (
            "\u{1a}",
            Event::Key(Key::new_mod(KeyCode::Char('z'), KeyMod::AltCtrl)),
        ),
        (
            "\u{61}",
            Event::Key(Key::new_mod(KeyCode::Char('a'), KeyMod::Alt)),
        ),
        (
            "\u{7a}",
            Event::Key(Key::new_mod(KeyCode::Char('z'), KeyMod::Alt)),
        ),
    ];
    for (s, expected) in cases {
        assert_eq!(pe(item, s), expected, "sequence {:?}", s);
    }
}

#[test]
fn test_parse_invalid() {
    assert_eq!(
        pe(b'\x1B', "[x"),
        Event::Unsupported(vec![b'\x1B', b'[', b'x'])
    );
}

#[test]
fn test_parse_libtickit_ascii() {
    let csi_sequences = vec![b'\x1b', b'\x9b'];
    let mod_map = vec![("6", KeyMod::CtrlShift), ("8", KeyMod::AltCtrlShift)];
    for item in csi_sequences {
        for (mod_str, mods) in mod_map.iter() {
            for n in 65..91u8 {
                let s = format!("[{};{}u", n, mod_str);
                assert_eq!(
                    pe(item, &s),
                    Event::Key(Key::new_mod(KeyCode::Char(n as char), *mods)),
                    "sequence {:?}",
                    s
                );
            }
        }
    }
}

#[test]
fn test_parse_libtickit_special() {
    let csi_sequences = vec![b'\x1b', b'\x9b'];
    let mod_map = vec![
        ("2", KeyMod::Shift),
        ("3", KeyMod::Alt),
        ("4", KeyMod::AltShift),
        ("5", KeyMod::Ctrl),
        ("6", KeyMod::CtrlShift),
        ("7", KeyMod::AltCtrl),
        ("8", KeyMod::AltCtrlShift),
    ];
    let special = vec![("27", KeyCode::Esc), ("127", KeyCode::Backspace)];
    for item in csi_sequences {
        for (mod_str, mods) in mod_map.iter() {
            for (code_str, code) in special.iter() {
                let s = format!("[{};{}u", code_str, mod_str);
                assert_eq!(
                    pe(item, &s),
                    Event::Key(Key::new_mod(*code, *mods)),
                    "sequence {:?}",
                    s
                );
            }
        }
    }
}

#[test]
fn test_mouse_dialect_equivalence() {
    // One physical action, three wire dialects, one decoded event.
    let expected = Event::Mouse(MouseEvent::Press(MouseButton::Left, 65, 8));
    assert_eq!(pe_bytes(b'\x1B', b"[M\x20\x61\x28"), expected);
    assert_eq!(pe(b'\x1B', "[32;65;8;M"), expected);
    assert_eq!(pe(b'\x1B', "[<0;65;8;M"), expected);
}

#[test]
fn test_unknown_modifier_degrades() {
    assert_eq!(pe(b'\x1B', "[3;9~"), Event::Unsupported(vec![3, 9]));
    assert_eq!(pe(b'\x1B', "[27;1u"), Event::Unsupported(vec![27, 1]));
    assert_eq!(pe(b'\x1B', "[99~"), Event::Unsupported(vec![99]));
}

#[test]
fn test_non_text_parameter_run_is_unsupported() {
    // A parameter run must be text: a byte no text encoding allows makes
    // the whole sequence unrecognized, carrying the raw bytes.
    assert_eq!(
        pe_bytes(b'\x1B', b"[3;2;\xff~"),
        Event::Unsupported(vec![0x1B, b'[', b'3', b';', b'2', b';', 0xFF, b'~'])
    );
    assert_eq!(
        pe_bytes(b'\x1B', b"[32;65;8;\xffM"),
        Event::Unsupported(vec![
            0x1B, b'[', b'3', b'2', b';', b'6', b'5', b';', b'8', b';', 0xFF, b'M'
        ])
    );
    // Well-formed text in a trailing extra field is ignored, as the first
    // three numbers decide the event.
    assert_eq!(
        pe(b'\x1B', "[32;65;8;\u{e9}M"),
        Event::Mouse(MouseEvent::Press(MouseButton::Left, 65, 8))
    );
}

#[test]
fn test_decoder_survives_malformed_utf8() {
    // An invalid lead byte is reported, not a panic, and decoding goes on.
    let mut src = ByteSource::new(vec![0x61]);
    let first = parse_event(0xFF, &mut src);
    assert_eq!(first, Event::Unsupported(vec![0xFF, 0x61]));
}
