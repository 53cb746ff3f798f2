//! Tests of the event stream adapters over buffered input.
use sl_console::event::{Event, Key, KeyCode, KeyMod, MouseButton, MouseEvent};
use sl_console::input::ConsoleReadExt;
use sl_console::source::ByteSource;

#[test]
fn test_keys() {
    let mut i = ByteSource::new(b"\x1Bayo\x7F\x1B[D".to_vec()).keys();

    assert_eq!(
        i.next().unwrap().unwrap(),
        Key::new_mod(KeyCode::Char('a'), KeyMod::Alt)
    );
    assert_eq!(i.next().unwrap().unwrap(), Key::new(KeyCode::Char('y')));
    assert_eq!(i.next().unwrap().unwrap(), Key::new(KeyCode::Char('o')));
    assert_eq!(i.next().unwrap().unwrap(), Key::new(KeyCode::Backspace));
    assert_eq!(i.next().unwrap().unwrap(), Key::new(KeyCode::Left));
    assert!(i.next().is_none());
}

#[test]
fn test_events() {
    let input = b"\x1B[\x00bc\x7F\x1B[D\
                    \x1B[M\x00\x22\x24\x1B[<0;2;4;M\x1B[32;2;4M\x1B[<0;2;4;m\x1B[35;2;4Mb";
    let mut i = ByteSource::new(input.to_vec()).events();

    assert_eq!(
        i.next().unwrap().unwrap(),
        Event::Unsupported(vec![0x1B, b'[', 0x00])
    );
    assert_eq!(
        i.next().unwrap().unwrap(),
        Event::Key(Key::new(KeyCode::Char('b')))
    );
    assert_eq!(
        i.next().unwrap().unwrap(),
        Event::Key(Key::new(KeyCode::Char('c')))
    );
    assert_eq!(
        i.next().unwrap().unwrap(),
        Event::Key(Key::new(KeyCode::Backspace))
    );
    assert_eq!(i.next().unwrap().unwrap(), Event::Key(Key::new(KeyCode::Left)));
    assert_eq!(
        i.next().unwrap().unwrap(),
        Event::Mouse(MouseEvent::Press(MouseButton::WheelUp, 2, 4))
    );
    assert_eq!(
        i.next().unwrap().unwrap(),
        Event::Mouse(MouseEvent::Press(MouseButton::Left, 2, 4))
    );
    assert_eq!(
        i.next().unwrap().unwrap(),
        Event::Mouse(MouseEvent::Press(MouseButton::Left, 2, 4))
    );
    assert_eq!(
        i.next().unwrap().unwrap(),
        Event::Mouse(MouseEvent::Release(2, 4))
    );
    assert_eq!(
        i.next().unwrap().unwrap(),
        Event::Mouse(MouseEvent::Release(2, 4))
    );
    assert_eq!(
        i.next().unwrap().unwrap(),
        Event::Key(Key::new(KeyCode::Char('b')))
    );
    assert!(i.next().is_none());
}

#[test]
fn test_events_and_raw() {
    let input = b"\x1B[\x00bc\x7F\x1B[D\
                    \x1B[M\x00\x22\x24\x1B[<0;2;4;M\x1B[32;2;4M\x1B[<0;2;4;m\x1B[35;2;4Mb";
    let mut output = Vec::<u8>::new();
    let mut i = ByteSource::new(input.to_vec()).events_and_raw();
    let expected = vec![
        Event::Unsupported(vec![0x1B, b'[', 0x00]),
        Event::Key(Key::new(KeyCode::Char('b'))),
        Event::Key(Key::new(KeyCode::Char('c'))),
        Event::Key(Key::new(KeyCode::Backspace)),
        Event::Key(Key::new(KeyCode::Left)),
        Event::Mouse(MouseEvent::Press(MouseButton::WheelUp, 2, 4)),
        Event::Mouse(MouseEvent::Press(MouseButton::Left, 2, 4)),
        Event::Mouse(MouseEvent::Press(MouseButton::Left, 2, 4)),
        Event::Mouse(MouseEvent::Release(2, 4)),
        Event::Mouse(MouseEvent::Release(2, 4)),
        Event::Key(Key::new(KeyCode::Char('b'))),
    ];
    for want in expected {
        let (event, raw) = i.next().unwrap().unwrap();
        output.extend(raw);
        assert_eq!(event, want);
    }
    assert!(i.next().is_none());

    assert_eq!(input.iter().map(|b| *b).collect::<Vec<u8>>(), output)
}

#[test]
fn test_function_keys() {
    let mut st = ByteSource::new(b"\x1BOP\x1BOQ\x1BOR\x1BOS".to_vec()).keys();
    for i in 1..5 {
        assert_eq!(st.next().unwrap().unwrap(), Key::new(KeyCode::F(i)));
    }

    let mut st = ByteSource::new(
        b"\x1B[11~\x1B[12~\x1B[13~\x1B[14~\x1B[15~\
        \x1B[17~\x1B[18~\x1B[19~\x1B[20~\x1B[21~\x1B[23~\x1B[24~"
            .to_vec(),
    )
    .keys();
    for i in 1..13 {
        assert_eq!(st.next().unwrap().unwrap(), Key::new(KeyCode::F(i)));
    }
}

#[test]
fn test_special_keys() {
    let mut st =
        ByteSource::new(b"\x1B[2~\x1B[H\x1B[7~\x1B[5~\x1B[3~\x1B[F\x1B[8~\x1B[6~".to_vec()).keys();
    assert_eq!(st.next().unwrap().unwrap(), Key::new(KeyCode::Insert));
    assert_eq!(st.next().unwrap().unwrap(), Key::new(KeyCode::Home));
    assert_eq!(st.next().unwrap().unwrap(), Key::new(KeyCode::Home));
    assert_eq!(st.next().unwrap().unwrap(), Key::new(KeyCode::PageUp));
    assert_eq!(st.next().unwrap().unwrap(), Key::new(KeyCode::Delete));
    assert_eq!(st.next().unwrap().unwrap(), Key::new(KeyCode::End));
    assert_eq!(st.next().unwrap().unwrap(), Key::new(KeyCode::End));
    assert_eq!(st.next().unwrap().unwrap(), Key::new(KeyCode::PageDown));
    assert!(st.next().is_none());
}

#[test]
fn test_esc_key() {
    let mut st = ByteSource::new(b"\x1B".to_vec()).keys();
    assert_eq!(st.next().unwrap().unwrap(), Key::new(KeyCode::Esc));
    assert!(st.next().is_none());
}

#[test]
fn test_get_key_skips_non_key_events() {
    // A mouse report and an unrecognized sequence sit before the key; the
    // key walk consumes and discards them.
    let mut src = ByteSource::new(b"\x1B[<0;2;4;M\x1B[x q".to_vec());
    assert_eq!(
        src.get_key().unwrap().unwrap(),
        Key::new(KeyCode::Char(' '))
    );
    assert_eq!(
        src.get_key().unwrap().unwrap(),
        Key::new(KeyCode::Char('q'))
    );
    assert!(src.get_key().is_none());
}

#[test]
fn test_utf8_fidelity_through_events() {
    // Encoding a plain string and decoding it byte-by-byte reproduces the
    // characters, one key event per codepoint.
    let st = "héllo wörld 漢字 🚀";
    let mut i = ByteSource::new(st.bytes().collect()).events();
    for c in st.chars() {
        assert_eq!(
            i.next().unwrap().unwrap(),
            Event::Key(Key::new(KeyCode::Char(c)))
        );
    }
    assert!(i.next().is_none());
}

#[test]
fn test_esc_with_following_byte_is_alt() {
    // Two buffered bytes: the escape opens a sequence instead of being the
    // bare escape key.
    let mut i = ByteSource::new(b"\x1Bq".to_vec()).events();
    assert_eq!(
        i.next().unwrap().unwrap(),
        Event::Key(Key::new_mod(KeyCode::Char('q'), KeyMod::Alt))
    );
    assert!(i.next().is_none());
}
