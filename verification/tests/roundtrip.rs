use termkeys::decode::parse_terminal_key_sequence;
use termkeys::encode::{encode_key, encode_terminal_key};
use termkeys::keys::{
    KeyCode, KeyEvent, KeyEventKind, KeyModifiers, KeyboardProtocol, TerminalKey,
};

fn decode(bytes: &[u8]) -> Option<TerminalKey> {
    parse_terminal_key_sequence(std::str::from_utf8(bytes).unwrap())
}

const NAVIGATION: [KeyCode; 10] = [
    KeyCode::Up,
    KeyCode::Down,
    KeyCode::Left,
    KeyCode::Right,
    KeyCode::Home,
    KeyCode::End,
    KeyCode::PageUp,
    KeyCode::PageDown,
    KeyCode::Insert,
    KeyCode::Delete,
];

#[test]
fn navigation_keys_roundtrip_with_every_xterm_modifier_set() {
    for code in NAVIGATION {
        for bits in 0u8..8 {
            for protocol in [KeyboardProtocol::Legacy, KeyboardProtocol::Kitty { flags: 7 }] {
                let key = TerminalKey::new(code, KeyModifiers::from_bits_retain(bits));
                let bytes = encode_terminal_key(key, protocol);
                assert_eq!(decode(&bytes), Some(key), "{:?} {:?}", code, bits);
            }
        }
    }
}

#[test]
fn basic_keys_roundtrip() {
    for code in [KeyCode::Enter, KeyCode::Tab, KeyCode::Backspace, KeyCode::Esc] {
        for protocol in [KeyboardProtocol::Legacy, KeyboardProtocol::Kitty { flags: 3 }] {
            let key = TerminalKey::new(code, KeyModifiers::empty());
            assert_eq!(decode(&encode_terminal_key(key, protocol)), Some(key));
        }
    }
    let back_tab = TerminalKey::new(KeyCode::BackTab, KeyModifiers::shift());
    assert_eq!(encode_terminal_key(back_tab, KeyboardProtocol::Legacy), b"\x1b[Z");
    assert_eq!(decode(b"\x1b[Z"), Some(back_tab));
}

#[test]
fn kitty_csi_u_roundtrip_gives_the_kitty_form() {
    let keys = [
        (TerminalKey::new(KeyCode::Char('é'), KeyModifiers::alt()), 0u16, 'é', None),
        (TerminalKey::new(KeyCode::Char('Q'), KeyModifiers::shift()), 4, 'q', Some('Q' as u32)),
        (TerminalKey::new(KeyCode::Char('x'), KeyModifiers::super_key()), 1, 'x', None),
        (
            TerminalKey::new(KeyCode::Char('7'), KeyModifiers::meta().union(KeyModifiers::hyper())),
            1,
            '7',
            None,
        ),
    ];
    for (key, flags, base, shifted) in keys {
        let bytes = encode_terminal_key(key, KeyboardProtocol::Kitty { flags });
        let parsed = decode(&bytes).unwrap();
        assert_eq!(parsed.code, KeyCode::Char(base));
        assert_eq!(parsed.modifiers, key.modifiers);
        assert_eq!(parsed.kind, KeyEventKind::Press);
        assert_eq!(parsed.shifted_codepoint, shifted);
    }
    // The event kind survives only when event types are reported.
    let release = TerminalKey::new(KeyCode::Esc, KeyModifiers::control()).with_kind(KeyEventKind::Release);
    assert_eq!(encode_terminal_key(release, KeyboardProtocol::Kitty { flags: 2 }), b"\x1b[27;5:3u");
    assert_eq!(decode(b"\x1b[27;5:3u"), Some(release));
    assert_eq!(
        decode(&encode_terminal_key(release, KeyboardProtocol::Kitty { flags: 1 })),
        Some(TerminalKey::new(KeyCode::Esc, KeyModifiers::control()))
    );
}

#[test]
fn kitty_modifier_field_counts_super_hyper_meta() {
    let all = KeyModifiers::from_bits_retain(0b0011_1111);
    let key = TerminalKey::new(KeyCode::Backspace, all);
    assert_eq!(encode_terminal_key(key, KeyboardProtocol::Kitty { flags: 1 }), b"\x1b[127;64u");
    assert_eq!(decode(b"\x1b[127;64u"), Some(key));
}

#[test]
fn ctrl_letters_roundtrip_except_tab_newline_and_return() {
    for c in 'a'..='z' {
        let key = TerminalKey::new(KeyCode::Char(c), KeyModifiers::control());
        let bytes = encode_terminal_key(key, KeyboardProtocol::Legacy);
        assert_eq!(bytes, vec![c as u8 - 96]);
        let parsed = decode(&bytes).unwrap();
        match c {
            'i' => assert_eq!(parsed.code, KeyCode::Tab),
            'j' | 'm' => assert_eq!(parsed.code, KeyCode::Enter),
            _ => assert_eq!(parsed, key),
        }
    }
}

#[test]
fn printable_chars_roundtrip() {
    for c in [' ', 'a', 'z', '0', '~', 'é', 'ß', '€', '😀'] {
        let key = TerminalKey::new(KeyCode::Char(c), KeyModifiers::empty());
        for protocol in [KeyboardProtocol::Legacy, KeyboardProtocol::Kitty { flags: 7 }] {
            let bytes = encode_terminal_key(key, protocol);
            assert_eq!(bytes, c.to_string().into_bytes());
            assert_eq!(decode(&bytes), Some(key));
        }
    }
    let capital = TerminalKey::new(KeyCode::Char('Z'), KeyModifiers::shift());
    assert_eq!(decode(&encode_terminal_key(capital, KeyboardProtocol::Legacy)), Some(capital));
}

#[test]
fn alt_chars_roundtrip() {
    for c in ['a', 'Z', '[', '\x1b', 'é', '\r'] {
        let key = TerminalKey::new(KeyCode::Char(c), KeyModifiers::alt());
        let bytes = encode_terminal_key(key, KeyboardProtocol::Legacy);
        let mut expected = vec![0x1b];
        expected.extend(c.to_string().into_bytes());
        assert_eq!(bytes, expected);
        assert_eq!(decode(&bytes), Some(key));
    }
}

#[test]
fn kitty_falls_back_to_legacy_for_keys_without_csi_u() {
    let keys = [
        TerminalKey::new(KeyCode::Char('a'), KeyModifiers::empty()),
        TerminalKey::new(KeyCode::Char('c'), KeyModifiers::control()),
        TerminalKey::new(KeyCode::F(3), KeyModifiers::alt()),
        TerminalKey::new(KeyCode::PageUp, KeyModifiers::shift()),
        TerminalKey::new(KeyCode::BackTab, KeyModifiers::shift()),
    ];
    for key in keys {
        assert_eq!(
            encode_terminal_key(key, KeyboardProtocol::Kitty { flags: 31 }),
            encode_terminal_key(key, KeyboardProtocol::Legacy)
        );
    }
}

#[test]
fn legacy_function_keys() {
    let cases: [(u8, &[u8]); 13] = [
        (1, b"\x1bOP"),
        (2, b"\x1bOQ"),
        (3, b"\x1bOR"),
        (4, b"\x1bOS"),
        (5, b"\x1b[15~"),
        (6, b"\x1b[17~"),
        (7, b"\x1b[18~"),
        (8, b"\x1b[19~"),
        (9, b"\x1b[20~"),
        (10, b"\x1b[21~"),
        (11, b"\x1b[23~"),
        (12, b"\x1b[24~"),
        (13, b""),
    ];
    for (n, bytes) in cases {
        assert_eq!(encode_key(KeyEvent::new(KeyCode::F(n), KeyModifiers::empty()), KeyboardProtocol::Legacy), bytes);
    }
    let ctrl_f2 = KeyEvent::new(KeyCode::F(2), KeyModifiers::control());
    assert_eq!(encode_key(ctrl_f2, KeyboardProtocol::Legacy), b"\x1b[1;5Q");
    let alt_f12 = KeyEvent::new(KeyCode::F(12), KeyModifiers::alt().union(KeyModifiers::shift()));
    assert_eq!(encode_key(alt_f12, KeyboardProtocol::Legacy), b"\x1b[24;4~");
    // Super alone has no xterm modifier value: the plain form is sent.
    let super_f1 = KeyEvent::new(KeyCode::F(1), KeyModifiers::super_key());
    assert_eq!(encode_key(super_f1, KeyboardProtocol::Legacy), b"\x1bOP");
}

#[test]
fn legacy_control_symbols_and_other_keys() {
    let ctrl = KeyModifiers::control();
    let cases: [(char, u8); 12] = [
        (' ', 0),
        ('@', 0),
        ('2', 0),
        ('[', 27),
        ('3', 27),
        ('\\', 28),
        (']', 29),
        ('^', 30),
        ('_', 31),
        ('-', 31),
        ('A', 1),
        ('!', b'!'),
    ];
    for (c, byte) in cases {
        assert_eq!(encode_key(KeyEvent::new(KeyCode::Char(c), ctrl), KeyboardProtocol::Legacy), vec![byte]);
    }
    // A non-ASCII character with Control sends its low byte.
    assert_eq!(encode_key(KeyEvent::new(KeyCode::Char('é'), ctrl), KeyboardProtocol::Legacy), vec![0xe9]);
    // Alt+Control+letter: ESC, then the control byte.
    let alt_ctrl = KeyModifiers::alt().union(ctrl);
    assert_eq!(encode_key(KeyEvent::new(KeyCode::Char('x'), alt_ctrl), KeyboardProtocol::Legacy), vec![0x1b, 24]);
    // Keys without a legacy form send nothing.
    assert_eq!(encode_key(KeyEvent::new(KeyCode::CapsLock, KeyModifiers::empty()), KeyboardProtocol::Legacy), Vec::<u8>::new());
    assert_eq!(encode_key(KeyEvent::new(KeyCode::BackTab, KeyModifiers::empty()), KeyboardProtocol::Legacy), b"\x1b[Z");
}

#[test]
fn decoder_edge_cases() {
    // A `+` sign is accepted where `str::parse` accepts it.
    assert_eq!(
        parse_terminal_key_sequence("\x1b[97;+5u"),
        Some(TerminalKey::new(KeyCode::Char('a'), KeyModifiers::control()))
    );
    // A modifier field of 0 has nothing to subtract from.
    assert_eq!(parse_terminal_key_sequence("\x1b[97;0u"), None);
    // A modifier field beyond `u8` fails to parse.
    assert_eq!(parse_terminal_key_sequence("\x1b[97;256u"), None);
    // A surrogate codepoint is no character.
    assert_eq!(parse_terminal_key_sequence("\x1b[55296;1u"), None);
    // An unknown event type rejects the sequence.
    assert_eq!(parse_terminal_key_sequence("\x1b[97;2:4u"), None);
    // An empty shifted field is ignored.
    assert_eq!(
        parse_terminal_key_sequence("\x1b[97:;2u"),
        Some(TerminalKey::new(KeyCode::Char('a'), KeyModifiers::shift()))
    );
    // Without a `;` there is no event type and the modifier defaults to none.
    assert_eq!(
        parse_terminal_key_sequence("\x1b[97u"),
        Some(TerminalKey::new(KeyCode::Char('a'), KeyModifiers::empty()))
    );
    // The fixed legacy sequences.
    assert_eq!(parse_terminal_key_sequence("\x1b\x1b[C"), Some(TerminalKey::new(KeyCode::Right, KeyModifiers::alt())));
    assert_eq!(parse_terminal_key_sequence("\x1bOH"), Some(TerminalKey::new(KeyCode::Home, KeyModifiers::empty())));
    assert_eq!(parse_terminal_key_sequence("\x1b[8~"), Some(TerminalKey::new(KeyCode::End, KeyModifiers::empty())));
    assert_eq!(parse_terminal_key_sequence("\n"), Some(TerminalKey::new(KeyCode::Enter, KeyModifiers::empty())));
    assert_eq!(parse_terminal_key_sequence("\x00"), Some(TerminalKey::new(KeyCode::Char(' '), KeyModifiers::control())));
    // xterm forms that name no key.
    assert_eq!(parse_terminal_key_sequence("\x1b[1;3Z"), None);
    assert_eq!(parse_terminal_key_sequence("\x1b[1;"), None);
    assert_eq!(parse_terminal_key_sequence("\x1b[9;3~"), None);
    // Longer text that is no key sequence.
    assert_eq!(parse_terminal_key_sequence("ab"), None);
    assert_eq!(parse_terminal_key_sequence("\x1bab"), None);
    assert_eq!(parse_terminal_key_sequence(""), None);
}

#[test]
fn terminal_key_builders_and_conversion() {
    let event = KeyEvent::new_with_kind(KeyCode::Tab, KeyModifiers::alt(), KeyEventKind::Repeat);
    let key: TerminalKey = event.into();
    assert_eq!(key.kind, KeyEventKind::Repeat);
    assert_eq!(key.shifted_codepoint, None);
    assert_eq!(key.as_key_event(), event);
    let key = key.with_kind(KeyEventKind::Press).with_shifted_codepoint(7);
    assert_eq!(key.shifted_codepoint, Some(7));
    assert_eq!(key.kind, KeyEventKind::Press);
    let mods = KeyModifiers::control().union(KeyModifiers::alt());
    assert!(mods.contains(KeyModifiers::alt()));
    assert!(!mods.contains(KeyModifiers::shift()));
    assert_eq!(mods.difference(KeyModifiers::alt()), KeyModifiers::control());
    assert!(KeyModifiers::none().is_empty());
    assert_eq!(mods.bits(), 0b110);
}
