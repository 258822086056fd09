use termkeys::decode::parse_terminal_key_sequence;
use termkeys::encode::{encode_key, encode_terminal_key};
use termkeys::keys::{
    KeyCode, KeyEvent, KeyEventKind, KeyModifiers, KeyboardProtocol, TerminalKey,
};

fn assert_terminal_key_eq(
    actual: TerminalKey,
    code: KeyCode,
    modifiers: KeyModifiers,
    kind: KeyEventKind,
    shifted_codepoint: Option<u32>,
) {
    assert_eq!(actual.code, code);
    assert_eq!(actual.modifiers, modifiers);
    assert_eq!(actual.kind, kind);
    assert_eq!(actual.shifted_codepoint, shifted_codepoint);
}

fn ctrl_shift() -> KeyModifiers {
    KeyModifiers::control().union(KeyModifiers::shift())
}

#[test]
fn legacy_enter() {
    let key = KeyEvent::new(KeyCode::Enter, KeyModifiers::empty());
    assert_eq!(encode_key(key, KeyboardProtocol::Legacy), vec![b'\r']);
}

#[test]
fn legacy_ctrl_c() {
    let key = KeyEvent::new(KeyCode::Char('c'), KeyModifiers::control());
    assert_eq!(encode_key(key, KeyboardProtocol::Legacy), vec![3]);
}

#[test]
fn legacy_shift_enter_is_just_cr() {
    let key = KeyEvent::new(KeyCode::Enter, KeyModifiers::shift());
    // Enter is not a special key with an xterm modifier form, so Shift+Enter
    // falls through to the plain legacy byte.
    assert_eq!(encode_key(key, KeyboardProtocol::Legacy), vec![b'\r']);
}

#[test]
fn legacy_alt_up() {
    let key = KeyEvent::new(KeyCode::Up, KeyModifiers::alt());
    assert_eq!(encode_key(key, KeyboardProtocol::Legacy), b"\x1b[1;3A");
}

#[test]
fn legacy_shift_right() {
    let key = KeyEvent::new(KeyCode::Right, KeyModifiers::shift());
    assert_eq!(encode_key(key, KeyboardProtocol::Legacy), b"\x1b[1;2C");
}

#[test]
fn legacy_ctrl_left() {
    let key = KeyEvent::new(KeyCode::Left, KeyModifiers::control());
    assert_eq!(encode_key(key, KeyboardProtocol::Legacy), b"\x1b[1;5D");
}

#[test]
fn legacy_ctrl_shift_end() {
    let key = KeyEvent::new(KeyCode::End, ctrl_shift());
    assert_eq!(encode_key(key, KeyboardProtocol::Legacy), b"\x1b[1;6F");
}

#[test]
fn legacy_alt_delete() {
    let key = KeyEvent::new(KeyCode::Delete, KeyModifiers::alt());
    assert_eq!(encode_key(key, KeyboardProtocol::Legacy), b"\x1b[3;3~");
}

#[test]
fn legacy_shift_f5() {
    let key = KeyEvent::new(KeyCode::F(5), KeyModifiers::shift());
    assert_eq!(encode_key(key, KeyboardProtocol::Legacy), b"\x1b[15;2~");
}

#[test]
fn legacy_alt_char_still_esc_prefix() {
    let key = KeyEvent::new(KeyCode::Char('a'), KeyModifiers::alt());
    assert_eq!(encode_key(key, KeyboardProtocol::Legacy), b"\x1ba");
}

#[test]
fn kitty_shift_enter() {
    let key = KeyEvent::new(KeyCode::Enter, KeyModifiers::shift());
    assert_eq!(encode_key(key, KeyboardProtocol::Kitty { flags: 1 }), b"\x1b[13;2u");
}

#[test]
fn kitty_ctrl_shift_a() {
    let key = KeyEvent::new(KeyCode::Char('a'), ctrl_shift());
    assert_eq!(encode_key(key, KeyboardProtocol::Kitty { flags: 1 }), b"\x1b[97;6u");
}

#[test]
fn kitty_shift_uppercase_letter_uses_base_codepoint() {
    let key = KeyEvent::new(KeyCode::Char('L'), KeyModifiers::shift());
    assert_eq!(encode_key(key, KeyboardProtocol::Kitty { flags: 1 }), b"\x1b[108;2u");
}

#[test]
fn kitty_shift_uppercase_letter_with_alternate_keys_reports_shifted_codepoint() {
    let key = KeyEvent::new(KeyCode::Char('L'), KeyModifiers::shift());
    assert_eq!(encode_key(key, KeyboardProtocol::Kitty { flags: 7 }), b"\x1b[108:76;2:1u");
}

#[test]
fn kitty_shift_lowercase_letter_normalizes_to_base_codepoint() {
    let key = KeyEvent::new(KeyCode::Char('l'), KeyModifiers::shift());
    assert_eq!(encode_key(key, KeyboardProtocol::Kitty { flags: 1 }), b"\x1b[108;2u");
}

#[test]
fn kitty_alt_shift_uppercase_letter_uses_base_codepoint() {
    let key = KeyEvent::new(
        KeyCode::Char('L'),
        KeyModifiers::alt().union(KeyModifiers::shift()),
    );
    assert_eq!(encode_key(key, KeyboardProtocol::Kitty { flags: 1 }), b"\x1b[108;4u");
}

#[test]
fn kitty_ctrl_shift_uppercase_letter_uses_base_codepoint() {
    let key = KeyEvent::new(KeyCode::Char('L'), ctrl_shift());
    assert_eq!(encode_key(key, KeyboardProtocol::Kitty { flags: 1 }), b"\x1b[108;6u");
}

#[test]
fn legacy_shift_uppercase_letter_stays_uppercase() {
    let key = KeyEvent::new(KeyCode::Char('L'), KeyModifiers::shift());
    assert_eq!(encode_key(key, KeyboardProtocol::Legacy), b"L");
}

#[test]
fn kitty_alt_enter() {
    let key = KeyEvent::new(KeyCode::Enter, KeyModifiers::alt());
    assert_eq!(encode_key(key, KeyboardProtocol::Kitty { flags: 1 }), b"\x1b[13;3u");
}

#[test]
fn kitty_plain_ctrl_c_uses_legacy() {
    let key = KeyEvent::new(KeyCode::Char('c'), KeyModifiers::control());
    assert_eq!(encode_key(key, KeyboardProtocol::Kitty { flags: 1 }), vec![3]);
}

#[test]
fn kitty_unmodified_uses_legacy() {
    let key = KeyEvent::new(KeyCode::Char('a'), KeyModifiers::empty());
    assert_eq!(encode_key(key, KeyboardProtocol::Kitty { flags: 1 }), b"a");
}

#[test]
fn kitty_shift_tab() {
    let key = KeyEvent::new(KeyCode::Tab, KeyModifiers::shift());
    assert_eq!(encode_key(key, KeyboardProtocol::Kitty { flags: 1 }), b"\x1b[9;2u");
}

#[test]
fn kitty_ctrl_shift_enter() {
    let key = KeyEvent::new(KeyCode::Enter, ctrl_shift());
    assert_eq!(encode_key(key, KeyboardProtocol::Kitty { flags: 1 }), b"\x1b[13;6u");
}

#[test]
fn kitty_repeat_event_type_is_encoded_when_requested() {
    let key = KeyEvent::new_with_kind(KeyCode::Enter, KeyModifiers::shift(), KeyEventKind::Repeat);
    assert_eq!(encode_key(key, KeyboardProtocol::Kitty { flags: 3 }), b"\x1b[13;2:2u");
}

#[test]
fn kitty_release_event_type_and_alternate_keys_are_encoded_together() {
    let key = KeyEvent::new_with_kind(
        KeyCode::Char('L'),
        KeyModifiers::shift(),
        KeyEventKind::Release,
    );
    assert_eq!(encode_key(key, KeyboardProtocol::Kitty { flags: 7 }), b"\x1b[108:76;2:3u");
}

#[test]
fn kitty_rich_key_data_can_preserve_shifted_symbol_pairs() {
    let key = TerminalKey::new(KeyCode::Char('1'), KeyModifiers::shift())
        .with_shifted_codepoint('!' as u32);
    assert_eq!(
        encode_terminal_key(key, KeyboardProtocol::Kitty { flags: 7 }),
        b"\x1b[49:33;2:1u"
    );
}

#[test]
fn parse_kitty_sequence_preserves_shifted_symbol_pair() {
    let key = parse_terminal_key_sequence("\x1b[49:33;2:1u").unwrap();
    assert_eq!(key.code, KeyCode::Char('1'));
    assert_eq!(key.modifiers, KeyModifiers::shift());
    assert_eq!(key.kind, KeyEventKind::Press);
    assert_eq!(key.shifted_codepoint, Some('!' as u32));
}

#[test]
fn parse_kitty_sequence_preserves_shifted_letter_pair_and_release() {
    let key = parse_terminal_key_sequence("\x1b[108:76;2:3u").unwrap();
    assert_eq!(key.code, KeyCode::Char('l'));
    assert_eq!(key.modifiers, KeyModifiers::shift());
    assert_eq!(key.kind, KeyEventKind::Release);
    assert_eq!(key.shifted_codepoint, Some('L' as u32));
}

#[test]
fn parse_modify_other_keys_sequence() {
    let key = parse_terminal_key_sequence("\x1b[27;6;108~").unwrap();
    assert_eq!(key.code, KeyCode::Char('l'));
    assert_eq!(key.modifiers, ctrl_shift());
    assert_eq!(key.kind, KeyEventKind::Press);
    assert_eq!(key.shifted_codepoint, None);
}

#[test]
fn parse_legacy_uppercase_letter_as_shifted_char() {
    let key = parse_terminal_key_sequence("L").unwrap();
    assert_eq!(key.code, KeyCode::Char('L'));
    assert_eq!(key.modifiers, KeyModifiers::shift());
}

#[test]
fn parse_legacy_up_arrow_sequence() {
    let key = parse_terminal_key_sequence("\x1b[A").unwrap();
    assert_eq!(key.code, KeyCode::Up);
    assert_eq!(key.modifiers, KeyModifiers::empty());
}

#[test]
fn parse_xterm_alt_up_arrow_sequence() {
    let key = parse_terminal_key_sequence("\x1b[1;3A").unwrap();
    assert_eq!(key.code, KeyCode::Up);
    assert_eq!(key.modifiers, KeyModifiers::alt());
}

#[test]
fn parse_xterm_alt_down_arrow_sequence() {
    let key = parse_terminal_key_sequence("\x1b[1;3B").unwrap();
    assert_eq!(key.code, KeyCode::Down);
    assert_eq!(key.modifiers, KeyModifiers::alt());
}

#[test]
fn parse_kitty_functional_up_arrow_sequence() {
    let key = parse_terminal_key_sequence("\x1b[57419;1u").unwrap();
    assert_eq!(key.code, KeyCode::Up);
    assert_eq!(key.modifiers, KeyModifiers::empty());
}

#[test]
fn parse_legacy_ctrl_b_sequence() {
    let key = parse_terminal_key_sequence("\x02").unwrap();
    assert_eq!(key.code, KeyCode::Char('b'));
    assert_eq!(key.modifiers, KeyModifiers::control());
}

#[test]
fn parse_legacy_ctrl_c_sequence() {
    let key = parse_terminal_key_sequence("\x03").unwrap();
    assert_eq!(key.code, KeyCode::Char('c'));
    assert_eq!(key.modifiers, KeyModifiers::control());
}

#[test]
fn legacy_ctrl_byte_matrix_is_covered() {
    for (byte, expected) in [
        (b'\x01', 'a'),
        (b'\x02', 'b'),
        (b'\x03', 'c'),
        (b'\x1a', 'z'),
    ] {
        let key = parse_terminal_key_sequence(std::str::from_utf8(&[byte]).unwrap()).unwrap();
        assert_terminal_key_eq(
            key,
            KeyCode::Char(expected),
            KeyModifiers::control(),
            KeyEventKind::Press,
            None,
        );
    }

    // Ctrl+[ is byte-identical to Escape in legacy terminals, so the parser
    // treats 0x1b as Escape and only tells the other control-symbol bytes apart.
    for (byte, expected) in [
        (b'\x1c', '\\'),
        (b'\x1d', ']'),
        (b'\x1e', '^'),
        (b'\x1f', '-'),
    ] {
        let key = parse_terminal_key_sequence(std::str::from_utf8(&[byte]).unwrap()).unwrap();
        assert_terminal_key_eq(
            key,
            KeyCode::Char(expected),
            KeyModifiers::control(),
            KeyEventKind::Press,
            None,
        );
    }
}

#[test]
fn legacy_modified_special_roundtrip_matrix() {
    let cases = [
        KeyEvent::new(KeyCode::Up, KeyModifiers::alt()),
        KeyEvent::new(KeyCode::Down, KeyModifiers::alt()),
        KeyEvent::new(KeyCode::Right, KeyModifiers::shift()),
        KeyEvent::new(KeyCode::Left, KeyModifiers::control()),
        KeyEvent::new(KeyCode::Home, KeyModifiers::control()),
        KeyEvent::new(KeyCode::End, ctrl_shift()),
        KeyEvent::new(KeyCode::PageUp, KeyModifiers::alt()),
        KeyEvent::new(KeyCode::PageDown, KeyModifiers::control()),
        KeyEvent::new(KeyCode::Insert, KeyModifiers::shift()),
        KeyEvent::new(KeyCode::Delete, KeyModifiers::alt()),
    ];

    for key in cases {
        let encoded = encode_key(key, KeyboardProtocol::Legacy);
        let parsed = parse_terminal_key_sequence(std::str::from_utf8(&encoded).unwrap()).unwrap();
        assert_terminal_key_eq(parsed, key.code, key.modifiers, key.kind, None);
    }
}

#[test]
fn kitty_shifted_symbol_roundtrip_preserves_alternate_key() {
    let key = TerminalKey::new(KeyCode::Char('1'), KeyModifiers::shift())
        .with_shifted_codepoint('!' as u32);
    let encoded = encode_terminal_key(key, KeyboardProtocol::Kitty { flags: 7 });
    let parsed = parse_terminal_key_sequence(std::str::from_utf8(&encoded).unwrap()).unwrap();
    assert_terminal_key_eq(
        parsed,
        KeyCode::Char('1'),
        KeyModifiers::shift(),
        KeyEventKind::Press,
        Some('!' as u32),
    );
}

#[test]
fn legacy_basic_special_roundtrip_matrix() {
    let cases = [
        KeyEvent::new(KeyCode::Enter, KeyModifiers::empty()),
        KeyEvent::new(KeyCode::Tab, KeyModifiers::empty()),
        KeyEvent::new(KeyCode::Backspace, KeyModifiers::empty()),
        KeyEvent::new(KeyCode::Esc, KeyModifiers::empty()),
        KeyEvent::new(KeyCode::Up, KeyModifiers::empty()),
        KeyEvent::new(KeyCode::Down, KeyModifiers::empty()),
        KeyEvent::new(KeyCode::Left, KeyModifiers::empty()),
        KeyEvent::new(KeyCode::Right, KeyModifiers::empty()),
        KeyEvent::new(KeyCode::Home, KeyModifiers::empty()),
        KeyEvent::new(KeyCode::End, KeyModifiers::empty()),
        KeyEvent::new(KeyCode::PageUp, KeyModifiers::empty()),
        KeyEvent::new(KeyCode::PageDown, KeyModifiers::empty()),
        KeyEvent::new(KeyCode::Insert, KeyModifiers::empty()),
        KeyEvent::new(KeyCode::Delete, KeyModifiers::empty()),
    ];

    for key in cases {
        let encoded = encode_key(key, KeyboardProtocol::Legacy);
        let parsed = parse_terminal_key_sequence(std::str::from_utf8(&encoded).unwrap()).unwrap();
        assert_terminal_key_eq(parsed, key.code, key.modifiers, key.kind, None);
    }
}

#[test]
fn kitty_functional_key_matrix_is_covered() {
    let cases = [
        ("\x1b[57417;1u", KeyCode::Left),
        ("\x1b[57418;1u", KeyCode::Right),
        ("\x1b[57419;1u", KeyCode::Up),
        ("\x1b[57420;1u", KeyCode::Down),
        ("\x1b[57421;1u", KeyCode::PageUp),
        ("\x1b[57422;1u", KeyCode::PageDown),
        ("\x1b[57423;1u", KeyCode::Home),
        ("\x1b[57424;1u", KeyCode::End),
        ("\x1b[57425;1u", KeyCode::Insert),
        ("\x1b[57426;1u", KeyCode::Delete),
    ];

    for (sequence, code) in cases {
        let parsed = parse_terminal_key_sequence(sequence).unwrap();
        assert_terminal_key_eq(parsed, code, KeyModifiers::empty(), KeyEventKind::Press, None);
    }
}

#[test]
fn kitty_shifted_symbol_pair_matrix_is_covered() {
    let cases = [('1', '!'), ('/', '?'), ('[', '{')];

    for (base, shifted) in cases {
        let key = TerminalKey::new(KeyCode::Char(base), KeyModifiers::shift())
            .with_shifted_codepoint(shifted as u32);
        let encoded = encode_terminal_key(key, KeyboardProtocol::Kitty { flags: 7 });
        let parsed = parse_terminal_key_sequence(std::str::from_utf8(&encoded).unwrap()).unwrap();
        assert_terminal_key_eq(
            parsed,
            KeyCode::Char(base),
            KeyModifiers::shift(),
            KeyEventKind::Press,
            Some(shifted as u32),
        );
    }
}

#[test]
fn protocol_from_zero_flags_is_legacy() {
    assert_eq!(KeyboardProtocol::from_kitty_flags(0), KeyboardProtocol::Legacy);
}

#[test]
fn protocol_from_nonzero_flags_is_kitty() {
    assert_eq!(
        KeyboardProtocol::from_kitty_flags(7),
        KeyboardProtocol::Kitty { flags: 7 }
    );
}
