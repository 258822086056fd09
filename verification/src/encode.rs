//! Encoding of key events for a PTY child, in the legacy (xterm) forms or, when
//! the child has pushed kitty keyboard enhancement, in `CSI u` form.
use vstd::prelude::*;
use vstd::utf8::{encode_scalar, is_ascii_chars};

use crate::decode::{is_ascii_alphabetic, is_ascii_uppercase};
use crate::keys::{
    terminal_key_of_event, KeyCode, KeyEvent, KeyEventKind, KeyModifiers, KeyboardProtocol,
    TerminalKey, ALT, CONTROL, HYPER, META, SHIFT, SUPER,
};
use crate::text::{ascii_bytes, ascii_to_bytes, decimal, encode_char_utf8, lemma_decimal, push_decimal};

verus! {

/// The kitty flag asking for event types (repeat, release) to be reported.
pub const KITTY_FLAG_REPORT_EVENT_TYPES: u16 = 0b0000_0010;

/// The kitty flag asking for the shifted key to be reported beside the base key.
pub const KITTY_FLAG_REPORT_ALTERNATE_KEYS: u16 = 0b0000_0100;

// ---------------------------------------------------------------------------
// What each encoder gives
// ---------------------------------------------------------------------------

/// The xterm modifier parameter: 1 + Shift(1) + Alt(2) + Control(4).
pub open spec fn xterm_modifier_value(m: KeyModifiers) -> nat {
    1 + (if m.has(SHIFT) {
        1nat
    } else {
        0nat
    }) + (if m.has(ALT) {
        2nat
    } else {
        0nat
    }) + (if m.has(CONTROL) {
        4nat
    } else {
        0nat
    })
}

/// The kitty modifier parameter: the xterm one plus Super(8), Hyper(16), Meta(32).
pub open spec fn kitty_modifier_value(m: KeyModifiers) -> nat {
    xterm_modifier_value(m) + (if m.has(SUPER) {
        8nat
    } else {
        0nat
    }) + (if m.has(HYPER) {
        16nat
    } else {
        0nat
    }) + (if m.has(META) {
        32nat
    } else {
        0nat
    })
}

/// The character that kitty reports for `c`: a capital letter typed with Shift
/// is reported as its lower-case base key.
pub open spec fn canonical_char(c: char, m: KeyModifiers) -> char {
    if m.has(SHIFT) && is_ascii_uppercase(c) {
        ((c as u32) + 32) as char
    } else {
        c
    }
}

/// The shifted key that kitty reports beside a character key, when the child
/// asked for alternate keys: the one the key carries, or else the capital
/// letter itself when typed with Shift.
pub open spec fn alternate_shifted(key: TerminalKey, flags: u16) -> Option<u32> {
    if flags & KITTY_FLAG_REPORT_ALTERNATE_KEYS == 0 {
        None
    } else {
        match key.shifted_codepoint {
            Some(s) => Some(s),
            None => match key.code {
                KeyCode::Char(c) => if key.modifiers.has(SHIFT) && is_ascii_uppercase(c) {
                    Some(c as u32)
                } else {
                    None
                },
                _ => None,
            },
        }
    }
}

/// The number of an event kind in kitty's event-type field.
pub open spec fn event_number(kind: KeyEventKind) -> nat {
    match kind {
        KeyEventKind::Press => 1,
        KeyEventKind::Repeat => 2,
        KeyEventKind::Release => 3,
    }
}

/// The event-type field, when the child asked for event types.
pub open spec fn event_suffix(key: TerminalKey, flags: u16) -> Option<nat> {
    if flags & KITTY_FLAG_REPORT_EVENT_TYPES == 0 {
        None
    } else {
        Some(event_number(key.kind))
    }
}

/// `CSI codepoint[:shifted] ; modifier[:event] u`.
pub open spec fn csi_u_text(cp: nat, shifted: Option<u32>, modifier: nat, event: Option<nat>) -> Seq<
    char,
> {
    seq!['\x1b', '['] + decimal(cp) + (match shifted {
        Some(s) => seq![':'] + decimal(s as nat),
        None => Seq::empty(),
    }) + seq![';'] + decimal(modifier) + (match event {
        Some(e) => seq![':'] + decimal(e),
        None => Seq::empty(),
    }) + seq!['u']
}

/// The kitty key number of the keys that `CSI u` is used for.
pub open spec fn kitty_key_number(code: KeyCode, m: KeyModifiers) -> Option<nat> {
    match code {
        KeyCode::Char(c) => Some(canonical_char(c, m) as nat),
        KeyCode::Enter => Some(13),
        KeyCode::Tab => Some(9),
        KeyCode::Backspace => Some(127),
        KeyCode::Esc => Some(27),
        _ => None,
    }
}

/// Plain Control with a letter, which the legacy control bytes represent.
pub open spec fn is_plain_ctrl_letter(key: TerminalKey) -> bool {
    key.modifiers.bits == CONTROL && match key.code {
        KeyCode::Char(c) => is_ascii_alphabetic(c),
        _ => false,
    }
}

/// The `CSI u` text of a key, for modified character keys and Enter, Tab,
/// Backspace and Escape; other keys (and unmodified keys, and plain Control
/// with a letter) keep their legacy encoding.
pub open spec fn csi_u_text_of(key: TerminalKey, flags: u16) -> Option<Seq<char>> {
    if key.modifiers.bits == 0 || is_plain_ctrl_letter(key) {
        None
    } else {
        match kitty_key_number(key.code, key.modifiers) {
            Some(cp) => Some(
                csi_u_text(
                    cp,
                    if key.code is Char {
                        alternate_shifted(key, flags)
                    } else {
                        None
                    },
                    kitty_modifier_value(key.modifiers),
                    event_suffix(key, flags),
                ),
            ),
            None => None,
        }
    }
}

/// `CSI 1 ; modifier letter`.
pub open spec fn csi_letter(modifier: nat, letter: char) -> Seq<char> {
    seq!['\x1b', '[', '1', ';'] + decimal(modifier) + seq![letter]
}

/// `CSI number ; modifier ~`.
pub open spec fn csi_tilde(number: nat, modifier: nat) -> Seq<char> {
    seq!['\x1b', '['] + decimal(number) + seq![';'] + decimal(modifier) + seq!['~']
}

/// The `CSI number ~` number of F5 to F12.
pub open spec fn f_key_number(n: u8) -> nat {
    if n == 5 {
        15
    } else if n == 6 {
        17
    } else if n == 7 {
        18
    } else if n == 8 {
        19
    } else if n == 9 {
        20
    } else if n == 10 {
        21
    } else if n == 11 {
        23
    } else {
        24
    }
}

/// The xterm form of a special key typed with Shift, Alt or Control.
pub open spec fn modified_special_text(code: KeyCode, m: KeyModifiers) -> Option<Seq<char>> {
    let v = xterm_modifier_value(m);
    if v <= 1 {
        None
    } else {
        match code {
            KeyCode::Up => Some(csi_letter(v, 'A')),
            KeyCode::Down => Some(csi_letter(v, 'B')),
            KeyCode::Right => Some(csi_letter(v, 'C')),
            KeyCode::Left => Some(csi_letter(v, 'D')),
            KeyCode::Home => Some(csi_letter(v, 'H')),
            KeyCode::End => Some(csi_letter(v, 'F')),
            KeyCode::Insert => Some(csi_tilde(2, v)),
            KeyCode::Delete => Some(csi_tilde(3, v)),
            KeyCode::PageUp => Some(csi_tilde(5, v)),
            KeyCode::PageDown => Some(csi_tilde(6, v)),
            KeyCode::F(n) => if n == 1 {
                Some(csi_letter(v, 'P'))
            } else if n == 2 {
                Some(csi_letter(v, 'Q'))
            } else if n == 3 {
                Some(csi_letter(v, 'R'))
            } else if n == 4 {
                Some(csi_letter(v, 'S'))
            } else if 5 <= n <= 12 {
                Some(csi_tilde(f_key_number(n), v))
            } else {
                None
            },
            _ => None,
        }
    }
}

/// The ASCII capital of a lower-case ASCII letter; other characters unchanged.
pub open spec fn to_ascii_upper(c: char) -> char {
    if 'a' <= c <= 'z' {
        ((c as u32) - 32) as char
    } else {
        c
    }
}

/// The byte that a character typed with Control sends: the C0 control of a
/// letter, the traditional controls of ` @ 2 [ 3 \ 4 ] 5 ^ 6 _ 7 -`, and
/// otherwise the low byte of the character.
pub open spec fn control_byte(c: char) -> u8 {
    let up = to_ascii_upper(c);
    if 'A' <= up <= 'Z' {
        ((up as u32) - 64) as u8
    } else if up == ' ' || up == '@' || up == '2' {
        0
    } else if up == '[' || up == '3' {
        27
    } else if up == '\\' || up == '4' {
        28
    } else if up == ']' || up == '5' {
        29
    } else if up == '^' || up == '6' {
        30
    } else if up == '_' || up == '7' || up == '-' {
        31
    } else {
        ((c as u32) % 256) as u8
    }
}

/// The legacy bytes of F1 to F12; nothing for other numbers.
pub open spec fn f_key_bytes(n: u8) -> Seq<u8> {
    if n == 1 {
        seq![27u8, 79, 80]
    } else if n == 2 {
        seq![27u8, 79, 81]
    } else if n == 3 {
        seq![27u8, 79, 82]
    } else if n == 4 {
        seq![27u8, 79, 83]
    } else if n == 5 {
        seq![27u8, 91, 49, 53, 126]
    } else if n == 6 {
        seq![27u8, 91, 49, 55, 126]
    } else if n == 7 {
        seq![27u8, 91, 49, 56, 126]
    } else if n == 8 {
        seq![27u8, 91, 49, 57, 126]
    } else if n == 9 {
        seq![27u8, 91, 50, 48, 126]
    } else if n == 10 {
        seq![27u8, 91, 50, 49, 126]
    } else if n == 11 {
        seq![27u8, 91, 50, 51, 126]
    } else if n == 12 {
        seq![27u8, 91, 50, 52, 126]
    } else {
        Seq::empty()
    }
}

/// The legacy bytes of a key with its modifiers, Alt aside.
pub open spec fn legacy_inner_bytes(code: KeyCode, m: KeyModifiers) -> Seq<u8> {
    match code {
        KeyCode::Char(c) => if m.has(CONTROL) {
            seq![control_byte(c)]
        } else {
            encode_scalar(c as u32)
        },
        KeyCode::Enter => seq![13u8],
        KeyCode::Backspace => seq![127u8],
        KeyCode::Tab => seq![9u8],
        KeyCode::BackTab => seq![27u8, 91, 90],
        KeyCode::Esc => seq![27u8],
        KeyCode::Left => seq![27u8, 91, 68],
        KeyCode::Right => seq![27u8, 91, 67],
        KeyCode::Up => seq![27u8, 91, 65],
        KeyCode::Down => seq![27u8, 91, 66],
        KeyCode::Home => seq![27u8, 91, 72],
        KeyCode::End => seq![27u8, 91, 70],
        KeyCode::PageUp => seq![27u8, 91, 53, 126],
        KeyCode::PageDown => seq![27u8, 91, 54, 126],
        KeyCode::Delete => seq![27u8, 91, 51, 126],
        KeyCode::Insert => seq![27u8, 91, 50, 126],
        KeyCode::F(n) => f_key_bytes(n),
        _ => Seq::empty(),
    }
}

/// The legacy encoding of a key event: the xterm form of a modified special
/// key, else ESC before the Alt-less encoding when Alt is held, else the plain
/// encoding.
pub open spec fn legacy_encoding(e: KeyEvent) -> Seq<u8> {
    match modified_special_text(e.code, e.modifiers) {
        Some(t) => ascii_bytes(t),
        None => if e.modifiers.has(ALT) {
            seq![27u8] + legacy_inner_bytes(e.code, KeyModifiers { bits: e.modifiers.bits & !ALT })
        } else {
            legacy_inner_bytes(e.code, e.modifiers)
        },
    }
}

/// The bytes sent to a pane's child for a key under the negotiated protocol.
pub open spec fn terminal_key_encoding(key: TerminalKey, protocol: KeyboardProtocol) -> Seq<u8> {
    match protocol {
        KeyboardProtocol::Kitty { flags } => match csi_u_text_of(key, flags) {
            Some(t) => ascii_bytes(t),
            None => legacy_encoding(key.event()),
        },
        KeyboardProtocol::Legacy => legacy_encoding(key.event()),
    }
}

// ---------------------------------------------------------------------------
// Encoders
// ---------------------------------------------------------------------------

/// Encode a key event for a PTY child using the pane's negotiated keyboard protocol.
pub fn encode_key(key: KeyEvent, protocol: KeyboardProtocol) -> (r: Vec<u8>)
    ensures
        r@ == terminal_key_encoding(terminal_key_of_event(key), protocol),
{
    encode_terminal_key(TerminalKey::from(key), protocol)
}

/// Encode a terminal key for a PTY child using the pane's negotiated keyboard protocol.
pub fn encode_terminal_key(key: TerminalKey, protocol: KeyboardProtocol) -> (r: Vec<u8>)
    ensures
        r@ == terminal_key_encoding(key, protocol),
{
    if let KeyboardProtocol::Kitty { flags } = protocol {
        if let Some(bytes) = try_encode_csi_u(&key, flags) {
            return bytes;
        }
    }
    encode_legacy(key.as_key_event())
}

/// `CSI u` encoding `\e[{codepoint};{modifiers}u`, used when the child has
/// pushed kitty keyboard enhancement; `None` for keys that keep their legacy
/// encoding.
fn try_encode_csi_u(key: &TerminalKey, flags: u16) -> (r: Option<Vec<u8>>)
    ensures
        match csi_u_text_of(*key, flags) {
            Some(t) => r matches Some(b) && b@ == ascii_bytes(t),
            None => r is None,
        },
{
    let mods = key.modifiers;
    // Unmodified keys use legacy encoding (more compatible).
    if mods.is_empty() {
        return None;
    }
    // Plain Ctrl+letter is well-represented in legacy (bytes 1-26).
    if mods.bits == CONTROL {
        if let KeyCode::Char(c) = key.code {
            if is_letter(c) {
                return None;
            }
        }
    }
    // Special keys keep their well-established legacy xterm forms.
    match key.code {
        KeyCode::Up | KeyCode::Down | KeyCode::Left | KeyCode::Right | KeyCode::Home
        | KeyCode::End | KeyCode::PageUp | KeyCode::PageDown | KeyCode::Insert
        | KeyCode::Delete | KeyCode::F(_) => {
            return None;
        },
        _ => {},
    }
    let (codepoint, alternate): (u32, Option<u32>) = match key.code {
        KeyCode::Char(c) => {
            let base = canonical_kitty_char(c, mods);
            let shifted = alternate_shifted_codepoint(key, flags);
            (base as u32, shifted)
        },
        KeyCode::Enter => (13, None),
        KeyCode::Tab => (9, None),
        KeyCode::Backspace => (127, None),
        KeyCode::Esc => (27, None),
        _ => {
            return None;
        },
    };
    let modifier = kitty_modifier(mods);
    let event = kitty_event_suffix(key, flags);
    let mut t: Vec<char> = Vec::new();
    t.push('\x1b');
    t.push('[');
    push_decimal(&mut t, codepoint);
    if let Some(shifted) = alternate {
        t.push(':');
        push_decimal(&mut t, shifted);
    }
    t.push(';');
    push_decimal(&mut t, modifier);
    if let Some(e) = event {
        t.push(':');
        push_decimal(&mut t, e as u32);
    }
    t.push('u');
    proof {
        let text = csi_u_text(
            codepoint as nat,
            alternate,
            modifier as nat,
            match event {
                Some(e) => Some(e as nat),
                None => None,
            },
        );
        assert(t@ =~= text);
        lemma_csi_u_text_ascii(
            codepoint as nat,
            alternate,
            modifier as nat,
            match event {
                Some(e) => Some(e as nat),
                None => None,
            },
        );
    }
    Some(ascii_to_bytes(&t))
}

/// Legacy terminal encoding (standard escape sequences).
fn encode_legacy(key: KeyEvent) -> (r: Vec<u8>)
    ensures
        r@ == legacy_encoding(key),
{
    let mods = key.modifiers;
    // Modified special keys use the xterm forms `CSI 1;{m}A` and `CSI {n};{m}~`.
    if !mods.is_empty() {
        if let Some(bytes) = encode_modified_special(key.code, mods) {
            return bytes;
        }
    } else {
        proof {
            lemma_empty_modifiers(mods);
        }
    }
    // Alt on other keys: ESC before the encoding without Alt.
    if mods.contains(KeyModifiers::alt()) {
        let inner = KeyEvent::new(key.code, mods.difference(KeyModifiers::alt()));
        let mut bytes = vec![0x1bu8];
        let mut rest = encode_legacy_inner(inner);
        bytes.append(&mut rest);
        return bytes;
    }
    encode_legacy_inner(key)
}

/// xterm-style encoding for modified special keys.
fn encode_modified_special(code: KeyCode, mods: KeyModifiers) -> (r: Option<Vec<u8>>)
    ensures
        match modified_special_text(code, mods) {
            Some(t) => r matches Some(b) && b@ == ascii_bytes(t),
            None => r is None,
        },
{
    let modifier = xterm_modifier(mods);
    if modifier <= 1 {
        return None;
    }
    let mut t: Vec<char> = Vec::new();
    t.push('\x1b');
    t.push('[');
    // `CSI 1;{m}{letter}` or `CSI {n};{m}~`
    let (number, last): (u32, char) = match code {
        KeyCode::Up => (1, 'A'),
        KeyCode::Down => (1, 'B'),
        KeyCode::Right => (1, 'C'),
        KeyCode::Left => (1, 'D'),
        KeyCode::Home => (1, 'H'),
        KeyCode::End => (1, 'F'),
        KeyCode::Insert => (2, '~'),
        KeyCode::Delete => (3, '~'),
        KeyCode::PageUp => (5, '~'),
        KeyCode::PageDown => (6, '~'),
        KeyCode::F(1) => (1, 'P'),
        KeyCode::F(2) => (1, 'Q'),
        KeyCode::F(3) => (1, 'R'),
        KeyCode::F(4) => (1, 'S'),
        KeyCode::F(n) => {
            if 5 <= n && n <= 12 {
                let number: u32 = if n == 5 {
                    15
                } else if n == 6 {
                    17
                } else if n == 7 {
                    18
                } else if n == 8 {
                    19
                } else if n == 9 {
                    20
                } else if n == 10 {
                    21
                } else if n == 11 {
                    23
                } else {
                    24
                };
                (number, '~')
            } else {
                return None;
            }
        },
        _ => {
            return None;
        },
    };
    push_decimal(&mut t, number);
    t.push(';');
    push_decimal(&mut t, modifier);
    t.push(last);
    proof {
        lemma_decimal(number as nat);
        lemma_decimal(modifier as nat);
        let text = modified_special_text(code, mods).unwrap();
        if last == '~' {
            assert(text == csi_tilde(number as nat, modifier as nat));
        } else {
            assert(decimal(1) == seq!['1']);
            assert(text == csi_letter(modifier as nat, last));
        }
        assert(t@ =~= text);
        lemma_modified_special_ascii(code, mods);
    }
    Some(ascii_to_bytes(&t))
}

/// xterm modifier encoding: 1 + shift(1) + alt(2) + ctrl(4).
fn xterm_modifier(mods: KeyModifiers) -> (m: u32)
    ensures
        m == xterm_modifier_value(mods),
{
    let mut m = 1u32;
    if mods.contains(KeyModifiers::shift()) {
        m += 1;
    }
    if mods.contains(KeyModifiers::alt()) {
        m += 2;
    }
    if mods.contains(KeyModifiers::control()) {
        m += 4;
    }
    m
}

/// Kitty protocol modifier encoding: the xterm one + super(8) + hyper(16) + meta(32).
fn kitty_modifier(mods: KeyModifiers) -> (m: u32)
    ensures
        m == kitty_modifier_value(mods),
{
    let mut m = xterm_modifier(mods);
    if mods.contains(KeyModifiers::super_key()) {
        m += 8;
    }
    if mods.contains(KeyModifiers::hyper()) {
        m += 16;
    }
    if mods.contains(KeyModifiers::meta()) {
        m += 32;
    }
    m
}

/// Whether `c` is an ASCII letter.
fn is_letter(c: char) -> (b: bool)
    ensures
        b == is_ascii_alphabetic(c),
{
    let u = c as u32;
    (65 <= u && u <= 90) || (97 <= u && u <= 122)
}

fn canonical_kitty_char(ch: char, mods: KeyModifiers) -> (c: char)
    ensures
        c == canonical_char(ch, mods),
{
    let u = ch as u32;
    if mods.contains(KeyModifiers::shift()) && 65 <= u && u <= 90 {
        ((u + 32) as u8) as char
    } else {
        ch
    }
}

fn alternate_shifted_codepoint(key: &TerminalKey, flags: u16) -> (r: Option<u32>)
    ensures
        r == alternate_shifted(*key, flags),
{
    if flags & KITTY_FLAG_REPORT_ALTERNATE_KEYS == 0 {
        return None;
    }
    if let Some(shifted) = key.shifted_codepoint {
        return Some(shifted);
    }
    match key.code {
        KeyCode::Char(ch) => {
            let u = ch as u32;
            if key.modifiers.contains(KeyModifiers::shift()) && 65 <= u && u <= 90 {
                Some(u)
            } else {
                None
            }
        },
        _ => None,
    }
}

fn kitty_event_suffix(key: &TerminalKey, flags: u16) -> (r: Option<u8>)
    ensures
        match event_suffix(*key, flags) {
            Some(e) => r == Some(e as u8),
            None => r is None,
        },
{
    if flags & KITTY_FLAG_REPORT_EVENT_TYPES == 0 {
        return None;
    }
    Some(
        match key.kind {
            KeyEventKind::Press => 1,
            KeyEventKind::Repeat => 2,
            KeyEventKind::Release => 3,
        },
    )
}

fn encode_legacy_inner(key: KeyEvent) -> (r: Vec<u8>)
    ensures
        r@ == legacy_inner_bytes(key.code, key.modifiers),
{
    match key.code {
        KeyCode::Char(ch) => {
            if key.modifiers.contains(KeyModifiers::control()) {
                let u = ch as u32;
                let upper: u32 = if 97 <= u && u <= 122 {
                    u - 32
                } else {
                    u
                };
                proof {
                    if 97 <= u && u <= 122 {
                        assert(to_ascii_upper(ch) as u32 == upper);
                    }
                }
                let b: u8 = if 65 <= upper && upper <= 90 {
                    (upper - 64) as u8
                } else if upper == 32 || upper == 64 || upper == 50 {
                    0
                } else if upper == 91 || upper == 51 {
                    27
                } else if upper == 92 || upper == 52 {
                    28
                } else if upper == 93 || upper == 53 {
                    29
                } else if upper == 94 || upper == 54 {
                    30
                } else if upper == 95 || upper == 55 || upper == 45 {
                    31
                } else {
                    (u % 256) as u8
                };
                vec![b]
            } else {
                encode_char_utf8(ch)
            }
        },
        KeyCode::Enter => vec![13u8],
        KeyCode::Backspace => vec![127u8],
        KeyCode::Tab => vec![9u8],
        KeyCode::BackTab => vec![27u8, 91, 90],
        KeyCode::Esc => vec![27u8],
        KeyCode::Left => vec![27u8, 91, 68],
        KeyCode::Right => vec![27u8, 91, 67],
        KeyCode::Up => vec![27u8, 91, 65],
        KeyCode::Down => vec![27u8, 91, 66],
        KeyCode::Home => vec![27u8, 91, 72],
        KeyCode::End => vec![27u8, 91, 70],
        KeyCode::PageUp => vec![27u8, 91, 53, 126],
        KeyCode::PageDown => vec![27u8, 91, 54, 126],
        KeyCode::Delete => vec![27u8, 91, 51, 126],
        KeyCode::Insert => vec![27u8, 91, 50, 126],
        KeyCode::F(n) => encode_f_key(n),
        _ => vec![],
    }
}

fn encode_f_key(n: u8) -> (r: Vec<u8>)
    ensures
        r@ == f_key_bytes(n),
{
    match n {
        1 => vec![27u8, 79, 80],
        2 => vec![27u8, 79, 81],
        3 => vec![27u8, 79, 82],
        4 => vec![27u8, 79, 83],
        5 => vec![27u8, 91, 49, 53, 126],
        6 => vec![27u8, 91, 49, 55, 126],
        7 => vec![27u8, 91, 49, 56, 126],
        8 => vec![27u8, 91, 49, 57, 126],
        9 => vec![27u8, 91, 50, 48, 126],
        10 => vec![27u8, 91, 50, 49, 126],
        11 => vec![27u8, 91, 50, 51, 126],
        12 => vec![27u8, 91, 50, 52, 126],
        _ => vec![],
    }
}

// ---------------------------------------------------------------------------
// Lemmas
// ---------------------------------------------------------------------------

/// With no modifier held, no modifier flag is set.
pub proof fn lemma_empty_modifiers(m: KeyModifiers)
    requires
        m.bits == 0,
    ensures
        !m.has(SHIFT),
        !m.has(ALT),
        !m.has(CONTROL),
        !m.has(SUPER),
        !m.has(HYPER),
        !m.has(META),
        xterm_modifier_value(m) == 1,
{
    let b = m.bits;
    assert(b == 0 ==> b & 1 != 1 && b & 2 != 2 && b & 4 != 4 && b & 8 != 8 && b & 16 != 16 && b
        & 32 != 32) by (bit_vector);
}

/// A concatenation of ASCII texts is ASCII.
pub proof fn lemma_ascii_add(a: Seq<char>, b: Seq<char>)
    requires
        is_ascii_chars(a),
        is_ascii_chars(b),
    ensures
        is_ascii_chars(a + b),
{
    assert forall|i: int| 0 <= i < (a + b).len() implies '\0' <= #[trigger] (a + b)[i] <= '\u{7f}' by {
        if i < a.len() {
            assert((a + b)[i] == a[i]);
        } else {
            assert((a + b)[i] == b[i - a.len()]);
        }
    }
}

/// The xterm form of a modified special key is ASCII.
pub proof fn lemma_modified_special_ascii(code: KeyCode, m: KeyModifiers)
    requires
        modified_special_text(code, m) is Some,
    ensures
        is_ascii_chars(modified_special_text(code, m).unwrap()),
{
    let v = xterm_modifier_value(m);
    lemma_decimal(v);
    assert(is_ascii_chars(seq!['\x1b', '[', '1', ';']));
    assert(is_ascii_chars(seq!['\x1b', '[']));
    assert(is_ascii_chars(seq![';']));
    assert(is_ascii_chars(seq!['~']));
    let t = modified_special_text(code, m).unwrap();
    match code {
        KeyCode::Up | KeyCode::Down | KeyCode::Right | KeyCode::Left | KeyCode::Home
        | KeyCode::End => {
            let l = t.last();
            assert(is_ascii_chars(seq![l]));
            lemma_ascii_add(seq!['\x1b', '[', '1', ';'], decimal(v));
            lemma_ascii_add(seq!['\x1b', '[', '1', ';'] + decimal(v), seq![l]);
            assert(t == seq!['\x1b', '[', '1', ';'] + decimal(v) + seq![l]);
        },
        KeyCode::F(n) => {
            if n <= 4 {
                let l = t.last();
                assert(is_ascii_chars(seq![l]));
                lemma_ascii_add(seq!['\x1b', '[', '1', ';'], decimal(v));
                lemma_ascii_add(seq!['\x1b', '[', '1', ';'] + decimal(v), seq![l]);
                assert(t == seq!['\x1b', '[', '1', ';'] + decimal(v) + seq![l]);
            } else {
                lemma_csi_tilde_ascii(f_key_number(n), v);
            }
        },
        KeyCode::Insert => lemma_csi_tilde_ascii(2, v),
        KeyCode::Delete => lemma_csi_tilde_ascii(3, v),
        KeyCode::PageUp => lemma_csi_tilde_ascii(5, v),
        KeyCode::PageDown => lemma_csi_tilde_ascii(6, v),
        _ => {},
    }
}

/// A `CSI number ; modifier ~` text is ASCII.
pub proof fn lemma_csi_tilde_ascii(number: nat, modifier: nat)
    ensures
        is_ascii_chars(csi_tilde(number, modifier)),
{
    lemma_decimal(number);
    lemma_decimal(modifier);
    let p1 = seq!['\x1b', '['];
    assert(is_ascii_chars(p1));
    assert(is_ascii_chars(seq![';']));
    assert(is_ascii_chars(seq!['~']));
    lemma_ascii_add(p1, decimal(number));
    lemma_ascii_add(p1 + decimal(number), seq![';']);
    lemma_ascii_add(p1 + decimal(number) + seq![';'], decimal(modifier));
    lemma_ascii_add(p1 + decimal(number) + seq![';'] + decimal(modifier), seq!['~']);
}

/// A `CSI u` text is ASCII.
pub proof fn lemma_csi_u_text_ascii(cp: nat, shifted: Option<u32>, modifier: nat, event: Option<nat>)
    ensures
        is_ascii_chars(csi_u_text(cp, shifted, modifier, event)),
{
    lemma_decimal(cp);
    lemma_decimal(modifier);
    let p1 = seq!['\x1b', '['];
    let p2 = match shifted {
        Some(s) => seq![':'] + decimal(s as nat),
        None => Seq::empty(),
    };
    let p3 = match event {
        Some(e) => seq![':'] + decimal(e),
        None => Seq::empty(),
    };
    assert(is_ascii_chars(p1));
    assert(is_ascii_chars(seq![';']));
    assert(is_ascii_chars(seq![':']));
    assert(is_ascii_chars(seq!['u']));
    assert(is_ascii_chars(Seq::<char>::empty()));
    if let Some(s) = shifted {
        lemma_decimal(s as nat);
        lemma_ascii_add(seq![':'], decimal(s as nat));
    }
    if let Some(e) = event {
        lemma_decimal(e);
        lemma_ascii_add(seq![':'], decimal(e));
    }
    lemma_ascii_add(p1, decimal(cp));
    lemma_ascii_add(p1 + decimal(cp), p2);
    lemma_ascii_add(p1 + decimal(cp) + p2, seq![';']);
    lemma_ascii_add(p1 + decimal(cp) + p2 + seq![';'], decimal(modifier));
    lemma_ascii_add(p1 + decimal(cp) + p2 + seq![';'] + decimal(modifier), p3);
    lemma_ascii_add(p1 + decimal(cp) + p2 + seq![';'] + decimal(modifier) + p3, seq!['u']);
}

} // verus!
