//! Decoding of the key sequences that terminals send: kitty `CSI u`, xterm
//! `modifyOtherKeys`, xterm modified special keys and plain legacy bytes.
use vstd::prelude::*;
use vstd::utf8::is_scalar;

use crate::keys::{
    pressed, KeyCode, KeyEventKind, KeyModifiers, TerminalKey, ALT, CONTROL, HYPER, META,
    SHIFT, SUPER,
};
use crate::text::{
    all_digits, all_digits_in, chars_of, char_from_u32, find_in, first_index_of, last_index_of,
    parse_unsigned, parse_unsigned_in, range_is1, rfind_in, text_is1, text_is3, text_is4,
};

verus! {

// ---------------------------------------------------------------------------
// What each decoder gives
// ---------------------------------------------------------------------------

/// An ASCII letter.
pub open spec fn is_ascii_alphabetic(c: char) -> bool {
    ('a' <= c <= 'z') || ('A' <= c <= 'Z')
}

/// An ASCII capital letter.
pub open spec fn is_ascii_uppercase(c: char) -> bool {
    'A' <= c <= 'Z'
}

/// The modifiers that a kitty or xterm modifier field minus one names:
/// bit 0 Shift, bit 1 Alt, bit 2 Control, bit 3 Super, bit 4 Hyper, bit 5 Meta.
pub open spec fn modifiers_from_bits(m: u8) -> KeyModifiers {
    KeyModifiers {
        bits: ((if m & 1 != 0 { SHIFT } else { 0 }) + (if m & 2 != 0 { ALT } else { 0 }) + (if m
            & 4 != 0 {
            CONTROL
        } else {
            0
        }) + (if m & 8 != 0 { SUPER } else { 0 }) + (if m & 16 != 0 { HYPER } else { 0 }) + (if m
            & 32 != 0 {
            META
        } else {
            0
        })) as u8,
    }
}

/// The key that a kitty key number denotes: the functional keys that kitty
/// numbers in the private-use area, the C0 keys, and otherwise the character
/// with that value, when it is one.
pub open spec fn keycode_of_codepoint(cp: u32) -> Option<KeyCode> {
    if cp == 8 || cp == 127 {
        Some(KeyCode::Backspace)
    } else if cp == 9 {
        Some(KeyCode::Tab)
    } else if cp == 13 || cp == 57414 {
        Some(KeyCode::Enter)
    } else if cp == 27 {
        Some(KeyCode::Esc)
    } else if cp == 57417 {
        Some(KeyCode::Left)
    } else if cp == 57418 {
        Some(KeyCode::Right)
    } else if cp == 57419 {
        Some(KeyCode::Up)
    } else if cp == 57420 {
        Some(KeyCode::Down)
    } else if cp == 57421 {
        Some(KeyCode::PageUp)
    } else if cp == 57422 {
        Some(KeyCode::PageDown)
    } else if cp == 57423 {
        Some(KeyCode::Home)
    } else if cp == 57424 {
        Some(KeyCode::End)
    } else if cp == 57425 {
        Some(KeyCode::Insert)
    } else if cp == 57426 {
        Some(KeyCode::Delete)
    } else if is_scalar(cp) {
        Some(KeyCode::Char(cp as char))
    } else {
        None
    }
}

/// The event kind that a kitty event-type field names; no field means a press.
pub open spec fn event_kind_of(field: Option<Seq<char>>) -> Option<KeyEventKind> {
    match field {
        None => Some(KeyEventKind::Press),
        Some(t) => if t == seq!['1'] {
            Some(KeyEventKind::Press)
        } else if t == seq!['2'] {
            Some(KeyEventKind::Repeat)
        } else if t == seq!['3'] {
            Some(KeyEventKind::Release)
        } else {
            None
        },
    }
}

/// Splits the event-type field off a kitty body: the text after its last `:`,
/// when that text is all digits and a `;` comes before that `:`.
pub open spec fn kitty_event_split(body: Seq<char>) -> (Seq<char>, Option<Seq<char>>) {
    match last_index_of(body, ':') {
        Some(i) => if all_digits(body.skip(i + 1)) && first_index_of(body.take(i), ';') is Some {
            (body.take(i), Some(body.skip(i + 1)))
        } else {
            (body, None)
        },
        None => (body, None),
    }
}

/// The shifted codepoint of a kitty key field: the text after the first `:`
/// up to the next `:`, when it is a non-empty number.
pub open spec fn shifted_field(rest: Seq<char>) -> Option<u32> {
    let f = match first_index_of(rest, ':') {
        Some(l) => rest.take(l),
        None => rest,
    };
    if f.len() == 0 {
        None
    } else {
        match parse_unsigned(f, u32::MAX as nat) {
            Some(n) => Some(n as u32),
            None => None,
        }
    }
}

/// Splits the modifier field off the text before the event type: the text
/// after its last `;`, parsed as a `u8`; with no `;` the modifier field is `1`.
pub open spec fn kitty_modifier_split(main: Seq<char>) -> (Seq<char>, Option<nat>) {
    match last_index_of(main, ';') {
        Some(j) => (main.take(j), parse_unsigned(main.skip(j + 1), 255)),
        None => (main, Some(1nat)),
    }
}

/// The codepoint and shifted codepoint of a kitty key field `codepoint[:shifted[:...]]`.
pub open spec fn kitty_key_field(key_part: Seq<char>) -> (Option<nat>, Option<u32>) {
    match first_index_of(key_part, ':') {
        Some(k) => (
            parse_unsigned(key_part.take(k), u32::MAX as nat),
            shifted_field(key_part.skip(k + 1)),
        ),
        None => (parse_unsigned(key_part, u32::MAX as nat), None),
    }
}

/// The key of a kitty `CSI codepoint[:shifted] [; modifiers[:event]] u` sequence.
pub open spec fn decoded_kitty(s: Seq<char>) -> Option<TerminalKey> {
    if s.len() >= 3 && s[0] == '\x1b' && s[1] == '[' && s.last() == 'u' {
        let (main, event) = kitty_event_split(s.subrange(2, s.len() - 1));
        let (key_part, modifier) = kitty_modifier_split(main);
        let (cp, shifted) = kitty_key_field(key_part);
        match modifier {
            Some(m) => if m >= 1 {
                match cp {
                    Some(cp) => match keycode_of_codepoint(cp as u32) {
                        Some(code) => match event_kind_of(event) {
                            Some(kind) => Some(
                                TerminalKey {
                                    code,
                                    modifiers: modifiers_from_bits((m - 1) as u8),
                                    kind,
                                    shifted_codepoint: shifted,
                                },
                            ),
                            None => None,
                        },
                        None => None,
                    },
                    None => None,
                }
            } else {
                None
            },
            None => None,
        }
    } else {
        None
    }
}

/// The key of an xterm `modifyOtherKeys` sequence `CSI 27 ; modifiers ; codepoint ~`.
pub open spec fn decoded_modify_other_keys(s: Seq<char>) -> Option<TerminalKey> {
    if s.len() >= 6 && s.take(5) == seq!['\x1b', '[', '2', '7', ';'] && s.last() == '~' {
        let body = s.subrange(5, s.len() - 1);
        match first_index_of(body, ';') {
            Some(i) => match parse_unsigned(body.take(i), 255) {
                Some(m) => if m >= 1 {
                    match parse_unsigned(body.skip(i + 1), u32::MAX as nat) {
                        Some(cp) => match keycode_of_codepoint(cp as u32) {
                            Some(code) => Some(pressed(code, modifiers_from_bits((m - 1) as u8))),
                            None => None,
                        },
                        None => None,
                    }
                } else {
                    None
                },
                None => None,
            },
            None => None,
        }
    } else {
        None
    }
}

/// The key that an xterm `CSI 1 ; modifiers letter` sequence names by its letter.
pub open spec fn letter_key(c: char) -> Option<KeyCode> {
    if c == 'A' {
        Some(KeyCode::Up)
    } else if c == 'B' {
        Some(KeyCode::Down)
    } else if c == 'C' {
        Some(KeyCode::Right)
    } else if c == 'D' {
        Some(KeyCode::Left)
    } else if c == 'H' {
        Some(KeyCode::Home)
    } else if c == 'F' {
        Some(KeyCode::End)
    } else {
        None
    }
}

/// The key that an xterm `CSI number ; modifiers ~` sequence names by its number.
pub open spec fn tilde_key(t: Seq<char>) -> Option<KeyCode> {
    if t == seq!['2'] {
        Some(KeyCode::Insert)
    } else if t == seq!['3'] {
        Some(KeyCode::Delete)
    } else if t == seq!['5'] {
        Some(KeyCode::PageUp)
    } else if t == seq!['6'] {
        Some(KeyCode::PageDown)
    } else {
        None
    }
}

/// The key of a `CSI number ; modifiers ~` body (the text after `CSI`).
pub open spec fn decoded_tilde_body(body: Seq<char>) -> Option<TerminalKey> {
    if body.len() >= 1 && body.last() == '~' {
        let t = body.drop_last();
        match first_index_of(t, ';') {
            Some(i) => match parse_unsigned(t.skip(i + 1), 255) {
                Some(m) => if m >= 1 {
                    match tilde_key(t.take(i)) {
                        Some(code) => Some(pressed(code, modifiers_from_bits((m - 1) as u8))),
                        None => None,
                    }
                } else {
                    None
                },
                None => None,
            },
            None => None,
        }
    } else {
        None
    }
}

/// The key of an xterm modified special-key sequence: `CSI 1 ; modifiers letter`
/// or `CSI number ; modifiers ~`.
pub open spec fn decoded_xterm_modified(s: Seq<char>) -> Option<TerminalKey> {
    if s.len() >= 2 && s[0] == '\x1b' && s[1] == '[' {
        let body = s.skip(2);
        if body.len() >= 2 && body[0] == '1' && body[1] == ';' {
            let b = body.skip(2);
            if b.len() == 0 {
                None
            } else if is_ascii_alphabetic(b.last()) {
                match parse_unsigned(b.drop_last(), 255) {
                    Some(m) => if m >= 1 {
                        match letter_key(b.last()) {
                            Some(code) => Some(pressed(code, modifiers_from_bits((m - 1) as u8))),
                            None => None,
                        }
                    } else {
                        None
                    },
                    None => None,
                }
            } else {
                decoded_tilde_body(body)
            }
        } else {
            decoded_tilde_body(body)
        }
    } else {
        None
    }
}

/// The key of one of the fixed legacy escape sequences, or else of an xterm
/// modified special-key sequence.
pub open spec fn decoded_legacy_special(s: Seq<char>) -> Option<TerminalKey> {
    let none = KeyModifiers { bits: 0 };
    let alt = KeyModifiers { bits: ALT };
    if s == seq!['\x1b', '\x1b', '[', 'A'] {
        Some(pressed(KeyCode::Up, alt))
    } else if s == seq!['\x1b', '\x1b', '[', 'B'] {
        Some(pressed(KeyCode::Down, alt))
    } else if s == seq!['\x1b', '\x1b', '[', 'C'] {
        Some(pressed(KeyCode::Right, alt))
    } else if s == seq!['\x1b', '\x1b', '[', 'D'] {
        Some(pressed(KeyCode::Left, alt))
    } else if s == seq!['\x1b', '[', 'A'] {
        Some(pressed(KeyCode::Up, none))
    } else if s == seq!['\x1b', '[', 'B'] {
        Some(pressed(KeyCode::Down, none))
    } else if s == seq!['\x1b', '[', 'C'] {
        Some(pressed(KeyCode::Right, none))
    } else if s == seq!['\x1b', '[', 'D'] {
        Some(pressed(KeyCode::Left, none))
    } else if s == seq!['\x1b', '[', 'H'] || s == seq!['\x1b', 'O', 'H'] || s == seq![
        '\x1b',
        '[',
        '1',
        '~',
    ] || s == seq!['\x1b', '[', '7', '~'] {
        Some(pressed(KeyCode::Home, none))
    } else if s == seq!['\x1b', '[', 'F'] || s == seq!['\x1b', 'O', 'F'] || s == seq![
        '\x1b',
        '[',
        '4',
        '~',
    ] || s == seq!['\x1b', '[', '8', '~'] {
        Some(pressed(KeyCode::End, none))
    } else if s == seq!['\x1b', '[', '5', '~'] {
        Some(pressed(KeyCode::PageUp, none))
    } else if s == seq!['\x1b', '[', '6', '~'] {
        Some(pressed(KeyCode::PageDown, none))
    } else if s == seq!['\x1b', '[', '2', '~'] {
        Some(pressed(KeyCode::Insert, none))
    } else if s == seq!['\x1b', '[', '3', '~'] {
        Some(pressed(KeyCode::Delete, none))
    } else if s == seq!['\x1b', '[', 'Z'] {
        Some(pressed(KeyCode::BackTab, KeyModifiers { bits: SHIFT }))
    } else {
        decoded_xterm_modified(s)
    }
}

/// The key that a single C0 control character stands for when typed with Control.
pub open spec fn ctrl_key_of(c: char) -> Option<TerminalKey> {
    let u = c as u32;
    let control = KeyModifiers { bits: CONTROL };
    if u == 0 {
        Some(pressed(KeyCode::Char(' '), control))
    } else if 1 <= u <= 26 {
        Some(pressed(KeyCode::Char((u + 96) as char), control))
    } else if u == 27 {
        Some(pressed(KeyCode::Char('['), control))
    } else if u == 28 {
        Some(pressed(KeyCode::Char('\\'), control))
    } else if u == 29 {
        Some(pressed(KeyCode::Char(']'), control))
    } else if u == 30 {
        Some(pressed(KeyCode::Char('^'), control))
    } else if u == 31 {
        Some(pressed(KeyCode::Char('-'), control))
    } else {
        None
    }
}

/// The key of a legacy sequence: a fixed escape sequence, Enter, Tab, Escape,
/// Backspace, Alt with one character, a control character, or one character.
pub open spec fn decoded_legacy(s: Seq<char>) -> Option<TerminalKey> {
    let none = KeyModifiers { bits: 0 };
    match decoded_legacy_special(s) {
        Some(k) => Some(k),
        None => if s == seq!['\r'] || s == seq!['\n'] {
            Some(pressed(KeyCode::Enter, none))
        } else if s == seq!['\t'] {
            Some(pressed(KeyCode::Tab, none))
        } else if s == seq!['\x1b'] {
            Some(pressed(KeyCode::Esc, none))
        } else if s == seq!['\x7f'] {
            Some(pressed(KeyCode::Backspace, none))
        } else if s.len() > 0 && s[0] == '\x1b' {
            if s.len() == 2 {
                Some(pressed(KeyCode::Char(s[1]), KeyModifiers { bits: ALT }))
            } else {
                None
            }
        } else if s.len() == 1 {
            match ctrl_key_of(s[0]) {
                Some(k) => Some(k),
                None => Some(
                    pressed(
                        KeyCode::Char(s[0]),
                        if is_ascii_uppercase(s[0]) {
                            KeyModifiers { bits: SHIFT }
                        } else {
                            none
                        },
                    ),
                ),
            }
        } else {
            None
        },
    }
}

/// The key that a terminal input sequence denotes: kitty first, then
/// `modifyOtherKeys`, then the legacy forms.
pub open spec fn decoded_key(s: Seq<char>) -> Option<TerminalKey> {
    match decoded_kitty(s) {
        Some(k) => Some(k),
        None => match decoded_modify_other_keys(s) {
            Some(k) => Some(k),
            None => decoded_legacy(s),
        },
    }
}

// ---------------------------------------------------------------------------
// Decoders
// ---------------------------------------------------------------------------

/// Decodes one key sequence read from a terminal.
pub fn parse_terminal_key_sequence(data: &str) -> (r: Option<TerminalKey>)
    ensures
        r == decoded_key(data@),
{
    let v = chars_of(data);
    match parse_kitty_key_sequence(&v) {
        Some(k) => Some(k),
        None => match parse_modify_other_keys_sequence(&v) {
            Some(k) => Some(k),
            None => parse_legacy_key_sequence(&v),
        },
    }
}

fn parse_kitty_key_sequence(v: &Vec<char>) -> (r: Option<TerminalKey>)
    ensures
        r == decoded_kitty(v@),
{
    let n = v.len();
    if n < 3 || v[0] != '\x1b' || v[1] != '[' || v[n - 1] != 'u' {
        return None;
    }
    let (main_hi, event) = split_kitty_event(v, 2, n - 1);
    let (key_hi, modifier) = split_kitty_modifier(v, 2, main_hi);
    let m: u32 = match modifier {
        Some(m) => m,
        None => {
            return None;
        },
    };
    if m < 1 {
        return None;
    }
    let (cp, shifted) = parse_kitty_key_field(v, 2, key_hi);
    let cp = match cp {
        Some(cp) => cp,
        None => {
            return None;
        },
    };
    let code = match kitty_codepoint_to_keycode(cp) {
        Some(code) => code,
        None => {
            return None;
        },
    };
    let kind = match parse_kitty_event_type(v, event) {
        Some(kind) => kind,
        None => {
            return None;
        },
    };
    Some(
        TerminalKey {
            code,
            modifiers: key_modifiers_from_u8((m - 1) as u8),
            kind,
            shifted_codepoint: shifted,
        },
    )
}

/// Splits the event-type field off the kitty body `v[lo..hi]`: the end of the
/// text before it, and where the field lies.
fn split_kitty_event(v: &Vec<char>, lo: usize, hi: usize) -> (r: (usize, Option<(usize, usize)>))
    requires
        lo <= hi <= v.len(),
    ensures
        lo <= r.0 <= hi,
        r.1 matches Some((a, b)) ==> lo <= a <= b <= v.len(),
        kitty_event_split(v@.subrange(lo as int, hi as int)) == (
            v@.subrange(lo as int, r.0 as int),
            match r.1 {
                Some((a, b)) => Some(v@.subrange(a as int, b as int)),
                None => None,
            },
        ),
{
    let ghost body = v@.subrange(lo as int, hi as int);
    assert(body =~= v@.subrange(lo as int, hi as int));
    match rfind_in(v, lo, hi, ':') {
        Some(k) => {
            assert(body.skip(k - lo + 1) =~= v@.subrange(k + 1, hi as int));
            assert(body.take(k - lo) =~= v@.subrange(lo as int, k as int));
            if all_digits_in(v, k + 1, hi) && find_in(v, lo, k, ';').is_some() {
                (k, Some((k + 1, hi)))
            } else {
                (hi, None)
            }
        },
        None => (hi, None),
    }
}

/// Splits the modifier field off `v[lo..hi]`: the end of the key field and the
/// modifier field's value.
fn split_kitty_modifier(v: &Vec<char>, lo: usize, hi: usize) -> (r: (usize, Option<u32>))
    requires
        lo <= hi <= v.len(),
    ensures
        lo <= r.0 <= hi,
        kitty_modifier_split(v@.subrange(lo as int, hi as int)) == (
            v@.subrange(lo as int, r.0 as int),
            match r.1 {
                Some(m) => Some(m as nat),
                None => None,
            },
        ),
{
    let ghost main = v@.subrange(lo as int, hi as int);
    match rfind_in(v, lo, hi, ';') {
        Some(j) => {
            assert(main.take(j - lo) =~= v@.subrange(lo as int, j as int));
            assert(main.skip(j - lo + 1) =~= v@.subrange(j + 1, hi as int));
            (j, parse_unsigned_in(v, j + 1, hi, 255))
        },
        None => {
            assert(main =~= v@.subrange(lo as int, hi as int));
            (hi, Some(1u32))
        },
    }
}

/// The codepoint and shifted codepoint of the kitty key field `v[lo..hi]`.
fn parse_kitty_key_field(v: &Vec<char>, lo: usize, hi: usize) -> (r: (Option<u32>, Option<u32>))
    requires
        lo <= hi <= v.len(),
    ensures
        kitty_key_field(v@.subrange(lo as int, hi as int)) == (
            match r.0 {
                Some(c) => Some(c as nat),
                None => None,
            },
            r.1,
        ),
{
    let ghost key_part = v@.subrange(lo as int, hi as int);
    match find_in(v, lo, hi, ':') {
        Some(k) => {
            assert(key_part.take(k - lo) =~= v@.subrange(lo as int, k as int));
            assert(key_part.skip(k - lo + 1) =~= v@.subrange(k + 1, hi as int));
            (parse_unsigned_in(v, lo, k, u32::MAX), parse_shifted_field(v, k + 1, hi))
        },
        None => (parse_unsigned_in(v, lo, hi, u32::MAX), None),
    }
}

/// The shifted codepoint held in `v[lo..hi]` (the key field after its first `:`).
fn parse_shifted_field(v: &Vec<char>, lo: usize, hi: usize) -> (r: Option<u32>)
    requires
        lo <= hi <= v.len(),
    ensures
        r == shifted_field(v@.subrange(lo as int, hi as int)),
{
    let ghost rest = v@.subrange(lo as int, hi as int);
    let f_hi = match find_in(v, lo, hi, ':') {
        Some(l) => {
            assert(rest.take(l - lo) =~= v@.subrange(lo as int, l as int));
            l
        },
        None => {
            assert(rest =~= v@.subrange(lo as int, hi as int));
            hi
        },
    };
    if f_hi == lo {
        None
    } else {
        parse_unsigned_in(v, lo, f_hi, u32::MAX)
    }
}

fn parse_modify_other_keys_sequence(v: &Vec<char>) -> (r: Option<TerminalKey>)
    ensures
        r == decoded_modify_other_keys(v@),
{
    let n = v.len();
    let ghost prefix = seq!['\x1b', '[', '2', '7', ';'];
    if n < 6 || v[0] != '\x1b' || v[1] != '[' || v[2] != '2' || v[3] != '7' || v[4] != ';' || v[n
        - 1] != '~' {
        proof {
            if n >= 6 && v@.take(5) == prefix {
                assert(v@.take(5)[0] == v@[0] && v@.take(5)[4] == v@[4]);
                assert(v@.take(5)[1] == v@[1] && v@.take(5)[2] == v@[2] && v@.take(5)[3] == v@[3]);
            }
        }
        return None;
    }
    assert(v@.take(5) =~= prefix);
    let ghost body = v@.subrange(5, n - 1);
    let i = match find_in(v, 5, n - 1, ';') {
        Some(i) => i,
        None => {
            return None;
        },
    };
    assert(body.take(i - 5) =~= v@.subrange(5, i as int));
    assert(body.skip(i - 5 + 1) =~= v@.subrange(i + 1, n - 1));
    let m = match parse_unsigned_in(v, 5, i, 255) {
        Some(m) => m,
        None => {
            return None;
        },
    };
    if m < 1 {
        return None;
    }
    let cp = match parse_unsigned_in(v, i + 1, n - 1, u32::MAX) {
        Some(cp) => cp,
        None => {
            return None;
        },
    };
    match kitty_codepoint_to_keycode(cp) {
        Some(code) => Some(TerminalKey::new(code, key_modifiers_from_u8((m - 1) as u8))),
        None => None,
    }
}

fn parse_legacy_key_sequence(v: &Vec<char>) -> (r: Option<TerminalKey>)
    ensures
        r == decoded_legacy(v@),
{
    if let Some(key) = parse_legacy_special_sequence(v) {
        return Some(key);
    }
    let n = v.len();
    if text_is1(v, '\r') || text_is1(v, '\n') {
        return Some(TerminalKey::new(KeyCode::Enter, KeyModifiers::empty()));
    }
    if text_is1(v, '\t') {
        return Some(TerminalKey::new(KeyCode::Tab, KeyModifiers::empty()));
    }
    if text_is1(v, '\x1b') {
        return Some(TerminalKey::new(KeyCode::Esc, KeyModifiers::empty()));
    }
    if text_is1(v, '\x7f') {
        return Some(TerminalKey::new(KeyCode::Backspace, KeyModifiers::empty()));
    }
    if n > 0 && v[0] == '\x1b' {
        if n == 2 {
            Some(TerminalKey::new(KeyCode::Char(v[1]), KeyModifiers::alt()))
        } else {
            None
        }
    } else if n == 1 {
        let ch = v[0];
        if let Some(ctrl_key) = parse_legacy_ctrl_char(ch) {
            return Some(ctrl_key);
        }
        let modifiers = if is_uppercase_letter(ch) {
            KeyModifiers::shift()
        } else {
            KeyModifiers::empty()
        };
        Some(TerminalKey::new(KeyCode::Char(ch), modifiers))
    } else {
        None
    }
}

/// Whether `c` is an ASCII capital letter.
fn is_uppercase_letter(c: char) -> (b: bool)
    ensures
        b == is_ascii_uppercase(c),
{
    let u = c as u32;
    65 <= u && u <= 90
}

/// Whether `c` is an ASCII letter.
fn is_letter(c: char) -> (b: bool)
    ensures
        b == is_ascii_alphabetic(c),
{
    let u = c as u32;
    (65 <= u && u <= 90) || (97 <= u && u <= 122)
}

fn parse_legacy_ctrl_char(ch: char) -> (r: Option<TerminalKey>)
    ensures
        r == ctrl_key_of(ch),
{
    let u = ch as u32;
    if u == 0 {
        Some(TerminalKey::new(KeyCode::Char(' '), KeyModifiers::control()))
    } else if 1 <= u && u <= 26 {
        match char_from_u32(u + 96) {
            Some(c) => Some(TerminalKey::new(KeyCode::Char(c), KeyModifiers::control())),
            None => None,
        }
    } else if u == 27 {
        Some(TerminalKey::new(KeyCode::Char('['), KeyModifiers::control()))
    } else if u == 28 {
        Some(TerminalKey::new(KeyCode::Char('\\'), KeyModifiers::control()))
    } else if u == 29 {
        Some(TerminalKey::new(KeyCode::Char(']'), KeyModifiers::control()))
    } else if u == 30 {
        Some(TerminalKey::new(KeyCode::Char('^'), KeyModifiers::control()))
    } else if u == 31 {
        Some(TerminalKey::new(KeyCode::Char('-'), KeyModifiers::control()))
    } else {
        None
    }
}

fn parse_legacy_special_sequence(v: &Vec<char>) -> (r: Option<TerminalKey>)
    ensures
        r == decoded_legacy_special(v@),
{
    if text_is4(v, '\x1b', '\x1b', '[', 'A') {
        Some(TerminalKey::new(KeyCode::Up, KeyModifiers::alt()))
    } else if text_is4(v, '\x1b', '\x1b', '[', 'B') {
        Some(TerminalKey::new(KeyCode::Down, KeyModifiers::alt()))
    } else if text_is4(v, '\x1b', '\x1b', '[', 'C') {
        Some(TerminalKey::new(KeyCode::Right, KeyModifiers::alt()))
    } else if text_is4(v, '\x1b', '\x1b', '[', 'D') {
        Some(TerminalKey::new(KeyCode::Left, KeyModifiers::alt()))
    } else if text_is3(v, '\x1b', '[', 'A') {
        Some(TerminalKey::new(KeyCode::Up, KeyModifiers::empty()))
    } else if text_is3(v, '\x1b', '[', 'B') {
        Some(TerminalKey::new(KeyCode::Down, KeyModifiers::empty()))
    } else if text_is3(v, '\x1b', '[', 'C') {
        Some(TerminalKey::new(KeyCode::Right, KeyModifiers::empty()))
    } else if text_is3(v, '\x1b', '[', 'D') {
        Some(TerminalKey::new(KeyCode::Left, KeyModifiers::empty()))
    } else if text_is3(v, '\x1b', '[', 'H') || text_is3(v, '\x1b', 'O', 'H') || text_is4(v, '\x1b', '[', '1', '~') || text_is4(v, '\x1b', '[', '7', '~') {
        Some(TerminalKey::new(KeyCode::Home, KeyModifiers::empty()))
    } else if text_is3(v, '\x1b', '[', 'F') || text_is3(v, '\x1b', 'O', 'F') || text_is4(v, '\x1b', '[', '4', '~') || text_is4(v, '\x1b', '[', '8', '~') {
        Some(TerminalKey::new(KeyCode::End, KeyModifiers::empty()))
    } else if text_is4(v, '\x1b', '[', '5', '~') {
        Some(TerminalKey::new(KeyCode::PageUp, KeyModifiers::empty()))
    } else if text_is4(v, '\x1b', '[', '6', '~') {
        Some(TerminalKey::new(KeyCode::PageDown, KeyModifiers::empty()))
    } else if text_is4(v, '\x1b', '[', '2', '~') {
        Some(TerminalKey::new(KeyCode::Insert, KeyModifiers::empty()))
    } else if text_is4(v, '\x1b', '[', '3', '~') {
        Some(TerminalKey::new(KeyCode::Delete, KeyModifiers::empty()))
    } else if text_is3(v, '\x1b', '[', 'Z') {
        Some(TerminalKey::new(KeyCode::BackTab, KeyModifiers::shift()))
    } else {
        parse_xterm_modified_special_sequence(v)
    }
}

/// The key of the `CSI number ; modifiers ~` body held in `v[2..]`.
fn parse_tilde_body(v: &Vec<char>) -> (r: Option<TerminalKey>)
    requires
        v.len() >= 2,
    ensures
        r == decoded_tilde_body(v@.skip(2)),
{
    let n = v.len();
    let ghost body = v@.skip(2);
    if n < 3 || v[n - 1] != '~' {
        return None;
    }
    let ghost t = body.drop_last();
    assert(t =~= v@.subrange(2, n - 1));
    let i = match find_in(v, 2, n - 1, ';') {
        Some(i) => i,
        None => {
            return None;
        },
    };
    assert(t.skip(i - 2 + 1) =~= v@.subrange(i + 1, n - 1));
    assert(t.take(i - 2) =~= v@.subrange(2, i as int));
    let m = match parse_unsigned_in(v, i + 1, n - 1, 255) {
        Some(m) => m,
        None => {
            return None;
        },
    };
    if m < 1 {
        return None;
    }
    let code = if range_is1(v, 2, i, '2') {
        KeyCode::Insert
    } else if range_is1(v, 2, i, '3') {
        KeyCode::Delete
    } else if range_is1(v, 2, i, '5') {
        KeyCode::PageUp
    } else if range_is1(v, 2, i, '6') {
        KeyCode::PageDown
    } else {
        return None;
    };
    Some(TerminalKey::new(code, key_modifiers_from_u8((m - 1) as u8)))
}

fn parse_xterm_modified_special_sequence(v: &Vec<char>) -> (r: Option<TerminalKey>)
    ensures
        r == decoded_xterm_modified(v@),
{
    let n = v.len();
    if n < 2 || v[0] != '\x1b' || v[1] != '[' {
        return None;
    }
    let ghost body = v@.skip(2);
    if n >= 4 && v[2] == '1' && v[3] == ';' {
        let ghost b = body.skip(2);
        assert(b =~= v@.skip(4));
        if n == 4 {
            return None;
        }
        let suffix_char = v[n - 1];
        if is_letter(suffix_char) {
            assert(b.drop_last() =~= v@.subrange(4, n - 1));
            let mod_value = match parse_unsigned_in(v, 4, n - 1, 255) {
                Some(m) => m,
                None => {
                    return None;
                },
            };
            if mod_value < 1 {
                return None;
            }
            let code = if suffix_char == 'A' {
                KeyCode::Up
            } else if suffix_char == 'B' {
                KeyCode::Down
            } else if suffix_char == 'C' {
                KeyCode::Right
            } else if suffix_char == 'D' {
                KeyCode::Left
            } else if suffix_char == 'H' {
                KeyCode::Home
            } else if suffix_char == 'F' {
                KeyCode::End
            } else {
                return None;
            };
            return Some(TerminalKey::new(code, key_modifiers_from_u8((mod_value - 1) as u8)));
        }
    }
    parse_tilde_body(v)
}

fn kitty_codepoint_to_keycode(codepoint: u32) -> (r: Option<KeyCode>)
    ensures
        r == keycode_of_codepoint(codepoint),
{
    if codepoint == 8 || codepoint == 127 {
        Some(KeyCode::Backspace)
    } else if codepoint == 9 {
        Some(KeyCode::Tab)
    } else if codepoint == 13 || codepoint == 57414 {
        Some(KeyCode::Enter)
    } else if codepoint == 27 {
        Some(KeyCode::Esc)
    } else if codepoint == 57417 {
        Some(KeyCode::Left)
    } else if codepoint == 57418 {
        Some(KeyCode::Right)
    } else if codepoint == 57419 {
        Some(KeyCode::Up)
    } else if codepoint == 57420 {
        Some(KeyCode::Down)
    } else if codepoint == 57421 {
        Some(KeyCode::PageUp)
    } else if codepoint == 57422 {
        Some(KeyCode::PageDown)
    } else if codepoint == 57423 {
        Some(KeyCode::Home)
    } else if codepoint == 57424 {
        Some(KeyCode::End)
    } else if codepoint == 57425 {
        Some(KeyCode::Insert)
    } else if codepoint == 57426 {
        Some(KeyCode::Delete)
    } else {
        match char_from_u32(codepoint) {
            Some(c) => Some(KeyCode::Char(c)),
            None => None,
        }
    }
}

/// The event kind named by the field `v[lo..hi]`, or a press when there is none.
fn parse_kitty_event_type(v: &Vec<char>, field: Option<(usize, usize)>) -> (r: Option<
    KeyEventKind,
>)
    requires
        field matches Some((lo, hi)) ==> lo <= hi <= v.len(),
    ensures
        r == event_kind_of(
            match field {
                Some((lo, hi)) => Some(v@.subrange(lo as int, hi as int)),
                None => None,
            },
        ),
{
    match field {
        None => Some(KeyEventKind::Press),
        Some((lo, hi)) => {
            if range_is1(v, lo, hi, '1') {
                Some(KeyEventKind::Press)
            } else if range_is1(v, lo, hi, '2') {
                Some(KeyEventKind::Repeat)
            } else if range_is1(v, lo, hi, '3') {
                Some(KeyEventKind::Release)
            } else {
                None
            }
        },
    }
}

fn key_modifiers_from_u8(modifier: u8) -> (m: KeyModifiers)
    ensures
        m == modifiers_from_bits(modifier),
{
    let bits: u8 = (if modifier & 1 != 0 {
        SHIFT
    } else {
        0
    }) + (if modifier & 2 != 0 {
        ALT
    } else {
        0
    }) + (if modifier & 4 != 0 {
        CONTROL
    } else {
        0
    }) + (if modifier & 8 != 0 {
        SUPER
    } else {
        0
    }) + (if modifier & 16 != 0 {
        HYPER
    } else {
        0
    }) + (if modifier & 32 != 0 {
        META
    } else {
        0
    });
    KeyModifiers::from_bits_retain(bits)
}

} // verus!
