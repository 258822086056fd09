//! Properties of the library stated across its functions: what a terminal
//! sends for a key decodes back to that key, how modifiers shape what is
//! sent, and which fields of a `/proc/<pid>/stat` line are read.
use vstd::prelude::*;

use vstd::utf8::{decode_utf8, encode_scalar, encode_utf8, encode_utf8_decode_utf8};

use crate::decode::{
    ctrl_key_of, decoded_key, decoded_kitty, decoded_legacy, decoded_legacy_special,
    decoded_modify_other_keys, decoded_tilde_body, decoded_xterm_modified, event_kind_of,
    is_ascii_uppercase, keycode_of_codepoint, kitty_event_split, kitty_key_field,
    kitty_modifier_split, letter_key, modifiers_from_bits, tilde_key,
};
use crate::encode::{
    alternate_shifted, canonical_char, csi_letter, csi_tilde, csi_u_text, csi_u_text_of,
    event_suffix, is_plain_ctrl_letter, kitty_key_number, kitty_modifier_value, legacy_encoding,
    lemma_csi_u_text_ascii, lemma_empty_modifiers, lemma_modified_special_ascii,
    modified_special_text, terminal_key_encoding, xterm_modifier_value,
    KITTY_FLAG_REPORT_EVENT_TYPES,
};
use crate::keys::{
    pressed, KeyCode, KeyEventKind, KeyModifiers, KeyboardProtocol, TerminalKey, ALT, CONTROL,
    SHIFT,
};
use crate::platform::procfs::{
    field, field_at, is_whitespace, lemma_skips, skip_whitespace, skip_word, stat_comm,
    stat_fields_text, stat_foreground_pgid, stat_pgrp_and_comm,
};
use crate::text::{
    all_digits, ascii_bytes, decimal, digit_char, first_index_of, is_digit, last_index_of,
    lemma_ascii_bytes_utf8, lemma_decimal, lemma_digit_char, lemma_first_index_is,
    lemma_last_index_is, lemma_parse_decimal, parse_i32, parse_unsigned,
};

verus! {

proof fn lemma_modifier_bits_u8(b: u8)
    by (bit_vector)
    requires
        b < 64,
    ensures
        ({
            let k: u8 = ((if b & 1 == 1 { 1u8 } else { 0u8 }) + (if b & 4 == 4 { 2u8 } else { 0u8 })
                + (if b & 2 == 2 { 4u8 } else { 0u8 }) + (if b & 8 == 8 { 8u8 } else { 0u8 }) + (
            if b & 16 == 16 {
                16u8
            } else {
                0u8
            }) + (if b & 32 == 32 { 32u8 } else { 0u8 })) as u8;
            ((if k & 1 != 0 { 1u8 } else { 0u8 }) + (if k & 2 != 0 { 4u8 } else { 0u8 }) + (if k
                & 4 != 0 {
                2u8
            } else {
                0u8
            }) + (if k & 8 != 0 { 8u8 } else { 0u8 }) + (if k & 16 != 0 { 16u8 } else { 0u8 }) + (
            if k & 32 != 0 {
                32u8
            } else {
                0u8
            })) as u8 == b
        }),
{
}

/// The kitty modifier field names exactly the modifiers it was made from.
pub proof fn lemma_kitty_modifier_roundtrip(m: KeyModifiers)
    requires
        m.is_known(),
    ensures
        1 <= kitty_modifier_value(m) <= 64,
        modifiers_from_bits((kitty_modifier_value(m) - 1) as u8) == m,
{
    lemma_modifier_bits_u8(m.bits);
}

proof fn lemma_xterm_bits_u8(b: u8)
    by (bit_vector)
    requires
        b & !7u8 == 0,
    ensures
        ({
            let k: u8 = ((if b & 1 == 1 { 1u8 } else { 0u8 }) + (if b & 4 == 4 { 2u8 } else { 0u8 })
                + (if b & 2 == 2 { 4u8 } else { 0u8 })) as u8;
            &&& ((if k & 1 != 0 { 1u8 } else { 0u8 }) + (if k & 2 != 0 { 4u8 } else { 0u8 }) + (if k
                & 4 != 0 {
                2u8
            } else {
                0u8
            }) + (if k & 8 != 0 { 8u8 } else { 0u8 }) + (if k & 16 != 0 { 16u8 } else { 0u8 }) + (
            if k & 32 != 0 {
                32u8
            } else {
                0u8
            })) as u8 == b
            &&& (b != 0 ==> k != 0)
        }),
{
}

/// The xterm modifier field names exactly the Shift, Alt and Control it was made from.
pub proof fn lemma_xterm_modifier_roundtrip(m: KeyModifiers)
    requires
        m.bits & !7u8 == 0,
    ensures
        1 <= xterm_modifier_value(m) <= 8,
        m.bits != 0 ==> xterm_modifier_value(m) >= 2,
        modifiers_from_bits((xterm_modifier_value(m) - 1) as u8) == m,
{
    lemma_xterm_bits_u8(m.bits);
}

/// The keys that have an xterm form with modifiers and a fixed form without.
pub open spec fn is_navigation_key(code: KeyCode) -> bool {
    match code {
        KeyCode::Up | KeyCode::Down | KeyCode::Left | KeyCode::Right | KeyCode::Home
        | KeyCode::End | KeyCode::PageUp | KeyCode::PageDown | KeyCode::Insert
        | KeyCode::Delete => true,
        _ => false,
    }
}

/// `CSI 1 ; v letter` with a one-digit `v` decodes to the key of the letter.
proof fn lemma_decode_csi_letter(v: nat, letter: char, code: KeyCode)
    requires
        2 <= v <= 8,
        letter_key(letter) == Some(code),
    ensures
        decoded_key(csi_letter(v, letter)) == Some(pressed(code, modifiers_from_bits((v - 1) as u8))),
{
    lemma_decimal(v);
    lemma_digit_char(v);
    lemma_parse_decimal(v, 255);
    let d = digit_char(v);
    let t = csi_letter(v, letter);
    assert(t =~= seq!['\x1b', '[', '1', ';', d, letter]);
    assert(decoded_kitty(t) is None);
    assert(t.take(5)[2] == '1');
    assert(decoded_modify_other_keys(t) is None);
    let body = t.skip(2);
    assert(body =~= seq!['1', ';', d, letter]);
    let b = body.skip(2);
    assert(b =~= seq![d, letter]);
    assert(b.drop_last() =~= decimal(v));
    assert(decoded_xterm_modified(t) == Some(pressed(code, modifiers_from_bits((v - 1) as u8))));
    assert(decoded_legacy_special(t) == decoded_xterm_modified(t));
}

/// `CSI n ; v ~` with one-digit `n` and `v` decodes to the key of the number.
proof fn lemma_decode_csi_tilde(n: nat, v: nat, code: KeyCode)
    requires
        2 <= v <= 8,
        n < 10,
        n != 1,
        tilde_key(decimal(n)) == Some(code),
    ensures
        decoded_key(csi_tilde(n, v)) == Some(pressed(code, modifiers_from_bits((v - 1) as u8))),
{
    lemma_decimal(v);
    lemma_digit_char(v);
    lemma_decimal(n);
    lemma_digit_char(n);
    lemma_parse_decimal(v, 255);
    let d = digit_char(v);
    let e = digit_char(n);
    let t = csi_tilde(n, v);
    assert(t =~= seq!['\x1b', '[', e, ';', d, '~']);
    assert(decoded_kitty(t) is None);
    assert(t.take(5)[3] == ';');
    assert(decoded_modify_other_keys(t) is None);
    let body = t.skip(2);
    assert(body =~= seq![e, ';', d, '~']);
    let tt = body.drop_last();
    assert(tt =~= seq![e, ';', d]);
    crate::text::lemma_first_index_is(tt, ';', Some(1));
    assert(tt.skip(2) =~= decimal(v));
    assert(tt.take(1) =~= decimal(n));
    assert(decoded_tilde_body(body) == Some(pressed(code, modifiers_from_bits((v - 1) as u8))));
    assert(decoded_xterm_modified(t) == Some(pressed(code, modifiers_from_bits((v - 1) as u8))));
    assert(decoded_legacy_special(t) == decoded_xterm_modified(t));
}

/// Decoding the legacy encoding of a navigation key typed with Shift, Alt or
/// Control (in any combination) gives that key back.
proof fn lemma_navigation_modified_roundtrip(key: TerminalKey)
    requires
        is_navigation_key(key.code),
        key.modifiers.bits != 0,
        key.modifiers.bits & !7u8 == 0,
    ensures
        decoded_key(decode_utf8(legacy_encoding(key.event()))) == Some(
            pressed(key.code, key.modifiers),
        ),
{
    let m = key.modifiers;
    lemma_xterm_modifier_roundtrip(m);
    let v = xterm_modifier_value(m);
    let t = modified_special_text(key.code, m).unwrap();
    lemma_modified_special_ascii(key.code, m);
    lemma_ascii_bytes_utf8(t);
    assert(legacy_encoding(key.event()) == ascii_bytes(t));
    lemma_decimal(2);
    lemma_decimal(3);
    lemma_decimal(5);
    lemma_decimal(6);
    match key.code {
        KeyCode::Up => lemma_decode_csi_letter(v, 'A', key.code),
        KeyCode::Down => lemma_decode_csi_letter(v, 'B', key.code),
        KeyCode::Right => lemma_decode_csi_letter(v, 'C', key.code),
        KeyCode::Left => lemma_decode_csi_letter(v, 'D', key.code),
        KeyCode::Home => lemma_decode_csi_letter(v, 'H', key.code),
        KeyCode::End => lemma_decode_csi_letter(v, 'F', key.code),
        KeyCode::Insert => lemma_decode_csi_tilde(2, v, key.code),
        KeyCode::Delete => lemma_decode_csi_tilde(3, v, key.code),
        KeyCode::PageUp => lemma_decode_csi_tilde(5, v, key.code),
        KeyCode::PageDown => lemma_decode_csi_tilde(6, v, key.code),
        _ => {},
    }
}

/// The legacy encoding of an unmodified navigation key is a fixed escape
/// sequence, and it decodes to that key.
proof fn lemma_navigation_plain_roundtrip(key: TerminalKey)
    requires
        is_navigation_key(key.code),
        key.modifiers.bits == 0,
    ensures
        decoded_key(decode_utf8(legacy_encoding(key.event()))) == Some(
            pressed(key.code, key.modifiers),
        ),
{
    let m = key.modifiers;
    lemma_empty_modifiers(m);
    let t: Seq<char> = match key.code {
        KeyCode::Up => seq!['\x1b', '[', 'A'],
        KeyCode::Down => seq!['\x1b', '[', 'B'],
        KeyCode::Right => seq!['\x1b', '[', 'C'],
        KeyCode::Left => seq!['\x1b', '[', 'D'],
        KeyCode::Home => seq!['\x1b', '[', 'H'],
        KeyCode::End => seq!['\x1b', '[', 'F'],
        KeyCode::PageUp => seq!['\x1b', '[', '5', '~'],
        KeyCode::PageDown => seq!['\x1b', '[', '6', '~'],
        KeyCode::Delete => seq!['\x1b', '[', '3', '~'],
        _ => seq!['\x1b', '[', '2', '~'],
    };
    assert(legacy_encoding(key.event()) =~= ascii_bytes(t));
    assert(vstd::utf8::is_ascii_chars(t));
    lemma_ascii_bytes_utf8(t);
    assert(decoded_kitty(t) is None);
    assert(decoded_modify_other_keys(t) is None);
    assert(decoded_legacy(t) == Some(pressed(key.code, m)));
}

/// Law: a navigation key (arrows, Home, End, Page Up/Down, Insert, Delete)
/// typed with any combination of Shift, Alt and Control is sent in its legacy
/// xterm form under either protocol, and decoding what is sent gives the key
/// back.
pub proof fn law_navigation_keys_roundtrip(key: TerminalKey, protocol: KeyboardProtocol)
    requires
        is_navigation_key(key.code),
        key.modifiers.bits & !7u8 == 0,
    ensures
        decoded_key(decode_utf8(terminal_key_encoding(key, protocol))) == Some(
            pressed(key.code, key.modifiers),
        ),
{
    assert(terminal_key_encoding(key, protocol) == legacy_encoding(key.event()));
    if key.modifiers.bits == 0 {
        lemma_navigation_plain_roundtrip(key);
    } else {
        lemma_navigation_modified_roundtrip(key);
    }
}

/// Law: unmodified Enter, Tab, Backspace and Escape, and Shift+BackTab, are
/// sent as their single legacy bytes (or `CSI Z`) under either protocol, and
/// decoding what is sent gives the key back.
pub proof fn law_basic_keys_roundtrip(key: TerminalKey, protocol: KeyboardProtocol)
    requires
        (key.modifiers.bits == 0 && (key.code == KeyCode::Enter || key.code == KeyCode::Tab
            || key.code == KeyCode::Backspace || key.code == KeyCode::Esc)) || (key.code
            == KeyCode::BackTab && key.modifiers.bits == SHIFT),
    ensures
        decoded_key(decode_utf8(terminal_key_encoding(key, protocol))) == Some(
            pressed(key.code, key.modifiers),
        ),
{
    let m = key.modifiers;
    if m.bits == 0 {
        lemma_empty_modifiers(m);
    } else {
        let b = m.bits;
        assert(b & 4 != 4 && b & 1 == 1 && b & 2 != 2) by (bit_vector)
            requires
                b == 1,
        ;
    }
    assert(terminal_key_encoding(key, protocol) == legacy_encoding(key.event()));
    let t: Seq<char> = match key.code {
        KeyCode::Enter => seq!['\r'],
        KeyCode::Tab => seq!['\t'],
        KeyCode::Backspace => seq!['\x7f'],
        KeyCode::Esc => seq!['\x1b'],
        _ => seq!['\x1b', '[', 'Z'],
    };
    assert(legacy_encoding(key.event()) =~= ascii_bytes(t));
    assert(vstd::utf8::is_ascii_chars(t));
    lemma_ascii_bytes_utf8(t);
    assert(decoded_kitty(t) is None);
    assert(decoded_modify_other_keys(t) is None);
    assert(decoded_legacy_special(t) == (if key.code == KeyCode::BackTab {
        Some(pressed(KeyCode::BackTab, m))
    } else {
        None
    }));
    assert(decoded_legacy(t) == Some(pressed(key.code, m)));
}

// ---------------------------------------------------------------------------
// Kitty `CSI u`
// ---------------------------------------------------------------------------

/// No character of a digit text is `c` when `c` is not a digit.
proof fn lemma_digits_lack(d: Seq<char>, c: char)
    requires
        all_digits(d),
        !is_digit(c),
    ensures
        forall|j: int| 0 <= j < d.len() ==> d[j] != c,
{
    assert forall|j: int| 0 <= j < d.len() implies d[j] != c by {
        assert(is_digit(d[j]));
    }
}

/// The last `c` of `a c b` is the one between them when `b` holds none.
proof fn lemma_last_sep(a: Seq<char>, c: char, b: Seq<char>)
    requires
        forall|j: int| 0 <= j < b.len() ==> b[j] != c,
    ensures
        last_index_of(a + seq![c] + b, c) == Some(a.len() as int),
        (a + seq![c] + b).take(a.len() as int) == a,
        (a + seq![c] + b).skip(a.len() as int + 1) == b,
{
    let s = a + seq![c] + b;
    assert forall|j: int| a.len() < j < s.len() implies s[j] != c by {
        assert(s[j] == b[j - a.len() - 1]);
    }
    lemma_last_index_is(s, c, Some(a.len() as int));
    assert(s.take(a.len() as int) =~= a);
    assert(s.skip(a.len() as int + 1) =~= b);
}

/// The first `c` of `a c b` is the one between them when `a` holds none.
proof fn lemma_first_sep(a: Seq<char>, c: char, b: Seq<char>)
    requires
        forall|j: int| 0 <= j < a.len() ==> a[j] != c,
    ensures
        first_index_of(a + seq![c] + b, c) == Some(a.len() as int),
        (a + seq![c] + b).take(a.len() as int) == a,
        (a + seq![c] + b).skip(a.len() as int + 1) == b,
{
    let s = a + seq![c] + b;
    assert forall|j: int| 0 <= j < a.len() implies s[j] != c by {
        assert(s[j] == a[j]);
    }
    lemma_first_index_is(s, c, Some(a.len() as int));
    assert(s.take(a.len() as int) =~= a);
    assert(s.skip(a.len() as int + 1) =~= b);
}

/// A text without `c` has neither a first nor a last `c`.
proof fn lemma_no_sep(a: Seq<char>, c: char)
    requires
        forall|j: int| 0 <= j < a.len() ==> a[j] != c,
    ensures
        first_index_of(a, c) is None,
        last_index_of(a, c) is None,
{
    lemma_first_index_is(a, c, None);
    lemma_last_index_is(a, c, None);
}

/// The event kind that the number of an event-type field names.
pub open spec fn kind_of_event_number(e: Option<nat>) -> KeyEventKind {
    match e {
        Some(n) => if n == 2 {
            KeyEventKind::Repeat
        } else if n == 3 {
            KeyEventKind::Release
        } else {
            KeyEventKind::Press
        },
        None => KeyEventKind::Press,
    }
}

/// The `:shifted` part of a `CSI u` key field.
pub open spec fn shifted_part(sh: Option<u32>) -> Seq<char> {
    match sh {
        Some(s) => seq![':'] + decimal(s as nat),
        None => Seq::empty(),
    }
}

/// The `:event` part of a `CSI u` text.
pub open spec fn event_part(ev: Option<nat>) -> Seq<char> {
    match ev {
        Some(e) => seq![':'] + decimal(e),
        None => Seq::empty(),
    }
}

/// The key field `codepoint[:shifted]` of a `CSI u` text.
pub open spec fn key_field_text(cp: nat, sh: Option<u32>) -> Seq<char> {
    decimal(cp) + shifted_part(sh)
}

/// The text of a `CSI u` body before its event type.
pub open spec fn main_text(cp: nat, sh: Option<u32>, m: nat) -> Seq<char> {
    key_field_text(cp, sh) + seq![';'] + decimal(m)
}

proof fn lemma_csi_u_shape(cp: nat, sh: Option<u32>, m: nat, ev: Option<nat>)
    ensures
        ({
            let t = csi_u_text(cp, sh, m, ev);
            &&& t.len() >= 3
            &&& t[0] == '\x1b'
            &&& t[1] == '['
            &&& t.last() == 'u'
            &&& t.subrange(2, t.len() - 1) == main_text(cp, sh, m) + event_part(ev)
        }),
{
    let t = csi_u_text(cp, sh, m, ev);
    let p = seq!['\x1b', '['];
    assert(t =~= p + (main_text(cp, sh, m) + event_part(ev)) + seq!['u']);
    assert(t.subrange(2, t.len() - 1) =~= main_text(cp, sh, m) + event_part(ev));
}

/// The key field of a `CSI u` text holds no `;`.
proof fn lemma_key_field_no_semicolon(cp: nat, sh: Option<u32>)
    ensures
        forall|j: int| 0 <= j < key_field_text(cp, sh).len() ==> key_field_text(cp, sh)[j] != ';',
{
    let y = key_field_text(cp, sh);
    let dcp = decimal(cp);
    let sp = shifted_part(sh);
    lemma_decimal(cp);
    lemma_digits_lack(dcp, ';');
    if let Some(s) = sh {
        lemma_decimal(s as nat);
        lemma_digits_lack(decimal(s as nat), ';');
    }
    assert forall|j: int| 0 <= j < y.len() implies y[j] != ';' by {
        if j < dcp.len() {
            assert(y[j] == dcp[j]);
        } else {
            assert(y[j] == sp[j - dcp.len()]);
            if let Some(s) = sh {
                if j > dcp.len() {
                    assert(sp[j - dcp.len()] == decimal(s as nat)[j - dcp.len() - 1]);
                }
            }
        }
    }
}

proof fn lemma_csi_u_event_split(cp: nat, sh: Option<u32>, m: nat, ev: Option<nat>)
    ensures
        kitty_event_split(main_text(cp, sh, m) + event_part(ev)) == (
            main_text(cp, sh, m),
            match ev {
                Some(e) => Some(decimal(e)),
                None => None,
            },
        ),
{
    let x = main_text(cp, sh, m);
    let y = key_field_text(cp, sh);
    let dcp = decimal(cp);
    let dm = decimal(m);
    lemma_decimal(cp);
    lemma_decimal(m);
    lemma_digits_lack(dcp, ':');
    lemma_digits_lack(dm, ':');
    lemma_digits_lack(dm, ';');
    lemma_key_field_no_semicolon(cp, sh);
    lemma_first_sep(y, ';', dm);
    match ev {
        Some(e) => {
            lemma_decimal(e);
            lemma_digits_lack(decimal(e), ':');
            assert(x + event_part(ev) =~= x + seq![':'] + decimal(e));
            lemma_last_sep(x, ':', decimal(e));
        },
        None => {
            assert(x + event_part(ev) =~= x);
            match sh {
                Some(s) => {
                    let ds = decimal(s as nat);
                    lemma_decimal(s as nat);
                    lemma_digits_lack(ds, ':');
                    let rest = ds + seq![';'] + dm;
                    assert(x =~= dcp + seq![':'] + rest);
                    assert forall|j: int| 0 <= j < rest.len() implies rest[j] != ':' by {
                        if j < ds.len() {
                            assert(rest[j] == ds[j]);
                        } else if j > ds.len() {
                            assert(rest[j] == dm[j - ds.len() - 1]);
                        }
                    }
                    lemma_last_sep(dcp, ':', rest);
                    assert(!is_digit(rest[ds.len() as int]));
                },
                None => {
                    assert(x =~= dcp + seq![';'] + dm);
                    assert forall|j: int| 0 <= j < x.len() implies x[j] != ':' by {
                        if j < dcp.len() {
                            assert(x[j] == dcp[j]);
                        } else if j > dcp.len() {
                            assert(x[j] == dm[j - dcp.len() - 1]);
                        }
                    }
                    lemma_no_sep(x, ':');
                },
            }
        },
    }
}

proof fn lemma_csi_u_modifier_split(cp: nat, sh: Option<u32>, m: nat)
    requires
        m <= 255,
    ensures
        kitty_modifier_split(main_text(cp, sh, m)) == (key_field_text(cp, sh), Some(m)),
{
    lemma_decimal(m);
    lemma_digits_lack(decimal(m), ';');
    lemma_parse_decimal(m, 255);
    lemma_last_sep(key_field_text(cp, sh), ';', decimal(m));
}

proof fn lemma_csi_u_key_field(cp: nat, sh: Option<u32>)
    requires
        cp <= u32::MAX,
    ensures
        kitty_key_field(key_field_text(cp, sh)) == (Some(cp), sh),
{
    let dcp = decimal(cp);
    lemma_decimal(cp);
    lemma_digits_lack(dcp, ':');
    lemma_parse_decimal(cp, u32::MAX as nat);
    match sh {
        Some(s) => {
            let ds = decimal(s as nat);
            lemma_decimal(s as nat);
            lemma_digits_lack(ds, ':');
            assert(key_field_text(cp, sh) =~= dcp + seq![':'] + ds);
            lemma_first_sep(dcp, ':', ds);
            lemma_no_sep(ds, ':');
            lemma_parse_decimal(s as nat, u32::MAX as nat);
        },
        None => {
            assert(key_field_text(cp, sh) =~= dcp);
            lemma_no_sep(dcp, ':');
        },
    }
}

proof fn lemma_event_field(ev: Option<nat>)
    requires
        ev matches Some(e) ==> 1 <= e <= 3,
    ensures
        event_kind_of(
            match ev {
                Some(e) => Some(decimal(e)),
                None => None,
            },
        ) == Some(kind_of_event_number(ev)),
{
    lemma_decimal(1);
    lemma_decimal(2);
    lemma_decimal(3);
}

/// Decoding a `CSI u` text gives back its key number, shifted codepoint,
/// modifier field and event type.
proof fn lemma_decode_csi_u(cp: nat, sh: Option<u32>, m: nat, ev: Option<nat>)
    requires
        cp <= u32::MAX,
        1 <= m <= 255,
        ev matches Some(e) ==> 1 <= e <= 3,
    ensures
        decoded_kitty(csi_u_text(cp, sh, m, ev)) == match keycode_of_codepoint(cp as u32) {
            Some(code) => Some(
                TerminalKey {
                    code,
                    modifiers: modifiers_from_bits((m - 1) as u8),
                    kind: kind_of_event_number(ev),
                    shifted_codepoint: sh,
                },
            ),
            None => None,
        },
{
    lemma_csi_u_shape(cp, sh, m, ev);
    lemma_csi_u_event_split(cp, sh, m, ev);
    lemma_csi_u_modifier_split(cp, sh, m);
    lemma_csi_u_key_field(cp, sh);
    lemma_event_field(ev);
}

/// The numbers that kitty gives to C0 keys and to its functional keys, which
/// decode to those keys rather than to the character with that value.
pub open spec fn is_kitty_key_number(n: u32) -> bool {
    n == 8 || n == 9 || n == 13 || n == 27 || n == 127 || n == 57414 || (57417 <= n <= 57426)
}

/// What decoding a key's `CSI u` form gives: the character key with its kitty
/// base character, the same modifiers, the event kind when event types are
/// reported (a press otherwise), and the shifted key when alternate keys are
/// reported.
pub open spec fn kitty_decoded_form(key: TerminalKey, flags: u16) -> TerminalKey {
    TerminalKey {
        code: match key.code {
            KeyCode::Char(c) => KeyCode::Char(canonical_char(c, key.modifiers)),
            other => other,
        },
        modifiers: key.modifiers,
        kind: if flags & KITTY_FLAG_REPORT_EVENT_TYPES != 0 {
            key.kind
        } else {
            KeyEventKind::Press
        },
        shifted_codepoint: if key.code is Char {
            alternate_shifted(key, flags)
        } else {
            None
        },
    }
}

/// Law: when the kitty protocol sends a key as `CSI u` (a modified character
/// key, or a modified Enter, Tab, Backspace or Escape), decoding what is sent
/// gives the key back in kitty's terms: base character, modifiers, event kind
/// and shifted key as far as the flags ask for them. Left out: modifier bits
/// outside the six named ones, and characters whose value is one of kitty's
/// C0 or functional key numbers.
pub proof fn law_kitty_csi_u_roundtrip(key: TerminalKey, flags: u16)
    requires
        csi_u_text_of(key, flags) is Some,
        key.modifiers.is_known(),
        key.code matches KeyCode::Char(c) ==> !is_kitty_key_number(
            canonical_char(c, key.modifiers) as u32,
        ),
    ensures
        decoded_key(decode_utf8(terminal_key_encoding(key, KeyboardProtocol::Kitty { flags })))
            == Some(kitty_decoded_form(key, flags)),
{
    let mods = key.modifiers;
    let cp = kitty_key_number(key.code, mods).unwrap();
    let sh = if key.code is Char {
        alternate_shifted(key, flags)
    } else {
        None
    };
    let m = kitty_modifier_value(mods);
    let ev = event_suffix(key, flags);
    let t = csi_u_text(cp, sh, m, ev);
    assert(csi_u_text_of(key, flags) == Some(t));
    lemma_csi_u_text_ascii(cp, sh, m, ev);
    lemma_ascii_bytes_utf8(t);
    lemma_kitty_modifier_roundtrip(mods);
    if let KeyCode::Char(c) = key.code {
        let b = canonical_char(c, mods);
        vstd::utf8::char_is_scalar(b);
        vstd::utf8::char_u32_cast(b, b as u32);
    }
    assert(cp <= u32::MAX);
    assert(ev matches Some(e) ==> 1 <= e <= 3);
    lemma_decode_csi_u(cp, sh, m, ev);
    assert(kind_of_event_number(ev) == kitty_decoded_form(key, flags).kind);
    assert(keycode_of_codepoint(cp as u32) == Some(kitty_decoded_form(key, flags).code));
}

// ---------------------------------------------------------------------------
// Characters and the fallback to legacy
// ---------------------------------------------------------------------------

/// Law: under the kitty protocol, keys that `CSI u` is not used for (unmodified
/// keys, plain Control with a letter, and keys other than characters, Enter,
/// Tab, Backspace and Escape) are sent exactly as under the legacy protocol.
pub proof fn law_kitty_falls_back_to_legacy(key: TerminalKey, flags: u16)
    requires
        key.modifiers.bits == 0 || is_plain_ctrl_letter(key) || kitty_key_number(
            key.code,
            key.modifiers,
        ) is None,
    ensures
        terminal_key_encoding(key, KeyboardProtocol::Kitty { flags }) == terminal_key_encoding(
            key,
            KeyboardProtocol::Legacy,
        ),
{
}

/// The decoding of a lone character that is not a C0 control or Delete.
proof fn lemma_decode_printable(c: char)
    requires
        c as u32 >= 32,
        c != '\x7f',
    ensures
        decoded_key(seq![c]) == Some(
            pressed(
                KeyCode::Char(c),
                KeyModifiers { bits: if is_ascii_uppercase(c) { SHIFT } else { 0 } },
            ),
        ),
{
    let t = seq![c];
    assert(decoded_kitty(t) is None);
    assert(decoded_modify_other_keys(t) is None);
    assert(decoded_legacy_special(t) is None);
    assert(ctrl_key_of(c) is None);
}

/// The UTF-8 encoding of one character decodes to that character.
proof fn lemma_decode_one_char(c: char)
    ensures
        encode_utf8(seq![c]) == encode_scalar(c as u32),
        decode_utf8(encode_scalar(c as u32)) == seq![c],
{
    assert(seq![c].drop_first() =~= Seq::<char>::empty());
    assert(encode_utf8(seq![c]) =~= encode_scalar(c as u32) + encode_utf8(Seq::<char>::empty()));
    assert(encode_utf8(seq![c]) =~= encode_scalar(c as u32));
    encode_utf8_decode_utf8(seq![c]);
    assert(encode_utf8(seq![c]) == encode_scalar(c as u32));
}

/// Law: a character that is not a C0 control or Delete, typed alone (with
/// Shift for an ASCII capital), is sent as its UTF-8 encoding under the legacy
/// protocol (and under the kitty protocol too when it is not a capital), and
/// decoding what is sent gives the key back.
pub proof fn law_printable_char_roundtrip(c: char, protocol: KeyboardProtocol)
    requires
        c as u32 >= 32,
        c != '\x7f',
        protocol == KeyboardProtocol::Legacy || !is_ascii_uppercase(c),
    ensures
        ({
            let key = pressed(
                KeyCode::Char(c),
                KeyModifiers { bits: if is_ascii_uppercase(c) { SHIFT } else { 0 } },
            );
            &&& terminal_key_encoding(key, protocol) == encode_scalar(c as u32)
            &&& decoded_key(decode_utf8(terminal_key_encoding(key, protocol))) == Some(key)
        }),
{
    let m = KeyModifiers { bits: if is_ascii_uppercase(c) { SHIFT } else { 0 } };
    let b = m.bits;
    assert(b & 4 != 4 && b & 2 != 2 && (b == 0 ==> b & 1 != 1) && (b == 1 ==> b & 1 == 1))
        by (bit_vector)
        requires
            b == 0 || b == 1,
    ;
    lemma_decode_one_char(c);
    lemma_decode_printable(c);
}

/// Law: any character typed with Alt alone is sent under the legacy protocol
/// as ESC followed by the character's UTF-8 encoding, and decoding what is
/// sent gives the key back.
pub proof fn law_alt_char_roundtrip(c: char)
    ensures
        ({
            let key = pressed(KeyCode::Char(c), KeyModifiers { bits: ALT });
            &&& terminal_key_encoding(key, KeyboardProtocol::Legacy) == seq![27u8] + encode_scalar(
                c as u32,
            )
            &&& decoded_key(decode_utf8(terminal_key_encoding(key, KeyboardProtocol::Legacy)))
                == Some(key)
        }),
{
    let b = ALT;
    assert(b & 4 == 4 && b & 2 != 2 && b & 1 != 1 && b & !4u8 == 0) by (bit_vector)
        requires
            b == 4,
    ;
    let m2 = KeyModifiers { bits: b & !ALT };
    assert(m2.bits == 0);
    lemma_empty_modifiers(m2);
    let t = seq!['\x1b', c];
    assert(t.drop_first() =~= seq![c]);
    assert(seq![c].drop_first() =~= Seq::<char>::empty());
    lemma_decode_one_char(c);
    assert(encode_utf8(seq![c]) =~= encode_scalar(c as u32));
    assert((27u32 & 0x7F) as u8 == 27u8) by (bit_vector);
    assert(encode_scalar(27) =~= seq![27u8]);
    assert(encode_utf8(t) == encode_scalar(27) + encode_utf8(t.drop_first()));
    assert(encode_utf8(t) =~= seq![27u8] + encode_scalar(c as u32));
    encode_utf8_decode_utf8(t);
    assert(decoded_kitty(t) is None);
    assert(decoded_modify_other_keys(t) is None);
    assert(decoded_xterm_modified(t) is None);
    assert(decoded_legacy_special(t) is None);
}

/// Law: a lower-case ASCII letter typed with Control alone is sent as its C0
/// control byte under either protocol, and decoding that byte gives the key
/// back. Left out: `i`, `j` and `m`, whose bytes are Tab, line feed and
/// carriage return.
pub proof fn law_ctrl_letter_roundtrip(c: char, protocol: KeyboardProtocol)
    requires
        'a' <= c <= 'z',
        c != 'i' && c != 'j' && c != 'm',
    ensures
        ({
            let key = pressed(KeyCode::Char(c), KeyModifiers { bits: CONTROL });
            &&& terminal_key_encoding(key, protocol) == seq![((c as u32) - 96) as u8]
            &&& decoded_key(decode_utf8(terminal_key_encoding(key, protocol))) == Some(key)
        }),
{
    let b = CONTROL;
    assert(b & 4 != 4 && b & 2 == 2 && b & 1 != 1) by (bit_vector)
        requires
            b == 2,
    ;
    let u = (c as u32) - 96;
    let d = u as char;
    assert(d as u32 == u);
    let t = seq![d];
    assert(vstd::utf8::is_ascii_chars(t));
    assert(ascii_bytes(t) =~= seq![u as u8]);
    lemma_ascii_bytes_utf8(t);
    assert(decoded_kitty(t) is None);
    assert(decoded_modify_other_keys(t) is None);
    assert(decoded_legacy_special(t) is None);
    assert(((u + 96) as char) == c);
}

// ---------------------------------------------------------------------------
// Alt under the legacy protocol
// ---------------------------------------------------------------------------

/// The keys that the legacy encoder sends in an xterm `CSI` form when typed
/// with Shift, Alt or Control: the navigation keys and F1 to F12.
pub open spec fn has_xterm_modified_form(code: KeyCode) -> bool {
    match code {
        KeyCode::Up | KeyCode::Down | KeyCode::Left | KeyCode::Right | KeyCode::Home
        | KeyCode::End | KeyCode::PageUp | KeyCode::PageDown | KeyCode::Insert
        | KeyCode::Delete => true,
        KeyCode::F(n) => 1 <= n <= 12,
        _ => false,
    }
}

/// Law: under the legacy protocol, every key without an xterm modified form
/// (characters, Enter, Tab, Backspace, Escape, BackTab, F13 and up, and the
/// rest) typed with Alt is sent as ESC (0x1b) followed by exactly what the same
/// key without Alt sends. So Alt+Backspace is `[0x1b, 0x7f]`.
pub proof fn law_legacy_alt_is_esc_prefix(key: TerminalKey)
    requires
        key.modifiers.bits & ALT == ALT,
        !has_xterm_modified_form(key.code),
    ensures
        terminal_key_encoding(key, KeyboardProtocol::Legacy) == seq![0x1bu8]
            + terminal_key_encoding(
            TerminalKey { modifiers: KeyModifiers { bits: key.modifiers.bits & !ALT }, ..key },
            KeyboardProtocol::Legacy,
        ),
        key.code == KeyCode::Backspace && key.modifiers.bits == ALT ==> terminal_key_encoding(
            key,
            KeyboardProtocol::Legacy,
        ) == seq![0x1bu8, 0x7fu8],
{
    let b = key.modifiers.bits;
    assert((b & !4u8) & 4u8 != 4u8 && (b == 4u8 ==> b & !4u8 == 0u8)) by (bit_vector);
    let m2 = KeyModifiers { bits: b & !ALT };
    if b == ALT {
        lemma_empty_modifiers(m2);
    }
}

// ---------------------------------------------------------------------------
// Control with a non-letter under the kitty protocol
// ---------------------------------------------------------------------------

/// Law: under the kitty protocol, a character key typed with any modifier set
/// except Control alone on an ASCII letter is sent in `CSI u` form: ESC `[`,
/// the decimal base codepoint, then the `:shifted`, `;modifier` and `:event`
/// fields, and a final `u`. So Ctrl+1 is `ESC [ 49 ; 5 u`.
pub proof fn law_kitty_modified_char_is_csi_u(key: TerminalKey, c: char, flags: u16)
    requires
        key.code == KeyCode::Char(c),
        key.modifiers.bits != 0,
        !(key.modifiers.bits == CONTROL && (('a' <= c <= 'z') || ('A' <= c <= 'Z'))),
    ensures
        ({
            let b = terminal_key_encoding(key, KeyboardProtocol::Kitty { flags });
            &&& b.len() >= 5
            &&& b[0] == 0x1bu8
            &&& b[1] == 0x5bu8
            &&& b.last() == 0x75u8
            &&& b == ascii_bytes(
                csi_u_text(
                    canonical_char(c, key.modifiers) as nat,
                    alternate_shifted(key, flags),
                    kitty_modifier_value(key.modifiers),
                    event_suffix(key, flags),
                ),
            )
        }),
        c == '1' && key.modifiers.bits == CONTROL && flags == 1 ==> terminal_key_encoding(
            key,
            KeyboardProtocol::Kitty { flags },
        ) == seq![0x1bu8, 0x5b, 0x34, 0x39, 0x3b, 0x35, 0x75],
{
    let m = key.modifiers;
    let t = csi_u_text(
        canonical_char(c, m) as nat,
        alternate_shifted(key, flags),
        kitty_modifier_value(m),
        event_suffix(key, flags),
    );
    assert(!is_plain_ctrl_letter(key));
    assert(csi_u_text_of(key, flags) == Some(t));
    lemma_csi_u_shape(
        canonical_char(c, m) as nat,
        alternate_shifted(key, flags),
        kitty_modifier_value(m),
        event_suffix(key, flags),
    );
    lemma_decimal(canonical_char(c, m) as nat);
    lemma_decimal(kitty_modifier_value(m));
    assert(t.len() >= 5);
    let bytes = ascii_bytes(t);
    assert(bytes[0] == t[0] as u8);
    assert(bytes[1] == t[1] as u8);
    assert(bytes.last() == t.last() as u8);
    if c == '1' && m.bits == CONTROL && flags == 1 {
        let bb = m.bits;
        assert(bb & 1 != 1 && bb & 2 == 2 && bb & 4 != 4 && bb & 8 != 8 && bb & 16 != 16 && bb
            & 32 != 32) by (bit_vector)
            requires
                bb == 2,
        ;
        assert((1u16 & 4u16) == 0u16 && (1u16 & 2u16) == 0u16) by (bit_vector);
        assert(alternate_shifted(key, flags) is None);
        assert(event_suffix(key, flags) is None);
        assert(canonical_char(c, m) as nat == 49);
        assert(kitty_modifier_value(m) == 5);
        lemma_digit_char(4);
        lemma_digit_char(9);
        lemma_digit_char(5);
        assert(decimal(49) =~= seq!['4', '9']) by {
            lemma_decimal(4);
            assert(decimal(49) == decimal(4).push(digit_char(9)));
        }
        assert(decimal(5) =~= seq!['5']);
        assert(t =~= seq!['\x1b', '[', '4', '9', ';', '5', 'u']);
        assert(bytes =~= seq![0x1bu8, 0x5b, 0x34, 0x39, 0x3b, 0x35, 0x75]);
    }
}

// ---------------------------------------------------------------------------
// xterm modifyOtherKeys
// ---------------------------------------------------------------------------

/// `CSI 27 ; m ; cp ~`.
pub open spec fn modify_other_keys_text(m: nat, cp: nat) -> Seq<char> {
    seq!['\x1b', '[', '2', '7', ';'] + decimal(m) + seq![';'] + decimal(cp) + seq!['~']
}

/// `CSI 27 ; m ; cp ~` is no kitty sequence, and its `modifyOtherKeys`
/// reading is the key that `cp` names with the modifiers of `m - 1`.
proof fn lemma_modify_other_keys_field(m: nat, cp: u32)
    requires
        1 <= m <= 255,
    ensures
        decoded_kitty(modify_other_keys_text(m, cp as nat)) is None,
        decoded_modify_other_keys(modify_other_keys_text(m, cp as nat)) == match keycode_of_codepoint(cp) {
            Some(code) => Some(pressed(code, modifiers_from_bits((m - 1) as u8))),
            None => None,
        },
{
    let t = modify_other_keys_text(m, cp as nat);
    let dm = decimal(m);
    let dc = decimal(cp as nat);
    lemma_decimal(m);
    lemma_decimal(cp as nat);
    lemma_digits_lack(dm, ';');
    lemma_parse_decimal(m, 255);
    lemma_parse_decimal(cp as nat, u32::MAX as nat);
    let prefix = seq!['\x1b', '[', '2', '7', ';'];
    assert(t =~= prefix + (dm + seq![';'] + dc) + seq!['~']);
    assert(t.take(5) =~= prefix);
    let body = t.subrange(5, t.len() - 1);
    assert(body =~= dm + seq![';'] + dc);
    lemma_first_sep(dm, ';', dc);
    assert(t.last() == '~');
    assert(t.len() >= 6);
    assert(first_index_of(body, ';') == Some(dm.len() as int));
}

/// A text longer than any fixed legacy sequence is decoded by its xterm form only.
proof fn lemma_long_legacy(s: Seq<char>)
    requires
        s.len() > 4,
        s[0] == '\x1b',
    ensures
        decoded_legacy_special(s) == decoded_xterm_modified(s),
        decoded_legacy(s) == decoded_xterm_modified(s),
{
}

proof fn lemma_modify_other_keys_not_tilde(m: nat, cp: u32)
    ensures
        decoded_tilde_body(modify_other_keys_text(m, cp as nat).skip(2)) is None,
{
    let t = modify_other_keys_text(m, cp as nat);
    let dm = decimal(m);
    let dc = decimal(cp as nat);
    lemma_decimal(m);
    lemma_decimal(cp as nat);
    let rest = dm + seq![';'] + dc;
    let xb = t.skip(2);
    assert(xb =~= seq!['2', '7'] + seq![';'] + rest + seq!['~']);
    let tt = xb.drop_last();
    assert(tt =~= seq!['2', '7'] + seq![';'] + rest);
    lemma_first_sep(seq!['2', '7'], ';', rest);
    assert(tt.skip(3) == rest);
    assert(is_digit(rest[0]));
    assert(!is_digit(rest[dm.len() as int]));
    assert(parse_unsigned(rest, 255) is None);
}

proof fn lemma_modify_other_keys_not_legacy(m: nat, cp: u32)
    ensures
        decoded_legacy(modify_other_keys_text(m, cp as nat)) is None,
{
    let t = modify_other_keys_text(m, cp as nat);
    lemma_decimal(m);
    lemma_decimal(cp as nat);
    lemma_modify_other_keys_not_tilde(m, cp);
    assert(t.len() >= 8);
    assert(t[2] == '2' && t.skip(2)[0] == '2');
    assert(decoded_xterm_modified(t) is None);
    lemma_long_legacy(t);
}

proof fn lemma_decode_modify_other_keys(m: nat, cp: u32)
    requires
        1 <= m <= 255,
    ensures
        decoded_key(modify_other_keys_text(m, cp as nat)) == match keycode_of_codepoint(cp) {
            Some(code) => Some(pressed(code, modifiers_from_bits((m - 1) as u8))),
            None => None,
        },
{
    lemma_modify_other_keys_field(m, cp);
    lemma_modify_other_keys_not_legacy(m, cp);
}

/// Law: an xterm `modifyOtherKeys` sequence `CSI 27 ; m ; cp ~` with a
/// modifier field `m >= 1` decodes to a press with the modifiers that `m - 1`
/// names, of the key that `cp` names: 13 and 57414 Enter, 9 Tab, 8 and 127
/// Backspace, 27 Escape, 57417 to 57426 Left, Right, Up, Down, Page Up,
/// Page Down, Home, End, Insert, Delete, and any other Unicode scalar value
/// the character with that value.
pub proof fn law_modify_other_keys_key(m: nat, cp: u32)
    requires
        1 <= m <= 255,
    ensures
        ({
            let r = decoded_key(modify_other_keys_text(m, cp as nat));
            let mods = modifiers_from_bits((m - 1) as u8);
            &&& (cp == 13 || cp == 57414) ==> r == Some(pressed(KeyCode::Enter, mods))
            &&& cp == 9 ==> r == Some(pressed(KeyCode::Tab, mods))
            &&& (cp == 8 || cp == 127) ==> r == Some(pressed(KeyCode::Backspace, mods))
            &&& cp == 27 ==> r == Some(pressed(KeyCode::Esc, mods))
            &&& cp == 57417 ==> r == Some(pressed(KeyCode::Left, mods))
            &&& cp == 57418 ==> r == Some(pressed(KeyCode::Right, mods))
            &&& cp == 57419 ==> r == Some(pressed(KeyCode::Up, mods))
            &&& cp == 57420 ==> r == Some(pressed(KeyCode::Down, mods))
            &&& cp == 57421 ==> r == Some(pressed(KeyCode::PageUp, mods))
            &&& cp == 57422 ==> r == Some(pressed(KeyCode::PageDown, mods))
            &&& cp == 57423 ==> r == Some(pressed(KeyCode::Home, mods))
            &&& cp == 57424 ==> r == Some(pressed(KeyCode::End, mods))
            &&& cp == 57425 ==> r == Some(pressed(KeyCode::Insert, mods))
            &&& cp == 57426 ==> r == Some(pressed(KeyCode::Delete, mods))
            &&& !is_kitty_key_number(cp) && vstd::utf8::is_scalar(cp) ==> r == Some(
                pressed(KeyCode::Char(cp as char), mods),
            )
            &&& !vstd::utf8::is_scalar(cp) ==> r is None
        }),
{
    lemma_decode_modify_other_keys(m, cp);
}

// ---------------------------------------------------------------------------
// Signed decimal numbers
// ---------------------------------------------------------------------------

/// Law: `parse_i32` reads every `i32` from its decimal numeral, as
/// `str::parse::<i32>` does: a non-negative `n` from its digits and a negative
/// one from `-` and the digits of its magnitude, down to `i32::MIN`.
pub proof fn law_parse_i32_reads_decimal(n: int)
    requires
        i32::MIN <= n <= i32::MAX,
    ensures
        n >= 0 ==> parse_i32(decimal(n as nat)) == Some(n),
        n < 0 ==> parse_i32(seq!['-'] + decimal((-n) as nat)) == Some(n),
{
    if n >= 0 {
        lemma_decimal(n as nat);
        lemma_digit_char(if n < 10 { n as nat } else { 0 });
        let d = decimal(n as nat);
        assert(is_digit(d[0]));
    } else {
        let d = decimal((-n) as nat);
        lemma_decimal((-n) as nat);
        let s = seq!['-'] + d;
        assert(s.drop_first() =~= d);
    }
}

// ---------------------------------------------------------------------------
// `/proc/<pid>/stat`
// ---------------------------------------------------------------------------

/// A whitespace-separated field: non-empty, with no whitespace in it.
pub open spec fn is_field(f: Seq<char>) -> bool {
    f.len() > 0 && forall|i: int| 0 <= i < f.len() ==> !is_whitespace(#[trigger] f[i])
}

/// Text that may follow the last field read: nothing, or whitespace first.
pub open spec fn ends_field(rest: Seq<char>) -> bool {
    rest.len() == 0 || is_whitespace(rest[0])
}

/// A word of length `w` at `i` followed by the end or whitespace is field 0
/// there, and field `k + 1` there is field `k` after it.
proof fn lemma_field_word(s: Seq<char>, i: int, w: int, k: nat)
    requires
        0 <= i,
        w >= 1,
        i + w <= s.len(),
        forall|j: int| i <= j < i + w ==> !is_whitespace(#[trigger] s[j]),
        i + w == s.len() || is_whitespace(s[i + w]),
    ensures
        k == 0 ==> field_at(s, i, k) == Some((i, i + w)),
        k > 0 ==> field_at(s, i, k) == field_at(s, i + w, (k - 1) as nat),
{
    assert(skip_whitespace(s, i) == i);
    lemma_skip_word_run(s, i, w);
}

proof fn lemma_skip_word_run(s: Seq<char>, i: int, w: int)
    requires
        0 <= i,
        w >= 0,
        i + w <= s.len(),
        forall|j: int| i <= j < i + w ==> !is_whitespace(#[trigger] s[j]),
        i + w == s.len() || is_whitespace(s[i + w]),
    ensures
        skip_word(s, i) == i + w,
    decreases w,
{
    if w > 0 {
        assert(!is_whitespace(s[i]));
        lemma_skip_word_run(s, i + 1, w - 1);
    }
}

/// A single whitespace character before position `i + 1` does not change
/// which field comes next.
proof fn lemma_field_space(s: Seq<char>, i: int, k: nat)
    requires
        0 <= i < s.len(),
        is_whitespace(s[i]),
    ensures
        field_at(s, i, k) == field_at(s, i + 1, k),
{
    assert(skip_whitespace(s, i) == skip_whitespace(s, i + 1));
}

/// `f0 f1 f2 ... ` joined by single spaces, then `rest`.
pub open spec fn spaced3(f0: Seq<char>, f1: Seq<char>, f2: Seq<char>, rest: Seq<char>) -> Seq<
    char,
> {
    f0 + seq![' '] + f1 + seq![' '] + f2 + rest
}

/// In `f0 f1 f2rest`, fields 0, 1 and 2 are `f0`, `f1` and `f2`, and field
/// `3 + k` is field `k` of `rest`.
proof fn lemma_spaced3_fields(f0: Seq<char>, f1: Seq<char>, f2: Seq<char>, rest: Seq<char>, k: nat)
    requires
        is_field(f0),
        is_field(f1),
        is_field(f2),
        ends_field(rest),
    ensures
        field(spaced3(f0, f1, f2, rest), 2) == Some(f2),
        field(spaced3(f0, f1, f2, rest), k + 3) == field(rest, k),
{
    let s = spaced3(f0, f1, f2, rest);
    let i1 = f0.len() as int;
    let j1 = i1 + 1;
    let i2 = j1 + f1.len();
    let j2 = i2 + 1;
    let i3 = j2 + f2.len();
    assert(forall|j: int| 0 <= j < i1 ==> s[j] == f0[j]);
    assert(s[i1] == ' ');
    assert(forall|j: int| j1 <= j < i2 ==> s[j] == f1[j - j1]);
    assert(s[i2] == ' ');
    assert(forall|j: int| j2 <= j < i3 ==> s[j] == f2[j - j2]);
    assert(s.skip(i3) =~= rest);
    assert forall|j: int| 0 <= j < i1 implies !is_whitespace(#[trigger] s[j]) by {
        assert(!is_whitespace(f0[j]));
    }
    assert forall|j: int| j1 <= j < i2 implies !is_whitespace(#[trigger] s[j]) by {
        assert(!is_whitespace(f1[j - j1]));
    }
    assert forall|j: int| j2 <= j < i3 implies !is_whitespace(#[trigger] s[j]) by {
        assert(!is_whitespace(f2[j - j2]));
    }
    if rest.len() > 0 {
        assert(s[i3] == rest[0]);
    }
    lemma_field_word(s, 0, i1, 2);
    lemma_field_space(s, i1, 1);
    lemma_field_word(s, j1, i2 - j1, 1);
    lemma_field_space(s, i2, 0);
    lemma_field_word(s, j2, i3 - j2, 0);
    assert(s.subrange(j2, i3) =~= f2);
    lemma_field_word(s, 0, i1, k + 3);
    lemma_field_space(s, i1, k + 2);
    lemma_field_word(s, j1, i2 - j1, k + 2);
    lemma_field_space(s, i2, k + 1);
    lemma_field_word(s, j2, i3 - j2, k + 1);
    lemma_field_at_shift(s, i3, k);
}

/// Fields read from position `i` of `s` are the fields of `s.skip(i)`, moved by `i`.
proof fn lemma_field_at_shift(s: Seq<char>, i: int, k: nat)
    requires
        0 <= i <= s.len(),
    ensures
        match field_at(s, i, k) {
            Some((a, b)) => field(s.skip(i), k) == Some(s.subrange(a, b)),
            None => field(s.skip(i), k) is None,
        },
{
    lemma_field_at_shift_from(s, i, 0, k);
    lemma_field_at_bounds(s, i, k);
    match field_at(s, i, k) {
        Some((a, b)) => {
            let t = s.skip(i);
            match field_at(t, 0, k) {
                Some((a2, b2)) => {
                    assert(t.subrange(a2, b2) =~= s.subrange(a, b));
                },
                None => {},
            }
        },
        None => {},
    }
}

/// A field found at or after `i` lies between `i` and the end.
proof fn lemma_field_at_bounds(s: Seq<char>, i: int, k: nat)
    ensures
        match field_at(s, i, k) {
            Some((a, b)) => 0 <= i <= a <= b <= s.len(),
            None => true,
        },
    decreases s.len() - i, k,
{
    if 0 <= i <= s.len() {
        lemma_skips(s, i);
        let a = skip_whitespace(s, i);
        if a < s.len() {
            lemma_skips(s, a);
            if k > 0 {
                lemma_field_at_bounds(s, skip_word(s, a), (k - 1) as nat);
            }
        }
    }
}

proof fn lemma_field_at_shift_from(s: Seq<char>, i: int, j: int, k: nat)
    requires
        0 <= i <= s.len(),
        0 <= j <= s.len() - i,
    ensures
        match field_at(s, i + j, k) {
            Some((a, b)) => match field_at(s.skip(i), j, k) {
                Some((a2, b2)) => a == a2 + i && b == b2 + i,
                None => false,
            },
            None => field_at(s.skip(i), j, k) is None,
        },
    decreases s.len() - i - j, k,
{
    let t = s.skip(i);
    lemma_skip_shift(s, i, j);
    lemma_skips(s, i + j);
    lemma_skips(t, j);
    let a = skip_whitespace(t, j);
    if a < t.len() {
        lemma_skip_shift(s, i, a);
        lemma_skips(t, a);
        if k > 0 {
            let b = skip_word(t, a);
            lemma_field_at_shift_from(s, i, b, (k - 1) as nat);
        }
    }
}

proof fn lemma_skip_shift(s: Seq<char>, i: int, j: int)
    requires
        0 <= i <= s.len(),
        0 <= j <= s.len() - i,
    ensures
        skip_whitespace(s, i + j) == skip_whitespace(s.skip(i), j) + i,
        skip_word(s, i + j) == skip_word(s.skip(i), j) + i,
    decreases s.len() - i - j,
{
    if j < s.len() - i {
        assert(s.skip(i)[j] == s[i + j]);
        lemma_skip_shift(s, i, j + 1);
    }
}

/// A `stat` line: `pid (comm) f0 f1 f2rest`, where `pid` holds no parenthesis
/// and `comm` no `)`.
pub open spec fn stat_line(
    pid: Seq<char>,
    comm: Seq<char>,
    f0: Seq<char>,
    f1: Seq<char>,
    f2: Seq<char>,
    rest: Seq<char>,
) -> Seq<char> {
    pid + seq!['('] + comm + seq![')', ' '] + spaced3(f0, f1, f2, rest)
}

/// The precondition of the `stat` laws.
pub open spec fn stat_line_shape(
    pid: Seq<char>,
    comm: Seq<char>,
    f0: Seq<char>,
    f1: Seq<char>,
    f2: Seq<char>,
    rest: Seq<char>,
) -> bool {
    &&& forall|j: int| 0 <= j < pid.len() ==> pid[j] != '(' && pid[j] != ')'
    &&& forall|j: int| 0 <= j < comm.len() ==> comm[j] != ')'
    &&& forall|j: int| 0 <= j < f0.len() ==> f0[j] != ')'
    &&& forall|j: int| 0 <= j < f1.len() ==> f1[j] != ')'
    &&& forall|j: int| 0 <= j < f2.len() ==> f2[j] != ')'
    &&& forall|j: int| 0 <= j < rest.len() ==> rest[j] != ')'
    &&& is_field(f0)
    &&& is_field(f1)
    &&& is_field(f2)
    &&& ends_field(rest)
}

/// No `)` in `f0 f1 f2rest` when none is in its parts.
proof fn lemma_spaced3_no_close(f0: Seq<char>, f1: Seq<char>, f2: Seq<char>, rest: Seq<char>)
    requires
        forall|j: int| 0 <= j < f0.len() ==> f0[j] != ')',
        forall|j: int| 0 <= j < f1.len() ==> f1[j] != ')',
        forall|j: int| 0 <= j < f2.len() ==> f2[j] != ')',
        forall|j: int| 0 <= j < rest.len() ==> rest[j] != ')',
    ensures
        forall|j: int|
            0 <= j < (seq![' '] + spaced3(f0, f1, f2, rest)).len() ==> (seq![' '] + spaced3(
                f0,
                f1,
                f2,
                rest,
            ))[j] != ')',
{
    let x = spaced3(f0, f1, f2, rest);
    assert forall|j: int| 0 <= j < x.len() implies x[j] != ')' by {
        if j < f0.len() {
            assert(x[j] == f0[j]);
        } else if j < f0.len() + 1 {
        } else if j < f0.len() + 1 + f1.len() {
            assert(x[j] == f1[j - f0.len() - 1]);
        } else if j < f0.len() + 2 + f1.len() {
        } else if j < f0.len() + 2 + f1.len() + f2.len() {
            assert(x[j] == f2[j - f0.len() - 2 - f1.len()]);
        } else {
            assert(x[j] == rest[j - f0.len() - 2 - f1.len() - f2.len()]);
        }
    }
    let tail = seq![' '] + x;
    assert forall|j: int| 0 <= j < tail.len() implies tail[j] != ')' by {
        if j > 0 {
            assert(tail[j] == x[j - 1]);
        }
    }
}

/// The command name of `pid (comm)tail` is `comm`, and the fields text is
/// `tail` without its first character, when `tail` starts with a space and
/// holds no `)`.
proof fn lemma_stat_split(pid: Seq<char>, comm: Seq<char>, tail: Seq<char>)
    requires
        forall|j: int| 0 <= j < pid.len() ==> pid[j] != '(' && pid[j] != ')',
        forall|j: int| 0 <= j < comm.len() ==> comm[j] != ')',
        forall|j: int| 0 <= j < tail.len() ==> tail[j] != ')',
        tail.len() > 0,
        tail[0] == ' ',
    ensures
        stat_comm(pid + seq!['('] + comm + seq![')'] + tail) == Some(comm),
        stat_fields_text(pid + seq!['('] + comm + seq![')'] + tail) == Some(tail.drop_first()),
{
    let head = pid + seq!['('] + comm;
    let s = head + seq![')'] + tail;
    lemma_last_sep(head, ')', tail);
    let c = head.len() as int;
    assert(s[c + 1] == ' ');
    assert(s.skip(c + 2) =~= tail.drop_first());
    let after = comm + seq![')'] + tail;
    assert(s =~= pid + seq!['('] + after);
    lemma_first_sep(pid, '(', after);
    assert(s.subrange(pid.len() as int + 1, c) =~= comm);
}

proof fn lemma_stat_line_parts(
    pid: Seq<char>,
    comm: Seq<char>,
    f0: Seq<char>,
    f1: Seq<char>,
    f2: Seq<char>,
    rest: Seq<char>,
)
    requires
        stat_line_shape(pid, comm, f0, f1, f2, rest),
    ensures
        stat_comm(stat_line(pid, comm, f0, f1, f2, rest)) == Some(comm),
        stat_fields_text(stat_line(pid, comm, f0, f1, f2, rest)) == Some(
            spaced3(f0, f1, f2, rest),
        ),
{
    let x = spaced3(f0, f1, f2, rest);
    let tail = seq![' '] + x;
    lemma_spaced3_no_close(f0, f1, f2, rest);
    assert(stat_line(pid, comm, f0, f1, f2, rest) =~= pid + seq!['('] + comm + seq![')'] + tail);
    lemma_stat_split(pid, comm, tail);
    assert(tail.drop_first() =~= x);
}

/// Law: in a `stat` line `pid (comm) state ppid pgrp ...`, the process group
/// read is the third field after the command name (`pgrp`, after `state` and
/// `ppid`), parsed as an `i32`, and the command name is the text inside the
/// parentheses.
pub proof fn law_stat_pgrp_is_third_field(
    pid: Seq<char>,
    comm: Seq<char>,
    state: Seq<char>,
    ppid: Seq<char>,
    pgrp: Seq<char>,
    rest: Seq<char>,
)
    requires
        stat_line_shape(pid, comm, state, ppid, pgrp, rest),
    ensures
        stat_pgrp_and_comm(stat_line(pid, comm, state, ppid, pgrp, rest)) == match parse_i32(pgrp) {
            Some(g) => Some((g, comm)),
            None => None,
        },
{
    lemma_stat_line_parts(pid, comm, state, ppid, pgrp, rest);
    lemma_spaced3_fields(state, ppid, pgrp, rest, 0);
}

/// Law: in a `stat` line `pid (comm) state ppid pgrp session tty_nr tpgid ...`
/// whose `tpgid` field is the decimal numeral of a positive `i32` `n`, the
/// foreground process group read is `n`.
pub proof fn law_stat_foreground_pgid_is_sixth_field(
    pid: Seq<char>,
    comm: Seq<char>,
    state: Seq<char>,
    ppid: Seq<char>,
    pgrp: Seq<char>,
    session: Seq<char>,
    tty_nr: Seq<char>,
    n: int,
    rest: Seq<char>,
)
    requires
        stat_line_shape(
            pid,
            comm,
            state,
            ppid,
            pgrp,
            seq![' '] + spaced3(session, tty_nr, decimal(n as nat), rest),
        ),
        is_field(session),
        is_field(tty_nr),
        ends_field(rest),
        1 <= n <= i32::MAX,
    ensures
        stat_foreground_pgid(
            stat_line(
                pid,
                comm,
                state,
                ppid,
                pgrp,
                seq![' '] + spaced3(session, tty_nr, decimal(n as nat), rest),
            ),
        ) == Some(n),
{
    let more = spaced3(session, tty_nr, decimal(n as nat), rest);
    let tail = seq![' '] + more;
    lemma_decimal(n as nat);
    assert(is_field(decimal(n as nat))) by {
        assert forall|i: int| 0 <= i < decimal(n as nat).len() implies !is_whitespace(
            #[trigger] decimal(n as nat)[i],
        ) by {
            assert(is_digit(decimal(n as nat)[i]));
        }
    }
    lemma_stat_line_parts(pid, comm, state, ppid, pgrp, tail);
    lemma_spaced3_fields(state, ppid, pgrp, tail, 2);
    // Field 2 of ` more` is field 2 of `more`.
    lemma_field_space(tail, 0, 2);
    lemma_field_at_shift(tail, 1, 2);
    assert(tail.skip(1) =~= more);
    lemma_spaced3_fields(session, tty_nr, decimal(n as nat), rest, 0);
    assert(field(tail, 2) == field(more, 2)) by {
        assert(field_at(tail, 0, 2) == field_at(tail, 1, 2));
        match field_at(more, 0, 2) {
            Some((a, b)) => {},
            None => {},
        }
    }
    law_parse_i32_reads_decimal(n);
}

} // verus!
