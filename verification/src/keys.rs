//! The values that the key encoder and decoder work on: key codes, modifier
//! sets, key events, and the keyboard protocol a pane has negotiated.
use vstd::prelude::*;

verus! {

/// The bit of the Shift modifier.
pub const SHIFT: u8 = 0b0000_0001;

/// The bit of the Control modifier.
pub const CONTROL: u8 = 0b0000_0010;

/// The bit of the Alt modifier.
pub const ALT: u8 = 0b0000_0100;

/// The bit of the Super modifier.
pub const SUPER: u8 = 0b0000_1000;

/// The bit of the Hyper modifier.
pub const HYPER: u8 = 0b0001_0000;

/// The bit of the Meta modifier.
pub const META: u8 = 0b0010_0000;

/// A set of keyboard modifiers, held as the bits that name them (the layout of
/// crossterm's `KeyModifiers`).
#[derive(Clone, Copy, Debug, PartialEq, Eq, Structural)]
pub struct KeyModifiers {
    pub bits: u8,
}

impl KeyModifiers {
    /// Every bit of `flag` is set.
    pub open spec fn has(self, flag: u8) -> bool {
        self.bits & flag == flag
    }

    /// Only the six named modifiers may be set.
    pub open spec fn is_known(self) -> bool {
        self.bits < 64
    }

    pub fn empty() -> (m: KeyModifiers)
        ensures
            m.bits == 0,
    {
        KeyModifiers { bits: 0 }
    }

    pub fn none() -> (m: KeyModifiers)
        ensures
            m.bits == 0,
    {
        KeyModifiers { bits: 0 }
    }

    pub fn shift() -> (m: KeyModifiers)
        ensures
            m.bits == SHIFT,
    {
        KeyModifiers { bits: SHIFT }
    }

    pub fn control() -> (m: KeyModifiers)
        ensures
            m.bits == CONTROL,
    {
        KeyModifiers { bits: CONTROL }
    }

    pub fn alt() -> (m: KeyModifiers)
        ensures
            m.bits == ALT,
    {
        KeyModifiers { bits: ALT }
    }

    pub fn super_key() -> (m: KeyModifiers)
        ensures
            m.bits == SUPER,
    {
        KeyModifiers { bits: SUPER }
    }

    pub fn hyper() -> (m: KeyModifiers)
        ensures
            m.bits == HYPER,
    {
        KeyModifiers { bits: HYPER }
    }

    pub fn meta() -> (m: KeyModifiers)
        ensures
            m.bits == META,
    {
        KeyModifiers { bits: META }
    }

    /// The set with exactly the given bits, known or not.
    pub fn from_bits_retain(bits: u8) -> (m: KeyModifiers)
        ensures
            m.bits == bits,
    {
        KeyModifiers { bits }
    }

    pub fn bits(self) -> (b: u8)
        ensures
            b == self.bits,
    {
        self.bits
    }

    /// The modifiers in either set.
    pub fn union(self, other: KeyModifiers) -> (m: KeyModifiers)
        ensures
            m.bits == self.bits | other.bits,
    {
        KeyModifiers { bits: self.bits | other.bits }
    }

    /// The modifiers of `self` that are not in `other`.
    pub fn difference(self, other: KeyModifiers) -> (m: KeyModifiers)
        ensures
            m.bits == self.bits & !other.bits,
    {
        KeyModifiers { bits: self.bits & !other.bits }
    }

    /// Every modifier of `other` is in `self`.
    pub fn contains(self, other: KeyModifiers) -> (b: bool)
        ensures
            b == self.has(other.bits),
    {
        self.bits & other.bits == other.bits
    }

    pub fn is_empty(self) -> (b: bool)
        ensures
            b == (self.bits == 0),
    {
        self.bits == 0
    }
}

/// A key, as crossterm's `KeyCode` names it. The media and modifier keys carry
/// the position of their crossterm variant.
#[derive(Clone, Copy, Debug, PartialEq, Eq, Structural)]
pub enum KeyCode {
    Backspace,
    Enter,
    Left,
    Right,
    Up,
    Down,
    Home,
    End,
    PageUp,
    PageDown,
    Tab,
    BackTab,
    Delete,
    Insert,
    F(u8),
    Char(char),
    Null,
    Esc,
    CapsLock,
    ScrollLock,
    NumLock,
    PrintScreen,
    Pause,
    Menu,
    KeypadBegin,
    Media(u8),
    Modifier(u8),
}

/// Whether a key went down, repeats, or went up.
#[derive(Clone, Copy, Debug, PartialEq, Eq, Structural)]
pub enum KeyEventKind {
    Press,
    Repeat,
    Release,
}

/// A key event as a terminal front end reports it.
#[derive(Clone, Copy, Debug, PartialEq, Eq, Structural)]
pub struct KeyEvent {
    pub code: KeyCode,
    pub modifiers: KeyModifiers,
    pub kind: KeyEventKind,
}

impl KeyEvent {
    /// A key press.
    pub fn new(code: KeyCode, modifiers: KeyModifiers) -> (e: KeyEvent)
        ensures
            e == (KeyEvent { code, modifiers, kind: KeyEventKind::Press }),
    {
        KeyEvent { code, modifiers, kind: KeyEventKind::Press }
    }

    pub fn new_with_kind(code: KeyCode, modifiers: KeyModifiers, kind: KeyEventKind) -> (e:
        KeyEvent)
        ensures
            e == (KeyEvent { code, modifiers, kind }),
    {
        KeyEvent { code, modifiers, kind }
    }
}

/// A key together with what the kitty protocol can say of it: the event kind
/// and the codepoint that the key gives when shifted.
#[derive(Clone, Copy, Debug, PartialEq, Eq, Structural)]
pub struct TerminalKey {
    pub code: KeyCode,
    pub modifiers: KeyModifiers,
    pub kind: KeyEventKind,
    pub shifted_codepoint: Option<u32>,
}

/// A pressed key with no shifted codepoint.
pub open spec fn pressed(code: KeyCode, modifiers: KeyModifiers) -> TerminalKey {
    TerminalKey { code, modifiers, kind: KeyEventKind::Press, shifted_codepoint: None }
}

impl TerminalKey {
    pub fn new(code: KeyCode, modifiers: KeyModifiers) -> (k: TerminalKey)
        ensures
            k == pressed(code, modifiers),
    {
        TerminalKey { code, modifiers, kind: KeyEventKind::Press, shifted_codepoint: None }
    }

    pub fn with_kind(self, kind: KeyEventKind) -> (k: TerminalKey)
        ensures
            k == (TerminalKey { kind, ..self }),
    {
        let mut k = self;
        k.kind = kind;
        k
    }

    pub fn with_shifted_codepoint(self, shifted_codepoint: u32) -> (k: TerminalKey)
        ensures
            k == (TerminalKey { shifted_codepoint: Some(shifted_codepoint), ..self }),
    {
        let mut k = self;
        k.shifted_codepoint = Some(shifted_codepoint);
        k
    }

    /// The key event of this key; the shifted codepoint is dropped.
    pub open spec fn event(self) -> KeyEvent {
        KeyEvent { code: self.code, modifiers: self.modifiers, kind: self.kind }
    }

    pub fn as_key_event(self) -> (e: KeyEvent)
        ensures
            e == self.event(),
    {
        KeyEvent { code: self.code, modifiers: self.modifiers, kind: self.kind }
    }
}

/// The terminal key of a key event: same key, modifiers and kind, no shifted codepoint.
pub open spec fn terminal_key_of_event(e: KeyEvent) -> TerminalKey {
    TerminalKey { code: e.code, modifiers: e.modifiers, kind: e.kind, shifted_codepoint: None }
}

impl From<KeyEvent> for TerminalKey {
    fn from(value: KeyEvent) -> (k: TerminalKey) {
        TerminalKey::new(value.code, value.modifiers).with_kind(value.kind)
    }
}

impl vstd::std_specs::convert::FromSpecImpl<KeyEvent> for TerminalKey {
    open spec fn obeys_from_spec() -> bool {
        true
    }

    open spec fn from_spec(value: KeyEvent) -> TerminalKey {
        terminal_key_of_event(value)
    }
}

/// The keyboard protocol that a pane's child has asked for.
#[derive(Clone, Copy, Debug, PartialEq, Eq, Structural)]
pub enum KeyboardProtocol {
    Legacy,
    Kitty { flags: u16 },
}

impl KeyboardProtocol {
    /// Legacy when no kitty enhancement flag is set, kitty with the flags otherwise.
    pub fn from_kitty_flags(flags: u16) -> (p: KeyboardProtocol)
        ensures
            p == (if flags == 0 {
                KeyboardProtocol::Legacy
            } else {
                KeyboardProtocol::Kitty { flags }
            }),
    {
        if flags == 0 {
            KeyboardProtocol::Legacy
        } else {
            KeyboardProtocol::Kitty { flags }
        }
    }
}

} // verus!
