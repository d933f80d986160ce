//! Keys: what a keystroke means to the game, and how raw input bytes are
//! read as keys.

use vstd::prelude::*;

verus! {

/// A decoded keystroke.
#[derive(Clone, Copy, Debug, PartialEq, Eq, Structural)]
pub enum Key {
    Up,
    Down,
    Left,
    Right,
    Space,
    CtrlC,
    Char(char),
}

/// What the first byte of a keystroke amounts to.
#[derive(Clone, Copy, Debug, PartialEq, Eq, Structural)]
pub enum Decoded {
    /// The byte is a whole keystroke.
    Key(Key),
    /// The byte starts an escape sequence: two more bytes follow.
    Escape,
    /// The byte is no keystroke.
    Nothing,
}

/// The byte of the letter `w`.
pub const LOWER_W: u8 = 0x77;

/// The byte of the letter `a`.
pub const LOWER_A: u8 = 0x61;

/// The byte of the letter `s`.
pub const LOWER_S: u8 = 0x73;

/// The byte of the letter `d`.
pub const LOWER_D: u8 = 0x64;

/// The byte of the space.
pub const BLANK: u8 = 0x20;

/// The byte of the opening square bracket.
pub const BRACKET: u8 = 0x5b;

/// The byte that ends the escape sequence of the up arrow: the letter `A`.
pub const ARROW_UP: u8 = 0x41;

/// The byte that ends the escape sequence of the down arrow: the letter `B`.
pub const ARROW_DOWN: u8 = 0x42;

/// The byte that ends the escape sequence of the right arrow: the letter `C`.
pub const ARROW_RIGHT: u8 = 0x43;

/// The byte that ends the escape sequence of the left arrow: the letter `D`.
pub const ARROW_LEFT: u8 = 0x44;

/// The byte that starts an escape sequence.
pub const ESCAPE: u8 = 0x1b;

/// The byte that an interrupt from the keyboard sends.
pub const INTERRUPT: u8 = 0x03;

/// The meaning of the first byte of a keystroke: `w`, `a`, `s`, `d` are the
/// four directions, then space, the interrupt and the start of an escape
/// sequence; any other ASCII byte is the character itself, and a byte that is
/// not ASCII is nothing.
pub open spec fn decoded(byte: u8) -> Decoded {
    if byte == LOWER_W {
        Decoded::Key(Key::Up)
    } else if byte == LOWER_A {
        Decoded::Key(Key::Left)
    } else if byte == LOWER_S {
        Decoded::Key(Key::Down)
    } else if byte == LOWER_D {
        Decoded::Key(Key::Right)
    } else if byte == BLANK {
        Decoded::Key(Key::Space)
    } else if byte == INTERRUPT {
        Decoded::Key(Key::CtrlC)
    } else if byte == ESCAPE {
        Decoded::Escape
    } else if byte < 0x80 {
        Decoded::Key(Key::Char(byte as char))
    } else {
        Decoded::Nothing
    }
}

/// The meaning of the two bytes that follow the start of an escape
/// sequence: `[A`, `[B`, `[C`, `[D` are up, down, right and left.
pub open spec fn decoded_escape(first: u8, second: u8) -> Option<Key> {
    if first != BRACKET {
        None
    } else if second == ARROW_UP {
        Some(Key::Up)
    } else if second == ARROW_DOWN {
        Some(Key::Down)
    } else if second == ARROW_RIGHT {
        Some(Key::Right)
    } else if second == ARROW_LEFT {
        Some(Key::Left)
    } else {
        None
    }
}

/// Reads the first byte of a keystroke.
pub fn decode_byte(byte: u8) -> (d: Decoded)
    ensures
        d == decoded(byte),
{
    if byte == LOWER_W {
        Decoded::Key(Key::Up)
    } else if byte == LOWER_A {
        Decoded::Key(Key::Left)
    } else if byte == LOWER_S {
        Decoded::Key(Key::Down)
    } else if byte == LOWER_D {
        Decoded::Key(Key::Right)
    } else if byte == BLANK {
        Decoded::Key(Key::Space)
    } else if byte == INTERRUPT {
        Decoded::Key(Key::CtrlC)
    } else if byte == ESCAPE {
        Decoded::Escape
    } else if byte < 0x80 {
        Decoded::Key(Key::Char(byte as char))
    } else {
        Decoded::Nothing
    }
}

/// Reads the two bytes that follow the start of an escape sequence.
pub fn decode_escape(first: u8, second: u8) -> (k: Option<Key>)
    ensures
        k == decoded_escape(first, second),
{
    if first != BRACKET {
        None
    } else if second == ARROW_UP {
        Some(Key::Up)
    } else if second == ARROW_DOWN {
        Some(Key::Down)
    } else if second == ARROW_RIGHT {
        Some(Key::Right)
    } else if second == ARROW_LEFT {
        Some(Key::Left)
    } else {
        None
    }
}

} // verus!
