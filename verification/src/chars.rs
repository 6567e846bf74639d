//! Byte classes of the configuration text format.
//!
//! The format is UTF-8 text whose syntax is made of ASCII bytes only, so the
//! grammar is stated over bytes: no byte of a multi-byte character is ever
//! mistaken for a delimiter.

use vstd::prelude::*;

verus! {

/// Line feed, the terminator of a physical line.
pub const NEWLINE: u8 = 0x0A;

/// `#`, the start of a comment.
pub const HASH: u8 = 0x23;

/// `=`, which parts a key from its value.
pub const EQUALS: u8 = 0x3D;

/// `'`, which encloses a literal value.
pub const SINGLE_QUOTE: u8 = 0x27;

/// `"`, which encloses an escaped and interpolated value.
pub const DOUBLE_QUOTE: u8 = 0x22;

/// `\`, the escape byte.
pub const BACKSLASH: u8 = 0x5C;

/// `$`, the start of a variable reference.
pub const DOLLAR: u8 = 0x24;

/// `{`, which opens the braced form of a reference.
pub const OPEN_BRACE: u8 = 0x7B;

/// `}`, which closes the braced form of a reference.
pub const CLOSE_BRACE: u8 = 0x7D;

/// A class of bytes that a scan can run over.
#[derive(Clone, Copy, Debug, PartialEq, Eq, Structural)]
pub enum ByteClass {
    /// White space inside a line.
    Blank,
    /// Bytes of keys and variable names.
    Ident,
    /// Every byte but the line feed.
    Text,
}

/// Whether `b` is white space inside a line: space, tab, carriage return,
/// vertical tab or form feed. The line feed is no blank: it ends the line.
pub open spec fn is_blank(b: u8) -> bool {
    b == 0x20 || b == 0x09 || b == 0x0D || b == 0x0B || b == 0x0C
}

/// Whether `b` may stand in a key or a variable name: an ASCII letter, an
/// ASCII digit or the underscore.
pub open spec fn is_ident(b: u8) -> bool {
    (0x41 <= b <= 0x5A) || (0x61 <= b <= 0x7A) || (0x30 <= b <= 0x39) || b == 0x5F
}

impl ByteClass {
    /// Whether `b` belongs to the class.
    pub open spec fn has(self, b: u8) -> bool {
        match self {
            ByteClass::Blank => is_blank(b),
            ByteClass::Ident => is_ident(b),
            ByteClass::Text => b != NEWLINE,
        }
    }

    /// Tells whether `b` belongs to the class.
    pub fn contains(self, b: u8) -> (r: bool)
        ensures
            r == self.has(b),
    {
        match self {
            ByteClass::Blank => b == 0x20 || b == 0x09 || b == 0x0D || b == 0x0B || b == 0x0C,
            ByteClass::Ident => (0x41 <= b && b <= 0x5A) || (0x61 <= b && b <= 0x7A) || (0x30 <= b
                && b <= 0x39) || b == 0x5F,
            ByteClass::Text => b != NEWLINE,
        }
    }
}

} // verus!
