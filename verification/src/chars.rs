//! Character classes of the markup.
//!
//! Every class is a spec predicate on `char`; [`CharClass`] names the classes so that one
//! scanning routine serves them all.

use vstd::prelude::*;

verus! {

/// A space or a horizontal tab: what may pad the inside of a line.
pub open spec fn is_blank(c: char) -> bool {
    c == ' ' || c == '\t'
}

/// A blank, a carriage return or a line feed: what may separate two scenes or two items.
pub open spec fn is_space(c: char) -> bool {
    c == ' ' || c == '\t' || c == '\r' || c == '\n'
}

/// A carriage return or a line feed. No inline text holds one.
pub open spec fn is_line_break(c: char) -> bool {
    c == '\r' || c == '\n'
}

/// An ASCII letter or an ASCII digit: what a metadata key or an action tag is made of.
pub open spec fn is_identifier_char(c: char) -> bool {
    ('a' <= c && c <= 'z') || ('A' <= c && c <= 'Z') || ('0' <= c && c <= '9')
}

/// Any character that plain inline text may hold: all but line breaks, `=`, `[` and `]`.
pub open spec fn is_text_char(c: char) -> bool {
    !is_line_break(c) && c != '=' && c != '[' && c != ']'
}

/// Any character that a referent or an alias may hold: a text character other than `|`.
pub open spec fn is_reference_char(c: char) -> bool {
    is_text_char(c) && c != '|'
}

/// Any character that a scene's name may hold: all but line breaks.
pub open spec fn is_name_char(c: char) -> bool {
    !is_line_break(c)
}

/// The characters with the Unicode property `White_Space`.
pub open spec fn is_whitespace(c: char) -> bool {
    let n = c as u32;
    (0x09 <= n && n <= 0x0D) || n == 0x20 || n == 0x85 || n == 0xA0 || n == 0x1680 || (0x2000 <= n
        && n <= 0x200A) || n == 0x2028 || n == 0x2029 || n == 0x202F || n == 0x205F || n == 0x3000
}

/// Decides [`is_whitespace`].
pub fn whitespace(c: char) -> (r: bool)
    ensures
        r == is_whitespace(c),
{
    let n: u32 = c as u32;
    (0x09 <= n && n <= 0x0D) || n == 0x20 || n == 0x85 || n == 0xA0 || n == 0x1680 || (0x2000 <= n
        && n <= 0x200A) || n == 0x2028 || n == 0x2029 || n == 0x202F || n == 0x205F || n == 0x3000
}

/// The classes of characters that the grammar scans runs of.
#[derive(Debug, PartialEq, Eq, Clone, Copy)]
pub enum CharClass {
    Blank,
    Space,
    Identifier,
    Text,
    Reference,
    Name,
}

impl CharClass {
    /// Whether `c` belongs to the class.
    pub open spec fn holds(self, c: char) -> bool {
        match self {
            CharClass::Blank => is_blank(c),
            CharClass::Space => is_space(c),
            CharClass::Identifier => is_identifier_char(c),
            CharClass::Text => is_text_char(c),
            CharClass::Reference => is_reference_char(c),
            CharClass::Name => is_name_char(c),
        }
    }

    /// Decides [`CharClass::holds`].
    pub fn contains(self, c: char) -> (r: bool)
        ensures
            r == self.holds(c),
    {
        let line_break = c == '\r' || c == '\n';
        match self {
            CharClass::Blank => c == ' ' || c == '\t',
            CharClass::Space => c == ' ' || c == '\t' || line_break,
            CharClass::Identifier => ('a' <= c && c <= 'z') || ('A' <= c && c <= 'Z') || ('0' <= c
                && c <= '9'),
            CharClass::Text => !line_break && c != '=' && c != '[' && c != ']',
            CharClass::Reference => !line_break && c != '=' && c != '[' && c != ']' && c != '|',
            CharClass::Name => !line_break,
        }
    }
}

} // verus!
