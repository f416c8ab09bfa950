//! Terminal colours as ANSI escape sequences.
use vstd::prelude::*;

verus! {

/// A terminal colour.
#[derive(Debug, Clone, Copy, PartialEq, Eq, Structural)]
pub enum Color {
    Black,
    Red,
    Green,
    Yellow,
    Blue,
    Magenta,
    Cyan,
    White,
    Default,
}

/// The escape sequence that resets colours.
pub struct Reset;

/// A colour used for the text.
pub struct Foreground(pub Color);

/// A colour used behind the text.
pub struct Background(pub Color);

/// The ANSI number of a colour, added to 30 for text and 40 for background.
pub open spec fn color_index(c: Color) -> u8 {
    match c {
        Color::Black => 0,
        Color::Red => 1,
        Color::Green => 2,
        Color::Yellow => 3,
        Color::Blue => 4,
        Color::Magenta => 5,
        Color::Cyan => 6,
        Color::White => 7,
        Color::Default => 9,
    }
}

/// `ESC [ code m` for a two-digit code.
pub open spec fn sgr(code: u8) -> Seq<u8> {
    seq![0x1Bu8, 0x5B, (0x30 + code / 10) as u8, (0x30 + code % 10) as u8, 0x6D]
}

fn color_number(c: Color) -> (r: u8)
    ensures
        r == color_index(c),
{
    match c {
        Color::Black => 0,
        Color::Red => 1,
        Color::Green => 2,
        Color::Yellow => 3,
        Color::Blue => 4,
        Color::Magenta => 5,
        Color::Cyan => 6,
        Color::White => 7,
        Color::Default => 9,
    }
}

fn sgr_bytes(code: u8) -> (r: Vec<u8>)
    requires
        code < 100,
    ensures
        r@ == sgr(code),
{
    let r = vec![0x1Bu8, 0x5B, 0x30 + code / 10, 0x30 + code % 10, 0x6D];
    proof {
        assert(r@ =~= sgr(code));
    }
    r
}

impl Color {
    /// This colour for the text.
    pub fn fg(self) -> (r: Foreground)
        ensures
            r.0 == self,
    {
        Foreground(self)
    }

    /// This colour for the background.
    pub fn bg(self) -> (r: Background)
        ensures
            r.0 == self,
    {
        Background(self)
    }
}

impl Reset {
    /// The bytes of the reset sequence, `ESC [ 0 m`.
    pub fn to_bytes(&self) -> (r: Vec<u8>)
        ensures
            r@ == seq![0x1Bu8, 0x5B, 0x30, 0x6D],
    {
        let r = vec![0x1Bu8, 0x5B, 0x30, 0x6D];
        proof {
            assert(r@ =~= seq![0x1Bu8, 0x5B, 0x30, 0x6D]);
        }
        r
    }
}

impl Foreground {
    /// The ANSI code that selects this text colour: 30 to 37, 39 for the default.
    pub fn code(&self) -> (r: u8)
        ensures
            r == 30 + color_index(self.0),
    {
        30 + color_number(self.0)
    }

    /// The bytes of the escape sequence that selects this text colour.
    pub fn to_bytes(&self) -> (r: Vec<u8>)
        ensures
            r@ == sgr((30 + color_index(self.0)) as u8),
    {
        sgr_bytes(self.code())
    }
}

impl Background {
    /// The ANSI code that selects this background colour: 40 to 47, 49 for the default.
    pub fn code(&self) -> (r: u8)
        ensures
            r == 40 + color_index(self.0),
    {
        40 + color_number(self.0)
    }

    /// The bytes of the escape sequence that selects this background colour.
    pub fn to_bytes(&self) -> (r: Vec<u8>)
        ensures
            r@ == sgr((40 + color_index(self.0)) as u8),
    {
        sgr_bytes(self.code())
    }
}

} // verus!
