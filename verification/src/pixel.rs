use vstd::prelude::*;

verus! {

/// The eight terminal colors a pixel can hold, in palette order.
#[derive(Clone, Copy, PartialEq, Eq, Structural, Debug)]
pub enum Color {
    Black,
    Red,
    Green,
    Yellow,
    Blue,
    Magenta,
    Cyan,
    White,
}

/// Palette index of a color: Black is 0, White is 7.
pub open spec fn color_code(c: Color) -> u8 {
    match c {
        Color::Black => 0,
        Color::Red => 1,
        Color::Green => 2,
        Color::Yellow => 3,
        Color::Blue => 4,
        Color::Magenta => 5,
        Color::Cyan => 6,
        Color::White => 7,
    }
}

/// The color that a palette byte stands for; bytes past 7 read as Black.
pub open spec fn color_of_code(b: u8) -> Color {
    if b == 1 {
        Color::Red
    } else if b == 2 {
        Color::Green
    } else if b == 3 {
        Color::Yellow
    } else if b == 4 {
        Color::Blue
    } else if b == 5 {
        Color::Magenta
    } else if b == 6 {
        Color::Cyan
    } else if b == 7 {
        Color::White
    } else {
        Color::Black
    }
}

/// Reading back the byte of a color gives the same color.
pub proof fn lemma_color_code_round_trip(c: Color)
    ensures
        color_of_code(color_code(c)) == c,
        color_code(c) < 8,
{
}

impl Color {
    /// Palette index (0 for Black up to 7 for White).
    pub fn as_u8(&self) -> (r: u8)
        ensures
            r == color_code(*self),
    {
        match self {
            Color::Black => 0,
            Color::Red => 1,
            Color::Green => 2,
            Color::Yellow => 3,
            Color::Blue => 4,
            Color::Magenta => 5,
            Color::Cyan => 6,
            Color::White => 7,
        }
    }

    /// The byte that stands for this color in a `.TIF` pixel run.
    pub fn to_tif_color(&self) -> (r: u8)
        ensures
            r == color_code(*self),
    {
        self.as_u8()
    }

    /// The color a `.TIF` run byte stands for; unknown bytes read as Black.
    pub fn from_tif_color(b: u8) -> (c: Color)
        ensures
            c == color_of_code(b),
    {
        if b == 1 {
            Color::Red
        } else if b == 2 {
            Color::Green
        } else if b == 3 {
            Color::Yellow
        } else if b == 4 {
            Color::Blue
        } else if b == 5 {
            Color::Magenta
        } else if b == 6 {
            Color::Cyan
        } else if b == 7 {
            Color::White
        } else {
            Color::Black
        }
    }
}

/// One cell of the image: its row (`height`), its column (`width`) and its color.
#[derive(Clone, Copy, PartialEq, Eq, Structural, Debug)]
pub struct Pixel {
    pub height: i16,
    pub width: i16,
    pub color: Color,
}

impl Pixel {
    /// A Black pixel at the given (row, column).
    pub fn new(pos: (i16, i16)) -> (p: Pixel)
        ensures
            p.height == pos.0,
            p.width == pos.1,
            p.color == Color::Black,
    {
        Pixel { height: pos.0, width: pos.1, color: Color::Black }
    }

    /// Repaints the pixel; its position stays.
    pub fn set_color(&mut self, color: Color)
        ensures
            final(self).color == color,
            final(self).height == old(self).height,
            final(self).width == old(self).width,
    {
        self.color = color;
    }
}

} // verus!
