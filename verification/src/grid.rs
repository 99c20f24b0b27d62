use vstd::prelude::*;
use crate::pixel::{Color, Pixel};

verus! {

/// Whether keys move the cursor (`Selection`) or also paint (`Editing`).
#[derive(Clone, Copy, PartialEq, Eq, Structural, Debug)]
pub enum GridMode {
    Selection,
    Editing,
}

/// The image being edited: rows of pixels, the cursor, the mode and the brush color.
pub struct Grid {
    pub pixel: Vec<Vec<Pixel>>,
    pub height: i16,
    pub width: i16,
    pub currently_selected: (i16, i16),
    pub mode: GridMode,
    pub selected_color: Color,
}

/// How many rows (or columns) a signed extent stands for: none when negative.
pub open spec fn extent(n: i16) -> nat {
    if n < 0 {
        0
    } else {
        n as nat
    }
}

impl Grid {
    /// The pixel rows match the declared size and each pixel knows its own position.
    pub open spec fn wf(&self) -> bool {
        &&& self.pixel@.len() == extent(self.height)
        &&& forall|i: int|
            0 <= i < self.pixel@.len() ==> (#[trigger] self.pixel@[i])@.len() == extent(self.width)
        &&& forall|i: int, j: int|
            0 <= i < self.pixel@.len() && 0 <= j < self.pixel@[i]@.len() ==> {
                &&& (#[trigger] self.pixel@[i]@[j]).height == i
                &&& self.pixel@[i]@[j].width == j
            }
    }

    /// `pos` names a pixel of the image.
    pub open spec fn in_grid(&self, pos: (i16, i16)) -> bool {
        0 <= pos.0 < extent(self.height) && 0 <= pos.1 < extent(self.width)
    }

    /// The cursor stands on a pixel of the image.
    pub open spec fn cursor_in_grid(&self) -> bool {
        self.in_grid(self.currently_selected)
    }

    /// The color of the pixel at row `i`, column `j`.
    pub open spec fn color_at(&self, i: int, j: int) -> Color {
        self.pixel@[i]@[j].color
    }

    /// The image's colors, row by row.
    pub open spec fn color_rows(&self) -> Seq<Seq<Color>> {
        self.pixel@.map_values(|row: Vec<Pixel>| row@.map_values(|p: Pixel| p.color))
    }

    /// Everything but the cursor is as in `other`.
    pub open spec fn same_but_cursor(&self, other: &Grid) -> bool {
        &&& self.pixel == other.pixel
        &&& self.height == other.height
        &&& self.width == other.width
        &&& self.mode == other.mode
        &&& self.selected_color == other.selected_color
    }

    /// The pixel rows are as in `other`, except perhaps the color at `pos`.
    pub open spec fn pixels_same_but(&self, other: &Grid, pos: (i16, i16)) -> bool {
        &&& self.pixel@.len() == other.pixel@.len()
        &&& forall|i: int|
            0 <= i < self.pixel@.len() ==> (#[trigger] self.pixel@[i])@.len()
                == other.pixel@[i]@.len()
        &&& forall|i: int, j: int|
            0 <= i < self.pixel@.len() && 0 <= j < self.pixel@[i]@.len() ==> {
                &&& (#[trigger] self.pixel@[i]@[j]).height == other.pixel@[i]@[j].height
                &&& self.pixel@[i]@[j].width == other.pixel@[i]@[j].width
                &&& (i != pos.0 || j != pos.1) ==> self.pixel@[i]@[j].color
                    == other.pixel@[i]@[j].color
            }
    }

    /// Everything is as in `other`, except perhaps the color of the pixel at `pos`.
    pub open spec fn same_but_pixel(&self, other: &Grid, pos: (i16, i16)) -> bool {
        &&& self.height == other.height
        &&& self.width == other.width
        &&& self.currently_selected == other.currently_selected
        &&& self.mode == other.mode
        &&& self.selected_color == other.selected_color
        &&& self.pixels_same_but(other, pos)
    }

    /// A `size.0` by `size.1` image of Black pixels, cursor at (0, 0), in
    /// selection mode with a Black brush. A negative extent gives no rows
    /// (or empty rows).
    pub fn new(size: (i16, i16)) -> (g: Grid)
        ensures
            g.wf(),
            g.height == size.0,
            g.width == size.1,
            g.currently_selected == (0i16, 0i16),
            g.mode == GridMode::Selection,
            g.selected_color == Color::Black,
            forall|i: int, j: int|
                0 <= i < extent(size.0) && 0 <= j < extent(size.1) ==> #[trigger] g.color_at(i, j)
                    == Color::Black,
    {
        let mut vec: Vec<Vec<Pixel>> = Vec::new();
        let mut i: i16 = 0;
        while i < size.0
            invariant
                0 <= i,
                i <= extent(size.0),
                vec@.len() == i,
                forall|r: int| 0 <= r < vec@.len() ==> (#[trigger] vec@[r])@.len() == extent(size.1),
                forall|r: int, c: int|
                    0 <= r < vec@.len() && 0 <= c < vec@[r]@.len() ==> {
                        &&& (#[trigger] vec@[r]@[c]).height == r
                        &&& vec@[r]@[c].width == c
                        &&& vec@[r]@[c].color == Color::Black
                    },
            decreases size.0 - i,
        {
            let mut row: Vec<Pixel> = Vec::new();
            let mut j: i16 = 0;
            while j < size.1
                invariant
                    0 <= j,
                    j <= extent(size.1),
                    row@.len() == j,
                    forall|c: int|
                        0 <= c < row@.len() ==> {
                            &&& (#[trigger] row@[c]).height == i
                            &&& row@[c].width == c
                            &&& row@[c].color == Color::Black
                        },
                decreases size.1 - j,
            {
                row.push(Pixel::new((i, j)));
                j = j + 1;
            }
            vec.push(row);
            i = i + 1;
        }
        Grid {
            pixel: vec,
            height: size.0,
            width: size.1,
            currently_selected: (0, 0),
            mode: GridMode::Selection,
            selected_color: Color::Black,
        }
    }

    /// Moves the cursor one column right unless it is on the last column.
    pub fn inc_select_width(&mut self)
        ensures
            final(self).same_but_cursor(&*old(self)),
            final(self).currently_selected == (if old(self).currently_selected.1 < old(self).width - 1 {
                (old(self).currently_selected.0, (old(self).currently_selected.1 + 1) as i16)
            } else {
                old(self).currently_selected
            }),
            old(self).cursor_in_grid() ==> final(self).cursor_in_grid(),
    {
        let (r, c) = self.currently_selected;
        if (c as i32) < (self.width as i32) - 1 {
            self.set_cursor_pos((r, c + 1));
        }
    }

    /// Moves the cursor one column left unless it is on column 0.
    pub fn dec_select_width(&mut self)
        ensures
            final(self).same_but_cursor(&*old(self)),
            final(self).currently_selected == (if old(self).currently_selected.1 > 0 {
                (old(self).currently_selected.0, (old(self).currently_selected.1 - 1) as i16)
            } else {
                old(self).currently_selected
            }),
            old(self).cursor_in_grid() ==> final(self).cursor_in_grid(),
    {
        let (r, c) = self.currently_selected;
        if c > 0 {
            self.set_cursor_pos((r, c - 1));
        }
    }

    /// Moves the cursor one row down unless it is on the last row.
    pub fn inc_select_height(&mut self)
        ensures
            final(self).same_but_cursor(&*old(self)),
            final(self).currently_selected == (if old(self).currently_selected.0 < old(self).height - 1 {
                ((old(self).currently_selected.0 + 1) as i16, old(self).currently_selected.1)
            } else {
                old(self).currently_selected
            }),
            old(self).cursor_in_grid() ==> final(self).cursor_in_grid(),
    {
        let (r, c) = self.currently_selected;
        if (r as i32) < (self.height as i32) - 1 {
            self.set_cursor_pos((r + 1, c));
        }
    }

    /// Moves the cursor one row up unless it is on row 0.
    pub fn dec_select_height(&mut self)
        ensures
            final(self).same_but_cursor(&*old(self)),
            final(self).currently_selected == (if old(self).currently_selected.0 > 0 {
                ((old(self).currently_selected.0 - 1) as i16, old(self).currently_selected.1)
            } else {
                old(self).currently_selected
            }),
            old(self).cursor_in_grid() ==> final(self).cursor_in_grid(),
    {
        let (r, c) = self.currently_selected;
        if r > 0 {
            self.set_cursor_pos((r - 1, c));
        }
    }

    /// Puts the cursor at `new_pos`, wherever that is.
    pub fn set_cursor_pos(&mut self, new_pos: (i16, i16))
        ensures
            final(self).same_but_cursor(&*old(self)),
            final(self).currently_selected == new_pos,
    {
        self.currently_selected = new_pos;
    }

    /// Sets the brush color.
    pub fn change_current_selected_color(&mut self, color: Color)
        ensures
            final(self).selected_color == color,
            final(self).pixel == old(self).pixel,
            final(self).height == old(self).height,
            final(self).width == old(self).width,
            final(self).currently_selected == old(self).currently_selected,
            final(self).mode == old(self).mode,
    {
        self.selected_color = color;
    }

    /// The pixel at (row, column) `pos`.
    pub fn get_pixel_at(&self, pos: (i16, i16)) -> (p: &Pixel)
        requires
            self.wf(),
            self.in_grid(pos),
        ensures
            *p == self.pixel@[pos.0 as int]@[pos.1 as int],
            p.height == pos.0,
            p.width == pos.1,
    {
        &self.pixel[pos.0 as usize][pos.1 as usize]
    }

    /// Paints the pixel at (row, column) `pos`; nothing else changes.
    pub fn set_pixel_color_at(&mut self, pos: (i16, i16), color: Color)
        requires
            old(self).wf(),
            old(self).in_grid(pos),
        ensures
            final(self).wf(),
            final(self).same_but_pixel(&*old(self), pos),
            final(self).color_at(pos.0 as int, pos.1 as int) == color,
    {
        self.pixel[pos.0 as usize][pos.1 as usize].set_color(color);
    }

    /// Paints the pixel under the cursor with the brush color.
    pub fn set_selected_color_in_pixel(&mut self)
        requires
            old(self).wf(),
            old(self).cursor_in_grid(),
        ensures
            final(self).wf(),
            final(self).same_but_pixel(&*old(self), old(self).currently_selected),
            final(self).color_at(
                old(self).currently_selected.0 as int,
                old(self).currently_selected.1 as int,
            ) == old(self).selected_color,
    {
        let pos = self.currently_selected;
        let color = self.selected_color;
        self.set_pixel_color_at(pos, color);
    }
}

} // verus!
