use vstd::prelude::*;
use crate::pixel::{Color, color_code};
use crate::grid::{Grid, GridMode};

verus! {

/// A key press as the editor sees it.
#[derive(Clone, Copy, PartialEq, Eq, Structural, Debug)]
pub enum EditorKey {
    Left,
    Right,
    Up,
    Down,
    Char(char),
    Other,
}

/// What the terminal side has to do after a key press.
#[derive(Clone, Copy, PartialEq, Eq, Structural, Debug)]
pub enum EditorAction {
    /// Nothing besides redrawing.
    Nothing,
    /// Write the image out.
    Save,
    /// The pixel under the cursor was painted.
    Painted,
}

/// The value of a decimal digit character.
pub open spec fn digit_value(c: char) -> Option<u8> {
    if '0' <= c && c <= '9' {
        Some((c as u32 - '0' as u32) as u8)
    } else {
        None
    }
}

/// Brush chosen with number key `n`: 1 for Black up to 8 for White; other
/// numbers keep `keep`.
pub open spec fn palette_choice(n: u8, keep: Color) -> Color {
    if n == 1 {
        Color::Black
    } else if n == 2 {
        Color::Red
    } else if n == 3 {
        Color::Green
    } else if n == 4 {
        Color::Yellow
    } else if n == 5 {
        Color::Blue
    } else if n == 6 {
        Color::Magenta
    } else if n == 7 {
        Color::Cyan
    } else if n == 8 {
        Color::White
    } else {
        keep
    }
}

/// Cursor one column left, unless on column 0.
pub open spec fn cursor_left(g: &Grid) -> (i16, i16) {
    if g.currently_selected.1 > 0 {
        (g.currently_selected.0, (g.currently_selected.1 - 1) as i16)
    } else {
        g.currently_selected
    }
}

/// Cursor one column right, unless on the last column.
pub open spec fn cursor_right(g: &Grid) -> (i16, i16) {
    if g.currently_selected.1 < g.width - 1 {
        (g.currently_selected.0, (g.currently_selected.1 + 1) as i16)
    } else {
        g.currently_selected
    }
}

/// Cursor one row up, unless on row 0.
pub open spec fn cursor_up(g: &Grid) -> (i16, i16) {
    if g.currently_selected.0 > 0 {
        ((g.currently_selected.0 - 1) as i16, g.currently_selected.1)
    } else {
        g.currently_selected
    }
}

/// Cursor one row down, unless on the last row.
pub open spec fn cursor_down(g: &Grid) -> (i16, i16) {
    if g.currently_selected.0 < g.height - 1 {
        ((g.currently_selected.0 + 1) as i16, g.currently_selected.1)
    } else {
        g.currently_selected
    }
}

/// 's' or 'S' saves.
pub open spec fn is_save_char(c: char) -> bool {
    c == 's' || c == 'S'
}

/// Where the cursor stands after key `key`: arrows and 'w', 'W' (up), 'a', 'D'
/// (left), 'd' (right) move it; a save key does not.
pub open spec fn key_cursor(g: &Grid, key: EditorKey) -> (i16, i16) {
    match key {
        EditorKey::Left => cursor_left(g),
        EditorKey::Right => cursor_right(g),
        EditorKey::Up => cursor_up(g),
        EditorKey::Down => cursor_down(g),
        EditorKey::Char(c) => if is_save_char(c) || c == 'i' || c == '\x1b' || c == ' ' {
            g.currently_selected
        } else if c == 'w' || c == 'W' {
            cursor_up(g)
        } else if c == 'a' || c == 'D' {
            cursor_left(g)
        } else if c == 'd' {
            cursor_right(g)
        } else {
            g.currently_selected
        },
        EditorKey::Other => g.currently_selected,
    }
}

/// The mode after key `key`: 'i' enters editing, escape returns to selection.
pub open spec fn key_mode(g: &Grid, key: EditorKey) -> GridMode {
    match key {
        EditorKey::Char(c) => if is_save_char(c) {
            g.mode
        } else if c == 'i' {
            GridMode::Editing
        } else if c == '\x1b' {
            GridMode::Selection
        } else {
            g.mode
        },
        _ => g.mode,
    }
}

/// In editing mode, space and the moving letters paint the pixel under the
/// (moved) cursor.
pub open spec fn key_paints(g: &Grid, key: EditorKey) -> bool {
    match key {
        EditorKey::Char(c) => g.mode == GridMode::Editing && !is_save_char(c) && c != 'i'
            && c != '\x1b' && (c == ' ' || c == 'w' || c == 'W' || c == 'a' || c == 'D' || c
            == 'd'),
        _ => false,
    }
}

/// In selection mode (after the key), digits 1 to 8 pick the brush color.
pub open spec fn key_brush(g: &Grid, key: EditorKey) -> Color {
    match key {
        EditorKey::Char(c) => match digit_value(c) {
            Some(n) => if key_mode(g, key) == GridMode::Selection {
                palette_choice(n, g.selected_color)
            } else {
                g.selected_color
            },
            None => g.selected_color,
        },
        _ => g.selected_color,
    }
}

/// What the terminal side is asked to do after key `key`.
pub open spec fn key_action(g: &Grid, key: EditorKey) -> EditorAction {
    match key {
        EditorKey::Char(c) => if is_save_char(c) {
            EditorAction::Save
        } else if key_paints(g, key) {
            EditorAction::Painted
        } else {
            EditorAction::Nothing
        },
        _ => EditorAction::Nothing,
    }
}

fn digit_of(c: char) -> (r: Option<u8>)
    ensures
        r == digit_value(c),
{
    if '0' <= c && c <= '9' {
        Some((c as u32 - '0' as u32) as u8)
    } else {
        None
    }
}

impl Grid {
    /// Reacts to one key press of the editor: moves the cursor, switches
    /// mode, paints, picks the brush color, or asks for a save.
    pub fn handle_key(&mut self, key: EditorKey) -> (action: EditorAction)
        requires
            old(self).wf(),
            key_paints(&*old(self), key) ==> old(self).in_grid(key_cursor(&*old(self), key)),
        ensures
            final(self).wf(),
            final(self).height == old(self).height,
            final(self).width == old(self).width,
            final(self).currently_selected == key_cursor(&*old(self), key),
            final(self).mode == key_mode(&*old(self), key),
            final(self).selected_color == key_brush(&*old(self), key),
            action == key_action(&*old(self), key),
            key_paints(&*old(self), key) ==> {
                &&& final(self).pixels_same_but(&*old(self), key_cursor(&*old(self), key))
                &&& final(self).color_at(
                    key_cursor(&*old(self), key).0 as int,
                    key_cursor(&*old(self), key).1 as int,
                ) == old(self).selected_color
            },
            !key_paints(&*old(self), key) ==> final(self).pixel == old(self).pixel,
            old(self).cursor_in_grid() ==> final(self).cursor_in_grid(),
    {
        let mut action = EditorAction::Nothing;
        match key {
            EditorKey::Left => self.dec_select_width(),
            EditorKey::Right => self.inc_select_width(),
            EditorKey::Up => self.dec_select_height(),
            EditorKey::Down => self.inc_select_height(),
            EditorKey::Char(c) => {
                if c == 's' || c == 'S' {
                    action = EditorAction::Save;
                } else if c == 'i' {
                    self.mode = GridMode::Editing;
                } else if c == '\x1b' {
                    self.mode = GridMode::Selection;
                } else if c == ' ' && self.mode == GridMode::Editing {
                    self.set_selected_color_in_pixel();
                    action = EditorAction::Painted;
                } else if c == 'w' || c == 'W' {
                    self.dec_select_height();
                    if self.mode == GridMode::Editing {
                        self.set_selected_color_in_pixel();
                        action = EditorAction::Painted;
                    }
                } else if c == 'a' || c == 'D' {
                    self.dec_select_width();
                    if self.mode == GridMode::Editing {
                        self.set_selected_color_in_pixel();
                        action = EditorAction::Painted;
                    }
                } else if c == 'd' {
                    self.inc_select_width();
                    if self.mode == GridMode::Editing {
                        self.set_selected_color_in_pixel();
                        action = EditorAction::Painted;
                    }
                }
                if let Some(num) = digit_of(c) {
                    if self.mode == GridMode::Selection {
                        let new_color = if num == 1 {
                            Color::Black
                        } else if num == 2 {
                            Color::Red
                        } else if num == 3 {
                            Color::Green
                        } else if num == 4 {
                            Color::Yellow
                        } else if num == 5 {
                            Color::Blue
                        } else if num == 6 {
                            Color::Magenta
                        } else if num == 7 {
                            Color::Cyan
                        } else if num == 8 {
                            Color::White
                        } else {
                            self.selected_color
                        };
                        self.selected_color = new_color;
                    }
                }
            },
            EditorKey::Other => {},
        }
        action
    }
}


/// The arrow keys move the cursor by one step within the image and do
/// nothing else: Up takes it one row up (row - 1) unless on row 0, Down one
/// row down unless on the last row, Left one column left unless on column 0,
/// Right one column right unless on the last column.
pub proof fn law_arrow_keys(g: &Grid, key: EditorKey)
    requires
        key == EditorKey::Up || key == EditorKey::Down || key == EditorKey::Left || key
            == EditorKey::Right,
    ensures
        ({
            let (r, c) = g.currently_selected;
            let (r2, c2) = key_cursor(g, key);
            &&& key == EditorKey::Up ==> c2 == c && r2 == (if r > 0 { r - 1 } else { r as int })
            &&& key == EditorKey::Down ==> c2 == c && r2 == (if r < g.height - 1 {
                r + 1
            } else {
                r as int
            })
            &&& key == EditorKey::Left ==> r2 == r && c2 == (if c > 0 { c - 1 } else { c as int })
            &&& key == EditorKey::Right ==> r2 == r && c2 == (if c < g.width - 1 {
                c + 1
            } else {
                c as int
            })
        }),
        key_mode(g, key) == g.mode,
        key_brush(g, key) == g.selected_color,
        !key_paints(g, key),
        key_action(g, key) == EditorAction::Nothing,
{
}

/// Number keys pick the brush by palette position: in selection mode the
/// key `n` (1 to 8) makes the brush the color whose palette code is n - 1;
/// keys 0 and 9 keep the brush, and in editing mode no digit changes it.
/// Digits never move the cursor, change the mode or paint.
pub proof fn law_digit_keys(g: &Grid, c: char)
    requires
        '0' <= c && c <= '9',
    ensures
        ({
            let n = c as u32 - '0' as u32;
            let b = key_brush(g, EditorKey::Char(c));
            &&& (g.mode == GridMode::Selection && 1 <= n <= 8) ==> color_code(b) == n - 1
            &&& (n == 0 || n == 9 || g.mode == GridMode::Editing) ==> b == g.selected_color
        }),
        key_cursor(g, EditorKey::Char(c)) == g.currently_selected,
        key_mode(g, EditorKey::Char(c)) == g.mode,
        !key_paints(g, EditorKey::Char(c)),
        key_action(g, EditorKey::Char(c)) == EditorAction::Nothing,
{
}

/// 'i' enters editing mode, escape returns to selection mode, 's' and 'S'
/// ask for a save; none of them moves the cursor, paints or changes the brush.
pub proof fn law_command_keys(g: &Grid, c: char)
    requires
        c == 'i' || c == '\x1b' || c == 's' || c == 'S',
    ensures
        key_cursor(g, EditorKey::Char(c)) == g.currently_selected,
        c == 'i' ==> key_mode(g, EditorKey::Char(c)) == GridMode::Editing,
        c == '\x1b' ==> key_mode(g, EditorKey::Char(c)) == GridMode::Selection,
        (c == 's' || c == 'S') ==> key_mode(g, EditorKey::Char(c)) == g.mode,
        (c == 's' || c == 'S') <==> key_action(g, EditorKey::Char(c)) == EditorAction::Save,
        !key_paints(g, EditorKey::Char(c)),
        key_brush(g, EditorKey::Char(c)) == g.selected_color,
{
}


/// Letter keys: 'w' and 'W' move the cursor up, 'a' and 'D' left, 'd'
/// right, and any other character leaves it; in editing mode space and these
/// five letters paint the pixel under the cursor where it ends up, and in
/// selection mode no key paints.
pub proof fn law_letter_keys(g: &Grid, c: char)
    ensures
        (c == 'w' || c == 'W') ==> key_cursor(g, EditorKey::Char(c)) == cursor_up(g),
        (c == 'a' || c == 'D') ==> key_cursor(g, EditorKey::Char(c)) == cursor_left(g),
        c == 'd' ==> key_cursor(g, EditorKey::Char(c)) == cursor_right(g),
        !(c == 'w' || c == 'W' || c == 'a' || c == 'D' || c == 'd') ==> key_cursor(
            g,
            EditorKey::Char(c),
        ) == g.currently_selected,
        g.mode == GridMode::Editing ==> (key_paints(g, EditorKey::Char(c)) <==> (c == ' ' || c
            == 'w' || c == 'W' || c == 'a' || c == 'D' || c == 'd')),
        g.mode == GridMode::Selection ==> !key_paints(g, EditorKey::Char(c)),
        key_paints(g, EditorKey::Char(c)) ==> key_action(g, EditorKey::Char(c))
            == EditorAction::Painted,
{
}

} // verus!
