use termapps::editor::{EditorAction, EditorKey};
use termapps::grid::{Grid, GridMode};
use termapps::pixel::{Color, Pixel};

fn colors(g: &Grid) -> Vec<Vec<Color>> {
    g.pixel.iter().map(|r| r.iter().map(|p| p.color).collect()).collect()
}

#[test]
fn new_grid_is_black_and_positioned() {
    let g = Grid::new((2, 3));
    assert_eq!(g.height, 2);
    assert_eq!(g.width, 3);
    assert_eq!(g.pixel.len(), 2);
    for (i, row) in g.pixel.iter().enumerate() {
        assert_eq!(row.len(), 3);
        for (j, p) in row.iter().enumerate() {
            assert_eq!(*p, Pixel { height: i as i16, width: j as i16, color: Color::Black });
        }
    }
    assert_eq!(g.currently_selected, (0, 0));
    assert_eq!(g.mode, GridMode::Selection);
    assert_eq!(g.selected_color, Color::Black);
}

#[test]
fn negative_size_gives_no_rows() {
    let g = Grid::new((-4, 3));
    assert!(g.pixel.is_empty());
    assert_eq!(g.height, -4);
    let g = Grid::new((2, -1));
    assert_eq!(g.pixel.len(), 2);
    assert!(g.pixel.iter().all(|r| r.is_empty()));
}

#[test]
fn cursor_stops_at_edges() {
    let mut g = Grid::new((2, 2));
    g.dec_select_width();
    g.dec_select_height();
    assert_eq!(g.currently_selected, (0, 0));
    g.inc_select_width();
    g.inc_select_width();
    assert_eq!(g.currently_selected, (0, 1));
    g.inc_select_height();
    g.inc_select_height();
    assert_eq!(g.currently_selected, (1, 1));
    g.dec_select_width();
    assert_eq!(g.currently_selected, (1, 0));
    g.dec_select_height();
    assert_eq!(g.currently_selected, (0, 0));
}

#[test]
fn cursor_does_not_move_in_empty_grid() {
    let mut g = Grid::new((0, 0));
    g.inc_select_width();
    g.inc_select_height();
    assert_eq!(g.currently_selected, (0, 0));
}

#[test]
fn set_cursor_and_pixels() {
    let mut g = Grid::new((3, 3));
    g.set_cursor_pos((2, 1));
    assert_eq!(g.currently_selected, (2, 1));
    g.set_pixel_color_at((1, 2), Color::Cyan);
    assert_eq!(g.get_pixel_at((1, 2)).color, Color::Cyan);
    assert_eq!(g.get_pixel_at((1, 2)).height, 1);
    assert_eq!(g.get_pixel_at((1, 2)).width, 2);
    assert_eq!(g.get_pixel_at((2, 1)).color, Color::Black);
    g.change_current_selected_color(Color::Yellow);
    g.set_selected_color_in_pixel();
    assert_eq!(g.get_pixel_at((2, 1)).color, Color::Yellow);
    assert_eq!(g.get_pixel_at((1, 2)).color, Color::Cyan);
}

#[test]
fn color_codes() {
    let all = [
        Color::Black,
        Color::Red,
        Color::Green,
        Color::Yellow,
        Color::Blue,
        Color::Magenta,
        Color::Cyan,
        Color::White,
    ];
    for (i, c) in all.iter().enumerate() {
        assert_eq!(c.as_u8(), i as u8);
        assert_eq!(c.to_tif_color(), i as u8);
        assert_eq!(Color::from_tif_color(i as u8), *c);
    }
    assert_eq!(Color::from_tif_color(8), Color::Black);
    assert_eq!(Color::from_tif_color(255), Color::Black);
}

#[test]
fn keys_move_switch_mode_and_paint() {
    let mut g = Grid::new((3, 3));
    assert_eq!(g.handle_key(EditorKey::Right), EditorAction::Nothing);
    assert_eq!(g.handle_key(EditorKey::Down), EditorAction::Nothing);
    assert_eq!(g.currently_selected, (1, 1));
    // Selection mode: space does not paint, digits pick the brush.
    assert_eq!(g.handle_key(EditorKey::Char(' ')), EditorAction::Nothing);
    assert_eq!(g.handle_key(EditorKey::Char('2')), EditorAction::Nothing);
    assert_eq!(g.selected_color, Color::Red);
    assert_eq!(g.handle_key(EditorKey::Char('9')), EditorAction::Nothing);
    assert_eq!(g.selected_color, Color::Red);
    assert_eq!(g.handle_key(EditorKey::Char('0')), EditorAction::Nothing);
    assert_eq!(g.selected_color, Color::Red);
    assert_eq!(colors(&g), vec![vec![Color::Black; 3]; 3]);
    // Editing mode.
    assert_eq!(g.handle_key(EditorKey::Char('i')), EditorAction::Nothing);
    assert_eq!(g.mode, GridMode::Editing);
    assert_eq!(g.handle_key(EditorKey::Char(' ')), EditorAction::Painted);
    assert_eq!(g.get_pixel_at((1, 1)).color, Color::Red);
    // digits do nothing while editing
    assert_eq!(g.handle_key(EditorKey::Char('3')), EditorAction::Nothing);
    assert_eq!(g.selected_color, Color::Red);
    // 'w' moves up and paints
    assert_eq!(g.handle_key(EditorKey::Char('w')), EditorAction::Painted);
    assert_eq!(g.currently_selected, (0, 1));
    assert_eq!(g.get_pixel_at((0, 1)).color, Color::Red);
    // 'D' moves left and paints, 'd' moves right and paints
    assert_eq!(g.handle_key(EditorKey::Char('D')), EditorAction::Painted);
    assert_eq!(g.currently_selected, (0, 0));
    assert_eq!(g.get_pixel_at((0, 0)).color, Color::Red);
    assert_eq!(g.handle_key(EditorKey::Char('d')), EditorAction::Painted);
    assert_eq!(g.currently_selected, (0, 1));
    // 's' and 'S' ask for a save and do not move
    assert_eq!(g.handle_key(EditorKey::Char('s')), EditorAction::Save);
    assert_eq!(g.handle_key(EditorKey::Char('S')), EditorAction::Save);
    assert_eq!(g.currently_selected, (0, 1));
    // arrows move without painting
    assert_eq!(g.handle_key(EditorKey::Down), EditorAction::Nothing);
    assert_eq!(g.get_pixel_at((1, 1)).color, Color::Red);
    assert_eq!(g.handle_key(EditorKey::Down), EditorAction::Nothing);
    assert_eq!(g.get_pixel_at((2, 1)).color, Color::Black);
    // escape returns to selection
    assert_eq!(g.handle_key(EditorKey::Char('\x1b')), EditorAction::Nothing);
    assert_eq!(g.mode, GridMode::Selection);
    assert_eq!(g.handle_key(EditorKey::Char('8')), EditorAction::Nothing);
    assert_eq!(g.selected_color, Color::White);
    assert_eq!(g.handle_key(EditorKey::Other), EditorAction::Nothing);
}

#[test]
fn uppercase_a_and_w() {
    let mut g = Grid::new((2, 2));
    g.set_cursor_pos((1, 1));
    g.handle_key(EditorKey::Char('i'));
    // 'A' is no key of the editor
    assert_eq!(g.handle_key(EditorKey::Char('A')), EditorAction::Nothing);
    assert_eq!(g.currently_selected, (1, 1));
    assert_eq!(g.handle_key(EditorKey::Char('W')), EditorAction::Painted);
    assert_eq!(g.currently_selected, (0, 1));
    assert_eq!(g.handle_key(EditorKey::Char('a')), EditorAction::Painted);
    assert_eq!(g.currently_selected, (0, 0));
}
