use termapps::grid::Grid;
use termapps::pixel::Color;

fn colors(g: &Grid) -> Vec<Vec<Color>> {
    g.pixel.iter().map(|r| r.iter().map(|p| p.color).collect()).collect()
}

#[test]
fn header_holds_magic_and_width() {
    let g = Grid::new((2, 3));
    assert_eq!(g.get_header(), vec![0x2e, 0x54, 0x49, 0x46, 0x20, 3]);
    let g = Grid::new((1, 300));
    assert_eq!(g.get_header()[5], 44);
}

#[test]
fn runs_of_one_color() {
    let g = Grid::new((2, 3));
    let mut buf = vec![9u8];
    g.append_pixels(&mut buf);
    assert_eq!(buf, vec![9, 0, 6]);
}

#[test]
fn runs_change_with_color() {
    let mut g = Grid::new((2, 3));
    g.set_pixel_color_at((0, 1), Color::Red);
    g.set_pixel_color_at((1, 2), Color::White);
    let mut buf = vec![];
    g.append_pixels(&mut buf);
    assert_eq!(buf, vec![0, 1, 1, 1, 0, 3, 7, 1]);
}

#[test]
fn first_run_not_black() {
    let mut g = Grid::new((1, 2));
    g.set_pixel_color_at((0, 0), Color::Blue);
    g.set_pixel_color_at((0, 1), Color::Blue);
    let mut buf = vec![];
    g.append_pixels(&mut buf);
    assert_eq!(buf, vec![4, 2]);
}

#[test]
fn long_runs_are_cut_at_255() {
    let g = Grid::new((2, 300));
    let mut buf = vec![];
    g.append_pixels(&mut buf);
    assert_eq!(buf, vec![0, 255, 0, 255, 0, 90]);
    let g = Grid::new((1, 255));
    let mut buf = vec![];
    g.append_pixels(&mut buf);
    assert_eq!(buf, vec![0, 255]);
    let mut g = Grid::new((1, 256));
    g.set_pixel_color_at((0, 255), Color::Green);
    let mut buf = vec![];
    g.append_pixels(&mut buf);
    assert_eq!(buf, vec![0, 255, 2, 1]);
}

#[test]
fn empty_image_has_no_runs() {
    let g = Grid::new((0, 5));
    let mut buf = vec![];
    g.append_pixels(&mut buf);
    assert!(buf.is_empty());
    assert_eq!(g.to_tif_bytes(), vec![46, 84, 73, 70, 32, 5]);
}

#[test]
fn load_reads_runs_into_rows() {
    let bytes = vec![46, 84, 73, 70, 32, 2, 1, 3, 7, 1];
    let g = Grid::from_tif_bytes(&bytes);
    assert_eq!(g.height, 2);
    assert_eq!(g.width, 2);
    assert_eq!(colors(&g), vec![vec![Color::Red, Color::Red], vec![Color::Red, Color::White]]);
    assert_eq!(g.selected_color, Color::White);
    assert_eq!(g.currently_selected, (0, 0));
    assert_eq!(g.get_pixel_at((1, 0)).height, 1);
}

#[test]
fn load_lone_last_byte_is_color_and_count() {
    // the last run is the single byte 2: Green, twice
    let bytes = vec![46, 84, 73, 70, 32, 2, 2, 2, 2];
    let g = Grid::from_tif_bytes(&bytes);
    assert_eq!(g.height, 2);
    assert_eq!(colors(&g), vec![vec![Color::Green; 2]; 2]);
}

#[test]
fn load_empty_image() {
    let bytes = vec![46, 84, 73, 70, 32, 4];
    let g = Grid::from_tif_bytes(&bytes);
    assert_eq!(g.height, 0);
    assert_eq!(g.width, 4);
    assert!(g.pixel.is_empty());
    assert_eq!(g.selected_color, Color::Black);
}

#[test]
fn save_then_load_gives_the_image_back() {
    let mut g = Grid::new((4, 70));
    for i in 0..4 {
        for j in 0..70 {
            let c = Color::from_tif_color(((i * 7 + j / 13) % 8) as u8);
            g.set_pixel_color_at((i, j), c);
        }
    }
    let bytes = g.to_tif_bytes();
    let back = Grid::from_tif_bytes(&bytes);
    assert_eq!(back.height, g.height);
    assert_eq!(back.width, g.width);
    assert_eq!(colors(&back), colors(&g));
}

#[test]
fn save_then_load_wide_single_color() {
    let g = Grid::new((3, 255));
    let back = Grid::from_tif_bytes(&g.to_tif_bytes());
    assert_eq!(colors(&back), colors(&g));
    assert_eq!(back.height, 3);
}

#[test]
fn loadable_bytes_check() {
    assert!(Grid::tif_loadable_bytes(&vec![46, 84, 73, 70, 32, 2, 1, 4]));
    assert!(Grid::tif_loadable_bytes(&vec![46, 84, 73, 70, 32, 3]));
    // wrong magic, too short, zero width
    assert!(!Grid::tif_loadable_bytes(&vec![46, 84, 73, 70, 33, 2, 1, 4]));
    assert!(!Grid::tif_loadable_bytes(&vec![46, 84, 73, 70, 32]));
    assert!(!Grid::tif_loadable_bytes(&vec![46, 84, 73, 70, 32, 0]));
    // three pixels do not fill rows of two
    assert!(!Grid::tif_loadable_bytes(&vec![46, 84, 73, 70, 32, 2, 1, 3]));
    // 32768 rows of one pixel are too many, 32767 are not
    let mut many = vec![46, 84, 73, 70, 32, 1];
    for _ in 0..128 {
        many.push(0);
        many.push(255);
    }
    many.push(0);
    many.push(128);
    assert!(!Grid::tif_loadable_bytes(&many));
    many.pop();
    many.push(127);
    assert!(Grid::tif_loadable_bytes(&many));
}

#[test]
fn bytes_of_saved_image_are_loadable() {
    let mut g = Grid::new((3, 5));
    g.set_pixel_color_at((2, 4), Color::Magenta);
    assert!(Grid::tif_loadable_bytes(&g.to_tif_bytes()));
}
