use quadrogue::display::{window, Display, Window};
use quadrogue::level::Level;
use quadrogue::palette::Palette;
use quadrogue::tile::Tile;
use quadrogue::vec2::UVec2;

fn palette() -> Palette {
    let mut p = Palette::new();
    p.insert("floor".to_string(), Tile::new('.', 7, 4, true));
    p.insert("wall".to_string(), Tile::new('#', 8, 5, false));
    p
}

#[test]
fn window_is_centred_with_floor_halves() {
    let w = window(UVec2::new(10, 10), UVec2::new(5, 5));
    assert_eq!(w, Window { start_x: 8, start_y: 8, end_x: 13, end_y: 13 });
    let w = window(UVec2::new(0, 0), UVec2::new(5, 4));
    assert_eq!(w, Window { start_x: -2, start_y: -2, end_x: 3, end_y: 2 });
}

#[test]
fn projection_inside_the_level_has_no_blanks() {
    let mut level = Level::new(UVec2::new(20, 20));
    level.data[8][9] = 1;
    let p = palette();
    let mut d = Display::new(UVec2::new(5, 5));
    d.project(&level, &p, UVec2::new(10, 10));
    for di in 0..5 {
        for dj in 0..5 {
            let t = d.data[di][dj];
            if di == 2 && dj == 2 {
                assert_eq!(t, Tile::new('@', 15, 4, true));
            } else if di == 0 && dj == 1 {
                assert_eq!(t, Tile::new('#', 8, 5, false));
            } else {
                assert_eq!(t, Tile::new('.', 7, 4, true));
            }
        }
    }
}

#[test]
fn projection_blanks_cells_before_the_level() {
    let level = Level::new(UVec2::new(20, 20));
    let p = palette();
    let mut d = Display::new(UVec2::new(5, 5));
    d.project(&level, &p, UVec2::new(0, 0));
    let blank = Tile::new(' ', 0, 0, true);
    for di in 0..5 {
        for dj in 0..5 {
            let t = d.data[di][dj];
            if di < 2 || dj < 2 {
                assert_eq!(t, blank);
            } else if di == 2 && dj == 2 {
                assert_eq!(t, Tile::new('@', 15, 4, true));
            } else {
                assert_eq!(t, Tile::new('.', 7, 4, true));
            }
        }
    }
}

#[test]
fn projection_blanks_cells_past_the_level() {
    let level = Level::new(UVec2::new(3, 3));
    let p = palette();
    let mut d = Display::new(UVec2::new(4, 4));
    d.project(&level, &p, UVec2::new(2, 2));
    // window starts at (0, 0); columns and rows 3 are past the level
    assert_eq!(d.data[3][0], Tile::new(' ', 0, 0, true));
    assert_eq!(d.data[0][3], Tile::new(' ', 0, 0, true));
    assert_eq!(d.data[2][2], Tile::new('@', 15, 4, true));
    assert_eq!(d.data[0][0], Tile::new('.', 7, 4, true));
}

#[test]
fn new_display_is_blank() {
    let d = Display::new(UVec2::new(3, 2));
    assert_eq!(d.data.len(), 2);
    assert!(d.data.iter().all(|row| row.len() == 3 && row.iter().all(|t| *t == Tile::new(' ', 0, 0, true))));
}
