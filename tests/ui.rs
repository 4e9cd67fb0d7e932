use quadrogue::display::Display;
use quadrogue::tile::Tile;
use quadrogue::ui::{text_bar, Menu, Ui};
use quadrogue::vec2::UVec2;

#[test]
fn bar_of_full_and_partial_blocks() {
    assert_eq!(text_bar(20, 40, false), "██▌  ▏");
    assert_eq!(text_bar(0, 0, false), "▏");
    assert_eq!(text_bar(16, 16, false), "██▏");
    assert_eq!(text_bar(7, 15, false), "▉ ▏");
}

fn items() -> Vec<Vec<Tile>> {
    vec![
        Tile::from_string("ab", None, None),
        Tile::from_string("c", None, None),
        Tile::from_string("d", None, None),
    ]
}

#[test]
fn menu_selection_stays_in_range() {
    let mut m = Menu::new("M", UVec2::new(0, 0), UVec2::new(4, 4), items());
    assert_eq!(m.selection(), 0);
    m.prev();
    assert_eq!(m.selection(), 0);
    m.next();
    m.next();
    assert_eq!(m.selection(), 2);
    m.next();
    assert_eq!(m.selection(), 2);
    m.prev();
    assert_eq!(m.selection(), 1);
}

#[test]
fn menu_focus() {
    let mut m = Menu::new("M", UVec2::new(0, 0), UVec2::new(4, 4), items());
    assert!(m.get_focus());
    m.set_focus(false);
    assert!(!m.get_focus());
}

#[test]
fn menu_draws_frame_title_and_items() {
    let mut d = Display::new(UVec2::new(8, 6));
    let m = Menu::new("Hi", UVec2::new(0, 0), UVec2::new(5, 4), items());
    m.render_to(&mut d);
    let frame = |c: char| Tile::new(c, 15, 0, true);
    assert_eq!(d.data[0][0], frame('┌'));
    assert_eq!(d.data[0][5], frame('┐'));
    assert_eq!(d.data[4][0], frame('└'));
    assert_eq!(d.data[0][1], Tile::new('H', 15, 0, false));
    assert_eq!(d.data[0][2], Tile::new('i', 15, 0, false));
    assert_eq!(d.data[0][3], frame('─'));
    assert_eq!(d.data[4][1], frame('─'));
    assert_eq!(d.data[1][0], frame('│'));
    assert_eq!(d.data[1][5], frame('│'));
    // item rows start at display row 2, column 2
    assert_eq!(d.data[2][2], frame('>'));
    assert_eq!(d.data[2][3], Tile::new(' ', 0, 0, true));
    assert_eq!(d.data[2][4], Tile::new('a', 15, 0, false));
    assert_eq!(d.data[2][5], Tile::new('b', 15, 0, false));
    assert_eq!(d.data[3][2], Tile::new(' ', 0, 0, true));
    assert_eq!(d.data[3][4], Tile::new('c', 15, 0, false));
    assert_eq!(d.data[3][5], Tile::new(' ', 0, 0, true));
    assert_eq!(d.data[4][4], Tile::new('d', 15, 0, false));
    // the item rows are drawn over the frame
    assert_eq!(d.data[4][5], Tile::new(' ', 0, 0, true));
    assert_eq!(d.data[4][3], Tile::new(' ', 0, 0, true));
    // untouched cells
    assert_eq!(d.data[5][7], Tile::new(' ', 0, 0, true));
    assert_eq!(d.data[1][6], Tile::new(' ', 0, 0, true));
}

#[test]
fn ui_trait_draws_a_menu_that_fits_and_skips_one_that_does_not() {
    let mut d = Display::new(UVec2::new(8, 6));
    let mut m = Menu::new("Hi", UVec2::new(0, 0), UVec2::new(5, 4), items());
    Ui::render_to(&m, &mut d);
    assert_eq!(d.data[0][0], Tile::new('┌', 15, 0, true));
    let mut small = Display::new(UVec2::new(3, 3));
    Ui::render_to(&m, &mut small);
    assert!(small.data.iter().all(|row| row.iter().all(|t| *t == Tile::new(' ', 0, 0, true))));
    Ui::set_focus(&mut m, false);
    assert!(!Ui::get_focus(&m));
}
