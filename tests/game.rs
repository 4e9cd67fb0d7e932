use std::cell::Cell;

use quadrogue::game::GameState;
use quadrogue::input::{GetInput, Input, TextInput};
use quadrogue::level::Level;
use quadrogue::palette::Palette;
use quadrogue::tile::Tile;
use quadrogue::ui::Menu;
use quadrogue::vec2::{IVec2, UVec2};

struct Script {
    key: Cell<Input>,
    text: Cell<TextInput>,
}

impl GetInput for Script {
    fn get_input(&self) -> Input {
        self.key.get()
    }

    fn get_text_input(&self) -> TextInput {
        self.text.get()
    }
}

fn palette() -> Palette {
    let mut p = Palette::new();
    p.insert("floor".to_string(), Tile::new('.', 7, 4, true));
    p.insert("wall".to_string(), Tile::new('#', 8, 5, false));
    p
}

fn game() -> GameState {
    GameState::init(UVec2::new(7, 8), Level::new(UVec2::new(9, 9)), palette())
}

fn type_digits(g: &mut GameState, s: &str) {
    for c in s.chars() {
        g.handle_input(Input::Number(c));
    }
}

#[test]
fn init_leaves_room_for_the_header() {
    let g = game();
    assert_eq!(g.display.size, UVec2::new(7, 5));
    assert_eq!(g.position, UVec2::new(1, 1));
    assert_eq!(g.hunger, 255);
    assert_eq!(g.health, 160);
    assert!(g.display.data.iter().all(|row| row.iter().all(|t| *t == Tile::new(' ', 0, 0, true))));
}

#[test]
fn repeat_count_defaults_to_one() {
    let mut g = game();
    assert_eq!(g.number(), 1);
    type_digits(&mut g, "12");
    assert_eq!(g.number, "12");
    assert_eq!(g.number(), 12);
    assert_eq!(g.number, "");
    type_digits(&mut g, "99999");
    assert_eq!(g.number(), 1);
    g.number = "4x".to_string();
    assert_eq!(g.number(), 1);
    type_digits(&mut g, "0");
    assert_eq!(g.number(), 0);
    g.number = "+5".to_string();
    assert_eq!(g.number(), 5);
    g.number = "+".to_string();
    assert_eq!(g.number(), 1);
    g.number = "++5".to_string();
    assert_eq!(g.number(), 1);
    g.number = "-5".to_string();
    assert_eq!(g.number(), 1);
}

#[test]
fn signed_count_repeats_a_move() {
    let mut g = game();
    g.number = "+3".to_string();
    g.handle_input(Input::Down);
    assert_eq!(g.position, UVec2::new(1, 4));
}

#[test]
fn moves_repeat_and_stop_at_the_edge() {
    let mut g = game();
    type_digits(&mut g, "3");
    g.handle_input(Input::Right);
    assert_eq!(g.position, UVec2::new(4, 1));
    assert_eq!(g.hunger, 252);
    type_digits(&mut g, "9");
    g.handle_input(Input::UpLeft);
    assert_eq!(g.position, UVec2::new(3, 0));
    assert_eq!(g.hunger, 251);
    g.try_move(IVec2::new(0, 1));
    assert_eq!(g.position, UVec2::new(3, 1));
}

#[test]
fn hunger_stops_walking() {
    let mut g = game();
    g.hunger = 2;
    type_digits(&mut g, "5");
    g.handle_input(Input::Down);
    assert_eq!(g.position, UVec2::new(1, 3));
    assert_eq!(g.hunger, 0);
}

#[test]
fn text_mode_edits_the_name() {
    let mut g = game();
    g.handle_input(Input::EnterText);
    assert!(g.text_input);
    g.handle_text(TextInput::Char('a'));
    g.handle_text(TextInput::Char('b'));
    g.handle_text(TextInput::Backspace);
    g.handle_text(TextInput::Char('c'));
    assert_eq!(g.name, "ac");
    g.handle_text(TextInput::Exit);
    assert!(!g.text_input);
}

#[test]
fn select_writes_the_menu_choice_under_the_player() {
    let mut g = game();
    let items = vec![Tile::from_string("floor", None, None), Tile::from_string("wall", None, None)];
    g.ui.push(Menu::new("Tiles", UVec2::new(1, 1), UVec2::new(3, 2), items));
    g.handle_input(Input::MenuNext);
    g.handle_input(Input::Select);
    assert_eq!(g.level.data[1][1], 1);
    g.handle_input(Input::MenuPrev);
    g.handle_input(Input::Select);
    assert_eq!(g.level.data[1][1], 0);
}

#[test]
fn update_reads_a_key_and_redraws() {
    let mut g = game();
    let keys = Script { key: Cell::new(Input::Right), text: Cell::new(TextInput::Idle) };
    g.update(&keys);
    assert_eq!(g.position, UVec2::new(2, 1));
    // display 7x5 centred on (2, 1): window starts at (-1, -1)
    assert_eq!(g.display.data[2][3], Tile::new('@', 15, 4, true));
    assert_eq!(g.display.data[0][0], Tile::new(' ', 0, 0, true));
    assert_eq!(g.display.data[1][1], Tile::new('.', 7, 4, true));
    keys.key.set(Input::Quit);
    g.update(&keys);
    assert!(g.quit);
}

#[test]
fn update_quits_when_starving() {
    let mut g = game();
    g.hunger = 0;
    let keys = Script { key: Cell::new(Input::Right), text: Cell::new(TextInput::Idle) };
    g.number = "4".to_string();
    g.update(&keys);
    assert!(g.quit);
    assert_eq!(g.position, UVec2::new(1, 1));
    assert_eq!(g.hunger, 0);
    assert_eq!(g.number, "4");
}

#[test]
fn name_is_drawn_at_the_top_left() {
    let mut g = game();
    g.name = "Zed".to_string();
    g.redraw();
    assert_eq!(g.display.data[0][0], Tile::new('Z', 15, 0, false));
    assert_eq!(g.display.data[0][2], Tile::new('d', 15, 0, false));
}
