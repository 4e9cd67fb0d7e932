use quadrogue::error::LevelError;
use quadrogue::level::Level;
use quadrogue::palette::Palette;
use quadrogue::room::{from_room_size, room_grid, room_record, to_room_size, RoomTile};
use quadrogue::tile::Tile;
use quadrogue::vec2::UVec2;

fn palette() -> Palette {
    let mut p = Palette::new();
    p.insert("void".to_string(), Tile::new(' ', 0, 0, true));
    p.insert("floor".to_string(), Tile::new('.', 7, 0, true));
    p.insert("wall".to_string(), Tile::new('#', 8, 0, false));
    p.insert("door".to_string(), Tile::new('+', 3, 0, true));
    p
}

#[test]
fn size_class_of_a_region() {
    assert_eq!(from_room_size(UVec2::new(3, 3)), 1);
    assert_eq!(from_room_size(UVec2::new(5, 5)), 2);
    assert_eq!(from_room_size(UVec2::new(9, 9)), 3);
    assert_eq!(from_room_size(UVec2::new(33, 33)), 5);
    assert_eq!(from_room_size(UVec2::new(2, 2)), 0);
    assert_eq!(from_room_size(UVec2::new(1, 1)), 0);
    assert_eq!(from_room_size(UVec2::new(0, 0)), 0);
    assert_eq!(from_room_size(UVec2::new(12, 12)), 3);
}

#[test]
fn region_of_a_size_class() {
    assert_eq!(to_room_size(0), UVec2::new(3, 3));
    assert_eq!(to_room_size(3), UVec2::new(17, 17));
    assert_eq!(from_room_size(to_room_size(4)), 5);
}

#[test]
fn export_remaps_to_the_sorted_used_tiles() {
    let mut level = Level::new(UVec2::new(3, 3));
    level.data = vec![vec![2, 2, 2], vec![2, 1, 3], vec![2, 2, 2]];
    let rec = room_record(&level, &palette()).unwrap();
    assert_eq!(rec.size, 1);
    assert_eq!(rec.tiles, vec!["floor".to_string(), "wall".to_string(), "door".to_string()]);
    assert_eq!(rec.data, vec![vec![1, 1, 1], vec![1, 0, 2], vec![1, 1, 1]]);
}

#[test]
fn export_refuses_an_index_without_a_tile() {
    let mut level = Level::new(UVec2::new(2, 2));
    level.data = vec![vec![9, 1], vec![7, 1]];
    assert!(matches!(room_record(&level, &palette()), Err(LevelError::PaletteIndex { index: 7 })));
}

#[test]
fn export_then_import_gives_back_the_grid() {
    let mut level = Level::new(UVec2::new(5, 5));
    for r in 0..5 {
        for c in 0..5 {
            level.data[r][c] = (r * 3 + c) % 4;
        }
    }
    let p = palette();
    let rec = room_record(&level, &p).unwrap();
    let grid = room_grid(&rec, &p).unwrap();
    assert_eq!(grid, level.data);
}

#[test]
fn import_refuses_an_unknown_name() {
    let rec = RoomTile {
        size: 1,
        tiles: vec!["floor".to_string(), "lava".to_string(), "moss".to_string()],
        data: vec![vec![0, 1]],
    };
    match room_grid(&rec, &palette()) {
        Err(LevelError::PaletteLookup { name }) => assert_eq!(name, "lava"),
        other => panic!("unexpected {:?}", other),
    }
}

#[test]
fn import_refuses_an_entry_past_the_names() {
    let rec = RoomTile { size: 1, tiles: vec!["wall".to_string()], data: vec![vec![0, 0], vec![0, 4]] };
    assert_eq!(room_grid(&rec, &palette()), Err(LevelError::PaletteIndex { index: 4 }));
}

#[test]
fn import_resolves_names_against_the_palette() {
    let rec = RoomTile {
        size: 1,
        tiles: vec!["door".to_string(), "void".to_string()],
        data: vec![vec![0, 1], vec![1, 1]],
    };
    assert_eq!(room_grid(&rec, &palette()), Ok(vec![vec![3, 0], vec![0, 0]]));
}
