use quadrogue::error::LevelError;
use quadrogue::level::{rooms_of, Level, Room};
use quadrogue::quadtree::Quadtree;
use quadrogue::vec2::UVec2;

#[test]
fn new_level_is_filled_with_zero() {
    let l = Level::new(UVec2::new(3, 2));
    assert_eq!(l.data, vec![vec![0, 0, 0], vec![0, 0, 0]]);
}

#[test]
fn make_room_draws_a_hollow_outline() {
    let mut l = Level::new(UVec2::new(6, 6));
    for r in 0..6 {
        for c in 0..6 {
            l.data[r][c] = 1;
        }
    }
    assert_eq!(l.make_room(UVec2::new(0, 0), UVec2::new(4, 4), 7), Ok(()));
    for i in 0..=4 {
        assert_eq!(l.data[0][i], 7);
        assert_eq!(l.data[4][i], 7);
        assert_eq!(l.data[i][0], 7);
        assert_eq!(l.data[i][4], 7);
    }
    for r in 1..4 {
        for c in 1..4 {
            assert_eq!(l.data[r][c], 1);
        }
    }
    for i in 0..6 {
        assert_eq!(l.data[5][i], 1);
        assert_eq!(l.data[i][5], 1);
    }
}

#[test]
fn make_room_past_the_grid_is_refused() {
    let mut l = Level::new(UVec2::new(5, 5));
    let before = l.data.clone();
    assert_eq!(
        l.make_room(UVec2::new(1, 0), UVec2::new(4, 4), 7),
        Err(LevelError::GridBounds { x: 5, y: 4 })
    );
    assert_eq!(l.data, before);
}

#[test]
fn rooms_of_decodes_paths_and_sizes() {
    let mut t = Quadtree::new(4u16);
    t.subdivide();
    let rooms = rooms_of(&t, 64).unwrap();
    assert_eq!(rooms.len(), 4);
    assert_eq!(rooms[0], Room { position: UVec2::new(64, 0), size: UVec2::new(32, 32) });
    assert_eq!(rooms[1], Room { position: UVec2::new(64, 32), size: UVec2::new(32, 32) });
    assert_eq!(rooms[2], Room { position: UVec2::new(96, 0), size: UVec2::new(32, 32) });
    assert_eq!(rooms[3], Room { position: UVec2::new(96, 32), size: UVec2::new(32, 32) });
}

#[test]
fn rooms_of_refuses_a_class_too_large() {
    let t = Quadtree::new(15u16);
    assert!(matches!(rooms_of(&t, 0), Err(LevelError::Configuration)));
}

#[test]
fn carve_rooms_checks_all_before_carving() {
    let mut l = Level::new(UVec2::new(8, 8));
    let rooms = vec![
        Room { position: UVec2::new(0, 0), size: UVec2::new(2, 2) },
        Room { position: UVec2::new(4, 4), size: UVec2::new(4, 2) },
    ];
    assert_eq!(l.carve_rooms(&rooms, 3), Err(LevelError::GridBounds { x: 8, y: 6 }));
    assert!(l.data.iter().all(|row| row.iter().all(|v| *v == 0)));
    let rooms = vec![
        Room { position: UVec2::new(0, 0), size: UVec2::new(2, 2) },
        Room { position: UVec2::new(4, 4), size: UVec2::new(2, 2) },
    ];
    assert_eq!(l.carve_rooms(&rooms, 3), Ok(()));
    assert_eq!(l.data[0][2], 3);
    assert_eq!(l.data[1][1], 0);
    assert_eq!(l.data[6][6], 3);
    assert_eq!(l.data[5][5], 0);
}

#[test]
fn carve_trees_places_the_second_tree_right_of_the_first() {
    let mut l = Level::new(UVec2::new(129, 65));
    let a = Quadtree::new(5u16);
    let b = Quadtree::new(5u16);
    // a single leaf of class 5 is a 64-wide room: it fits.
    assert_eq!(l.carve_trees(&a, &b, 2), Ok(()));
    assert_eq!(l.data[0][0], 2);
    assert_eq!(l.data[64][64], 2);
    assert_eq!(l.data[0][128], 2);
    assert_eq!(l.data[1][1], 0);
}

#[test]
fn generate_fits_two_macro_cells() {
    for _ in 0..10 {
        let mut l = Level::new(UVec2::new(129, 65));
        assert_eq!(l.generate(1), Ok(()));
        assert_eq!(l.data[0][0], 1);
        for y in 0..=64usize {
            for x in 0..=128usize {
                if x % 16 == 0 || y % 16 == 0 {
                    assert_eq!(l.data[y][x], 1);
                }
            }
        }
        assert!(l.data.iter().all(|row| row.len() == 129));
    }
}

#[test]
fn generate_on_a_small_level_reports_bounds() {
    let mut l = Level::new(UVec2::new(9, 9));
    let r = l.generate(1);
    assert!(matches!(r, Err(LevelError::GridBounds { .. })));
    assert!(l.data.iter().all(|row| row.iter().all(|v| *v == 0)));
}
