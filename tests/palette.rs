use quadrogue::palette::Palette;
use quadrogue::tile::Tile;

#[test]
fn insert_appends_new_names_in_order() {
    let mut p = Palette::new();
    assert_eq!(p.insert("a".to_string(), Tile::new('a', 1, 2, true)), None);
    assert_eq!(p.insert("b".to_string(), Tile::new('b', 1, 2, false)), None);
    assert_eq!(p.len(), 2);
    assert_eq!(p.index_of("a"), Some(0));
    assert_eq!(p.index_of("b"), Some(1));
    assert_eq!(p.index_of("c"), None);
    assert_eq!(p.name(1), Some("b".to_string()));
    assert_eq!(p.tile(0), Some(Tile::new('a', 1, 2, true)));
    assert_eq!(p.tile(2), None);
    assert_eq!(p.name(2), None);
}

#[test]
fn insert_replaces_an_existing_name_in_place() {
    let mut p = Palette::new();
    p.insert("a".to_string(), Tile::new('a', 1, 2, true));
    p.insert("b".to_string(), Tile::new('b', 1, 2, true));
    let old = p.insert("a".to_string(), Tile::new('A', 3, 4, false));
    assert_eq!(old, Some(Tile::new('a', 1, 2, true)));
    assert_eq!(p.len(), 2);
    assert_eq!(p.index_of("a"), Some(0));
    assert_eq!(p.tile(0), Some(Tile::new('A', 3, 4, false)));
}

#[test]
fn tile_from_string_uses_defaults() {
    let t = Tile::from_string("ab", None, Some(3));
    assert_eq!(t, vec![Tile::new('a', 15, 3, false), Tile::new('b', 15, 3, false)]);
    assert!(Tile::from_string("", Some(1), None).is_empty());
}
