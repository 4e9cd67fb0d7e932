use quadrogue::quadtree::Quadtree;

fn leaf_value(t: &Quadtree<u16>) -> Option<u16> {
    t.value().copied()
}

#[test]
fn new_is_a_leaf() {
    let t = Quadtree::new(3u16);
    assert!(t.is_leaf());
    assert_eq!(leaf_value(&t), Some(3));
}

#[test]
fn subdivide_leaf_gives_four_clones() {
    let mut t = Quadtree::new(7u16);
    t.subdivide();
    assert!(!t.is_leaf());
    assert_eq!(t.value(), None);
    for k in 0..4 {
        let c = t.child(k).unwrap();
        assert_eq!(leaf_value(c), Some(7));
    }
    assert!(t.child(4).is_none());
}

#[test]
fn subdivide_twice_keeps_the_value() {
    let mut t = Quadtree::new(9u16);
    t.subdivide();
    t.subdivide();
    for k in 0..4 {
        let c = t.child(k).unwrap();
        assert!(!c.is_leaf());
        for m in 0..4 {
            let g = c.child(m).unwrap();
            assert!(g.is_leaf());
            assert_eq!(leaf_value(g), Some(9));
        }
    }
}

#[test]
fn child_of_leaf_is_none() {
    let t = Quadtree::new(1u16);
    assert!(t.child(0).is_none());
}

#[test]
fn set_child_replaces_one_quadrant() {
    let mut t = Quadtree::new(0u16);
    assert!(!t.set_child(0, Quadtree::new(5)));
    t.subdivide();
    assert!(t.set_child(2, Quadtree::new(5)));
    assert!(!t.set_child(4, Quadtree::new(6)));
    assert_eq!(leaf_value(t.child(2).unwrap()), Some(5));
    assert_eq!(leaf_value(t.child(1).unwrap()), Some(0));
}

#[test]
fn clone_copies_the_shape_and_values() {
    let mut t = Quadtree::new(4u16);
    t.subdivide();
    t.set_child(3, Quadtree::new(8));
    let u = t.clone();
    assert_eq!(leaf_value(u.child(3).unwrap()), Some(8));
    assert_eq!(leaf_value(u.child(0).unwrap()), Some(4));
}
