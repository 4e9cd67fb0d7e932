use quadrogue::flatten::{iter, QuadtreeFlat};
use quadrogue::quadtree::Quadtree;

fn full(depth: u32) -> Quadtree<u16> {
    let mut t = Quadtree::new(0u16);
    for _ in 0..depth {
        t.subdivide();
    }
    t
}

#[test]
fn leaf_flattens_to_one_entry() {
    let t = Quadtree::new(3u16);
    let v = iter(&t, 0, 0);
    assert_eq!(v.len(), 1);
    assert_eq!(v[0].position(), 0);
    assert_eq!(*v[0].data(), 3);
}

#[test]
fn one_level_paths_are_quadrant_indices() {
    let t = full(1);
    let v = iter(&t, 0, 0);
    let paths: Vec<u32> = v.iter().map(|e| e.position()).collect();
    assert_eq!(paths, vec![0, 1, 2, 3]);
}

#[test]
fn deeper_levels_take_higher_bits() {
    let mut t = full(1);
    let mut inner = Quadtree::new(5u16);
    inner.subdivide();
    t.set_child(1, inner);
    let v = iter(&t, 0, 0);
    let paths: Vec<u32> = v.iter().map(|e| e.position()).collect();
    // quadrant 1 at level 0, then 0..3 at level 1 (bits 2-3)
    assert_eq!(paths, vec![0, 1, 1 | 4, 1 | 8, 1 | 12, 2, 3]);
    assert_eq!(*v[2].data(), 5);
}

#[test]
fn full_tree_has_four_to_the_depth_distinct_paths() {
    for depth in 0..=4u32 {
        let t = full(depth);
        let v = iter(&t, 0, 0);
        let n = 4usize.pow(depth);
        assert_eq!(v.len(), n);
        let mut paths: Vec<u32> = v.iter().map(|e| e.position()).collect();
        assert!(paths.iter().all(|p| (*p as usize) < n));
        paths.sort();
        paths.dedup();
        assert_eq!(paths.len(), n);
    }
}

#[test]
fn flat_entry_new_keeps_its_parts() {
    let x = 11u16;
    let e = QuadtreeFlat::new(42, &x);
    assert_eq!(e.position(), 42);
    assert_eq!(*e.data(), 11);
}
