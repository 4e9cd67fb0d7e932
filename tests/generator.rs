use quadrogue::error::LevelError;
use quadrogue::generator::{quadtree_gen, should_split, weight_of};
use quadrogue::quadtree::Quadtree;

fn check_bounds(t: &Quadtree<u16>, depth: usize, n: usize) {
    match t.value() {
        Some(v) => {
            assert!(depth <= n);
            assert!((*v as usize) <= n - 1);
        }
        None => {
            for k in 0..4 {
                check_bounds(t.child(k).unwrap(), depth + 1, n);
            }
        }
    }
}

#[test]
fn generated_leaves_are_bounded() {
    for n in 1..=5usize {
        for _ in 0..20 {
            let mut t = Quadtree::new(0u16);
            assert_eq!(quadtree_gen(&mut t, n), Ok(()));
            assert!(!t.is_leaf());
            check_bounds(&t, 0, n);
        }
    }
}

#[test]
fn depth_one_gives_four_class_zero_leaves() {
    let mut t = Quadtree::new(9u16);
    assert_eq!(quadtree_gen(&mut t, 1), Ok(()));
    for k in 0..4 {
        assert_eq!(t.child(k).unwrap().value().copied(), Some(0));
    }
}

#[test]
fn depth_five_always_splits_the_root_quadrants() {
    let mut t = Quadtree::new(0u16);
    assert_eq!(quadtree_gen(&mut t, 5), Ok(()));
    for k in 0..4 {
        assert!(!t.child(k).unwrap().is_leaf());
    }
}

#[test]
fn depth_zero_and_too_deep_are_refused() {
    let mut t = Quadtree::new(3u16);
    assert_eq!(quadtree_gen(&mut t, 0), Err(LevelError::Configuration));
    assert_eq!(quadtree_gen(&mut t, 6), Err(LevelError::Configuration));
    assert!(t.is_leaf());
    assert_eq!(t.value().copied(), Some(3));
}

#[test]
fn weight_table() {
    let w: Vec<u32> = (0..=5).map(weight_of).collect();
    assert_eq!(w, vec![0, 1, 2, 7, 9, 10]);
}

#[test]
fn split_decision_follows_the_weight() {
    assert!(should_split(0, 2));
    assert!(should_split(1, 2));
    assert!(!should_split(2, 2));
    assert!(should_split(6, 3));
    assert!(!should_split(7, 3));
    assert!(should_split(9, 5));
    assert!(!should_split(0, 1));
    assert!(!should_split(0, 0));
}

#[test]
fn depth_five_leaves_lie_at_depth_two_or_more() {
    for _ in 0..20 {
        let mut t = Quadtree::new(0u16);
        assert_eq!(quadtree_gen(&mut t, 5), Ok(()));
        for k in 0..4 {
            let c = t.child(k).unwrap();
            for m in 0..4 {
                let g = c.child(m).unwrap();
                if let Some(v) = g.value() {
                    assert_eq!(*v, 3);
                }
            }
        }
    }
}
