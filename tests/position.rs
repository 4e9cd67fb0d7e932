use quadrogue::position::decode_position;
use quadrogue::vec2::UVec2;

#[test]
fn path_zero_is_the_corner() {
    assert_eq!(decode_position(0), UVec2::new(0, 0));
}

#[test]
fn largest_path_is_the_far_corner() {
    assert_eq!(decode_position(4095), UVec2::new(63, 63));
}

#[test]
fn first_level_bits_give_half_cell_offsets() {
    // bit 1 is x, bit 0 is y at the coarsest level
    assert_eq!(decode_position(0b10), UVec2::new(32, 0));
    assert_eq!(decode_position(0b01), UVec2::new(0, 32));
    assert_eq!(decode_position(0b11), UVec2::new(32, 32));
}

#[test]
fn deeper_levels_halve_the_offset() {
    assert_eq!(decode_position(0b10 << 2), UVec2::new(16, 0));
    assert_eq!(decode_position(0b01 << 8), UVec2::new(0, 2));
    assert_eq!(decode_position(0b10 << 10), UVec2::new(1, 0));
}

#[test]
fn decoding_is_a_bijection_on_the_macro_cell() {
    let mut seen = vec![false; 64 * 64];
    for p in 0..4096u32 {
        let d = decode_position(p);
        assert!(d.x < 64 && d.y < 64);
        let k = d.y as usize * 64 + d.x as usize;
        assert!(!seen[k]);
        seen[k] = true;
    }
    assert!(seen.iter().all(|s| *s));
}
