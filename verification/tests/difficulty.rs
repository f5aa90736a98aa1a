use ashmaize_solver::difficulty::hash_structure_good;

#[test]
fn short_hash_is_never_good() {
    assert!(!hash_structure_good(&[], 0xffff_ffff));
    assert!(!hash_structure_good(&[0, 0, 0], 0xffff_ffff));
}

#[test]
fn zero_prefix_meets_zero_mask() {
    let mut h = [0xffu8; 64];
    h[0] = 0;
    h[1] = 0;
    h[2] = 0;
    h[3] = 0;
    assert!(hash_structure_good(&h, 0));
    h[3] = 1;
    assert!(!hash_structure_good(&h, 0));
}

#[test]
fn prefix_is_read_big_endian() {
    // prefix 0x000f_1234 fits the mask 0x000f_ffff but not 0x0000_ffff
    let h = [0x00u8, 0x0f, 0x12, 0x34, 0xff, 0xff];
    assert!(hash_structure_good(&h, 0x000f_ffff));
    assert!(!hash_structure_good(&h, 0x0000_ffff));
    // the same bytes read little-endian would be 0x3412_0f00
    assert!(!hash_structure_good(&h, 0x3412_0f00));
}

#[test]
fn full_mask_accepts_everything() {
    assert!(hash_structure_good(&[0xff, 0xff, 0xff, 0xff], 0xffff_ffff));
    assert!(hash_structure_good(&[0x12, 0x34, 0x56, 0x78, 9], 0xffff_ffff));
}

#[test]
fn widening_the_mask_keeps_a_good_hash() {
    let h = [0x00u8, 0x00, 0x3a, 0x01];
    assert!(hash_structure_good(&h, 0x0000_ffff));
    assert!(hash_structure_good(&h, 0x00ff_ffff));
    assert!(hash_structure_good(&h, 0xffff_ffff));
}

#[test]
fn leading_zero_masks_count_zero_bits() {
    // 20 leading zero bits: the prefix must be below 2^12
    let mask = 0xffff_ffffu32 >> 20;
    assert!(hash_structure_good(&[0, 0, 0x0f, 0xff], mask));
    assert!(!hash_structure_good(&[0, 0, 0x10, 0x00], mask));
}

#[test]
fn bytes_after_the_prefix_do_not_matter() {
    let a = [0u8, 0, 0, 7, 1, 2, 3];
    let b = [0u8, 0, 0, 7, 9, 9];
    assert_eq!(hash_structure_good(&a, 0xf), hash_structure_good(&b, 0xf));
    assert!(hash_structure_good(&a, 0xf));
}
