use ashmaize_solver::rom::{init_rom_params, GB, MB};

#[test]
fn challenge_rom_parameters() {
    let p = init_rom_params("e8a195800b");
    assert_eq!(p.key, b"e8a195800b".to_vec());
    assert_eq!(p.pre_size, 16 * 1024 * 1024);
    assert_eq!(p.mixing_numbers, 4);
    assert_eq!(p.size, 1 << 30);
    assert_eq!(MB, 1 << 20);
    assert_eq!(GB, 1 << 30);
}
