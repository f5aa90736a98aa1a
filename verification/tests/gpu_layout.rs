use ashmaize_solver::gpu_layout::{
    grid_blocks, pack_salts, program_size, split_results, template_programs,
};

#[test]
fn salts_are_padded_to_longest() {
    let a: &[u8] = b"ab";
    let b: &[u8] = b"cdef";
    let c: &[u8] = b"";
    let (packed, width) = pack_salts(&[a, b, c]);
    assert_eq!(width, 4);
    assert_eq!(packed, b"ab\0\0cdef\0\0\0\0".to_vec());
    let (packed, width) = pack_salts(&[]);
    assert_eq!(width, 0);
    assert!(packed.is_empty());
}

#[test]
fn grid_covers_every_hash() {
    assert_eq!(grid_blocks(0), 0);
    assert_eq!(grid_blocks(1), 1);
    assert_eq!(grid_blocks(256), 1);
    assert_eq!(grid_blocks(257), 2);
    assert_eq!(grid_blocks(131072), 512);
}

#[test]
fn program_buffers() {
    assert_eq!(program_size(256), 5120);
    let t = template_programs(3, 2);
    assert_eq!(t.len(), 120);
    assert!(t.iter().all(|&b| b == 0));
}

#[test]
fn results_are_cut_in_64_byte_hashes() {
    let host: Vec<u8> = (0..130u32).map(|x| x as u8).collect();
    let out = split_results(&host, 2);
    assert_eq!(out.len(), 2);
    assert_eq!(out[0][0], 0);
    assert_eq!(out[0][63], 63);
    assert_eq!(out[1][0], 64);
    assert_eq!(out[1][63], 127);
    assert!(split_results(&host, 0).is_empty());
}
