use ashmaize_solver::probe::{
    classify_probe_word, digest512, digest_word, digest_words, probe_input, probe_word,
    ProbeMatch, PROBE_CPU_WORD, PROBE_GPU_WORD, PROBE_SRC1, PROBE_SRC2,
};

#[test]
fn test_blake2b_direct() {
    println!("\n=== Testing blake2 crate directly ===");

    let src1 = 0x57aaaa9e896b78ed_u64;
    let src2 = 0xe8bcb6feb065ea96_u64;

    let input = probe_input(src1, src2);
    assert_eq!(&input[0..8], &src1.to_le_bytes());
    assert_eq!(&input[8..16], &src2.to_le_bytes());
    println!("Input (hex): {:02x?}", input);

    let out = digest512(&input);
    println!("\nBlake2b512::digest() output:");
    for (i, val) in digest_words(&out).iter().enumerate() {
        println!("  Chunk {}: 0x{:016x}", i, val);
    }

    let v = 2usize;
    let chunk_2 = match probe_word(src1, src2, v) {
        Some(w) => w,
        None => panic!("chunk doesn't exist"),
    };
    assert_eq!(Some(chunk_2), digest_word(&out, v));

    println!("\nExtracted chunk 2 (v=2): 0x{:016x}", chunk_2);
    println!("GPU result:              0x5694e7110ab9f4d3");
    println!("CPU trace showed:        0x5555698eee0fbaef");

    match classify_probe_word(chunk_2) {
        ProbeMatch::Gpu => println!("\n✓ blake2 crate MATCHES GPU!"),
        ProbeMatch::CpuTrace => println!("\n✓ blake2 crate MATCHES CPU trace!"),
        ProbeMatch::Neither => println!("\n? blake2 crate produces: 0x{:016x}", chunk_2),
    }
}

#[test]
fn blake2b512_known_answer() {
    // RFC 7693, Appendix A: BLAKE2b-512("abc")
    let expected = "ba80a53f981c4d0d6a2797b69f12f6e94c212f14685ac4b74b12bb6fdbffa2d1\
                    7d87c5392aab792dc252d5de4533cc9518d38aa8dbf1925ab92386edd4009923";
    let out = digest512(b"abc");
    let text: String = out.iter().map(|b| format!("{:02x}", b)).collect();
    assert_eq!(text, expected);
}

#[test]
fn digest_words_are_little_endian() {
    let bytes: Vec<u8> = (1u8..=16).collect();
    let words = digest_words(&bytes);
    assert_eq!(words, vec![0x0807060504030201, 0x100f0e0d0c0b0a09]);
    assert_eq!(digest_word(&bytes, 1), Some(0x100f0e0d0c0b0a09));
    assert_eq!(digest_word(&bytes, 2), None);
    assert_eq!(probe_word(PROBE_SRC1, PROBE_SRC2, 8), None);
}

#[test]
fn probe_words_are_classified() {
    assert_eq!(classify_probe_word(PROBE_GPU_WORD), ProbeMatch::Gpu);
    assert_eq!(classify_probe_word(PROBE_CPU_WORD), ProbeMatch::CpuTrace);
    assert_eq!(classify_probe_word(0), ProbeMatch::Neither);
}
