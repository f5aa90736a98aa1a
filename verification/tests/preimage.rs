use ashmaize_solver::benchmark::BenchmarkConfig;
use ashmaize_solver::preimage::{challenge_suffix, preimage};

fn config() -> BenchmarkConfig {
    BenchmarkConfig {
        address: "addr_test1qq".to_string(),
        challenge_id: "**D07C10".to_string(),
        difficulty: "000FFFFF".to_string(),
        no_pre_mine: "e8a195800b".to_string(),
        latest_submission: "2025-10-30T23:59:59.000Z".to_string(),
        no_pre_mine_hour: "509681483".to_string(),
        duration_secs: 10,
        batch_size: 1024,
    }
}

#[test]
fn suffix_joins_the_six_fields() {
    let c = config();
    let expected = format!(
        "{}{}{}{}{}{}",
        c.address, c.challenge_id, c.difficulty, c.no_pre_mine, c.latest_submission,
        c.no_pre_mine_hour
    );
    assert_eq!(c.suffix(), expected);
    assert_eq!(
        challenge_suffix("a", "b", "", "cd", "é", "f"),
        "abcdéf".to_string()
    );
}

#[test]
fn preimage_is_hex_nonce_then_suffix() {
    let suffix = config().suffix();
    for nonce in [0u64, 42, 0xffff_ffff_ffff_ffff] {
        let expected = format!("{:016x}{}", nonce, suffix).into_bytes();
        assert_eq!(preimage(nonce, &suffix), expected);
    }
    assert_eq!(preimage(1, ""), b"0000000000000001".to_vec());
}

#[test]
fn different_nonces_different_preimages() {
    assert_ne!(preimage(1, "x"), preimage(0x10, "x"));
}
