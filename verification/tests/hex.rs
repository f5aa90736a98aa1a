use std::num::IntErrorKind;

use ashmaize_solver::hex::{
    encode_hex, hash_hex_prefix, nonce_hex, parse_hex_bounded, parse_hex_u32, parse_hex_u64,
    HexParseError,
};

fn kind_of(k: &IntErrorKind) -> HexParseError {
    match k {
        IntErrorKind::Empty => HexParseError::Empty,
        IntErrorKind::InvalidDigit => HexParseError::InvalidDigit,
        IntErrorKind::PosOverflow => HexParseError::PosOverflow,
        other => panic!("unexpected kind {:?}", other),
    }
}

const CASES: &[&str] = &[
    "", "+", "-", "0", "00000000", "ff", "FF", "+ff", "-ff", "++1", "fFfF", "ffffffff",
    "100000000", "0000000000ffffffff", "ffffffffg", "1ffffffffg", "g", "1g", " 1", "1 ", "x1",
    "ffffffffffffffff", "10000000000000000", "0x10", "é1", "7fffffff",
];

#[test]
fn parse_u32_agrees_with_from_str_radix() {
    for s in CASES {
        let ours = parse_hex_u32(s);
        let std = u32::from_str_radix(s, 16).map_err(|e| kind_of(e.kind()));
        assert_eq!(ours, std, "input {:?}", s);
    }
}

#[test]
fn parse_u64_agrees_with_from_str_radix() {
    for s in CASES {
        let ours = parse_hex_u64(s);
        let std = u64::from_str_radix(s, 16).map_err(|e| kind_of(e.kind()));
        assert_eq!(ours, std, "input {:?}", s);
    }
}

#[test]
fn parse_error_kinds() {
    assert_eq!(parse_hex_u32(""), Err(HexParseError::Empty));
    assert_eq!(parse_hex_u32("+"), Err(HexParseError::InvalidDigit));
    assert_eq!(parse_hex_u32("ffffffffg"), Err(HexParseError::InvalidDigit));
    assert_eq!(parse_hex_u32("1ffffffffg"), Err(HexParseError::PosOverflow));
    assert_eq!(parse_hex_u32("ffffffff"), Ok(0xffff_ffff));
    assert_eq!(parse_hex_u32("+0000ffff"), Ok(0xffff));
    assert_eq!(parse_hex_bounded(b"100", 0xff), Err(HexParseError::PosOverflow));
    assert_eq!(parse_hex_bounded(b"ff", 0xff), Ok(0xff));
}

#[test]
fn nonce_hex_is_sixteen_lowercase_digits() {
    for n in [0u64, 1, 0x1234, 0xdead_beef, 0x0123_4567_89ab_cdef, u64::MAX] {
        assert_eq!(nonce_hex(n), format!("{:016x}", n).into_bytes());
    }
    assert_eq!(nonce_hex(0xab), b"00000000000000ab".to_vec());
}

#[test]
fn nonce_hex_round_trip() {
    for n in [0u64, 7, 0xffff, 0x8000_0000_0000_0000, u64::MAX, 0x5a5a_1234_0000_9999] {
        let text = String::from_utf8(nonce_hex(n)).unwrap();
        assert_eq!(parse_hex_u64(&text), Ok(n));
    }
}

#[test]
fn encode_hex_matches_bytes() {
    assert_eq!(encode_hex(&[0xde, 0xad, 0x01, 0x00]), "dead0100");
    assert_eq!(encode_hex(&[]), "");
    let hash: Vec<u8> = (0u8..64).collect();
    assert_eq!(hash_hex_prefix(&hash), "0001020304050607");
}
