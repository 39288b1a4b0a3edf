use mitos_packages_toolkit::sign::{
    is_whitespace, seed_from_hex, signature_hex, trim, HexDecodeError,
};
use mitos_packages_toolkit::ToolkitError;

fn message(e: ToolkitError) -> String {
    match e {
        ToolkitError::Recipe(m) => m,
        other => panic!("expected a recipe error, got {:?}", other),
    }
}

/// The seed fixture: 32 zero bytes, hex encoded, with a trailing newline.
fn test_seed_text() -> String {
    format!("{}\n", "00".repeat(32))
}

#[test]
fn load_seed_reads_exactly_32_bytes() {
    let seed = seed_from_hex("tests/signatures/test-only-seed.hex", &test_seed_text())
        .expect("test-only-seed.hex should load");
    assert_eq!(seed, [0u8; 32]);
}

#[test]
fn seed_bytes_are_decoded_in_order() {
    let text = "  000102030405060708090A0B0C0D0E0F101112131415161718191a1b1c1d1e1f\r\n";
    let seed = seed_from_hex("s", text).unwrap();
    let expected: Vec<u8> = (0u8..32).collect();
    assert_eq!(seed.to_vec(), expected);
}

#[test]
fn seed_of_the_wrong_length_is_rejected() {
    assert_eq!(
        message(seed_from_hex("k.hex", &"00".repeat(31)).unwrap_err()),
        "seed at k.hex must be exactly 32 bytes"
    );
    assert_eq!(
        message(seed_from_hex("k.hex", "").unwrap_err()),
        "seed at k.hex must be exactly 32 bytes"
    );
}

#[test]
fn seed_that_is_not_hex_is_rejected() {
    assert_eq!(
        message(seed_from_hex("k.hex", "abc").unwrap_err()),
        "seed at k.hex is not valid hex: Odd number of digits"
    );
    assert_eq!(
        message(seed_from_hex("k.hex", "0g").unwrap_err()),
        "seed at k.hex is not valid hex: Invalid character 'g' at position 1"
    );
    let expected = format!("seed at k.hex is not valid hex: {}", hex::decode("zz").unwrap_err());
    assert_eq!(message(seed_from_hex("k.hex", "zz").unwrap_err()), expected);
}

#[test]
fn hex_error_values_match_the_hex_crate() {
    let e = hex::decode("0g").unwrap_err();
    assert_eq!(e, hex::FromHexError::InvalidHexCharacter { c: 'g', index: 1 });
    let ours = HexDecodeError::InvalidHexCharacter { c: 'g', index: 1 };
    assert_eq!(format!("{:?}", ours), "InvalidHexCharacter { c: 'g', index: 1 }");
}

#[test]
fn signatures_are_lower_case_hex() {
    assert_eq!(signature_hex(&[1, 2, 3, 15, 16]), "0102030f10");
    assert_eq!(signature_hex(&[]), "");
    let sig = [0xabu8; 64];
    let text = signature_hex(&sig);
    assert_eq!(text.len(), 128, "a hex-encoded 64-byte Ed25519 signature is 128 hex characters");
    assert_eq!(text, hex::encode(sig));
}

#[test]
fn a_written_seed_reads_back() {
    let seed: Vec<u8> = (100u8..132).collect();
    let text = signature_hex(&seed);
    assert_eq!(seed_from_hex("s", &text).unwrap().to_vec(), seed);
}

#[test]
fn distinct_signatures_publish_distinctly() {
    assert_ne!(signature_hex(&[0xaa, 0xaa]), signature_hex(&[0xbb, 0xbb]));
}

#[test]
fn trimming_matches_str_trim() {
    for s in ["", "  ", " a ", "\u{3000}x\u{85}", "\tab c\n", "x", "\u{a0}\u{2009}y\u{200b}"] {
        assert_eq!(trim(s), s.trim(), "trim of {:?}", s);
    }
}

#[test]
fn whitespace_matches_char_is_whitespace() {
    for u in 0u32..0x3100 {
        if let Some(c) = char::from_u32(u) {
            assert_eq!(is_whitespace(c), c.is_whitespace(), "U+{:04X}", u);
        }
    }
}

#[test]
fn upper_case_seed_with_white_space_reads_back() {
    let seed: Vec<u8> = (200u8..232).collect();
    let text = format!(" \t{}\n\n", hex::encode_upper(&seed));
    assert_eq!(seed_from_hex("seed.hex", &text).unwrap().to_vec(), seed);
}
