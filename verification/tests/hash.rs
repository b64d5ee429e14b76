use particle_node::hash::HashParseError;
use particle_node::hex::{decode, encode};

const EMPTY_DIGEST: &str = "af1349b9f5f9a1a6a0404dea36dcc9499bcb25c9adc112b7cc9a93cae41f3262";

#[test]
fn hash_of_empty_input_is_the_known_digest() {
    let h = particle_node::hash::Hash::hash(&[]);
    assert_eq!(h.to_hex(), EMPTY_DIGEST);
}

#[test]
fn hash_agrees_with_blake3() {
    let h = particle_node::hash::Hash::hash(&[1, 2, 3]);
    let expected = blake3::hash(&[1, 2, 3]);
    assert_eq!(h.as_bytes(), expected.as_bytes());
    assert_eq!(h.to_hex(), expected.to_hex().to_string());
    assert_ne!(h.as_bytes()[..], [1u8, 2, 3][..]);
}

#[test]
fn hash_differs_with_input() {
    let a = particle_node::hash::Hash::hash(&[1, 2, 3]);
    let b = particle_node::hash::Hash::hash(&[3, 2, 1]);
    assert_ne!(a, b);
}

#[test]
fn hex_round_trip() {
    let h = particle_node::hash::Hash::hash(b"module bytes");
    let hex = h.to_hex();
    assert_eq!(hex.len(), 64);
    assert!(hex.chars().all(|c| c.is_ascii_digit() || ('a'..='f').contains(&c)));
    assert_eq!(particle_node::hash::Hash::from_hex(&hex), Ok(h));
}

#[test]
fn from_hex_takes_upper_case() {
    let h = particle_node::hash::Hash::from_hex(EMPTY_DIGEST).unwrap();
    let upper = EMPTY_DIGEST.to_uppercase();
    assert_eq!(particle_node::hash::Hash::from_hex(&upper), Ok(h));
    assert_eq!(h.to_hex(), EMPTY_DIGEST);
}

#[test]
fn from_hex_rejects_wrong_length() {
    assert_eq!(
        particle_node::hash::Hash::from_hex("abcd"),
        Err(HashParseError::InvalidLength)
    );
    assert_eq!(
        particle_node::hash::Hash::from_hex(""),
        Err(HashParseError::InvalidLength)
    );
    let long = format!("{}00", EMPTY_DIGEST);
    assert_eq!(
        particle_node::hash::Hash::from_hex(&long),
        Err(HashParseError::InvalidLength)
    );
}

#[test]
fn from_hex_rejects_bad_digit() {
    let bad = format!("g{}", &EMPTY_DIGEST[1..]);
    assert_eq!(
        particle_node::hash::Hash::from_hex(&bad),
        Err(HashParseError::InvalidDigit)
    );
    let bad = format!("{}é", &EMPTY_DIGEST[..63]);
    assert_eq!(
        particle_node::hash::Hash::from_hex(&bad),
        Err(HashParseError::InvalidDigit)
    );
}

#[test]
fn from_bytes_keeps_bytes() {
    let mut bytes = [0u8; 32];
    bytes[0] = 0xab;
    bytes[31] = 0x01;
    let h = particle_node::hash::Hash::from_bytes(bytes);
    assert_eq!(h.as_bytes(), &bytes);
    assert_eq!(
        h.to_hex(),
        "ab00000000000000000000000000000000000000000000000000000000000001"
    );
}

#[test]
fn encode_exact() {
    assert_eq!(encode(&[]), "");
    assert_eq!(encode(&[0x00, 0xff, 0x10, 0x0a]), "00ff100a");
    assert_eq!(encode(&[0x12, 0x34, 0x56, 0x78, 0x9a, 0xbc, 0xde, 0xf0]), "123456789abcdef0");
}

#[test]
fn decode_exact() {
    assert_eq!(decode(""), Some(vec![]));
    assert_eq!(decode("00ff100a"), Some(vec![0x00, 0xff, 0x10, 0x0a]));
    assert_eq!(decode("00FF100A"), Some(vec![0x00, 0xff, 0x10, 0x0a]));
    assert_eq!(decode("aBcD"), Some(vec![0xab, 0xcd]));
}

#[test]
fn decode_rejects() {
    assert_eq!(decode("0"), None);
    assert_eq!(decode("0g"), None);
    assert_eq!(decode("zz"), None);
    assert_eq!(decode("0 "), None);
    assert_eq!(decode("/0"), None);
    assert_eq!(decode(":0"), None);
    assert_eq!(decode("@0"), None);
    assert_eq!(decode("G0"), None);
    assert_eq!(decode("`0"), None);
}

#[test]
fn decode_inverts_encode() {
    let bytes: Vec<u8> = (0..=255u8).collect();
    assert_eq!(decode(&encode(&bytes)), Some(bytes));
}
