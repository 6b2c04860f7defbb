use p256::ecdsa::signature::{Signer, Verifier};
use warg::hash::{HashAlgorithm, HashParseError};
use warg::package::model::Permission;
use warg::signing::{
    PrivateKey, PublicKey, PublicKeyParseError, Signature, SignatureAlgorithm, SignatureError,
    SignatureParseError,
};
use warg::text::{
    decimal_decode, find_byte, hex_decode, push_decimal, push_hex, same_bytes, split_at_byte,
};
use warg::version::{Version, VersionParseError};

fn hex(bytes: &[u8]) -> Vec<u8> {
    let mut text = Vec::new();
    push_hex(&mut text, bytes);
    text
}

fn decimal(n: u64) -> Vec<u8> {
    let mut text = Vec::new();
    push_decimal(&mut text, n);
    text
}

#[test]
fn hex_encodes_lowercase_high_half_first() {
    assert_eq!(hex(&[]), b"".to_vec());
    assert_eq!(hex(&[0x00]), b"00".to_vec());
    assert_eq!(hex(&[0x0f, 0xf0, 0xa9, 0xff]), b"0ff0a9ff".to_vec());
    let mut text = b"x:".to_vec();
    push_hex(&mut text, &[0xbe, 0xef]);
    assert_eq!(text, b"x:beef".to_vec());
}

#[test]
fn hex_decodes_what_it_encoded() {
    let all: Vec<u8> = (0..=255u8).collect();
    assert_eq!(hex_decode(&hex(&all)), Some(all));
    assert_eq!(hex_decode(b""), Some(vec![]));
    assert_eq!(hex_decode(b"0ff0a9ff"), Some(vec![0x0f, 0xf0, 0xa9, 0xff]));
}

#[test]
fn hex_refuses_odd_length_uppercase_and_other_characters() {
    assert_eq!(hex_decode(b"0"), None);
    assert_eq!(hex_decode(b"abc"), None);
    assert_eq!(hex_decode(b"AB"), None);
    assert_eq!(hex_decode(b"0g"), None);
    assert_eq!(hex_decode(b"g0"), None);
    assert_eq!(hex_decode(b"0 "), None);
    assert_eq!(hex_decode(b"/0"), None);
    assert_eq!(hex_decode(b":0"), None);
    assert_eq!(hex_decode(b"`0"), None);
}

#[test]
fn decimal_text_has_no_leading_zeros() {
    assert_eq!(decimal(0), b"0".to_vec());
    assert_eq!(decimal(9), b"9".to_vec());
    assert_eq!(decimal(10), b"10".to_vec());
    assert_eq!(decimal(1234567890), b"1234567890".to_vec());
    assert_eq!(decimal(u64::MAX), b"18446744073709551615".to_vec());
}

#[test]
fn decimal_decodes_up_to_64_bits() {
    assert_eq!(decimal_decode(b"0"), Some(0));
    assert_eq!(decimal_decode(b"42"), Some(42));
    assert_eq!(decimal_decode(b"18446744073709551615"), Some(u64::MAX));
    assert_eq!(decimal_decode(b"18446744073709551616"), None);
    assert_eq!(decimal_decode(b"99999999999999999999"), None);
    assert_eq!(decimal_decode(b"184467440737095516150"), None);
}

#[test]
fn decimal_refuses_empty_signs_and_leading_zeros() {
    assert_eq!(decimal_decode(b""), None);
    assert_eq!(decimal_decode(b"00"), None);
    assert_eq!(decimal_decode(b"01"), None);
    assert_eq!(decimal_decode(b"+1"), None);
    assert_eq!(decimal_decode(b"-1"), None);
    assert_eq!(decimal_decode(b"1a"), None);
    assert_eq!(decimal_decode(b"1 "), None);
    assert_eq!(decimal_decode(b"/"), None);
    assert_eq!(decimal_decode(b":"), None);
}

#[test]
fn find_and_split_take_the_first_mark() {
    assert_eq!(find_byte(b"a:b:c", b':'), 1);
    assert_eq!(find_byte(b"abc", b':'), 3);
    assert_eq!(find_byte(b"", b':'), 0);
    assert_eq!(split_at_byte(b"a:b:c", b':'), Some((&b"a"[..], &b"b:c"[..])));
    assert_eq!(split_at_byte(b":", b':'), Some((&b""[..], &b""[..])));
    assert_eq!(split_at_byte(b"abc", b':'), None);
    assert!(same_bytes(b"abc", b"abc"));
    assert!(!same_bytes(b"abc", b"abd"));
    assert!(!same_bytes(b"abc", b"ab"));
    assert!(same_bytes(b"", b""));
}

#[test]
fn hash_text_form_of_zeros() {
    let text = format!("sha256:{}", "00".repeat(32));
    let hash = warg::hash::Hash::from_str(&text).unwrap();
    assert_eq!(hash.algorithm, HashAlgorithm::SHA256);
    assert_eq!(hash.bytes, vec![0u8; 32]);
    assert_eq!(hash.text(), text.as_bytes().to_vec());
    assert_eq!(warg::hash::Hash::parse(&hash.text()), Ok(hash));
}

#[test]
fn hash_of_known_data() {
    let hash = HashAlgorithm::SHA256.digest(b"abc");
    assert_eq!(
        hash.text(),
        b"sha256:ba7816bf8f01cfea414140de5dae2223b00361a396177a9cb410ff61f20015ad".to_vec()
    );
    let empty = HashAlgorithm::SHA256.digest(b"");
    assert_eq!(
        empty.text(),
        b"sha256:e3b0c44298fc1c149afbf4c8996fb92427ae41e4649b934ca495991b7852b855".to_vec()
    );
    assert!(hash.same(&hash.copy()));
    assert!(!hash.same(&empty));
}

#[test]
fn hash_parse_errors() {
    let parse = warg::hash::Hash::parse;
    assert_eq!(parse(b""), Err(HashParseError::IncorrectStructure));
    assert_eq!(parse(b"sha256"), Err(HashParseError::IncorrectStructure));
    assert_eq!(parse(b"md5:00"), Err(HashParseError::UnsupportedAlgorithm));
    assert_eq!(parse(b"SHA256:00"), Err(HashParseError::UnsupportedAlgorithm));
    assert_eq!(parse(b":00"), Err(HashParseError::UnsupportedAlgorithm));
    assert_eq!(parse(b"sha256:0"), Err(HashParseError::InvalidHex));
    assert_eq!(parse(b"sha256:zz"), Err(HashParseError::InvalidHex));
    assert_eq!(parse(b"sha256:00:00"), Err(HashParseError::InvalidHex));
    assert_eq!(parse(b"sha256:"), Err(HashParseError::IncorrectLength));
    assert_eq!(parse(b"sha256:00"), Err(HashParseError::IncorrectLength));
    let long = format!("sha256:{}", "00".repeat(33));
    assert_eq!(parse(long.as_bytes()), Err(HashParseError::IncorrectLength));
    let upper = format!("sha256:{}", "AB".repeat(32));
    assert_eq!(parse(upper.as_bytes()), Err(HashParseError::InvalidHex));
}

#[test]
fn hash_algorithm_text_form() {
    assert_eq!(HashAlgorithm::SHA256.name(), b"sha256");
    assert_eq!(HashAlgorithm::parse(b"sha256"), Some(HashAlgorithm::SHA256));
    assert_eq!(HashAlgorithm::from_str("sha256"), Some(HashAlgorithm::SHA256));
    assert_eq!(HashAlgorithm::from_str("sha512"), None);
    assert_eq!(HashAlgorithm::parse(b"sha-256"), None);
    assert_eq!(HashAlgorithm::parse(b"sha25"), None);
    assert_eq!(HashAlgorithm::parse(b""), None);
}

#[test]
fn permission_text_form() {
    assert_eq!(Permission::Release.text(), b"release");
    assert_eq!(Permission::Yank.text(), b"yank");
    assert_eq!(Permission::Release.to_string(), "release");
    assert_eq!(Permission::Yank.to_string(), "yank");
    assert_eq!(Permission::from_str(&Permission::Yank.to_string()), Some(Permission::Yank));
    assert_eq!(Permission::from_str("release"), Some(Permission::Release));
    assert_eq!(Permission::from_str("yank"), Some(Permission::Yank));
    assert_eq!(Permission::from_str("Release"), None);
    assert_eq!(Permission::from_str("YANK"), None);
    assert_eq!(Permission::from_str(""), None);
    assert_eq!(Permission::parse(b"yank "), None);
}

#[test]
fn version_text_form() {
    let version = Version { major: 1, minor: 2, patch: 0 };
    assert_eq!(version.text(), b"1.2.0".to_vec());
    assert_eq!(Version::parse(b"1.2.0"), Ok(version));
    assert_eq!(Version::from_str("1.2.0"), Ok(version));
    assert_eq!(Version::from_str("1.2"), Err(VersionParseError::IncorrectStructure));
    let big = Version { major: u64::MAX, minor: 0, patch: 10 };
    assert_eq!(big.text(), b"18446744073709551615.0.10".to_vec());
    assert_eq!(Version::parse(&big.text()), Ok(big));
}

#[test]
fn version_parse_errors() {
    assert_eq!(Version::parse(b""), Err(VersionParseError::IncorrectStructure));
    assert_eq!(Version::parse(b"1"), Err(VersionParseError::IncorrectStructure));
    assert_eq!(Version::parse(b"1.2"), Err(VersionParseError::IncorrectStructure));
    assert_eq!(Version::parse(b"1.2."), Err(VersionParseError::InvalidNumber));
    assert_eq!(Version::parse(b"1..3"), Err(VersionParseError::InvalidNumber));
    assert_eq!(Version::parse(b".2.3"), Err(VersionParseError::InvalidNumber));
    assert_eq!(Version::parse(b"1.2.3.4"), Err(VersionParseError::InvalidNumber));
    assert_eq!(Version::parse(b"01.2.3"), Err(VersionParseError::InvalidNumber));
    assert_eq!(Version::parse(b"1.2.x"), Err(VersionParseError::InvalidNumber));
    assert_eq!(
        Version::parse(b"18446744073709551616.0.0"),
        Err(VersionParseError::InvalidNumber)
    );
}

fn alice() -> PrivateKey {
    PrivateKey::from_bytes(vec![1u8; 32]).unwrap()
}

#[test]
fn public_key_is_the_one_p256_derives() {
    let key = alice().public_key();
    let expected = p256::ecdsa::SigningKey::from_slice(&[1u8; 32]).unwrap();
    let expected = expected.verifying_key().to_encoded_point(true);
    assert_eq!(key.algorithm, SignatureAlgorithm::EcdsaP256);
    assert_eq!(key.bytes, expected.as_bytes().to_vec());
    assert_eq!(key.bytes.len(), 33);
    assert!(key.bytes[0] == 2 || key.bytes[0] == 3);
    assert_ne!(key.bytes[1..], [1u8; 32]);
}

#[test]
fn private_key_refuses_what_is_no_scalar() {
    assert!(matches!(PrivateKey::from_bytes(vec![0u8; 32]), Err(SignatureError::InvalidKey)));
    assert!(matches!(PrivateKey::from_bytes(vec![0xffu8; 32]), Err(SignatureError::InvalidKey)));
    assert!(matches!(PrivateKey::from_bytes(vec![1u8; 33]), Err(SignatureError::InvalidKey)));
    assert!(matches!(PrivateKey::from_bytes(vec![1u8; 23]), Err(SignatureError::InvalidKey)));
    assert!(matches!(PrivateKey::from_bytes(vec![]), Err(SignatureError::InvalidKey)));
}

#[test]
fn private_key_of_fewer_bytes_counts_with_zeros_before() {
    let short = PrivateKey::from_bytes(vec![1u8; 24]).unwrap();
    let mut padded = vec![0u8; 8];
    padded.extend_from_slice(&[1u8; 24]);
    let long = PrivateKey::from_bytes(padded).unwrap();
    assert_eq!(short.public_key(), long.public_key());
    assert_eq!(short.sign(b"m").unwrap(), long.sign(b"m").unwrap());
}

#[test]
fn public_key_text_form() {
    let key = alice().public_key();
    let text = key.text();
    assert!(text.starts_with(b"ecdsa-p256:"));
    assert_eq!(text.len(), 11 + 66);
    assert_eq!(PublicKey::parse(&text), Ok(key.copy()));
    assert_eq!(PublicKey::from_str(&String::from_utf8(text.clone()).unwrap()), Ok(key.copy()));
    assert_eq!(key.copy(), key);
    let mut plain = vec![4u8];
    plain.extend_from_slice(&[7u8; 64]);
    let plain = PublicKey { algorithm: SignatureAlgorithm::EcdsaP256, bytes: plain };
    assert_eq!(PublicKey::parse(&plain.text()), Ok(plain));
}

#[test]
fn public_key_parse_errors() {
    assert_eq!(PublicKey::parse(b"ecdsa-p256"), Err(PublicKeyParseError::IncorrectStructure));
    assert_eq!(PublicKey::parse(b"rsa:00"), Err(PublicKeyParseError::UnsupportedAlgorithm));
    assert_eq!(PublicKey::parse(b"ecdsa-p256:0"), Err(PublicKeyParseError::InvalidHex));
    assert_eq!(PublicKey::parse(b"ecdsa-p256:"), Err(PublicKeyParseError::InvalidKey));
    assert_eq!(PublicKey::parse(b"ecdsa-p256:02"), Err(PublicKeyParseError::InvalidKey));
    let wrong_prefix = format!("ecdsa-p256:04{}", "00".repeat(32));
    assert_eq!(PublicKey::parse(wrong_prefix.as_bytes()), Err(PublicKeyParseError::InvalidKey));
    let wrong_prefix = format!("ecdsa-p256:02{}", "00".repeat(64));
    assert_eq!(PublicKey::parse(wrong_prefix.as_bytes()), Err(PublicKeyParseError::InvalidKey));
}

#[test]
fn key_id_is_the_digest_of_the_text_form() {
    let key = alice().public_key();
    assert_eq!(key.digest(), HashAlgorithm::SHA256.digest(&key.text()));
}

#[test]
fn signature_is_the_one_p256_makes_and_verifies() {
    let key = alice();
    let message = b"a message";
    let signature = key.sign(message).unwrap();
    assert_eq!(signature.algorithm, SignatureAlgorithm::EcdsaP256);
    assert_eq!(signature.bytes.len(), 64);
    let reference = p256::ecdsa::SigningKey::from_slice(&[1u8; 32]).unwrap();
    let expected: p256::ecdsa::Signature = reference.sign(message);
    assert_eq!(signature.bytes, expected.to_bytes().to_vec());
    let parsed = p256::ecdsa::Signature::from_slice(&signature.bytes).unwrap();
    assert!(reference.verifying_key().verify(message, &parsed).is_ok());
    assert_ne!(signature.bytes[..9], message[..]);
}

#[test]
fn verify_accepts_the_signed_message_only() {
    let key = alice();
    let public = key.public_key();
    let signature = key.sign(b"a message").unwrap();
    assert!(public.verify(b"a message", &signature));
    assert!(!public.verify(b"another message", &signature));
    let other = PrivateKey::from_bytes(vec![2u8; 32]).unwrap().public_key();
    assert!(!other.verify(b"a message", &signature));
    let mut tampered = signature.clone();
    tampered.bytes[10] ^= 1;
    assert!(!public.verify(b"a message", &tampered));
    let short = Signature { algorithm: SignatureAlgorithm::EcdsaP256, bytes: vec![1u8; 10] };
    assert!(!public.verify(b"a message", &short));
    let no_point = PublicKey { algorithm: SignatureAlgorithm::EcdsaP256, bytes: vec![2u8; 33] };
    assert!(!no_point.verify(b"a message", &signature));
}

#[test]
fn signature_text_form() {
    let signature = alice().sign(b"m").unwrap();
    let text = signature.text();
    assert!(text.starts_with(b"ecdsa-p256:"));
    assert_eq!(text.len(), 11 + 128);
    assert_eq!(Signature::from_str(&String::from_utf8(text.clone()).unwrap()), Ok(signature.clone()));
    assert_eq!(Signature::parse(&text), Ok(signature));
}

#[test]
fn signature_parse_errors() {
    assert_eq!(Signature::parse(b"nothing"), Err(SignatureParseError::IncorrectStructure));
    assert_eq!(Signature::parse(b"ed25519:00"), Err(SignatureParseError::UnsupportedAlgorithm));
    assert_eq!(Signature::parse(b"ecdsa-p256:xy"), Err(SignatureParseError::InvalidHex));
    assert_eq!(Signature::parse(b"ecdsa-p256:00"), Err(SignatureParseError::IncorrectLength));
    let long = format!("ecdsa-p256:{}", "00".repeat(65));
    assert_eq!(Signature::parse(long.as_bytes()), Err(SignatureParseError::IncorrectLength));
}
