use kriptofs::cryption::decrypt_message;
use kriptofs::cryption::encrypt_message;
use kriptofs::cryption::hash_key_generator;
use kriptofs::hexview::to_hex_upper;

#[test]
fn key_is_sha256_of_secret() {
    // SHA-256("abc"), the classic reference vector.
    let key = hash_key_generator(b"abc");
    let expected: [u8; 32] = [
        0xba, 0x78, 0x16, 0xbf, 0x8f, 0x01, 0xcf, 0xea, 0x41, 0x41, 0x40, 0xde, 0x5d, 0xae, 0x22,
        0x23, 0xb0, 0x03, 0x61, 0xa3, 0x96, 0x17, 0x7a, 0x9c, 0xb4, 0x10, 0xff, 0x61, 0xf2, 0x00,
        0x15, 0xad,
    ];
    assert_eq!(key.as_slice(), expected.as_slice());
}

#[test]
fn key_has_32_bytes_for_any_secret() {
    assert_eq!(hash_key_generator(b"").len(), 32);
    assert_eq!(hash_key_generator(b"another much longer secret value 1234567890").len(), 32);
}

#[test]
fn encrypt_then_decrypt_returns_plaintext() {
    let key = hash_key_generator(b"round trip secret");
    let blob = encrypt_message(&key, b"hello world").unwrap();
    assert_eq!(blob.len(), 11 + 28);
    let plain = decrypt_message(&key, &blob).unwrap();
    assert_eq!(plain, b"hello world".to_vec());
}

#[test]
fn encrypt_output_differs_from_plaintext() {
    let key = hash_key_generator(b"s");
    let blob = encrypt_message(&key, b"hello world").unwrap();
    assert_ne!(&blob[..11], b"hello world".as_slice());
    assert_ne!(&blob[12..23], b"hello world".as_slice());
}

#[test]
fn two_encryptions_of_same_plaintext_differ() {
    let key = hash_key_generator(b"nonce freshness");
    let one = encrypt_message(&key, b"same plaintext").unwrap();
    let two = encrypt_message(&key, b"same plaintext").unwrap();
    assert_ne!(one, two);
}

#[test]
fn decrypt_rejects_short_input() {
    let key = hash_key_generator(b"k");
    assert!(decrypt_message(&key, b"").is_err());
    assert!(decrypt_message(&key, &[0u8; 27]).is_err());
}

#[test]
fn decrypt_rejects_tampered_blob() {
    let key = hash_key_generator(b"k");
    let mut blob = encrypt_message(&key, b"payload").unwrap();
    let last = blob.len() - 1;
    blob[last] ^= 0x01;
    assert!(decrypt_message(&key, &blob).is_err());
}

#[test]
fn decrypt_rejects_wrong_key() {
    let key = hash_key_generator(b"one key");
    let other = hash_key_generator(b"another key");
    let blob = encrypt_message(&key, b"payload").unwrap();
    assert!(decrypt_message(&other, &blob).is_err());
}

#[test]
fn hex_renders_uppercase_two_digits_per_byte() {
    assert_eq!(to_hex_upper(&[]), Vec::<u8>::new());
    assert_eq!(to_hex_upper(&[0x00, 0xab, 0xff, 0x1a]), b"00ABFF1A".to_vec());
    assert_eq!(to_hex_upper(&[0x09]), b"09".to_vec());
}
