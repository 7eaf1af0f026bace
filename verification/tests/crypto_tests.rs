use base64::Engine;
use lockbox::crypto::{decrypt, encrypt, hash_password, verify_password, CryptoError};

#[test]
fn test_encrypt_decrypt() {
    let content = "Hello, World!";
    let password = "secret123";

    let encrypted = encrypt(content, password).unwrap();
    let decrypted = decrypt(&encrypted, password).unwrap();

    assert_eq!(content, decrypted);
}

#[test]
fn test_wrong_password() {
    let content = "Hello, World!";
    let password = "secret123";
    let wrong_password = "wrong";

    let encrypted = encrypt(content, password).unwrap();
    let result = decrypt(&encrypted, wrong_password);

    assert!(result.is_err());
}

#[test]
fn test_password_hash() {
    let password = "mypassword";
    let hash = hash_password(password);

    assert!(verify_password(password, &hash));
    assert!(!verify_password("wrongpassword", &hash));
}

#[test]
fn test_wrong_password_error_kind() {
    let encrypted = encrypt("attack at dawn", "k1").unwrap();
    assert_eq!(decrypt(&encrypted, "k2"), Err(CryptoError::DecryptionFailed));
}

#[test]
fn test_encrypt_is_randomized_but_both_decrypt() {
    let content = "same plaintext";
    let password = "same password";
    let a = encrypt(content, password).unwrap();
    let b = encrypt(content, password).unwrap();
    assert_ne!(a, b);
    assert_eq!(decrypt(&a, password).unwrap(), content);
    assert_eq!(decrypt(&b, password).unwrap(), content);
}

#[test]
fn test_round_trip_empty_and_unicode() {
    for content in ["", "a", "naïve — ünïcode ✓ 秘密"] {
        let password = "pw";
        let encrypted = encrypt(content, password).unwrap();
        assert_eq!(decrypt(&encrypted, password).unwrap(), content);
    }
}

#[test]
fn test_tamper_detection_in_ciphertext_region() {
    // The key derivation is deliberately slow, so a handful of flipped
    // positions stands in for every byte of the ciphertext region: its
    // first byte, a middle byte, and the last byte of the tag.
    let content = "tamper target";
    let password = "k";
    let encrypted = encrypt(content, password).unwrap();
    let engine = base64::engine::general_purpose::STANDARD;
    let raw = engine.decode(&encrypted).unwrap();
    // salt (16) || nonce (12) || ciphertext-with-tag
    let positions = [28, (28 + raw.len()) / 2, raw.len() - 1];
    for i in positions {
        let mut bad = raw.clone();
        bad[i] ^= 0x01;
        let reencoded = engine.encode(&bad);
        assert_eq!(
            decrypt(&reencoded, password),
            Err(CryptoError::DecryptionFailed),
            "flipping ciphertext byte {} must fail authentication",
            i
        );
    }
}

#[test]
fn test_invalid_format_bad_base64() {
    assert_eq!(
        decrypt("not valid base64!!!", "pw"),
        Err(CryptoError::InvalidFormat)
    );
}

#[test]
fn test_invalid_format_too_short() {
    // 10 bytes decode fine but cannot hold a 16-byte salt and 12-byte nonce.
    let short = base64::engine::general_purpose::STANDARD.encode([0u8; 10]);
    assert_eq!(decrypt(&short, "pw"), Err(CryptoError::InvalidFormat));
}

#[test]
fn test_hash_deterministic_and_known_vector() {
    assert_eq!(hash_password("abc"), hash_password("abc"));
    // SHA-256("abc"), lowercase hex.
    assert_eq!(
        hash_password("abc"),
        "ba7816bf8f01cfea414140de5dae2223b00361a396177a9cb410ff61f20015ad"
    );
    assert_eq!(hash_password("abc").len(), 64);
}

#[test]
fn test_envelope_shape() {
    let encrypted = encrypt("xyz", "pw").unwrap();
    let raw = base64::engine::general_purpose::STANDARD
        .decode(&encrypted)
        .unwrap();
    // salt || nonce || (plaintext-sized ciphertext + 16-byte tag)
    assert_eq!(raw.len(), 16 + 12 + 3 + 16);
}

#[test]
fn test_oversized_content_is_refused() {
    let big = "a".repeat(lockbox::crypto::MAX_PLAINTEXT_BYTES + 1);
    assert_eq!(encrypt(&big, "pw"), Err(CryptoError::EncryptionFailed));
}
