use vault_core::crypto::{CryptoError, CryptoService, EncryptedData};

#[test]
fn test_password_hashing() {
    let password = "test_password_123";
    let hash = CryptoService::hash_password(password).unwrap();

    assert!(CryptoService::verify_password(password, &hash).unwrap());
    assert!(!CryptoService::verify_password("wrong_password", &hash).unwrap());
}

#[test]
fn test_encryption_decryption() {
    let data = "sensitive_password_data";
    let key = [1u8; 32]; // Test key

    let encrypted = CryptoService::encrypt(data, &key).unwrap();
    let decrypted = CryptoService::decrypt(&encrypted, &key).unwrap();

    assert_eq!(data, decrypted);
}

#[test]
fn test_key_derivation() {
    let password = "master_password";
    let salt = CryptoService::generate_salt();

    let key1 = CryptoService::derive_key_from_password(password, &salt).unwrap();
    let key2 = CryptoService::derive_key_from_password(password, &salt).unwrap();

    assert_eq!(key1, key2);
}

#[test]
fn test_password_generation() {
    let password = CryptoService::generate_password(16, true);
    assert_eq!(password.len(), 16);

    let password_no_symbols = CryptoService::generate_password(12, false);
    assert_eq!(password_no_symbols.len(), 12);
}

#[test]
fn generated_password_stays_in_charset() {
    let base = "abcdefghijklmnopqrstuvwxyzABCDEFGHIJKLMNOPQRSTUVWXYZ0123456789";
    let symbols = "!@#$%^&*()_+-=[]{}|;:,.<>?";

    let plain = CryptoService::generate_password(64, false);
    for c in plain.chars() {
        assert!(base.contains(c));
    }

    let with_symbols = CryptoService::generate_password(64, true);
    for c in with_symbols.chars() {
        assert!(base.contains(c) || symbols.contains(c));
    }
}

#[test]
fn derived_keys_differ_across_salts() {
    let password = "master_password";
    let salt1 = [0u8; 16];
    let salt2 = [1u8; 16];

    let key1 = CryptoService::derive_key_from_password(password, &salt1).unwrap();
    let key2 = CryptoService::derive_key_from_password(password, &salt2).unwrap();

    assert_ne!(key1, key2);
}

#[test]
fn decrypt_with_wrong_key_fails() {
    let key = [1u8; 32];
    let wrong_key = [2u8; 32];

    let encrypted = CryptoService::encrypt("top secret", &key).unwrap();
    let result = CryptoService::decrypt(&encrypted, &wrong_key);

    assert_eq!(result, Err(CryptoError::DecryptionError));
}

/// Replace the first character of a base64 text with a different one
/// from the alphabet, so it still decodes but to different bytes.
fn flip_first_char(text: &str) -> String {
    let mut chars: Vec<char> = text.chars().collect();
    chars[0] = if chars[0] == 'A' { 'B' } else { 'A' };
    chars.into_iter().collect()
}

#[test]
fn decrypt_tampered_ciphertext_fails() {
    let key = [7u8; 32];
    let encrypted = CryptoService::encrypt("payload under test", &key).unwrap();

    let tampered = EncryptedData {
        ciphertext: flip_first_char(&encrypted.ciphertext),
        nonce: encrypted.nonce.clone(),
    };
    assert_eq!(
        CryptoService::decrypt(&tampered, &key),
        Err(CryptoError::DecryptionError)
    );
}

#[test]
fn decrypt_tampered_nonce_fails() {
    let key = [7u8; 32];
    let encrypted = CryptoService::encrypt("payload under test", &key).unwrap();

    let tampered = EncryptedData {
        ciphertext: encrypted.ciphertext.clone(),
        nonce: flip_first_char(&encrypted.nonce),
    };
    assert_eq!(
        CryptoService::decrypt(&tampered, &key),
        Err(CryptoError::DecryptionError)
    );
}

#[test]
fn decrypt_malformed_base64_is_encoding_error() {
    let key = [3u8; 32];
    let encrypted = CryptoService::encrypt("x", &key).unwrap();

    let broken = EncryptedData {
        ciphertext: "%%%not base64%%%".to_string(),
        nonce: encrypted.nonce.clone(),
    };
    assert_eq!(
        CryptoService::decrypt(&broken, &key),
        Err(CryptoError::EncodingError)
    );
}

#[test]
fn decrypt_wrong_nonce_length_fails() {
    let key = [3u8; 32];
    let encrypted = CryptoService::encrypt("x", &key).unwrap();

    // eight zero bytes, base64-encoded: a syntactically fine nonce of
    // the wrong length
    let short_nonce = EncryptedData {
        ciphertext: encrypted.ciphertext.clone(),
        nonce: "AAAAAAAAAAA=".to_string(),
    };
    assert_eq!(
        CryptoService::decrypt(&short_nonce, &key),
        Err(CryptoError::DecryptionError)
    );
}

#[test]
fn ciphertext_is_plaintext_bytes_plus_tag() {
    let key = [5u8; 32];
    let encrypted = CryptoService::encrypt("abc", &key).unwrap();

    let engine = &base64::engine::general_purpose::STANDARD;
    let ciphertext = base64::Engine::decode(engine, &encrypted.ciphertext).unwrap();
    let nonce = base64::Engine::decode(engine, &encrypted.nonce).unwrap();

    assert_eq!(ciphertext.len(), "abc".len() + 16);
    assert_eq!(nonce.len(), 12);
}

#[test]
fn verify_password_malformed_hash_is_hashing_error() {
    let result = CryptoService::verify_password("whatever", "not-a-phc-hash");
    assert_eq!(result, Err(CryptoError::HashingError));
}
