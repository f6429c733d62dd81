use argon2::{Algorithm, Argon2, Params, Version};
use mdp_manager::crypto::{
    decode_base64, decrypt, derive_key, encode_base64, encrypt, generate_nonce, generate_salt,
    CryptoError, CryptoParams, SecureKey, NONCE_SIZE,
};

#[test]
fn test_key_derivation() {
    let password = "test_password";
    let salt = generate_salt();
    let params = CryptoParams::default();

    let key1 = derive_key(password, &salt, &params).unwrap();
    let key2 = derive_key(password, &salt, &params).unwrap();

    assert_eq!(key1.len(), 32);
    assert_eq!(key1, key2, "Same password and salt should produce same key");
}

#[test]
fn test_different_salts_produce_different_keys() {
    let password = "test_password";
    let salt1 = generate_salt();
    let salt2 = generate_salt();
    let params = CryptoParams::default();

    let key1 = derive_key(password, &salt1, &params).unwrap();
    let key2 = derive_key(password, &salt2, &params).unwrap();

    assert_ne!(key1, key2, "Different salts should produce different keys");
}

#[test]
fn test_encrypt_decrypt_roundtrip() {
    let plaintext = b"Hello, World! This is a secret message.";
    let password = "secure_password";
    let salt = generate_salt();
    let nonce = generate_nonce();
    let params = CryptoParams::default();

    let key = derive_key(password, &salt, &params).unwrap();
    let secure_key = SecureKey::new(key);

    let ciphertext = encrypt(plaintext, secure_key.as_bytes(), &nonce).unwrap();
    assert_ne!(plaintext, &ciphertext[..], "Ciphertext should differ from plaintext");

    let decrypted = decrypt(&ciphertext, secure_key.as_bytes(), &nonce).unwrap();
    assert_eq!(plaintext, &decrypted[..], "Decrypted text should match original");
}

#[test]
fn test_wrong_password_fails_decryption() {
    let plaintext = b"Secret data";
    let password1 = "password1";
    let password2 = "password2";
    let salt = generate_salt();
    let nonce = generate_nonce();
    let params = CryptoParams::default();

    let key1 = derive_key(password1, &salt, &params).unwrap();
    let ciphertext = encrypt(plaintext, &key1, &nonce).unwrap();

    let key2 = derive_key(password2, &salt, &params).unwrap();
    let result = decrypt(&ciphertext, &key2, &nonce);

    assert!(result.is_err(), "Wrong password should fail decryption");
}

#[test]
fn test_base64_encoding() {
    let data = b"Test data for base64";
    let encoded = encode_base64(data);
    let decoded = decode_base64(&encoded).unwrap();

    assert_eq!(data, &decoded[..]);
}

#[test]
fn test_secure_key_zeroize() {
    let key_data = vec![1, 2, 3, 4, 5];
    {
        let _secure_key = SecureKey::new(key_data.clone());
        // Key should be zeroized when dropped
    }
    // We can't actually test if memory is zeroed without unsafe code,
    // but we verify the type implements the trait correctly
}

fn small_params() -> CryptoParams {
    CryptoParams { time_cost: 1, memory_cost: 64, parallelism: 1 }
}

fn hex(text: &str) -> Vec<u8> {
    let digits: Vec<u8> = text
        .chars()
        .map(|c| c.to_digit(16).expect("hex digit") as u8)
        .collect();
    digits.chunks(2).map(|pair| pair[0] * 16 + pair[1]).collect()
}

fn is_kdf_error(result: &Result<Vec<u8>, CryptoError>) -> bool {
    matches!(result, Err(CryptoError::KdfError(_)))
}

#[test]
fn derive_key_agrees_with_raw_argon2id() {
    let salt: Vec<u8> = (1..=16).collect();
    let params = CryptoParams { time_cost: 3, memory_cost: 128, parallelism: 2 };
    let key = derive_key("correct horse", &salt, &params).unwrap();

    let raw_params = Params::new(128, 3, 2, Some(32)).unwrap();
    let hasher = Argon2::new(Algorithm::Argon2id, Version::V0x13, raw_params);
    let mut expected = [0u8; 32];
    hasher.hash_password_into("correct horse".as_bytes(), &salt, &mut expected).unwrap();

    assert_eq!(key, expected.to_vec());
    assert_ne!(key, salt);
}

#[test]
fn derive_key_depends_on_every_input() {
    let salt: Vec<u8> = (1..=16).collect();
    let other_salt: Vec<u8> = (2..=17).collect();
    let base = derive_key("passphrase", &salt, &small_params()).unwrap();
    assert_eq!(base.len(), 32);
    assert_ne!(base, derive_key("passphrasf", &salt, &small_params()).unwrap());
    assert_ne!(base, derive_key("passphrase", &other_salt, &small_params()).unwrap());
    let slower = CryptoParams { time_cost: 2, memory_cost: 64, parallelism: 1 };
    assert_ne!(base, derive_key("passphrase", &salt, &slower).unwrap());
    let larger = CryptoParams { time_cost: 1, memory_cost: 65, parallelism: 1 };
    assert_ne!(base, derive_key("passphrase", &salt, &larger).unwrap());
}

#[test]
fn derive_key_takes_salts_of_8_to_48_bytes() {
    for len in [8usize, 16, 47, 48] {
        let salt = vec![7u8; len];
        assert_eq!(derive_key("pw", &salt, &small_params()).unwrap().len(), 32);
    }
}

#[test]
fn derive_key_refuses_short_salts() {
    for len in 0usize..8 {
        let salt = vec![7u8; len];
        assert!(is_kdf_error(&derive_key("pw", &salt, &small_params())), "salt of {} bytes", len);
    }
}

#[test]
fn derive_key_refuses_long_salts() {
    for len in [49usize, 64, 1000] {
        let salt = vec![7u8; len];
        assert!(is_kdf_error(&derive_key("pw", &salt, &small_params())), "salt of {} bytes", len);
    }
}

#[test]
fn derive_key_refuses_invalid_costs() {
    let salt = vec![7u8; 16];
    let cases = [
        CryptoParams { time_cost: 0, memory_cost: 64, parallelism: 1 },
        CryptoParams { time_cost: 1, memory_cost: 7, parallelism: 1 },
        CryptoParams { time_cost: 1, memory_cost: 15, parallelism: 2 },
        CryptoParams { time_cost: 1, memory_cost: 64, parallelism: 0 },
        CryptoParams { time_cost: 1, memory_cost: u32::MAX, parallelism: 0x100_0000 },
        CryptoParams { time_cost: 1, memory_cost: u32::MAX, parallelism: 0x2000_0000 },
        CryptoParams { time_cost: 1, memory_cost: u32::MAX, parallelism: u32::MAX },
    ];
    for params in cases {
        assert!(is_kdf_error(&derive_key("pw", &salt, &params)), "{:?}", params);
    }
}

#[test]
fn derive_key_takes_the_smallest_costs() {
    let salt = vec![7u8; 16];
    let params = CryptoParams { time_cost: 1, memory_cost: 8, parallelism: 1 };
    assert_eq!(derive_key("", &salt, &params).unwrap().len(), 32);
    let two_lanes = CryptoParams { time_cost: 1, memory_cost: 16, parallelism: 2 };
    assert_eq!(derive_key("pw", &salt, &two_lanes).unwrap().len(), 32);
}

#[test]
fn default_params_are_two_passes_over_64_mib() {
    let params = CryptoParams::default();
    assert_eq!(params.time_cost, 2);
    assert_eq!(params.memory_cost, 65536);
    assert_eq!(params.parallelism, 1);
}

#[test]
fn salts_and_nonces_have_their_length_and_differ() {
    let salt1 = generate_salt();
    let salt2 = generate_salt();
    let nonce1 = generate_nonce();
    let nonce2 = generate_nonce();
    assert_eq!(salt1.len(), 16);
    assert_eq!(salt2.len(), 16);
    assert_eq!(nonce1.len(), 12);
    assert_eq!(nonce2.len(), NONCE_SIZE);
    assert_ne!(salt1, salt2);
    assert_ne!(nonce1, nonce2);
    assert_ne!(salt1, vec![0u8; 16]);
}

#[test]
fn encrypt_matches_the_gcm_test_vectors() {
    let key = [0u8; 32];
    let nonce = [0u8; 12];
    assert_eq!(encrypt(&[], &key, &nonce).unwrap(), hex("530f8afbc74536b9a963b4f1c4cb738b"));
    assert_eq!(
        encrypt(&[0u8; 16], &key, &nonce).unwrap(),
        hex("cea7403d4d606b6e074ec5d3baf39d18d0d1c8a799996bf0265b98b5d48ab919")
    );
}

#[test]
fn decrypt_matches_the_gcm_test_vectors() {
    let key = [0u8; 32];
    let nonce = [0u8; 12];
    let sealed = hex("cea7403d4d606b6e074ec5d3baf39d18d0d1c8a799996bf0265b98b5d48ab919");
    assert_eq!(decrypt(&sealed, &key, &nonce).unwrap(), vec![0u8; 16]);
    let tag_only = hex("530f8afbc74536b9a963b4f1c4cb738b");
    assert_eq!(decrypt(&tag_only, &key, &nonce).unwrap(), Vec::<u8>::new());
}

#[test]
fn encrypt_appends_a_tag_of_16_bytes() {
    let key = [9u8; 32];
    let nonce = [3u8; 12];
    for len in [0usize, 1, 15, 16, 17, 1000] {
        let data = vec![0xabu8; len];
        let sealed = encrypt(&data, &key, &nonce).unwrap();
        assert_eq!(sealed.len(), len + 16);
        assert_eq!(decrypt(&sealed, &key, &nonce).unwrap(), data);
    }
}

#[test]
fn encrypt_refuses_wrong_key_and_nonce_lengths() {
    let data = [1u8, 2, 3];
    for len in [0usize, 16, 31, 33] {
        let key = vec![0u8; len];
        assert_eq!(encrypt(&data, &key, &[0u8; 12]), Err(CryptoError::InvalidKey));
        assert_eq!(encrypt(&data, &key, &[0u8; 11]), Err(CryptoError::InvalidKey));
    }
    for len in [0usize, 11, 13, 16] {
        let nonce = vec![0u8; len];
        assert_eq!(encrypt(&data, &[0u8; 32], &nonce), Err(CryptoError::EncryptionFailed));
    }
}

#[test]
fn decrypt_refuses_wrong_key_and_nonce_lengths() {
    let sealed = encrypt(&[1u8, 2, 3], &[0u8; 32], &[0u8; 12]).unwrap();
    for len in [0usize, 16, 31, 33] {
        let key = vec![0u8; len];
        assert_eq!(decrypt(&sealed, &key, &[0u8; 12]), Err(CryptoError::InvalidKey));
        assert_eq!(decrypt(&sealed, &key, &[0u8; 13]), Err(CryptoError::InvalidKey));
    }
    for len in [0usize, 11, 13, 16] {
        let nonce = vec![0u8; len];
        assert_eq!(decrypt(&sealed, &[0u8; 32], &nonce), Err(CryptoError::DecryptionFailed));
    }
}

#[test]
fn decrypt_refuses_every_single_bit_flip() {
    let key = [0x42u8; 32];
    let nonce = [0x24u8; 12];
    let data = b"Hello, World! This is a secret message.";
    let sealed = encrypt(data, &key, &nonce).unwrap();
    for byte in 0..sealed.len() {
        for bit in 0..8 {
            let mut altered = sealed.clone();
            altered[byte] ^= 1 << bit;
            assert_eq!(
                decrypt(&altered, &key, &nonce),
                Err(CryptoError::DecryptionFailed),
                "byte {} bit {}",
                byte,
                bit
            );
        }
    }
    assert_eq!(decrypt(&sealed, &key, &nonce).unwrap(), data.to_vec());
}

#[test]
fn decrypt_refuses_truncated_and_extended_messages() {
    let key = [0x42u8; 32];
    let nonce = [0x24u8; 12];
    let sealed = encrypt(b"some content", &key, &nonce).unwrap();
    for len in 0..sealed.len() {
        assert_eq!(decrypt(&sealed[..len], &key, &nonce), Err(CryptoError::DecryptionFailed));
    }
    let mut longer = sealed.clone();
    longer.push(0);
    assert_eq!(decrypt(&longer, &key, &nonce), Err(CryptoError::DecryptionFailed));
}

#[test]
fn decrypt_refuses_another_key_or_nonce() {
    let key = [0x42u8; 32];
    let nonce = [0x24u8; 12];
    let sealed = encrypt(b"some content", &key, &nonce).unwrap();
    let mut other_key = key;
    other_key[31] ^= 1;
    assert_eq!(decrypt(&sealed, &other_key, &nonce), Err(CryptoError::DecryptionFailed));
    let mut other_nonce = nonce;
    other_nonce[0] ^= 1;
    assert_eq!(decrypt(&sealed, &key, &other_nonce), Err(CryptoError::DecryptionFailed));
}

#[test]
fn secure_key_gives_its_bytes_back() {
    let key = SecureKey::new(vec![1, 2, 3, 4, 5]);
    assert_eq!(key.as_bytes(), &[1u8, 2, 3, 4, 5][..]);
    let empty = SecureKey::new(Vec::new());
    assert_eq!(empty.as_bytes().len(), 0);
}

#[test]
fn base64_matches_the_standard_alphabet_with_padding() {
    assert_eq!(encode_base64(b""), "");
    assert_eq!(encode_base64(b"M"), "TQ==");
    assert_eq!(encode_base64(b"Ma"), "TWE=");
    assert_eq!(encode_base64(b"Man"), "TWFu");
    assert_eq!(encode_base64(&[0xfb, 0xff, 0xfe]), "+//+");
    assert_eq!(decode_base64("").unwrap(), Vec::<u8>::new());
    assert_eq!(decode_base64("TQ==").unwrap(), b"M".to_vec());
    assert_eq!(decode_base64("TWE=").unwrap(), b"Ma".to_vec());
    assert_eq!(decode_base64("TWFu").unwrap(), b"Man".to_vec());
    assert_eq!(decode_base64("+//+").unwrap(), vec![0xfb, 0xff, 0xfe]);
}

#[test]
fn base64_round_trips_every_length() {
    for len in 0usize..70 {
        let data: Vec<u8> = (0..len).map(|i| (i * 37 + 11) as u8).collect();
        let text = encode_base64(&data);
        assert_eq!(text.len(), (len + 2) / 3 * 4);
        assert_eq!(decode_base64(&text).unwrap(), data);
    }
}

#[test]
fn base64_refuses_what_is_not_canonical() {
    let cases = [
        "TQ=", "TQ", "TQ===", "TR==", "TWF=", "TWE", "T", "=", "====", "TW Fu", "TWFu\n", "-__-",
        "TWFu=", "TQ==TQ==", "é", "!!!",
    ];
    for text in cases {
        assert_eq!(decode_base64(text), Err(CryptoError::InvalidFormat), "{:?}", text);
    }
}

#[test]
fn error_messages_name_no_single_cause() {
    assert_eq!(CryptoError::EncryptionFailed.message(), "Échec du chiffrement");
    assert_eq!(
        CryptoError::DecryptionFailed.message(),
        "Échec du déchiffrement (mot de passe incorrect ou coffre corrompu)"
    );
    assert_eq!(CryptoError::InvalidKey.message(), "Clé invalide");
    assert_eq!(CryptoError::InvalidFormat.message(), "Format invalide (base64 attendu)");
    assert_eq!(
        CryptoError::KdfError("salt is too short".to_string()).message(),
        "Erreur KDF: salt is too short"
    );
}

#[test]
fn a_message_shorter_than_a_tag_is_refused() {
    let key = [0u8; 32];
    let nonce = [0u8; 12];
    assert_eq!(decrypt(&[], &key, &nonce), Err(CryptoError::DecryptionFailed));
    assert_eq!(decrypt(&[0u8; 15], &key, &nonce), Err(CryptoError::DecryptionFailed));
}
