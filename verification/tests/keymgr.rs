use devinventory::crypto::MasterKey;
use devinventory::errors::SecretError;
use devinventory::keymgr::{
    decode_key, encode_key, generate_key, MasterKeyProvider, MasterKeySource, ObtainedKey,
};

fn obtain_err(r: Result<ObtainedKey, SecretError>) -> SecretError {
    match r {
        Err(e) => e,
        Ok(_) => panic!("an error was expected"),
    }
}

fn decode_err(r: Result<devinventory::crypto::MasterKey, SecretError>) -> SecretError {
    match r {
        Err(e) => e,
        Ok(_) => panic!("an error was expected"),
    }
}

#[test]
fn encoded_key_decodes_back() {
    let key = MasterKey::new([0x42u8; 32]);
    let encoded = encode_key(&key);
    let decoded = decode_key(&encoded).expect("a freshly encoded key must decode");
    assert_eq!(decoded.as_bytes(), key.as_bytes());
}

#[test]
fn encode_key_is_standard_padded_base64() {
    let key = MasterKey::new([0u8; 32]);
    let expected = format!("{}=", "A".repeat(43));
    assert_eq!(encode_key(&key), expected);
}

#[test]
fn surrounding_whitespace_is_trimmed() {
    let key = MasterKey::new([0x11u8; 32]);
    let encoded = format!("  {}\n", encode_key(&key));
    let decoded = decode_key(&encoded).expect("whitespace must be trimmed");
    assert_eq!(decoded.as_bytes(), key.as_bytes());
}

#[test]
fn wrong_length_keys_are_invalid() {
    // Valid base64, but for 16 bytes rather than 32.
    let short = encode_key(&MasterKey::new([1u8; 32]));
    let sixteen = &short[..24]; // 24 base64 chars = 18 bytes; still not 32
    assert_eq!(decode_err(decode_key(sixteen)), SecretError::InvalidKeyFormat);
    assert_eq!(
        decode_err(decode_key("aGVsbG8=")),
        SecretError::InvalidKeyFormat
    );
}

#[test]
fn malformed_base64_is_invalid() {
    assert_eq!(
        decode_err(decode_key("not base64 at all!")),
        SecretError::InvalidKeyFormat
    );
    assert_eq!(decode_err(decode_key("")), SecretError::InvalidKeyFormat);
}

#[test]
fn generated_keys_differ() {
    let a = generate_key();
    let b = generate_key();
    assert_ne!(a.as_bytes(), b.as_bytes());
}

#[test]
fn inline_key_wins_over_keyring() {
    let inline_key = MasterKey::new([5u8; 32]);
    let stored_key = MasterKey::new([6u8; 32]);
    let stored = encode_key(&stored_key);
    let provider = MasterKeyProvider::new(MasterKeySource {
        base64_inline: Some(encode_key(&inline_key)),
        allow_keyring: true,
    });
    assert!(!provider.needs_keyring_lookup());
    match provider.obtain(false, Some(&stored)).expect("inline key must resolve") {
        ObtainedKey::Existing(k) => assert_eq!(k.as_bytes(), inline_key.as_bytes()),
        ObtainedKey::Generated(_) => panic!("no generation expected"),
    }
}

#[test]
fn malformed_inline_key_is_fatal() {
    let provider = MasterKeyProvider::new(MasterKeySource {
        base64_inline: Some("bogus!".to_string()),
        allow_keyring: true,
    });
    assert_eq!(
        obtain_err(provider.obtain(true, None)),
        SecretError::InvalidKeyFormat
    );
}

#[test]
fn stored_key_is_used_when_no_inline() {
    let stored_key = MasterKey::new([8u8; 32]);
    let stored = encode_key(&stored_key);
    let provider = MasterKeyProvider::new(MasterKeySource {
        base64_inline: None,
        allow_keyring: true,
    });
    assert!(provider.needs_keyring_lookup());
    match provider.obtain(false, Some(&stored)).expect("stored key must resolve") {
        ObtainedKey::Existing(k) => assert_eq!(k.as_bytes(), stored_key.as_bytes()),
        ObtainedKey::Generated(_) => panic!("no generation expected"),
    }
}

#[test]
fn corrupt_stored_key_degrades_to_missing() {
    let provider = MasterKeyProvider::new(MasterKeySource {
        base64_inline: None,
        allow_keyring: true,
    });
    assert_eq!(
        obtain_err(provider.obtain(false, Some("corrupted"))),
        SecretError::MasterKeyUnavailable
    );
}

#[test]
fn missing_key_without_generation_is_unavailable() {
    let provider = MasterKeyProvider::new(MasterKeySource {
        base64_inline: None,
        allow_keyring: false,
    });
    assert!(!provider.needs_keyring_lookup());
    assert_eq!(
        obtain_err(provider.obtain(false, None)),
        SecretError::MasterKeyUnavailable
    );
}

#[test]
fn generation_surfaces_a_decodable_display_form() {
    let provider = MasterKeyProvider::new(MasterKeySource {
        base64_inline: None,
        allow_keyring: false,
    });
    match provider.obtain(true, None).expect("generation was permitted") {
        ObtainedKey::Generated(g) => {
            let decoded = decode_key(&g.encoded).expect("display form must decode");
            assert_eq!(decoded.as_bytes(), g.key.as_bytes());
        }
        ObtainedKey::Existing(_) => panic!("generation expected"),
    }
}

#[test]
fn rotation_mints_a_fresh_decodable_key() {
    let provider = MasterKeyProvider::new(MasterKeySource {
        base64_inline: None,
        allow_keyring: true,
    });
    let g1 = provider.rotate();
    let g2 = provider.rotate();
    assert_ne!(g1.key.as_bytes(), g2.key.as_bytes());
    let decoded = decode_key(&g1.encoded).expect("display form must decode");
    assert_eq!(decoded.as_bytes(), g1.key.as_bytes());
}
