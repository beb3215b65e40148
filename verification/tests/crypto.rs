use devinventory::crypto::{MasterKey, SecretCrypto};
use devinventory::errors::SecretError;

#[test]
fn encrypt_decrypt_roundtrip() {
    let key = MasterKey::new([7u8; 32]);
    let crypto = SecretCrypto::new(key.clone());
    let plaintext = b"hello-secret";
    let ct = crypto.encrypt("name", plaintext).expect("encrypt");
    assert_ne!(ct, plaintext);
    let pt = crypto.decrypt("name", &ct).expect("decrypt");
    assert_eq!(pt, plaintext);
}

#[test]
fn blob_layout_is_nonce_then_sealed_message() {
    let crypto = SecretCrypto::new(MasterKey::new([9u8; 32]));
    let ct = crypto.encrypt("label", b"abc").expect("encrypt");
    assert_eq!(ct.len(), 12 + 3 + 16);
    let empty = crypto.encrypt("label", b"").expect("encrypt");
    assert_eq!(empty.len(), 12 + 16);
    let pt = crypto.decrypt("label", &empty).expect("decrypt");
    assert!(pt.is_empty());
}

#[test]
fn every_bit_flip_is_detected() {
    let crypto = SecretCrypto::new(MasterKey::new([3u8; 32]));
    let blob = crypto.encrypt("api", b"payload").expect("encrypt");
    for byte in 0..blob.len() {
        for bit in 0..8 {
            let mut tampered = blob.clone();
            tampered[byte] ^= 1u8 << bit;
            match crypto.decrypt("api", &tampered) {
                Err(SecretError::AuthenticationFailed) => {}
                other => panic!("tampered blob accepted: {:?}", other.map(|_| ())),
            }
        }
    }
}

#[test]
fn wrong_label_is_detected() {
    let crypto = SecretCrypto::new(MasterKey::new([3u8; 32]));
    let blob = crypto.encrypt("api", b"payload").expect("encrypt");
    assert_eq!(
        crypto.decrypt("api2", &blob).unwrap_err(),
        SecretError::AuthenticationFailed
    );
    assert_eq!(
        crypto.decrypt("", &blob).unwrap_err(),
        SecretError::AuthenticationFailed
    );
}

#[test]
fn wrong_key_is_detected() {
    let crypto1 = SecretCrypto::new(MasterKey::new([1u8; 32]));
    let crypto2 = SecretCrypto::new(MasterKey::new([2u8; 32]));
    let blob = crypto1.encrypt("api", b"payload").expect("encrypt");
    assert_eq!(
        crypto2.decrypt("api", &blob).unwrap_err(),
        SecretError::AuthenticationFailed
    );
}

#[test]
fn short_blobs_are_rejected() {
    let crypto = SecretCrypto::new(MasterKey::new([4u8; 32]));
    for len in 0..12usize {
        let blob = vec![0u8; len];
        assert_eq!(
            crypto.decrypt("any", &blob).unwrap_err(),
            SecretError::CiphertextTooShort,
            "blob of {} bytes must be too short",
            len
        );
    }
    // Twelve bytes carry a nonce but no tag: that is an authentication failure,
    // not a short input.
    let blob = vec![0u8; 12];
    assert_eq!(
        crypto.decrypt("any", &blob).unwrap_err(),
        SecretError::AuthenticationFailed
    );
}

#[test]
fn zeroize_clears_the_key_bytes() {
    let mut key = MasterKey::new([0xabu8; 32]);
    key.zeroize();
    assert_eq!(key.as_bytes(), &[0u8; 32]);
}
