use vstd::prelude::*;

use crate::crypto::{is_encryption_of, decrypt_spec, MasterKey, SecretCrypto, MAX_PLAINTEXT_LEN, NONCE_LEN, TAG_LEN};
use crate::errors::SecretError;

verus! {

/// Holds one master key for the lifetime of a session and exposes encrypt
/// and decrypt without re-exposing the key.
pub struct CryptoService {
    master_key: MasterKey,
}

impl View for CryptoService {
    type V = Seq<u8>;

    closed spec fn view(&self) -> Seq<u8> {
        self.master_key@
    }
}

impl CryptoService {
    /// Take sole ownership of a freshly obtained or generated master key.
    pub fn new(master_key: MasterKey) -> (r: Self)
        ensures
            r@ == master_key@,
    {
        CryptoService { master_key }
    }

    /// Encrypt a plaintext bound to a record name.
    pub fn encrypt(&self, name: &str, plaintext: &[u8]) -> (r: Result<Vec<u8>, SecretError>)
        requires
            plaintext@.len() <= MAX_PLAINTEXT_LEN,
        ensures
            r matches Ok(blob) && is_encryption_of(self@, name@, plaintext@, blob@),
    {
        let secret_crypto = SecretCrypto::new(self.master_key.clone());
        secret_crypto.encrypt(name, plaintext)
    }

    /// Decrypt a blob bound to a record name.
    pub fn decrypt(&self, name: &str, ciphertext: &[u8]) -> (r: Result<Vec<u8>, SecretError>)
        ensures
            match r {
                Ok(pt) => decrypt_spec(self@, name@, ciphertext@) == Ok::<Seq<u8>, SecretError>(pt@)
                    && pt@.len() + NONCE_LEN + TAG_LEN == ciphertext@.len()
                    && pt@.len() <= MAX_PLAINTEXT_LEN,
                Err(e) => decrypt_spec(self@, name@, ciphertext@) == Err::<Seq<u8>, SecretError>(e),
            },
    {
        let secret_crypto = SecretCrypto::new(self.master_key.clone());
        secret_crypto.decrypt(name, ciphertext)
    }

    /// Mint a cipher bound to the same key, without exposing the key bytes.
    pub fn create_secret_crypto(&self) -> (r: SecretCrypto)
        ensures
            r@ == self@,
    {
        SecretCrypto::new(self.master_key.clone())
    }

    /// Borrow the held master key.
    pub fn master_key(&self) -> (r: &MasterKey)
        ensures
            r@ == self@,
    {
        &self.master_key
    }
}

} // verus!
