use vstd::prelude::*;

use crate::errors::SecretError;
use chacha20poly1305::aead::Aead;
use chacha20poly1305::{ChaCha20Poly1305, KeyInit};
use rand::Rng;
use zeroize::Zeroize;

verus! {

/// Number of random nonce bytes at the front of every blob.
pub const NONCE_LEN: usize = 12;

/// Number of authentication-tag bytes the cipher appends to a message.
pub const TAG_LEN: usize = 16;

/// Longest plaintext the cipher accepts. The keystream's 32-bit block
/// counter must cover one 64-byte block for the authenticator key, and the
/// stream layer refuses to touch the counter's final block, leaving
/// 64 * (2^32 - 2) bytes for the message.
pub const MAX_PLAINTEXT_LEN: u64 = 0x3F_FFFF_FF80;

/// What the authenticated cipher produces for a key, a nonce, a label and a
/// message: the encrypted message with its authentication tag appended.
pub uninterp spec fn seal_of(key: Seq<u8>, nonce: Seq<u8>, label: Seq<char>, msg: Seq<u8>) -> Seq<u8>;

/// What the authenticated cipher recovers from a key, a nonce, a label and a
/// sealed message: the plaintext, or nothing when authentication fails.
pub uninterp spec fn open_of(key: Seq<u8>, nonce: Seq<u8>, label: Seq<char>, sealed: Seq<u8>) -> Option<Seq<u8>>;

/// Relies on chacha20poly1305's `ChaCha20Poly1305` through `aead::Aead::encrypt`,
/// with the label bytes as associated data: the result is a function of key,
/// nonce, label and message alone; it is the message's length plus a 16-byte
/// tag; the same cipher opens it back to the message. Messages within the
/// keystream's reach — which the precondition demands — are always encrypted;
/// longer ones would be refused or would exhaust the keystream.
#[verifier::external_body]
fn aead_seal(key: &[u8], nonce: &[u8], label: &str, msg: &[u8]) -> (r: Vec<u8>)
    requires
        key@.len() == 32,
        nonce@.len() == NONCE_LEN,
        msg@.len() <= MAX_PLAINTEXT_LEN,
    ensures
        r@ == seal_of(key@, nonce@, label@, msg@),
        r@.len() == msg@.len() + TAG_LEN,
        open_of(key@, nonce@, label@, r@) == Some(msg@),
{
    let cipher = ChaCha20Poly1305::new_from_slice(key).unwrap();
    let nonce_arr = chacha20poly1305::Nonce::try_from(nonce).unwrap();
    cipher
        .encrypt(
            &nonce_arr,
            chacha20poly1305::aead::Payload { msg, aad: label.as_bytes() },
        )
        .unwrap()
}

/// Relies on chacha20poly1305's `ChaCha20Poly1305` through `aead::Aead::decrypt`,
/// with the label bytes as associated data: the result is a function of key,
/// nonce, label and sealed bytes alone, and on success the plaintext is the
/// sealed bytes minus the 16-byte tag. The precondition keeps the plaintext
/// within the keystream's reach; past it the cipher could not answer.
#[verifier::external_body]
fn aead_open(key: &[u8], nonce: &[u8], label: &str, sealed: &[u8]) -> (r: Option<Vec<u8>>)
    requires
        key@.len() == 32,
        nonce@.len() == NONCE_LEN,
        sealed@.len() <= MAX_PLAINTEXT_LEN + TAG_LEN,
    ensures
        match r {
            Some(pt) => open_of(key@, nonce@, label@, sealed@) == Some(pt@)
                && pt@.len() + TAG_LEN == sealed@.len()
                && pt@.len() <= MAX_PLAINTEXT_LEN,
            None => open_of(key@, nonce@, label@, sealed@) is None,
        },
{
    let cipher = ChaCha20Poly1305::new_from_slice(key).unwrap();
    let nonce_arr = chacha20poly1305::Nonce::try_from(nonce).unwrap();
    cipher
        .decrypt(
            &nonce_arr,
            chacha20poly1305::aead::Payload { msg: sealed, aad: label.as_bytes() },
        )
        .ok()
}

/// Relies on rand's `rng` and `RngCore::fill_bytes` for a fresh random nonce.
/// Nothing is promised of the bytes: they depend on the process's generator.
#[verifier::external_body]
fn random_nonce() -> (r: [u8; 12])
{
    let mut nonce = [0u8; 12];
    rand::rng().fill_bytes(&mut nonce);
    nonce
}

/// Relies on zeroize's `Zeroize` for `[u8; 32]`: every byte is overwritten
/// with zero, without panicking and without touching any invariant.
#[verifier::external_body]
fn zero_fill(bytes: &mut [u8; 32])
    ensures
        forall|i: int| 0 <= i < 32 ==> final(bytes)@[i] == 0u8,
    opens_invariants none
    no_unwind
{
    bytes.zeroize();
}

/// The single symmetric secret of the store: exactly 32 raw bytes.
pub struct MasterKey {
    bytes: [u8; 32],
}

impl View for MasterKey {
    type V = Seq<u8>;

    closed spec fn view(&self) -> Seq<u8> {
        self.bytes@
    }
}

impl MasterKey {
    /// Wrap 32 raw key bytes.
    pub fn new(bytes: [u8; 32]) -> (r: Self)
        ensures
            r@ == bytes@,
    {
        MasterKey { bytes }
    }

    /// The raw key bytes, for encoding or for handing to the cipher.
    pub fn as_bytes(&self) -> (r: &[u8])
        ensures
            r@ == self@,
            r@.len() == 32,
    {
        self.bytes.as_slice()
    }

    /// Overwrite the key bytes with zeros. Callers release a key by zeroing
    /// it before letting it go out of scope, on every exit path.
    pub fn zeroize(&mut self)
        ensures
            final(self)@.len() == 32,
            forall|i: int| 0 <= i < 32 ==> final(self)@[i] == 0u8,
    {
        zero_fill(&mut self.bytes);
    }
}

impl Drop for MasterKey {
    /// The key bytes are overwritten with zeros before the memory is
    /// released, on every exit path.
    fn drop(&mut self)
        opens_invariants none
        no_unwind
    {
        zero_fill(&mut self.bytes);
    }
}

impl Clone for MasterKey {
    /// A clone carries the same 32 bytes.
    fn clone(&self) -> (r: Self)
        ensures
            r@ == self@,
    {
        MasterKey { bytes: self.bytes }
    }
}

/// What decrypting a blob under a key and a label yields: the blob is the
/// nonce followed by the sealed message, so a blob shorter than the nonce is
/// rejected outright; one longer than any encryption the cipher can produce
/// cannot authenticate and is rejected as such; and otherwise the cipher
/// decides.
pub open spec fn decrypt_spec(key: Seq<u8>, label: Seq<char>, blob: Seq<u8>) -> Result<Seq<u8>, SecretError> {
    if blob.len() < NONCE_LEN {
        Err(SecretError::CiphertextTooShort)
    } else if blob.len() > NONCE_LEN + TAG_LEN + MAX_PLAINTEXT_LEN {
        Err(SecretError::AuthenticationFailed)
    } else {
        match open_of(key, blob.subrange(0, NONCE_LEN as int), label, blob.subrange(NONCE_LEN as int, blob.len() as int)) {
            Some(pt) => Ok(pt),
            None => Err(SecretError::AuthenticationFailed),
        }
    }
}

/// The blob is a well-formed encryption of the plaintext under the key and
/// the label: nonce, message and tag long, and decrypting it under the same
/// key and label recovers the plaintext.
pub open spec fn is_encryption_of(key: Seq<u8>, label: Seq<char>, plaintext: Seq<u8>, blob: Seq<u8>) -> bool {
    &&& blob.len() == plaintext.len() + NONCE_LEN + TAG_LEN
    &&& decrypt_spec(key, label, blob) == Ok::<Seq<u8>, SecretError>(plaintext)
}

/// Per-record authenticated encryption under one master key, binding each
/// ciphertext to the record's name as associated data.
pub struct SecretCrypto {
    key: MasterKey,
}

impl View for SecretCrypto {
    type V = Seq<u8>;

    closed spec fn view(&self) -> Seq<u8> {
        self.key@
    }
}

impl SecretCrypto {
    /// Take ownership of the master key for this cipher's lifetime.
    pub fn new(key: MasterKey) -> (r: Self)
        ensures
            r@ == key@,
    {
        SecretCrypto { key }
    }

    /// Encrypt a plaintext under this key, bound to the label: a fresh random
    /// nonce, then the sealed message. Decrypting the result under the same
    /// key and label recovers the plaintext.
    pub fn encrypt(&self, aad_label: &str, plaintext: &[u8]) -> (r: Result<Vec<u8>, SecretError>)
        requires
            plaintext@.len() <= MAX_PLAINTEXT_LEN,
        ensures
            r matches Ok(blob) && is_encryption_of(self@, aad_label@, plaintext@, blob@),
    {
        let nonce = random_nonce();
        let sealed = aead_seal(self.key.as_bytes(), nonce.as_slice(), aad_label, plaintext);
        let mut out: Vec<u8> = Vec::new();
        let mut i: usize = 0;
        while i < 12
            invariant
                i <= 12,
                out@ == nonce@.take(i as int),
            decreases 12 - i,
        {
            out.push(nonce[i]);
            i = i + 1;
        }
        proof {
            assert(out@ == nonce@.take(12));
            assert(nonce@.take(12) =~= nonce@);
        }
        let ghost prefix = out@;
        let mut j: usize = 0;
        while j < sealed.len()
            invariant
                j <= sealed@.len(),
                out@ == prefix + sealed@.take(j as int),
                prefix == nonce@,
            decreases sealed@.len() - j,
        {
            out.push(sealed[j]);
            j = j + 1;
            proof {
                assert(sealed@.take(j as int) =~= sealed@.take(j - 1) + seq![sealed@[j - 1]]);
            }
        }
        proof {
            assert(sealed@.take(sealed@.len() as int) =~= sealed@);
            assert(out@ == nonce@ + sealed@);
            assert(out@.subrange(0, NONCE_LEN as int) =~= nonce@);
            assert(out@.subrange(NONCE_LEN as int, out@.len() as int) =~= sealed@);
        }
        Ok(out)
    }

    /// Decrypt a blob under this key and label. A blob shorter than the nonce
    /// is `CiphertextTooShort`; one whose tag does not verify against this
    /// key and label is `AuthenticationFailed`; otherwise the plaintext.
    pub fn decrypt(&self, aad_label: &str, blob: &[u8]) -> (r: Result<Vec<u8>, SecretError>)
        ensures
            match r {
                Ok(pt) => decrypt_spec(self@, aad_label@, blob@) == Ok::<Seq<u8>, SecretError>(pt@)
                    && pt@.len() + NONCE_LEN + TAG_LEN == blob@.len()
                    && pt@.len() <= MAX_PLAINTEXT_LEN,
                Err(e) => decrypt_spec(self@, aad_label@, blob@) == Err::<Seq<u8>, SecretError>(e),
            },
    {
        if blob.len() < 12 {
            return Err(SecretError::CiphertextTooShort);
        }
        if (blob.len() - 12) as u64 > MAX_PLAINTEXT_LEN + (TAG_LEN as u64) {
            return Err(SecretError::AuthenticationFailed);
        }
        let nonce = vstd::slice::slice_subrange(blob, 0, 12);
        let sealed = vstd::slice::slice_subrange(blob, 12, blob.len());
        match aead_open(self.key.as_bytes(), nonce, aad_label, sealed) {
            Some(pt) => Ok(pt),
            None => Err(SecretError::AuthenticationFailed),
        }
    }
}

/// Round trip: decrypting a blob that encryption produced, under the same key
/// and the same label, yields exactly the plaintext that was encrypted.
pub proof fn lemma_round_trip(key: Seq<u8>, label: Seq<char>, plaintext: Seq<u8>, blob: Seq<u8>)
    requires
        is_encryption_of(key, label, plaintext, blob),
    ensures
        decrypt_spec(key, label, blob) == Ok::<Seq<u8>, SecretError>(plaintext),
{
}

/// Short-input rejection: any blob shorter than the 12-byte nonce is refused
/// as too short, under every key and every label.
pub proof fn lemma_short_blob_rejected(key: Seq<u8>, label: Seq<char>, blob: Seq<u8>)
    requires
        blob.len() < NONCE_LEN,
    ensures
        decrypt_spec(key, label, blob) == Err::<Seq<u8>, SecretError>(SecretError::CiphertextTooShort),
{
}

} // verus!
