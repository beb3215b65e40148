use vstd::prelude::*;

verus! {

/// Every failure the library can report.
///
/// Credential-store failures during best-effort persistence are the caller's
/// to downgrade to warnings; everything else is fatal to the operation that
/// raised it.
#[derive(Clone, Copy, Debug, PartialEq, Eq, Structural)]
pub enum SecretError {
    /// An inline master key was supplied but is not valid base64 for 32 bytes.
    InvalidKeyFormat,
    /// No master key could be found and generating one was not permitted.
    MasterKeyUnavailable,
    /// A ciphertext blob is shorter than the 12-byte nonce prefix.
    CiphertextTooShort,
    /// The authentication tag did not verify: wrong key, wrong label, or tampering.
    AuthenticationFailed,
    /// A record with the requested name does not exist.
    RecordNotFound,
    /// A record with the same name already exists where it must not.
    DuplicateName,
    /// The backing store failed to read or write.
    StoreIoError,
    /// The OS credential store failed to read or write.
    CredentialStoreError,
}

impl SecretError {
    /// The message each error kind carries.
    pub open spec fn message(&self) -> Seq<char> {
        match self {
            SecretError::InvalidKeyFormat => "master key must be valid base64 for exactly 32 bytes"@,
            SecretError::MasterKeyUnavailable => "master key not found; provide one inline or initialize first"@,
            SecretError::CiphertextTooShort => "ciphertext too short"@,
            SecretError::AuthenticationFailed => "decryption failed authentication"@,
            SecretError::RecordNotFound => "secret not found"@,
            SecretError::DuplicateName => "a secret with this name already exists"@,
            SecretError::StoreIoError => "the secret store failed to read or write"@,
            SecretError::CredentialStoreError => "the OS credential store failed"@,
        }
    }

    /// A fixed human-readable message for each error kind.
    pub fn describe(&self) -> (r: &'static str)
        ensures
            r@ == self.message(),
    {
        match self {
            SecretError::InvalidKeyFormat => "master key must be valid base64 for exactly 32 bytes",
            SecretError::MasterKeyUnavailable => "master key not found; provide one inline or initialize first",
            SecretError::CiphertextTooShort => "ciphertext too short",
            SecretError::AuthenticationFailed => "decryption failed authentication",
            SecretError::RecordNotFound => "secret not found",
            SecretError::DuplicateName => "a secret with this name already exists",
            SecretError::StoreIoError => "the secret store failed to read or write",
            SecretError::CredentialStoreError => "the OS credential store failed",
        }
    }
}

} // verus!
