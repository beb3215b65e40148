use vstd::prelude::*;

use zeroize::Zeroize;

verus! {

/// Relies on zeroize's `Zeroize` for `Vec<u8>`: the initialized bytes and the
/// spare capacity are overwritten with zero and the vector is emptied,
/// without panicking and without touching any invariant.
#[verifier::external_body]
fn zero_fill_vec(bytes: &mut Vec<u8>)
    ensures
        final(bytes)@.len() == 0,
    opens_invariants none
    no_unwind
{
    bytes.zeroize();
}

/// A record together with its decrypted plaintext. Runtime-only: it exists
/// for the duration of a single read operation and is never persisted.
pub struct Secret {
    pub id: u128,
    pub name: String,
    pub kind: Option<String>,
    pub note: Option<String>,
    pub plaintext: Vec<u8>,
    pub created_at: i64,
    pub updated_at: i64,
}

/// A record's metadata: everything but the ciphertext and the plaintext.
pub struct SecretMetadata {
    pub id: u128,
    pub name: String,
    pub kind: Option<String>,
    pub note: Option<String>,
    pub created_at: i64,
    pub updated_at: i64,
}

/// Clone an optional string, keeping its characters.
pub fn clone_opt_string(o: &Option<String>) -> (r: Option<String>)
    ensures
        r.deep_view() == o.deep_view(),
{
    match o {
        Some(s) => Some(s.clone()),
        None => None,
    }
}

impl Drop for Secret {
    /// The decrypted plaintext is overwritten with zeros before its memory is
    /// released: it exists only for its one consumer's call.
    fn drop(&mut self)
        opens_invariants none
        no_unwind
    {
        zero_fill_vec(&mut self.plaintext);
    }
}

impl Secret {
    /// Strip the plaintext, keeping every metadata field.
    pub fn to_metadata(&self) -> (r: SecretMetadata)
        ensures
            r.id == self.id,
            r.name@ == self.name@,
            r.kind.deep_view() == self.kind.deep_view(),
            r.note.deep_view() == self.note.deep_view(),
            r.created_at == self.created_at,
            r.updated_at == self.updated_at,
    {
        SecretMetadata {
            id: self.id,
            name: self.name.clone(),
            kind: clone_opt_string(&self.kind),
            note: clone_opt_string(&self.note),
            created_at: self.created_at,
            updated_at: self.updated_at,
        }
    }
}

} // verus!
