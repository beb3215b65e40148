use vstd::prelude::*;

use crate::crypto::MasterKey;
use crate::errors::SecretError;
use base64::Engine;
use rand::Rng;
use vstd::array::ArrayAdditionalExecFns;

verus! {

broadcast use vstd::array::group_array_axioms;

/// What base64 encoding (standard alphabet, padded) makes of a byte sequence.
pub uninterp spec fn b64_encode_of(bytes: Seq<u8>) -> Seq<char>;

/// What base64 decoding (standard alphabet, padded) makes of a character
/// sequence: the bytes, or nothing when the input is not valid base64.
pub uninterp spec fn b64_decode_of(s: Seq<char>) -> Option<Seq<u8>>;

/// What trimming leading and trailing whitespace leaves of a character sequence.
pub uninterp spec fn trim_of(s: Seq<char>) -> Seq<char>;

/// Relies on base64's `Engine::encode` with the standard padded engine: the
/// result is a function of the bytes alone; decoding it with the same engine
/// gives the bytes back; and it holds only alphabet and padding characters,
/// never whitespace, so trimming leaves it unchanged.
#[verifier::external_body]
fn b64_encode(bytes: &[u8]) -> (r: String)
    ensures
        r@ == b64_encode_of(bytes@),
        b64_decode_of(r@) == Some(bytes@),
        trim_of(r@) == r@,
{
    base64::engine::general_purpose::STANDARD.encode(bytes)
}

/// Relies on base64's `Engine::decode` with the standard padded engine: the
/// result is a function of the characters alone, and it is an error exactly
/// when the input is not valid base64 for that engine.
#[verifier::external_body]
fn b64_decode(s: &str) -> (r: Option<Vec<u8>>)
    ensures
        match r {
            Some(v) => b64_decode_of(s@) == Some(v@),
            None => b64_decode_of(s@) is None,
        },
{
    base64::engine::general_purpose::STANDARD.decode(s).ok()
}

/// Relies on std's `str::trim`: the result is a function of the characters
/// alone, with leading and trailing whitespace removed.
#[verifier::external_body]
fn str_trim(s: &str) -> (r: &str)
    ensures
        r@ == trim_of(s@),
{
    s.trim()
}

/// Relies on rand's `rng` and `Rng::fill_bytes` for fresh random key bytes.
/// Nothing is promised of the bytes: they depend on the process's generator.
#[verifier::external_body]
fn random_key_bytes() -> (r: [u8; 32])
{
    let mut key = [0u8; 32];
    rand::rng().fill_bytes(&mut key);
    key
}

/// The 32 key bytes that an encoded key stands for: the base64 decoding of
/// the trimmed text, accepted only when it is exactly 32 bytes long.
pub open spec fn key_of_encoded(s: Seq<char>) -> Option<Seq<u8>> {
    match b64_decode_of(trim_of(s)) {
        Some(b) => if b.len() == 32 {
            Some(b)
        } else {
            None
        },
        None => None,
    }
}

/// Decode a base64-encoded master key. The key must be valid base64 for
/// exactly 32 bytes once surrounding whitespace is trimmed; anything else is
/// `InvalidKeyFormat`.
pub fn decode_key(b64: &str) -> (r: Result<MasterKey, SecretError>)
    ensures
        match r {
            Ok(k) => key_of_encoded(b64@) == Some(k@),
            Err(e) => e == SecretError::InvalidKeyFormat && key_of_encoded(b64@) is None,
        },
{
    let trimmed = str_trim(b64);
    match b64_decode(trimmed) {
        Some(mut bytes) => {
            if bytes.len() != 32 {
                return Err(SecretError::InvalidKeyFormat);
            }
            let mut arr = [0u8; 32];
            let mut i: usize = 0;
            while i < 32
                invariant
                    i <= 32,
                    bytes@.len() == 32,
                    forall|j: int| 0 <= j < i ==> arr@[j] == bytes@[j],
                decreases 32 - i,
            {
                arr[i] = bytes[i];
                i = i + 1;
            }
            proof {
                assert(arr@ =~= bytes@);
            }
            let ghost decoded = arr@;
            // The temporary buffer held key material: overwrite it before it
            // is released.
            let mut z: usize = 0;
            while z < bytes.len()
                invariant
                    z <= bytes@.len(),
                decreases bytes@.len() - z,
            {
                bytes[z] = 0;
                z = z + 1;
            }
            proof {
                assert(key_of_encoded(b64@) == Some(decoded));
            }
            Ok(MasterKey::new(arr))
        },
        None => Err(SecretError::InvalidKeyFormat),
    }
}

/// Generate a fresh master key from the secure random generator.
pub fn generate_key() -> (r: MasterKey)
    ensures
        r@.len() == 32,
{
    MasterKey::new(random_key_bytes())
}

/// A freshly generated master key together with its one-time base64 display
/// form, which the operator must be shown exactly once.
pub struct GeneratedKey {
    pub key: MasterKey,
    pub encoded: String,
}

impl GeneratedKey {
    /// The display form is the base64 encoding of the key, and decoding it —
    /// as `decode_key` does when the operator supplies it again — yields back
    /// exactly the key's 32 bytes.
    pub open spec fn wf(&self) -> bool {
        &&& self.key@.len() == 32
        &&& self.encoded@ == b64_encode_of(self.key@)
        &&& b64_decode_of(self.encoded@) == Some(self.key@)
        &&& key_of_encoded(self.encoded@) == Some(self.key@)
    }
}

/// Where the master key may come from: an inline base64 value supplied by the
/// caller, and whether the OS credential store may be consulted.
pub struct MasterKeySource {
    pub base64_inline: Option<String>,
    pub allow_keyring: bool,
}

/// Produces one master key per session from the highest-priority available
/// source. Reading and writing the OS credential store is the caller's I/O;
/// this type owns every decision about which source wins.
pub struct MasterKeyProvider {
    src: MasterKeySource,
}

/// A key obtained for a session: either one that already existed (inline or
/// stored), or a fresh one whose display form must be surfaced once.
pub enum ObtainedKey {
    Existing(MasterKey),
    Generated(GeneratedKey),
}

/// The stored key bytes the credential store contributes: only when keyring
/// use is allowed, a value was read, and that value decodes to a 32-byte key.
/// A stored value that does not decode is treated as missing, never fatal.
pub open spec fn keyring_hit(allow: bool, kv: Option<Seq<char>>) -> Option<Seq<u8>> {
    if allow {
        match kv {
            Some(v) => key_of_encoded(v),
            None => None,
        }
    } else {
        None
    }
}

/// The successful outcomes of key resolution: an inline key beats the stored
/// key, the stored key beats generation, and generation happens only when it
/// was asked for.
pub open spec fn obtain_ok_spec(
    inline: Option<Seq<char>>,
    allow: bool,
    generate_if_missing: bool,
    kv: Option<Seq<char>>,
    got: ObtainedKey,
) -> bool {
    match inline {
        Some(s) => got matches ObtainedKey::Existing(k) && key_of_encoded(s) == Some(k@),
        None => match keyring_hit(allow, kv) {
            Some(b) => got matches ObtainedKey::Existing(k) && k@ == b,
            None => generate_if_missing && (got matches ObtainedKey::Generated(g) && g.wf()),
        },
    }
}

/// The failing outcomes of key resolution: a malformed inline key, or no
/// source at all while generation is not permitted.
pub open spec fn obtain_err_spec(
    inline: Option<Seq<char>>,
    allow: bool,
    generate_if_missing: bool,
    kv: Option<Seq<char>>,
    e: SecretError,
) -> bool {
    match inline {
        Some(s) => key_of_encoded(s) is None && e == SecretError::InvalidKeyFormat,
        None => keyring_hit(allow, kv) is None && !generate_if_missing
            && e == SecretError::MasterKeyUnavailable,
    }
}

impl MasterKeyProvider {
    /// The inline key text this provider was configured with, if any.
    pub closed spec fn inline(&self) -> Option<Seq<char>> {
        match self.src.base64_inline {
            Some(ref s) => Some(s@),
            None => None,
        }
    }

    /// Whether this provider may use the OS credential store.
    pub closed spec fn allow_keyring(&self) -> bool {
        self.src.allow_keyring
    }

    pub fn new(src: MasterKeySource) -> (r: Self)
        ensures
            r.inline() == (match src.base64_inline {
                Some(s) => Some(s@),
                None => None::<Seq<char>>,
            }),
            r.allow_keyring() == src.allow_keyring,
    {
        MasterKeyProvider { src }
    }

    /// Whether the caller should read the OS credential store before calling
    /// `obtain`: only when no inline key was supplied and keyring use is
    /// allowed.
    pub fn needs_keyring_lookup(&self) -> (r: bool)
        ensures
            r == (self.inline() is None && self.allow_keyring()),
    {
        self.src.base64_inline.is_none() && self.src.allow_keyring
    }

    /// Resolve the session's master key. `keyring_value` is the value the
    /// caller read from the OS credential store, or `None` when there was
    /// none to read (disabled, missing, or unreadable). An inline key wins,
    /// then a stored key that decodes, then — only if `generate_if_missing` —
    /// a fresh key whose display form the caller must surface once and may
    /// persist to the credential store.
    pub fn obtain(&self, generate_if_missing: bool, keyring_value: Option<&str>) -> (r: Result<
        ObtainedKey,
        SecretError,
    >)
        ensures
            ({
                let kv = (match keyring_value {
                    Some(v) => Some(v@),
                    None => None::<Seq<char>>,
                });
                match r {
                    Ok(got) => obtain_ok_spec(
                        self.inline(),
                        self.allow_keyring(),
                        generate_if_missing,
                        kv,
                        got,
                    ),
                    Err(e) => obtain_err_spec(
                        self.inline(),
                        self.allow_keyring(),
                        generate_if_missing,
                        kv,
                        e,
                    ),
                }
            }),
    {
        if let Some(inline) = &self.src.base64_inline {
            return match decode_key(inline.as_str()) {
                Ok(k) => Ok(ObtainedKey::Existing(k)),
                Err(e) => Err(e),
            };
        }
        if self.src.allow_keyring {
            if let Some(stored) = keyring_value {
                if let Ok(k) = decode_key(stored) {
                    return Ok(ObtainedKey::Existing(k));
                }
            }
        }
        if !generate_if_missing {
            return Err(SecretError::MasterKeyUnavailable);
        }
        Ok(ObtainedKey::Generated(Self::fresh_generated()))
    }

    /// Unconditionally generate a new master key with its one-time display
    /// form. Re-encrypting the store and persisting the new key are the
    /// caller's to do, in that fixed order.
    pub fn rotate(&self) -> (r: GeneratedKey)
        ensures
            r.wf(),
    {
        Self::fresh_generated()
    }

    fn fresh_generated() -> (r: GeneratedKey)
        ensures
            r.wf(),
    {
        let key = generate_key();
        let encoded = b64_encode(key.as_bytes());
        GeneratedKey { key, encoded }
    }
}

/// The base64 display form of a master key: decoding it, as `decode_key`
/// does, yields back exactly the key's bytes.
pub fn encode_key(key: &MasterKey) -> (r: String)
    ensures
        r@ == b64_encode_of(key@),
        key_of_encoded(r@) == Some(key@),
{
    b64_encode(key.as_bytes())
}

} // verus!
