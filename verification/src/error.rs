use vstd::prelude::*;

verus! {

/// The failure modes of the vault, one variant per distinct cause, so that
/// callers can branch on "absent" versus "broken".
#[derive(Clone, Copy, Debug, PartialEq, Eq, Structural)]
pub enum CacheVaultError {
    /// The platform credential store could not be reached.
    KeyUnavailable,
    /// A stored key value exists but cannot be decoded into 32 raw bytes.
    CorruptKeyEncoding,
    /// Internal AEAD failure while encrypting (unexpected).
    EncryptionFailed,
    /// The ciphertext/nonce/key triple does not verify: tampered or wrong key.
    AuthenticationFailed,
    /// Authenticated plaintext bytes are not valid text.
    InvalidUtf8,
    /// No matching row: a normal, expected outcome.
    NotFound,
    /// The storage layer refused the operation (e.g. a missing parent row).
    StorageFailure,
}

impl CacheVaultError {
    /// A short description of the error, suitable for reporting.
    pub fn message(&self) -> (r: &'static str)
    {
        match self {
            CacheVaultError::KeyUnavailable => "secret store unavailable",
            CacheVaultError::CorruptKeyEncoding => "stored key cannot be decoded",
            CacheVaultError::EncryptionFailed => "encryption failed",
            CacheVaultError::AuthenticationFailed => "authentication failed",
            CacheVaultError::InvalidUtf8 => "plaintext is not valid utf-8",
            CacheVaultError::NotFound => "not found",
            CacheVaultError::StorageFailure => "storage failure",
        }
    }
}

} // verus!
