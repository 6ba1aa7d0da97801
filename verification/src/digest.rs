use vstd::prelude::*;

use crate::error::CacheVaultError;
use crate::key::Key;

verus! {

/// The 32-byte output of Argon2 (default parameters) for a password and a
/// salt: a deterministic function of those two inputs alone.
pub uninterp spec fn argon2_digest(data: Seq<u8>, pepper: Seq<u8>) -> Seq<u8>;

/// Relies on `argon2::Argon2::hash_password_into` with default parameters:
/// the 32-byte output is a deterministic function of the password bytes and
/// the salt bytes alone. With a 32-byte salt, a password of at most
/// `u32::MAX` bytes and a 32-byte output buffer, it fails only when the
/// algorithm's working memory cannot be allocated.
#[verifier::external_body]
fn argon2_hash(data: &[u8], pepper: &[u8]) -> (r: Result<[u8; 32], CacheVaultError>)
    requires
        pepper@.len() == 32,
        data@.len() <= u32::MAX,
    ensures
        r matches Ok(o) ==> o@ == argon2_digest(data@, pepper@),
        r matches Err(e) ==> e == CacheVaultError::EncryptionFailed,
{
    let mut output = [0u8; 32];
    match argon2::Argon2::default().hash_password_into(data, pepper, &mut output) {
        Ok(()) => Ok(output),
        Err(_) => Err(CacheVaultError::EncryptionFailed),
    }
}

/// Whether `h` is the peppered digest of `data` under some 32-byte pepper.
pub open spec fn peppered_digest_of(h: Seq<u8>, data: Seq<u8>) -> bool {
    exists|p: Seq<u8>| p.len() == 32 && h == #[trigger] argon2_digest(data, p)
}

/// Computes the peppered one-way digest of `data`: deterministic under an
/// unchanged pepper, so equal inputs stay comparable by digest alone.
pub fn digest(data: &[u8]) -> (r: Result<[u8; 32], CacheVaultError>)
    requires
        data@.len() <= u32::MAX,
    ensures
        r matches Ok(o) ==> peppered_digest_of(o@, data@),
        r matches Err(e) ==> (e == CacheVaultError::KeyUnavailable || e
            == CacheVaultError::CorruptKeyEncoding || e == CacheVaultError::EncryptionFailed),
{
    let pepper = Key::pepper().get()?;
    let out = argon2_hash(data, pepper.as_slice())?;
    proof {
        assert(pepper@.len() == 32 && out@ == argon2_digest(data@, pepper@));
    }
    Ok(out)
}

/// Determinism of the peppered digest: equal inputs hashed under an equal
/// pepper always give an equal digest, so digests can be compared for
/// equality in place of the values they were taken from.
pub proof fn lemma_digest_deterministic(d1: Seq<u8>, d2: Seq<u8>, pepper: Seq<u8>)
    requires
        d1 == d2,
    ensures
        argon2_digest(d1, pepper) == argon2_digest(d2, pepper),
{
}

} // verus!
