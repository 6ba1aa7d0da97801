use vstd::prelude::*;

use chacha20poly1305::aead::{KeyInit, OsRng};

use crate::error::CacheVaultError;
use crate::textcode::{decode, encode, zbase32_decoded, zbase32_of};

verus! {

/// Identity of one piece of key material in the platform credential store:
/// a service name and a purpose ("user") under that service.
#[derive(Debug)]
pub struct Key {
    service: &'static str,
    user: &'static str,
}

/// Outcome of one read of the credential store, with the cases the retry
/// and decode logic must tell apart.
enum SecretLookup {
    /// A value is stored under this identity.
    Found(String),
    /// Nothing is stored under this identity.
    Missing,
    /// A value is stored under this identity but is not valid text.
    Malformed,
    /// The store could not be reached or failed internally.
    Unreachable,
}

/// Relies on `keyring::Entry::new` and `keyring::Entry::get_password`: reads
/// the text stored under (service, user) in the platform's default
/// credential store. The result depends on the machine's credential store,
/// so nothing is promised of it beyond the case split.
#[verifier::external_body]
fn read_credential(service: &str, user: &str) -> (r: SecretLookup)
{
    match keyring::Entry::new(service, user) {
        Ok(entry) => match entry.get_password() {
            Ok(text) => SecretLookup::Found(text),
            Err(keyring::Error::NoEntry) => SecretLookup::Missing,
            Err(keyring::Error::BadEncoding(_)) => SecretLookup::Malformed,
            Err(_) => SecretLookup::Unreachable,
        },
        Err(_) => SecretLookup::Unreachable,
    }
}

/// Relies on `keyring::Entry::new` and `keyring::Entry::set_password`: stores
/// the text under (service, user); reports whether the write was accepted.
#[verifier::external_body]
fn write_credential(service: &str, user: &str, secret: &str) -> (r: bool)
{
    match keyring::Entry::new(service, user) {
        Ok(entry) => entry.set_password(secret).is_ok(),
        Err(_) => false,
    }
}

/// Relies on `keyring::Entry::new` and `keyring::Entry::delete_credential`:
/// removes the value stored under (service, user).
#[verifier::external_body]
fn remove_credential(service: &str, user: &str) -> (r: Result<(), CacheVaultError>)
    ensures
        r is Ok || (r matches Err(e) && e == CacheVaultError::KeyUnavailable),
{
    let entry = match keyring::Entry::new(service, user) {
        Ok(entry) => entry,
        Err(_) => return Err(CacheVaultError::KeyUnavailable),
    };
    match entry.delete_credential() {
        Ok(()) => Ok(()),
        Err(_) => Err(CacheVaultError::KeyUnavailable),
    }
}

/// Relies on `chacha20poly1305::ChaCha20Poly1305::generate_key` with `OsRng`,
/// a cryptographically secure source: 32 bytes are drawn fresh; nothing can
/// be promised of their values.
#[verifier::external_body]
fn random_key_bytes() -> (r: Vec<u8>)
    ensures
        r@.len() == 32,
{
    chacha20poly1305::ChaCha20Poly1305::generate_key(&mut OsRng).to_vec()
}

/// Generates fresh 32-byte key material and encodes it for storage in the
/// credential store.
pub fn generate_key() -> (r: String)
    ensures
        exists|b: Seq<u8>|
            b.len() == 32 && r@ == zbase32_of(b) && zbase32_decoded(r@) == Some(b),
{
    let key = random_key_bytes();
    let text = encode(key.as_slice());
    proof {
        assert(key@.len() == 32 && text@ == zbase32_of(key@) && zbase32_decoded(text@) == Some(
            key@,
        ));
    }
    text
}

/// The 32 raw key bytes held in stored credential text: `None` when the text
/// is not z-base-32 or does not decode to exactly 32 bytes.
pub open spec fn key_bytes_of_text(text: Seq<char>) -> Option<Seq<u8>> {
    match zbase32_decoded(text) {
        Some(b) => if b.len() == 32 {
            Some(b)
        } else {
            None
        },
        None => None,
    }
}

/// Decodes stored credential text into raw key material, rejecting text that
/// does not decode to exactly 32 bytes.
fn decode_key_text(text: &str) -> (r: Result<Vec<u8>, CacheVaultError>)
    ensures
        r matches Ok(k) ==> key_bytes_of_text(text@) == Some(k@) && k@.len() == 32,
        r matches Err(e) ==> key_bytes_of_text(text@) is None && e
            == CacheVaultError::CorruptKeyEncoding,
{
    match decode(text) {
        Some(bytes) => {
            if bytes.len() == 32 {
                Ok(bytes)
            } else {
                Err(CacheVaultError::CorruptKeyEncoding)
            }
        },
        None => Err(CacheVaultError::CorruptKeyEncoding),
    }
}

impl View for Key {
    type V = (Seq<char>, Seq<char>);

    closed spec fn view(&self) -> (Seq<char>, Seq<char>) {
        (self.service@, self.user@)
    }
}

impl Key {
    /// A key identity under an explicit service name and purpose.
    pub fn new(service: &'static str, user: &'static str) -> (r: Self)
        ensures
            r@ == (service@, user@),
    {
        Self { service, user }
    }

    /// The vault's encryption key identity.
    pub fn default() -> (r: Self)
        ensures
            r@ == ("cache-vault"@, "encryption-key"@),
    {
        Self { service: "cache-vault", user: "encryption-key" }
    }

    /// The vault's pepper identity, distinct from the encryption key.
    pub fn pepper() -> (r: Self)
        ensures
            r@ == ("cache-vault"@, "pepper"@),
    {
        Self { service: "cache-vault", user: "pepper" }
    }

    /// Obtains the 32-byte key material for this identity, creating and
    /// storing it on first access. A read that misses is followed by one
    /// write and one re-read, so a value created concurrently wins the race
    /// and a single decode path is kept.
    pub fn get(&self) -> (r: Result<Vec<u8>, CacheVaultError>)
        ensures
            r matches Ok(k) ==> k@.len() == 32,
            r matches Err(e) ==> (e == CacheVaultError::KeyUnavailable || e
                == CacheVaultError::CorruptKeyEncoding),
    {
        match read_credential(self.service, self.user) {
            SecretLookup::Found(text) => decode_key_text(text.as_str()),
            SecretLookup::Missing => {
                let fresh = generate_key();
                // A failed write here may mean a concurrent first access
                // already created the value; the re-read below settles it.
                let _accepted = write_credential(self.service, self.user, fresh.as_str());
                match read_credential(self.service, self.user) {
                    SecretLookup::Found(text) => decode_key_text(text.as_str()),
                    SecretLookup::Missing => Err(CacheVaultError::KeyUnavailable),
                    SecretLookup::Malformed => Err(CacheVaultError::CorruptKeyEncoding),
                    SecretLookup::Unreachable => Err(CacheVaultError::KeyUnavailable),
                }
            },
            SecretLookup::Malformed => Err(CacheVaultError::CorruptKeyEncoding),
            SecretLookup::Unreachable => Err(CacheVaultError::KeyUnavailable),
        }
    }

    /// Removes this identity's stored key material. All data encrypted under
    /// it becomes unrecoverable.
    pub fn delete(&self) -> (r: Result<(), CacheVaultError>)
        ensures
            r matches Err(e) ==> e == CacheVaultError::KeyUnavailable,
    {
        remove_credential(self.service, self.user)
    }
}

} // verus!
