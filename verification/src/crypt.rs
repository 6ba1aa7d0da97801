use vstd::prelude::*;

use chacha20poly1305::aead::generic_array::GenericArray;
use chacha20poly1305::aead::{Aead, AeadCore, KeyInit, OsRng};
use chacha20poly1305::ChaCha20Poly1305;

use vstd::utf8::{decode_utf8, encode_utf8, valid_utf8};

use crate::error::CacheVaultError;
use crate::key::Key;

verus! {

broadcast use vstd::utf8::encode_utf8_valid_utf8, vstd::utf8::encode_utf8_decode_utf8;

/// The ciphertext-with-tag produced by `ChaCha20Poly1305::encrypt` for a key,
/// a nonce and a message: a deterministic function of those three inputs.
pub uninterp spec fn chacha_sealed(key: Seq<u8>, nonce: Seq<u8>, msg: Seq<u8>) -> Seq<u8>;

/// What `ChaCha20Poly1305::decrypt` recovers from a key, a nonce and a
/// ciphertext: the authenticated plaintext, or `None` when the triple does
/// not verify.
pub uninterp spec fn chacha_opened(key: Seq<u8>, nonce: Seq<u8>, ct: Seq<u8>) -> Option<Seq<u8>>;

/// Relies on `chacha20poly1305::ChaCha20Poly1305::encrypt` (no associated
/// data): the ciphertext is the message's length plus the 16-byte tag, is a
/// deterministic function of key, nonce and message, and decrypts back to the
/// message under the same key and nonce; it fails only on messages past the
/// cipher's length limit, which lies above 2^32 bytes.
#[verifier::external_body]
fn aead_seal(key: &[u8], nonce: &[u8], msg: &[u8]) -> (r: Result<Vec<u8>, CacheVaultError>)
    requires
        key@.len() == 32,
        nonce@.len() == 12,
    ensures
        r matches Ok(c) ==> c@ == chacha_sealed(key@, nonce@, msg@) && chacha_opened(
            key@,
            nonce@,
            c@,
        ) == Some(msg@) && c@.len() == msg@.len() + 16,
        msg@.len() < 0x100000000 ==> r is Ok,
        r matches Err(e) ==> e == CacheVaultError::EncryptionFailed,
{
    let cipher = ChaCha20Poly1305::new(GenericArray::from_slice(key));
    match cipher.encrypt(GenericArray::from_slice(nonce), msg) {
        Ok(c) => Ok(c),
        Err(_) => Err(CacheVaultError::EncryptionFailed),
    }
}

/// Relies on `chacha20poly1305::ChaCha20Poly1305::decrypt` (no associated
/// data): returns the authenticated plaintext, and fails exactly when the
/// key/nonce/ciphertext triple does not verify.
#[verifier::external_body]
fn aead_open(key: &[u8], nonce: &[u8], ct: &[u8]) -> (r: Result<Vec<u8>, CacheVaultError>)
    requires
        key@.len() == 32,
        nonce@.len() == 12,
    ensures
        r matches Ok(p) ==> chacha_opened(key@, nonce@, ct@) == Some(p@),
        r matches Err(e) ==> chacha_opened(key@, nonce@, ct@) is None && e
            == CacheVaultError::AuthenticationFailed,
{
    let cipher = ChaCha20Poly1305::new(GenericArray::from_slice(key));
    match cipher.decrypt(GenericArray::from_slice(nonce), ct) {
        Ok(p) => Ok(p),
        Err(_) => Err(CacheVaultError::AuthenticationFailed),
    }
}

/// Relies on `chacha20poly1305::ChaCha20Poly1305::generate_nonce` with
/// `OsRng`, a cryptographically secure source: a fresh 96-bit nonce; nothing
/// can be promised of its value.
#[verifier::external_body]
fn generate_nonce() -> (r: Vec<u8>)
    ensures
        r@.len() == 12,
{
    ChaCha20Poly1305::generate_nonce(&mut OsRng).to_vec()
}

/// Relies on `String::from_utf8`: returns the text whose UTF-8 encoding is
/// the input, and errs exactly on input that is not valid UTF-8.
#[verifier::external_body]
fn bytes_to_string(bytes: Vec<u8>) -> (r: Result<String, CacheVaultError>)
    ensures
        r matches Ok(s) ==> valid_utf8(bytes@) && s@ == decode_utf8(bytes@),
        r matches Err(e) ==> !valid_utf8(bytes@) && e == CacheVaultError::InvalidUtf8,
{
    match String::from_utf8(bytes) {
        Ok(s) => Ok(s),
        Err(_) => Err(CacheVaultError::InvalidUtf8),
    }
}

/// What decryption under a given key returns for a stored (nonce, ciphertext)
/// pair: the recovered text, or the exact error for each way it can fail.
pub open spec fn decrypt_model(key: Seq<u8>, nonce: Seq<u8>, ct: Seq<u8>) -> Result<
    Seq<char>,
    CacheVaultError,
> {
    if nonce.len() != 12 {
        Err(CacheVaultError::AuthenticationFailed)
    } else {
        match chacha_opened(key, nonce, ct) {
            Some(p) => if valid_utf8(p) {
                Ok(decode_utf8(p))
            } else {
                Err(CacheVaultError::InvalidUtf8)
            },
            None => Err(CacheVaultError::AuthenticationFailed),
        }
    }
}

/// Encrypts `value` under an explicit 32-byte key with a fresh random nonce,
/// returning (ciphertext, nonce).
pub fn encrypt_with_key(key: &Vec<u8>, value: &str) -> (r: Result<
    (Vec<u8>, Vec<u8>),
    CacheVaultError,
>)
    requires
        key@.len() == 32,
    ensures
        r matches Ok(p) ==> p.1@.len() == 12 && p.0@ == chacha_sealed(
            key@,
            p.1@,
            encode_utf8(value@),
        ) && chacha_opened(key@, p.1@, p.0@) == Some(encode_utf8(value@)) && p.0@.len()
            == encode_utf8(value@).len() + 16,
        r matches Err(e) ==> e == CacheVaultError::EncryptionFailed && encode_utf8(value@).len()
            >= 0x100000000,
{
    let nonce = generate_nonce();
    let ciphertext = aead_seal(key.as_slice(), nonce.as_slice(), value.as_bytes())?;
    Ok((ciphertext, nonce))
}

/// Decrypts a (nonce, ciphertext) pair under an explicit 32-byte key; the
/// result is exactly what `decrypt_model` says for these inputs.
pub fn decrypt_with_key(key: &Vec<u8>, nonce: &Vec<u8>, encrypted: &Vec<u8>) -> (r: Result<
    String,
    CacheVaultError,
>)
    requires
        key@.len() == 32,
    ensures
        r matches Ok(s) ==> decrypt_model(key@, nonce@, encrypted@) == Ok::<
            Seq<char>,
            CacheVaultError,
        >(s@),
        r matches Err(e) ==> decrypt_model(key@, nonce@, encrypted@) == Err::<
            Seq<char>,
            CacheVaultError,
        >(e),
{
    if nonce.len() != 12 {
        return Err(CacheVaultError::AuthenticationFailed);
    }
    let plain = aead_open(key.as_slice(), nonce.as_slice(), encrypted.as_slice())?;
    bytes_to_string(plain)
}

/// Whether (nonce, ciphertext) was produced by sealing `text` under some
/// 32-byte key: the ciphertext authenticates back to `text`'s encoding.
pub open spec fn sealed_payload_of(nonce: Seq<u8>, ct: Seq<u8>, text: Seq<char>) -> bool {
    nonce.len() == 12 && exists|k: Seq<u8>|
        k.len() == 32 && #[trigger] chacha_opened(k, nonce, ct) == Some(encode_utf8(text))
}

/// Whether (nonce, ciphertext) decrypts to `text` under some 32-byte key.
pub open spec fn opens_to(nonce: Seq<u8>, ct: Seq<u8>, text: Seq<char>) -> bool {
    exists|k: Seq<u8>|
        k.len() == 32 && #[trigger] decrypt_model(k, nonce, ct) == Ok::<Seq<char>, CacheVaultError>(
            text,
        )
}

/// A payload sealed from `text` opens back to `text`: the spec-level face of
/// the round trip law.
pub proof fn lemma_sealed_opens(nonce: Seq<u8>, ct: Seq<u8>, text: Seq<char>)
    requires
        sealed_payload_of(nonce, ct, text),
    ensures
        opens_to(nonce, ct, text),
{
    let k = choose|k: Seq<u8>|
        k.len() == 32 && #[trigger] chacha_opened(k, nonce, ct) == Some(encode_utf8(text));
    lemma_round_trip(k, nonce, text, ct);
    assert(decrypt_model(k, nonce, ct) == Ok::<Seq<char>, CacheVaultError>(text));
}

/// Round trip law: a ciphertext that authenticates back to the encoding of
/// `text` under (key, nonce) decrypts to exactly `text`. Together with
/// `encrypt_with_key`'s contract this says that decrypting what was just
/// encrypted returns the original value.
pub proof fn lemma_round_trip(key: Seq<u8>, nonce: Seq<u8>, text: Seq<char>, ct: Seq<u8>)
    requires
        nonce.len() == 12,
        chacha_opened(key, nonce, ct) == Some(encode_utf8(text)),
    ensures
        decrypt_model(key, nonce, ct) == Ok::<Seq<char>, CacheVaultError>(text),
{
}

/// Encrypts a plaintext string under the vault's encryption key, drawing a
/// fresh random 96-bit nonce; returns (ciphertext, nonce).
pub fn encrypt(raw: String) -> (r: Result<(Vec<u8>, Vec<u8>), CacheVaultError>)
    ensures
        r matches Ok(p) ==> sealed_payload_of(p.1@, p.0@, raw@) && p.0@.len() == encode_utf8(raw@).len() + 16,
        r matches Err(e) ==> (e == CacheVaultError::KeyUnavailable || e
            == CacheVaultError::CorruptKeyEncoding || e == CacheVaultError::EncryptionFailed),
        (r matches Err(e) && e == CacheVaultError::EncryptionFailed) ==> encode_utf8(raw@).len()
            >= 0x100000000,
{
    let key = Key::default().get()?;
    let pair = encrypt_with_key(&key, raw.as_str())?;
    proof {
        assert(key@.len() == 32 && chacha_opened(key@, pair.1@, pair.0@) == Some(
            encode_utf8(raw@),
        ));
    }
    Ok(pair)
}

/// Decrypts a stored (nonce, ciphertext) pair under the vault's encryption
/// key, surfacing tampering as `AuthenticationFailed` and non-text plaintext
/// as `InvalidUtf8`.
pub fn decrypt(nonce: &Vec<u8>, encrypted: &Vec<u8>) -> (r: Result<String, CacheVaultError>)
    ensures
        r matches Ok(s) ==> opens_to(nonce@, encrypted@, s@),
        r matches Err(e) ==> (e == CacheVaultError::KeyUnavailable || e
            == CacheVaultError::CorruptKeyEncoding || e == CacheVaultError::AuthenticationFailed
            || e == CacheVaultError::InvalidUtf8),
{
    let key = Key::default().get()?;
    let out = decrypt_with_key(&key, nonce, encrypted);
    proof {
        if out is Ok {
            assert(key@.len() == 32 && decrypt_model(key@, nonce@, encrypted@) == Ok::<
                Seq<char>,
                CacheVaultError,
            >(out->Ok_0@));
        }
    }
    out
}

} // verus!
