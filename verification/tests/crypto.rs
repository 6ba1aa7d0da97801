use cache_vault::{decode, decrypt, digest, encode, encrypt, generate_key, CacheVaultError, Key};

// An in-memory credential store keyed by (service, user), installed through
// keyring's extension point so that key material persists across entries
// within the test process (the built-in featureless store keeps secrets in
// the entry alone).

use std::any::Any;
use std::sync::{Arc, Mutex};

#[derive(Debug)]
struct MemCredential {
    secrets: Arc<Mutex<std::collections::HashMap<(String, String), Vec<u8>>>>,
    service: String,
    user: String,
}

impl keyring::credential::CredentialApi for MemCredential {
    fn set_secret(&self, secret: &[u8]) -> keyring::Result<()> {
        self.secrets
            .lock()
            .unwrap()
            .insert((self.service.clone(), self.user.clone()), secret.to_vec());
        Ok(())
    }

    fn get_secret(&self) -> keyring::Result<Vec<u8>> {
        self.secrets
            .lock()
            .unwrap()
            .get(&(self.service.clone(), self.user.clone()))
            .cloned()
            .ok_or(keyring::Error::NoEntry)
    }

    fn delete_credential(&self) -> keyring::Result<()> {
        self.secrets
            .lock()
            .unwrap()
            .remove(&(self.service.clone(), self.user.clone()))
            .map(|_| ())
            .ok_or(keyring::Error::NoEntry)
    }

    fn as_any(&self) -> &dyn Any {
        self
    }
}

#[derive(Debug)]
struct MemCredentialBuilder {
    secrets: Arc<Mutex<std::collections::HashMap<(String, String), Vec<u8>>>>,
}

impl keyring::credential::CredentialBuilderApi for MemCredentialBuilder {
    fn build(
        &self,
        _target: Option<&str>,
        service: &str,
        user: &str,
    ) -> keyring::Result<Box<keyring::credential::Credential>> {
        Ok(Box::new(MemCredential {
            secrets: self.secrets.clone(),
            service: service.to_string(),
            user: user.to_string(),
        }))
    }

    fn as_any(&self) -> &dyn Any {
        self
    }
}

fn use_memory_credential_store() {
    keyring::set_default_credential_builder(Box::new(MemCredentialBuilder {
        secrets: Arc::new(Mutex::new(std::collections::HashMap::new())),
    }));
}

#[test]
fn test_encrypt_decrypt() -> Result<(), CacheVaultError> {
    use_memory_credential_store();
    let plaintext = String::from("Hello, Rust");
    let (encrypted, nonce) = encrypt(plaintext.clone()).expect("encrypt error");
    let decrypted = decrypt(&nonce, &encrypted).expect("decrypt error");
    assert_eq!(plaintext, decrypted);
    Ok(())
}

#[test]
fn test_round_trip_empty_and_unicode() {
    use_memory_credential_store();
    for text in ["", "a", "caf\u{e9} \u{1F512} na\u{ef}ve"] {
        let (encrypted, nonce) = encrypt(String::from(text)).expect("encrypt error");
        let decrypted = decrypt(&nonce, &encrypted).expect("decrypt error");
        assert_eq!(decrypted, text);
    }
}

#[test]
fn test_nonce_freshness() {
    use_memory_credential_store();
    let (c1, n1) = encrypt(String::from("same plaintext")).expect("encrypt error");
    let (c2, n2) = encrypt(String::from("same plaintext")).expect("encrypt error");
    assert_ne!(n1, n2);
    assert_ne!(c1, c2);
}

#[test]
fn test_ciphertext_is_not_plaintext() {
    use_memory_credential_store();
    let plaintext = String::from("visible text");
    let (encrypted, _nonce) = encrypt(plaintext.clone()).expect("encrypt error");
    assert_eq!(encrypted.len(), plaintext.len() + 16);
    assert_ne!(&encrypted[..plaintext.len()], plaintext.as_bytes());
}

#[test]
fn test_tampered_ciphertext_fails_authentication() {
    use_memory_credential_store();
    let (mut encrypted, nonce) = encrypt(String::from("integrity matters")).expect("encrypt error");
    encrypted[0] ^= 0x01;
    match decrypt(&nonce, &encrypted) {
        Err(CacheVaultError::AuthenticationFailed) => (),
        _ => panic!("tampered ciphertext must fail authentication"),
    }
}

#[test]
fn test_tampered_nonce_fails_authentication() {
    use_memory_credential_store();
    let (encrypted, mut nonce) = encrypt(String::from("integrity matters")).expect("encrypt error");
    nonce[0] ^= 0x01;
    match decrypt(&nonce, &encrypted) {
        Err(CacheVaultError::AuthenticationFailed) => (),
        _ => panic!("tampered nonce must fail authentication"),
    }
}

#[test]
fn test_wrong_length_nonce_fails_authentication() {
    use_memory_credential_store();
    let (encrypted, nonce) = encrypt(String::from("short nonce")).expect("encrypt error");
    let mut long_nonce = nonce.clone();
    long_nonce.push(0);
    match decrypt(&long_nonce, &encrypted) {
        Err(CacheVaultError::AuthenticationFailed) => (),
        _ => panic!("wrong-length nonce must fail authentication"),
    }
}

#[test]
fn test_digest() -> Result<(), CacheVaultError> {
    use_memory_credential_store();
    let v1 = digest(b"secret-password")?;
    let v2 = digest(b"secret-password")?;
    let v3 = digest(b"secret-password2")?;

    assert_eq!(v1, v2);
    assert_ne!(v1, v3);
    Ok(())
}

#[test]
fn test_digest_is_not_input() {
    use_memory_credential_store();
    let out = digest(b"secret-password").expect("digest error");
    assert_eq!(out.len(), 32);
    assert_ne!(&out[..15], b"secret-password");
}

#[test]
fn test_generate_key() {
    use_memory_credential_store();
    let k = generate_key();
    println!("{}", k);
}

#[test]
fn test_generated_key_decodes_to_32_bytes() {
    use_memory_credential_store();
    let text = generate_key();
    let bytes = decode(text.as_str()).expect("generated key text must decode");
    assert_eq!(bytes.len(), 32);
}

#[test]
fn test_key_new_and_get() {
    use_memory_credential_store();
    let k = Key::new("cache-vault-test", "cache-vault-test-user");
    let pw = k.get();
    println!("{:?}", pw);
    k.delete().unwrap();
}

#[test]
fn test_key_get_is_stable() {
    use_memory_credential_store();
    let k = Key::new("cache-vault-test-stable", "cache-vault-test-user");
    let first = k.get().expect("first access creates the key");
    let second = k.get().expect("second access reads the key");
    assert_eq!(first, second);
    assert_eq!(first.len(), 32);
    k.delete().unwrap();
}

#[test]
fn test_encode_decode_round_trip() {
    use_memory_credential_store();
    let cases: [&[u8]; 4] = [b"", b"f", b"hello world", &[0u8, 255, 7, 128, 63, 1]];
    for data in cases {
        let text = encode(data);
        assert_eq!(decode(text.as_str()), Some(data.to_vec()));
    }
}

#[test]
fn test_decode_rejects_invalid_text() {
    use_memory_credential_store();
    assert_eq!(decode("0~!"), None);
}
