use std::collections::HashMap;

use cache_vault::{
    fetch, fetch_with_attributes, save, Attribute, CacheVaultError, Entry, VaultStore,
};

// An in-memory credential store keyed by (service, user), installed through
// keyring's extension point so that key material persists across entries
// within the test process (the built-in featureless store keeps secrets in
// the entry alone).

use std::any::Any;
use std::sync::{Arc, Mutex};

#[derive(Debug)]
struct MemCredential {
    secrets: Arc<Mutex<std::collections::HashMap<(String, String), Vec<u8>>>>,
    service: String,
    user: String,
}

impl keyring::credential::CredentialApi for MemCredential {
    fn set_secret(&self, secret: &[u8]) -> keyring::Result<()> {
        self.secrets
            .lock()
            .unwrap()
            .insert((self.service.clone(), self.user.clone()), secret.to_vec());
        Ok(())
    }

    fn get_secret(&self) -> keyring::Result<Vec<u8>> {
        self.secrets
            .lock()
            .unwrap()
            .get(&(self.service.clone(), self.user.clone()))
            .cloned()
            .ok_or(keyring::Error::NoEntry)
    }

    fn delete_credential(&self) -> keyring::Result<()> {
        self.secrets
            .lock()
            .unwrap()
            .remove(&(self.service.clone(), self.user.clone()))
            .map(|_| ())
            .ok_or(keyring::Error::NoEntry)
    }

    fn as_any(&self) -> &dyn Any {
        self
    }
}

#[derive(Debug)]
struct MemCredentialBuilder {
    secrets: Arc<Mutex<std::collections::HashMap<(String, String), Vec<u8>>>>,
}

impl keyring::credential::CredentialBuilderApi for MemCredentialBuilder {
    fn build(
        &self,
        _target: Option<&str>,
        service: &str,
        user: &str,
    ) -> keyring::Result<Box<keyring::credential::Credential>> {
        Ok(Box::new(MemCredential {
            secrets: self.secrets.clone(),
            service: service.to_string(),
            user: user.to_string(),
        }))
    }

    fn as_any(&self) -> &dyn Any {
        self
    }
}

fn use_memory_credential_store() {
    keyring::set_default_credential_builder(Box::new(MemCredentialBuilder {
        secrets: Arc::new(Mutex::new(std::collections::HashMap::new())),
    }));
}

#[test]
fn test_save() -> Result<(), CacheVaultError> {
    use_memory_credential_store();
    let mut store = VaultStore::new();
    save(&mut store, "test", "test-key1", "test-value1", None, None, 1)?;
    save(&mut store, "test", "test-key2", "test-value2", None, None, 2)?;
    let (value1, _) = fetch(&store, "test", "test-key1")?;
    assert_eq!(value1, "test-value1");
    let (value2, _) = fetch(&store, "test", "test-key2")?;
    assert_eq!(value2, "test-value2");

    let (value1, _, attributes) = fetch_with_attributes(&store, "test", "test-key1")?;
    assert_eq!(value1, "test-value1");
    assert_eq!(attributes, None);

    match fetch(&store, "test", "no-such-key") {
        Err(e) => match e {
            CacheVaultError::NotFound => (),
            _ => panic!("unexpected"),
        },
        Ok(_) => panic!("unexpected"),
    }

    Ok(())
}

#[test]
fn test_save_with_attributes() -> Result<(), CacheVaultError> {
    use_memory_credential_store();
    let mut store = VaultStore::new();
    let attributes = vec![
        (String::from("attr1"), String::from("attr1-value")),
        (String::from("attr2"), String::from("attr2-value")),
        (String::from("attr3"), String::from("attr3-value")),
    ];
    save(&mut store, "test", "test-key1", "test-value1", Some(attributes.clone()), None, 1)?;

    if let (value1, _, Some(attrs)) = fetch_with_attributes(&store, "test", "test-key1")? {
        assert_eq!(value1, "test-value1");
        let got: HashMap<String, String> = attrs.into_iter().collect();
        let expected: HashMap<String, String> = attributes.into_iter().collect();
        assert_eq!(got, expected);
    } else {
        panic!("unexpected");
    }

    Ok(())
}

#[test]
fn test_save_no_attributes_is_none_not_empty() -> Result<(), CacheVaultError> {
    use_memory_credential_store();
    let mut store = VaultStore::new();
    save(&mut store, "test", "bare", "v", None, None, 7)?;
    let (_, _, attributes) = fetch_with_attributes(&store, "test", "bare")?;
    assert!(attributes.is_none());
    Ok(())
}

#[test]
fn test_entry_fetch_no_such_key() -> Result<(), CacheVaultError> {
    use_memory_credential_store();
    let store = VaultStore::new();
    match Entry::fetch(&store, "test", "no-such-key") {
        Err(e) => match e {
            CacheVaultError::NotFound => (),
            _ => panic!("unexpected"),
        },
        Ok(_) => panic!("unexpected"),
    }
    Ok(())
}

#[test]
fn test_attribute_fetch_all() -> Result<(), CacheVaultError> {
    use_memory_credential_store();
    let mut store = VaultStore::new();
    let entry_id = Entry::upsert(&mut store, "test", "test-key", "test-value", None, 1)?;

    let _ = Attribute::upsert(&mut store, entry_id, "name0", "value0", 2)?;
    let _ = Attribute::upsert(&mut store, entry_id, "name1", "value1", 3)?;
    let _ = Attribute::upsert(&mut store, entry_id, "name2", "value2", 4)?;

    let attributes = Attribute::fetch_all(&store, entry_id)?;
    assert_eq!(attributes.len(), 3);
    if let Some(a) = attributes.get(0) {
        assert_eq!(a.name, "name0");
        assert_eq!(a.plaintext()?, "value0");
    } else {
        panic!("failed to fetch attribute 0");
    }
    if let Some(a) = attributes.get(1) {
        assert_eq!(a.name, "name1");
        assert_eq!(a.plaintext()?, "value1");
    } else {
        panic!("failed to fetch attribute 1");
    }
    if let Some(a) = attributes.get(2) {
        assert_eq!(a.name, "name2");
        assert_eq!(a.plaintext()?, "value2");
    } else {
        panic!("failed to fetch attribute 2");
    }
    Ok(())
}

#[test]
fn test_fetch_all_returns_creation_order_not_name_order() -> Result<(), CacheVaultError> {
    use_memory_credential_store();
    let mut store = VaultStore::new();
    let entry_id = Entry::upsert(&mut store, "test", "ordered", "v", None, 1)?;
    let _ = Attribute::upsert(&mut store, entry_id, "zeta", "first", 2)?;
    let _ = Attribute::upsert(&mut store, entry_id, "alpha", "second", 3)?;
    let _ = Attribute::upsert(&mut store, entry_id, "mid", "third", 4)?;

    let attributes = Attribute::fetch_all(&store, entry_id)?;
    let names: Vec<&str> = attributes.iter().map(|a| a.name.as_str()).collect();
    assert_eq!(names, vec!["zeta", "alpha", "mid"]);
    let mut last_id = 0;
    for a in &attributes {
        assert!(a.id > last_id);
        last_id = a.id;
    }
    Ok(())
}

#[test]
fn test_upsert_entry_and_attribute() -> Result<(), CacheVaultError> {
    use_memory_credential_store();
    let mut store = VaultStore::new();
    let entry_id = Entry::upsert(&mut store, "test", "test-key", "test-value", None, 1)?;
    let e = Entry::fetch(&store, "test", "test-key")?;
    assert_eq!(entry_id, e.id);
    assert_eq!(e.namespace, "test");
    assert_eq!(e.key_name, "test-key");
    assert_eq!(e.plaintext()?, "test-value");
    let entry_id2 = Entry::upsert(&mut store, "test", "test-key", "test-updated-value", None, 2)?;
    let e = Entry::fetch_by_id(&store, entry_id2)?;
    assert_eq!(entry_id, entry_id2);
    assert_eq!(entry_id, e.id);
    assert_eq!(e.namespace, "test");
    assert_eq!(e.key_name, "test-key");
    assert_eq!(e.plaintext()?, "test-updated-value");

    let attribute_id = Attribute::upsert(&mut store, entry_id, "test-attribute", "test-attribute-value", 3)?;
    let a = Attribute::fetch_by_id(&store, attribute_id)?;
    assert_eq!(a.id, attribute_id);
    assert_eq!(a.entry_id, entry_id);
    assert_eq!(a.name, "test-attribute");
    assert_eq!(a.plaintext()?, "test-attribute-value");
    let attribute_id2 =
        Attribute::upsert(&mut store, entry_id, "test-attribute", "test-updated-attribute-value", 4)?;
    let a = Attribute::fetch_by_id(&store, attribute_id)?;
    assert_eq!(attribute_id, attribute_id2);
    assert_eq!(a.id, attribute_id);
    assert_eq!(a.entry_id, entry_id);
    assert_eq!(a.name, "test-attribute");
    assert_eq!(a.plaintext()?, "test-updated-attribute-value");

    let a = Attribute::fetch_by_name(&store, entry_id, "test-attribute")?;
    assert_eq!(a.id, attribute_id);
    assert_eq!(a.entry_id, entry_id);
    assert_eq!(a.name, "test-attribute");
    assert_eq!(a.plaintext()?, "test-updated-attribute-value");
    Ok(())
}

#[test]
fn test_upsert_same_key_keeps_one_row_and_created_at() -> Result<(), CacheVaultError> {
    use_memory_credential_store();
    let mut store = VaultStore::new();
    let id1 = Entry::upsert(&mut store, "ns", "k", "v1", None, 10)?;
    let first = Entry::fetch(&store, "ns", "k")?;
    let id2 = Entry::upsert(&mut store, "ns", "k", "v2", Some(99), 20)?;
    assert_eq!(id1, id2);
    let e = Entry::fetch(&store, "ns", "k")?;
    assert_eq!(e.id, id1);
    assert_eq!(e.created_at, first.created_at);
    assert_eq!(e.updated_at, 20);
    assert_eq!(e.expired_at, Some(99));
    assert_eq!(e.plaintext()?, "v2");
    // no second row was created for the identity
    let other = Entry::fetch_by_id(&store, id1 + 1);
    assert!(matches!(other, Err(CacheVaultError::NotFound)));
    Ok(())
}

#[test]
fn test_attribute_upsert_missing_entry_is_storage_failure() {
    use_memory_credential_store();
    let mut store = VaultStore::new();
    match Attribute::upsert(&mut store, 42, "name", "value", 1) {
        Err(CacheVaultError::StorageFailure) => (),
        _ => panic!("an attribute without its entry must be refused"),
    }
}

#[test]
fn test_fetch_expiry_round_trip() -> Result<(), CacheVaultError> {
    use_memory_credential_store();
    let mut store = VaultStore::new();
    save(&mut store, "test", "expiring", "v", None, Some(123456), 5)?;
    let (value, expired_at) = fetch(&store, "test", "expiring")?;
    assert_eq!(value, "v");
    assert_eq!(expired_at, Some(123456));
    Ok(())
}

#[test]
fn test_attribute_digest_differs_per_value() -> Result<(), CacheVaultError> {
    use_memory_credential_store();
    let mut store = VaultStore::new();
    let entry_id = Entry::upsert(&mut store, "ns", "k", "v", None, 1)?;
    let a1 = Attribute::upsert(&mut store, entry_id, "a1", "same", 2)?;
    let a2 = Attribute::upsert(&mut store, entry_id, "a2", "same", 3)?;
    let a3 = Attribute::upsert(&mut store, entry_id, "a3", "other", 4)?;
    let r1 = Attribute::fetch_by_id(&store, a1)?;
    let r2 = Attribute::fetch_by_id(&store, a2)?;
    let r3 = Attribute::fetch_by_id(&store, a3)?;
    // the digest is deterministic: equal values agree, different values differ
    assert_eq!(r1.hashed_value, r2.hashed_value);
    assert_ne!(r1.hashed_value, r3.hashed_value);
    assert_eq!(r1.hashed_value.len(), 32);
    Ok(())
}
