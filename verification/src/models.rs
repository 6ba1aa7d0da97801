use vstd::prelude::*;

use vstd::slice::slice_to_vec;
use vstd::utf8::encode_utf8;

use crate::crypt::{decrypt, encrypt, opens_to, sealed_payload_of};
use crate::digest::{digest, peppered_digest_of};
use crate::error::CacheVaultError;
use crate::store::{
    attr_row, attr_row_by_id, attr_upserted, attrs_for, attrs_sorted, entry_row, entry_row_by_id,
    entry_upserted, has_attr, has_attr_id, has_entry, has_entry_id, opt_view, VaultStore,
};

verus! {

/// The mathematical content of a sequence of attribute rows.
pub open spec fn attr_views(rows: Seq<Attribute>) -> Seq<AttributeModel> {
    Seq::new(rows.len(), |i: int| rows[i]@)
}

/// The store moved from `pre` to `post` by one entry upsert for
/// (ns, key) whose stored payload seals `text`.
pub open spec fn entry_payload_upserted(
    pre: crate::store::StoreModel,
    post: crate::store::StoreModel,
    ns: Seq<char>,
    key: Seq<char>,
    text: Seq<char>,
    expired_at: Option<int>,
    now: int,
    id: int,
) -> bool {
    exists|n: Seq<u8>, c: Seq<u8>|
        #[trigger] entry_upserted(pre, post, ns, key, n, c, expired_at, now, id)
            && sealed_payload_of(n, c, text)
}

/// The store moved from `pre` to `post` by one attribute upsert for
/// (entry_id, name) whose stored payload seals `text` and whose stored digest
/// is the peppered digest of `text`'s encoding.
pub open spec fn attr_payload_upserted(
    pre: crate::store::StoreModel,
    post: crate::store::StoreModel,
    entry_id: int,
    name: Seq<char>,
    text: Seq<char>,
    now: int,
    id: int,
) -> bool {
    exists|n: Seq<u8>, c: Seq<u8>, h: Seq<u8>|
        #[trigger] attr_upserted(pre, post, entry_id, name, n, c, h, now, id)
            && sealed_payload_of(n, c, text) && peppered_digest_of(h, encode_utf8(text))
}

/// The store moved from `pre` to `post` by upserting, in order, one
/// attribute per supplied (name, value) pair of one entry, and by nothing
/// else; an empty list leaves the store exactly as it was.
pub open spec fn attrs_saved(
    pre: crate::store::StoreModel,
    post: crate::store::StoreModel,
    entry_id: int,
    list: Seq<(String, String)>,
    now: int,
) -> bool
    decreases list.len(),
{
    if list.len() == 0 {
        post == pre
    } else {
        exists|mid: crate::store::StoreModel, id: int|
            #[trigger] attr_payload_upserted(
                mid,
                post,
                entry_id,
                list.last().0@,
                list.last().1@,
                now,
                id,
            ) && attrs_saved(pre, mid, entry_id, list.drop_last(), now)
    }
}

/// One stored secret: a (namespace, key_name) identity and its encrypted
/// payload. Timestamps are plain integer datetimes supplied by the caller.
pub struct Entry {
    pub id: i64,
    pub namespace: String,
    pub key_name: String,
    pub nonce: Vec<u8>,
    pub encrypted_value: Vec<u8>,
    pub created_at: i64,
    pub updated_at: i64,
    pub expired_at: Option<i64>,
}

/// One named sub-field of an entry, with its encrypted payload and the
/// peppered digest of its plaintext.
pub struct Attribute {
    pub id: i64,
    pub entry_id: i64,
    pub name: String,
    pub nonce: Vec<u8>,
    pub encrypted_value: Vec<u8>,
    pub hashed_value: Vec<u8>,
    pub created_at: i64,
    pub updated_at: i64,
}

/// The mathematical content of an entry row.
pub struct EntryModel {
    pub id: int,
    pub namespace: Seq<char>,
    pub key_name: Seq<char>,
    pub nonce: Seq<u8>,
    pub encrypted_value: Seq<u8>,
    pub created_at: int,
    pub updated_at: int,
    pub expired_at: Option<int>,
}

/// The mathematical content of an attribute row.
pub struct AttributeModel {
    pub id: int,
    pub entry_id: int,
    pub name: Seq<char>,
    pub nonce: Seq<u8>,
    pub encrypted_value: Seq<u8>,
    pub hashed_value: Seq<u8>,
    pub created_at: int,
    pub updated_at: int,
}

impl View for Entry {
    type V = EntryModel;

    open spec fn view(&self) -> EntryModel {
        EntryModel {
            id: self.id as int,
            namespace: self.namespace@,
            key_name: self.key_name@,
            nonce: self.nonce@,
            encrypted_value: self.encrypted_value@,
            created_at: self.created_at as int,
            updated_at: self.updated_at as int,
            expired_at: crate::store::opt_view(self.expired_at),
        }
    }
}

impl View for Attribute {
    type V = AttributeModel;

    open spec fn view(&self) -> AttributeModel {
        AttributeModel {
            id: self.id as int,
            entry_id: self.entry_id as int,
            name: self.name@,
            nonce: self.nonce@,
            encrypted_value: self.encrypted_value@,
            hashed_value: self.hashed_value@,
            created_at: self.created_at as int,
            updated_at: self.updated_at as int,
        }
    }
}

impl Entry {
    /// A field-for-field copy of the row.
    pub fn duplicate(&self) -> (r: Self)
        ensures
            r@ == self@,
    {
        Entry {
            id: self.id,
            namespace: self.namespace.clone(),
            key_name: self.key_name.clone(),
            nonce: slice_to_vec(self.nonce.as_slice()),
            encrypted_value: slice_to_vec(self.encrypted_value.as_slice()),
            created_at: self.created_at,
            updated_at: self.updated_at,
            expired_at: self.expired_at,
        }
    }

    /// Decrypts this row's stored payload under the vault's encryption key.
    pub fn plaintext(&self) -> (r: Result<String, CacheVaultError>)
        ensures
            r matches Ok(s) ==> opens_to(self.nonce@, self.encrypted_value@, s@),
            r matches Err(e) ==> (e == CacheVaultError::KeyUnavailable || e
                == CacheVaultError::CorruptKeyEncoding || e
                == CacheVaultError::AuthenticationFailed || e == CacheVaultError::InvalidUtf8),
    {
        decrypt(&self.nonce, &self.encrypted_value)
    }

    /// Exact-match lookup on (namespace, key_name); absent rows are reported
    /// as `NotFound`, never as a default entry.
    pub fn fetch(store: &VaultStore, namespace: &str, key_name: &str) -> (r: Result<
        Entry,
        CacheVaultError,
    >)
        requires
            store.wf(),
        ensures
            r matches Ok(e) ==> has_entry(store@.entries, namespace@, key_name@) && e@ == entry_row(
                store@.entries,
                namespace@,
                key_name@,
            ),
            r matches Err(err) ==> err == CacheVaultError::NotFound && !has_entry(
                store@.entries,
                namespace@,
                key_name@,
            ),
    {
        let ns = namespace.to_owned();
        let key = key_name.to_owned();
        match store.find_entry(&ns, &key) {
            Some(i) => Ok(store.entries[i].duplicate()),
            None => Err(CacheVaultError::NotFound),
        }
    }

    /// Exact-match lookup on the row identity.
    pub fn fetch_by_id(store: &VaultStore, id: i64) -> (r: Result<Entry, CacheVaultError>)
        requires
            store.wf(),
        ensures
            r matches Ok(e) ==> has_entry_id(store@.entries, id as int) && e@ == entry_row_by_id(
                store@.entries,
                id as int,
            ),
            r matches Err(err) ==> err == CacheVaultError::NotFound && !has_entry_id(
                store@.entries,
                id as int,
            ),
    {
        match store.find_entry_by_id(id) {
            Some(i) => Ok(store.entries[i].duplicate()),
            None => Err(CacheVaultError::NotFound),
        }
    }

    /// Encrypts `value` under the vault's key and insert-or-updates the row
    /// for (namespace, key_name): one replace, never a partial update.
    /// Returns the row identity, existing or newly created.
    pub fn upsert(
        store: &mut VaultStore,
        namespace: &str,
        key_name: &str,
        value: &str,
        expired_at: Option<i64>,
        now: i64,
    ) -> (r: Result<i64, CacheVaultError>)
        requires
            old(store).wf(),
            old(store)@.next_entry_id < i64::MAX,
        ensures
            final(store).wf(),
            r matches Err(e) ==> *final(store) == *old(store) && (e
                == CacheVaultError::KeyUnavailable || e == CacheVaultError::CorruptKeyEncoding || e
                == CacheVaultError::EncryptionFailed),
            r matches Ok(id) ==> entry_payload_upserted(
                old(store)@,
                final(store)@,
                namespace@,
                key_name@,
                value@,
                opt_view(expired_at),
                now as int,
                id as int,
            ),
    {
        let pair = match encrypt(value.to_owned()) {
            Ok(p) => p,
            Err(e) => {
                return Err(e);
            },
        };
        let (encrypted_value, nonce) = pair;
        let ghost c0 = encrypted_value@;
        let ghost n0 = nonce@;
        let id = store.upsert_entry(
            namespace.to_owned(),
            key_name.to_owned(),
            nonce,
            encrypted_value,
            expired_at,
            now,
        );
        proof {
            assert(entry_upserted(
                old(store)@,
                store@,
                namespace@,
                key_name@,
                n0,
                c0,
                opt_view(expired_at),
                now as int,
                id as int,
            ) && sealed_payload_of(n0, c0, value@));
            assert(entry_payload_upserted(
                old(store)@,
                store@,
                namespace@,
                key_name@,
                value@,
                opt_view(expired_at),
                now as int,
                id as int,
            ));
        }
        Ok(id)
    }
}

impl Attribute {
    /// A field-for-field copy of the row.
    pub fn duplicate(&self) -> (r: Self)
        ensures
            r@ == self@,
    {
        Attribute {
            id: self.id,
            entry_id: self.entry_id,
            name: self.name.clone(),
            nonce: slice_to_vec(self.nonce.as_slice()),
            encrypted_value: slice_to_vec(self.encrypted_value.as_slice()),
            hashed_value: slice_to_vec(self.hashed_value.as_slice()),
            created_at: self.created_at,
            updated_at: self.updated_at,
        }
    }

    /// Decrypts this row's stored payload under the vault's encryption key.
    pub fn plaintext(&self) -> (r: Result<String, CacheVaultError>)
        ensures
            r matches Ok(s) ==> opens_to(self.nonce@, self.encrypted_value@, s@),
            r matches Err(e) ==> (e == CacheVaultError::KeyUnavailable || e
                == CacheVaultError::CorruptKeyEncoding || e
                == CacheVaultError::AuthenticationFailed || e == CacheVaultError::InvalidUtf8),
    {
        decrypt(&self.nonce, &self.encrypted_value)
    }

    /// Exact-match lookup on the row identity.
    pub fn fetch_by_id(store: &VaultStore, id: i64) -> (r: Result<Attribute, CacheVaultError>)
        requires
            store.wf(),
        ensures
            r matches Ok(a) ==> has_attr_id(store@.attributes, id as int) && a@ == attr_row_by_id(
                store@.attributes,
                id as int,
            ),
            r matches Err(err) ==> err == CacheVaultError::NotFound && !has_attr_id(
                store@.attributes,
                id as int,
            ),
    {
        match store.find_attr_by_id(id) {
            Some(i) => Ok(store.attributes[i].duplicate()),
            None => Err(CacheVaultError::NotFound),
        }
    }

    /// Exact-match lookup on (entry_id, name); absent rows are reported as
    /// `NotFound`.
    pub fn fetch_by_name(store: &VaultStore, entry_id: i64, name: &str) -> (r: Result<
        Attribute,
        CacheVaultError,
    >)
        requires
            store.wf(),
        ensures
            r matches Ok(a) ==> has_attr(store@.attributes, entry_id as int, name@) && a@
                == attr_row(store@.attributes, entry_id as int, name@),
            r matches Err(err) ==> err == CacheVaultError::NotFound && !has_attr(
                store@.attributes,
                entry_id as int,
                name@,
            ),
    {
        let name_string = name.to_owned();
        match store.find_attr(entry_id, &name_string) {
            Some(i) => Ok(store.attributes[i].duplicate()),
            None => Err(CacheVaultError::NotFound),
        }
    }

    /// All attribute rows of one entry, in ascending row-identity order: a
    /// stable, creation-order-biased ordering, not alphabetical by name.
    pub fn fetch_all(store: &VaultStore, entry_id: i64) -> (r: Result<
        Vec<Attribute>,
        CacheVaultError,
    >)
        requires
            store.wf(),
        ensures
            r matches Ok(v) ==> attr_views(v@) == attrs_for(store@.attributes, entry_id as int),
            r matches Ok(v) ==> forall|a: int, b: int|
                #![trigger v@[a], v@[b]]
                0 <= a < b < v@.len() ==> v@[a]@.id < v@[b]@.id,
            r is Ok,
    {
        let n = store.attributes.len();
        let mut out: Vec<Attribute> = Vec::new();
        let mut i: usize = 0;
        proof {
            assert(attr_views(out@) =~= attrs_for(
                store@.attributes.take(0),
                entry_id as int,
            ));
        }
        while i < n
            invariant
                n == store@.attributes.len(),
                i <= n,
                attr_views(out@) == attrs_for(store@.attributes.take(i as int), entry_id as int),
            decreases n - i,
        {
            proof {
                let cur = store@.attributes.take(i as int + 1);
                assert(cur.drop_last() =~= store@.attributes.take(i as int));
                assert(cur.last() == store@.attributes[i as int]);
            }
            if store.attributes[i].entry_id == entry_id {
                out.push(store.attributes[i].duplicate());
            }
            proof {
                assert(attr_views(out@) =~= attrs_for(
                    store@.attributes.take(i as int + 1),
                    entry_id as int,
                ));
            }
            i += 1;
        }
        proof {
            assert(store@.attributes.take(n as int) =~= store@.attributes);
            crate::store::lemma_attrs_for_sorted(store@.attributes, entry_id as int);
            let sel = attrs_for(store@.attributes, entry_id as int);
            assert(attrs_sorted(sel));
            assert forall|a: int, b: int|
                #![trigger out@[a], out@[b]]
                0 <= a < b < out@.len() implies out@[a]@.id < out@[b]@.id by {
                assert(attr_views(out@)[a] == out@[a]@ && attr_views(out@)[b] == out@[b]@);
                assert(sel[a].id < sel[b].id);
            }
        }
        Ok(out)
    }

    /// Encrypts `value` under the vault's key, computes its peppered digest,
    /// and insert-or-updates the row for (entry_id, name). Returns the row
    /// identity, existing or newly created; a missing parent entry is a
    /// `StorageFailure`.
    pub fn upsert(
        store: &mut VaultStore,
        entry_id: i64,
        name: &str,
        value: &str,
        now: i64,
    ) -> (r: Result<i64, CacheVaultError>)
        requires
            old(store).wf(),
            old(store)@.next_attribute_id < i64::MAX,
            encode_utf8(value@).len() <= u32::MAX,
        ensures
            final(store).wf(),
            r matches Err(_) ==> *final(store) == *old(store),
            !has_entry_id(old(store)@.entries, entry_id as int) ==> r is Err,
            r matches Err(e) ==> (e == CacheVaultError::KeyUnavailable || e
                == CacheVaultError::CorruptKeyEncoding || e == CacheVaultError::EncryptionFailed
                || e == CacheVaultError::StorageFailure),
            (r matches Err(e) && e == CacheVaultError::StorageFailure) ==> !has_entry_id(
                old(store)@.entries,
                entry_id as int,
            ),
            r matches Ok(id) ==> has_entry_id(old(store)@.entries, entry_id as int)
                && attr_payload_upserted(
                old(store)@,
                final(store)@,
                entry_id as int,
                name@,
                value@,
                now as int,
                id as int,
            ),
    {
        let pair = match encrypt(value.to_owned()) {
            Ok(p) => p,
            Err(e) => {
                return Err(e);
            },
        };
        let hashed = match digest(value.as_bytes()) {
            Ok(h) => h,
            Err(e) => {
                return Err(e);
            },
        };
        let hashed_value = slice_to_vec(hashed.as_slice());
        let (encrypted_value, nonce) = pair;
        let ghost c0 = encrypted_value@;
        let ghost n0 = nonce@;
        let ghost h0 = hashed_value@;
        let id = match store.upsert_attribute(
            entry_id,
            name.to_owned(),
            nonce,
            encrypted_value,
            hashed_value,
            now,
        ) {
            Ok(id) => id,
            Err(e) => {
                return Err(e);
            },
        };
        proof {
            assert(attr_upserted(
                old(store)@,
                store@,
                entry_id as int,
                name@,
                n0,
                c0,
                h0,
                now as int,
                id as int,
            ) && sealed_payload_of(n0, c0, value@) && peppered_digest_of(
                h0,
                encode_utf8(value@),
            ));
            assert(attr_payload_upserted(
                old(store)@,
                store@,
                entry_id as int,
                name@,
                value@,
                now as int,
                id as int,
            ));
        }
        Ok(id)
    }
}

} // verus!
