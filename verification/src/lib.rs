mod crypt;
mod digest;
mod error;
mod key;
mod models;
mod store;
mod textcode;

pub use crypt::{decrypt, encrypt};
pub use digest::digest;
pub use error::CacheVaultError;
pub use key::{generate_key, Key};
pub use models::{Attribute, Entry};
pub use store::VaultStore;
pub use textcode::{decode, encode};

use vstd::prelude::*;

use vstd::utf8::encode_utf8;

use crate::crypt::{opens_to, sealed_payload_of};
use crate::models::{attr_payload_upserted, attr_views, attrs_saved, entry_payload_upserted};
use crate::store::{attr_row, attrs_for, entry_row, has_attr, has_entry, has_entry_id, opt_view};

verus! {

/// The attribute row for (entry_id, name) exists, its stored payload seals
/// `text`, and its stored digest is the peppered digest of `text`'s encoding.
pub open spec fn saved_attr(
    m: crate::store::StoreModel,
    entry_id: int,
    name: Seq<char>,
    text: Seq<char>,
) -> bool {
    &&& has_attr(m.attributes, entry_id, name)
    &&& sealed_payload_of(
        attr_row(m.attributes, entry_id, name).nonce,
        attr_row(m.attributes, entry_id, name).encrypted_value,
        text,
    )
    &&& crate::digest::peppered_digest_of(
        attr_row(m.attributes, entry_id, name).hashed_value,
        encode_utf8(text),
    )
}

/// The value that the last supplied pair with this name carries: the one the
/// attribute row ends up holding when a name repeats.
pub open spec fn last_value_for(list: Seq<(String, String)>, name: Seq<char>) -> Seq<char>
    decreases list.len(),
{
    if list.len() == 0 {
        Seq::empty()
    } else if list.last().0@ == name {
        list.last().1@
    } else {
        last_value_for(list.drop_last(), name)
    }
}

/// What a caller may rely on after `save` returns successfully: the entry row
/// for (namespace, key_name) exists, seals `value` and carries the requested
/// expiry; and every supplied attribute name has a row holding the value of
/// the last supplied pair with that name.
pub open spec fn saved(
    m: crate::store::StoreModel,
    ns: Seq<char>,
    key: Seq<char>,
    text: Seq<char>,
    expired_at: Option<int>,
    attributes: Option<Vec<(String, String)>>,
) -> bool {
    &&& has_entry(m.entries, ns, key)
    &&& sealed_payload_of(
        entry_row(m.entries, ns, key).nonce,
        entry_row(m.entries, ns, key).encrypted_value,
        text,
    )
    &&& entry_row(m.entries, ns, key).expired_at == expired_at
    &&& match attributes {
        Some(list) => forall|j: int|
            0 <= j < list@.len() ==> saved_attr(
                m,
                entry_row(m.entries, ns, key).id,
                (#[trigger] list@[j]).0@,
                last_value_for(list@, list@[j].0@),
            ),
        None => true,
    }
}

/// The attribute pairs that one `save` call upserts: the supplied list, or
/// none at all.
pub open spec fn attr_list(attributes: Option<Vec<(String, String)>>) -> Seq<(String, String)> {
    match attributes {
        Some(list) => list@,
        None => Seq::empty(),
    }
}

/// The store moved from `pre` to `post` by one entry upsert for
/// (ns, key, text, expiry) followed by, in order, one attribute upsert per
/// supplied pair on that entry's identity — and by nothing else.
pub open spec fn save_transition(
    pre: crate::store::StoreModel,
    post: crate::store::StoreModel,
    ns: Seq<char>,
    key: Seq<char>,
    text: Seq<char>,
    expired_at: Option<int>,
    list: Seq<(String, String)>,
    now: int,
) -> bool {
    exists|mid: crate::store::StoreModel, eid: int|
        #[trigger] entry_payload_upserted(pre, mid, ns, key, text, expired_at, now, eid)
            && attrs_saved(mid, post, eid, list, now)
}

/// Upserts the entry for (namespace, key_name) with `value`, then upserts
/// every supplied attribute in turn. Each attribute upsert is an independent
/// unit: a failure partway through leaves the prior writes committed.
#[verifier::rlimit(100)]
pub fn save(
    store: &mut VaultStore,
    namespace: &str,
    key_name: &str,
    value: &str,
    attributes: Option<Vec<(String, String)>>,
    expired_at: Option<i64>,
    now: i64,
) -> (r: Result<(), CacheVaultError>)
    requires
        old(store).wf(),
        old(store)@.next_entry_id < i64::MAX,
        match attributes {
            Some(list) => old(store)@.next_attribute_id + list@.len() <= i64::MAX && forall|j: int|
                0 <= j < list@.len() ==> encode_utf8((#[trigger] list@[j]).1@).len() <= u32::MAX,
            None => true,
        },
    ensures
        final(store).wf(),
        r is Ok ==> saved(
            final(store)@,
            namespace@,
            key_name@,
            value@,
            opt_view(expired_at),
            attributes,
        ),
        r is Ok ==> save_transition(
            old(store)@,
            final(store)@,
            namespace@,
            key_name@,
            value@,
            opt_view(expired_at),
            attr_list(attributes),
            now as int,
        ),
        r matches Err(e) ==> (e == CacheVaultError::KeyUnavailable || e
            == CacheVaultError::CorruptKeyEncoding || e == CacheVaultError::EncryptionFailed),
        r is Err ==> (*final(store) == *old(store) || exists|k: int|
            0 <= k < attr_list(attributes).len() && #[trigger] save_transition(
                old(store)@,
                final(store)@,
                namespace@,
                key_name@,
                value@,
                opt_view(expired_at),
                attr_list(attributes).take(k),
                now as int,
            )),
{
    let ghost pre = store@;
    let entry_id = match Entry::upsert(store, namespace, key_name, value, expired_at, now) {
        Ok(id) => id,
        Err(e) => {
            return Err(e);
        },
    };
    let ghost mid = store@;
    proof {
        let (n0, c0) = choose|n: Seq<u8>, c: Seq<u8>|
            #[trigger] crate::store::entry_upserted(
                pre,
                mid,
                namespace@,
                key_name@,
                n,
                c,
                opt_view(expired_at),
                now as int,
                entry_id as int,
            ) && sealed_payload_of(n, c, value@);
        crate::store::lemma_entry_upserted_row(
            pre,
            mid,
            namespace@,
            key_name@,
            n0,
            c0,
            opt_view(expired_at),
            now as int,
            entry_id as int,
        );
    }
    let list = match &attributes {
        Some(list) => list,
        None => {
            proof {
                assert(attr_list(attributes).len() == 0);
                assert(attrs_saved(mid, store@, entry_id as int, attr_list(attributes), now as int));
                assert(save_transition(
                    pre,
                    store@,
                    namespace@,
                    key_name@,
                    value@,
                    opt_view(expired_at),
                    attr_list(attributes),
                    now as int,
                ));
            }
            return Ok(());
        },
    };
    proof {
        assert(list@.take(0) =~= Seq::<(String, String)>::empty());
        assert(attrs_saved(mid, store@, entry_id as int, list@.take(0), now as int));
    }
    let n = list.len();
    let mut i: usize = 0;
    while i < n
        invariant
            n == list@.len(),
            i <= n,
            store.wf(),
            store@.entries == mid.entries,
            store@.next_attribute_id <= mid.next_attribute_id + i,
            mid.next_attribute_id + n <= i64::MAX,
            pre == old(store)@,
            attr_list(attributes) == list@,
            entry_payload_upserted(
                pre,
                mid,
                namespace@,
                key_name@,
                value@,
                opt_view(expired_at),
                now as int,
                entry_id as int,
            ),
            attrs_saved(mid, store@, entry_id as int, list@.take(i as int), now as int),
            has_entry(store@.entries, namespace@, key_name@),
            entry_row(store@.entries, namespace@, key_name@).id == entry_id as int,
            has_entry_id(store@.entries, entry_id as int),
            sealed_payload_of(
                entry_row(store@.entries, namespace@, key_name@).nonce,
                entry_row(store@.entries, namespace@, key_name@).encrypted_value,
                value@,
            ),
            entry_row(store@.entries, namespace@, key_name@).expired_at == opt_view(expired_at),
            forall|j: int|
                0 <= j < list@.len() ==> encode_utf8((#[trigger] list@[j]).1@).len() <= u32::MAX,
            forall|j: int|
                0 <= j < i ==> saved_attr(
                    store@,
                    entry_id as int,
                    (#[trigger] list@[j]).0@,
                    last_value_for(list@.take(i as int), list@[j].0@),
                ),
        decreases n - i,
    {
        let ghost before = store@;
        let aid = match Attribute::upsert(
            store,
            entry_id,
            list[i].0.as_str(),
            list[i].1.as_str(),
            now,
        ) {
            Ok(aid) => aid,
            Err(e) => {
                proof {
                    assert(save_transition(
                        pre,
                        store@,
                        namespace@,
                        key_name@,
                        value@,
                        opt_view(expired_at),
                        list@.take(i as int),
                        now as int,
                    ));
                    assert(exists|k: int|
                        0 <= k < list@.len() && #[trigger] save_transition(
                            pre,
                            store@,
                            namespace@,
                            key_name@,
                            value@,
                            opt_view(expired_at),
                            list@.take(k),
                            now as int,
                        ));
                }
                return Err(e);
            },
        };
        proof {
            let (an, ac, ah) = choose|an: Seq<u8>, ac: Seq<u8>, ah: Seq<u8>|
                #[trigger] crate::store::attr_upserted(
                    before,
                    store@,
                    entry_id as int,
                    list@[i as int].0@,
                    an,
                    ac,
                    ah,
                    now as int,
                    aid as int,
                ) && sealed_payload_of(an, ac, list@[i as int].1@) && crate::digest::peppered_digest_of(
                    ah,
                    encode_utf8(list@[i as int].1@),
                );
            crate::store::lemma_attr_upserted_row(
                before,
                store@,
                entry_id as int,
                list@[i as int].0@,
                an,
                ac,
                ah,
                now as int,
                aid as int,
            );
            assert(saved_attr(store@, entry_id as int, list@[i as int].0@, list@[i as int].1@));
            let cur = list@.take(i as int + 1);
            assert(cur.drop_last() =~= list@.take(i as int));
            assert(cur.last() == list@[i as int]);
            assert forall|j: int|
                0 <= j < i + 1 implies saved_attr(
                store@,
                entry_id as int,
                (#[trigger] list@[j]).0@,
                last_value_for(cur, list@[j].0@),
            ) by {
                if list@[j].0@ == list@[i as int].0@ {
                    assert(last_value_for(cur, list@[j].0@) == list@[i as int].1@);
                } else {
                    assert(last_value_for(cur, list@[j].0@) == last_value_for(
                        list@.take(i as int),
                        list@[j].0@,
                    ));
                    crate::store::lemma_attr_upsert_keeps_row(
                        before,
                        store@,
                        entry_id as int,
                        list@[i as int].0@,
                        an,
                        ac,
                        ah,
                        now as int,
                        aid as int,
                        entry_id as int,
                        list@[j].0@,
                    );
                }
            }
            assert(attr_payload_upserted(
                before,
                store@,
                entry_id as int,
                cur.last().0@,
                cur.last().1@,
                now as int,
                aid as int,
            ));
            assert(attrs_saved(mid, before, entry_id as int, cur.drop_last(), now as int));
            assert(attrs_saved(mid, store@, entry_id as int, cur, now as int));
        }
        i += 1;
    }
    proof {
        assert(list@.take(n as int) =~= list@);
        assert(save_transition(
            pre,
            store@,
            namespace@,
            key_name@,
            value@,
            opt_view(expired_at),
            attr_list(attributes),
            now as int,
        ));
    }
    Ok(())
}

/// Fetches the entry for (namespace, key_name) and returns its decrypted
/// plaintext and expiry; an absent key is `NotFound`, distinct from every
/// decryption failure.
pub fn fetch(store: &VaultStore, namespace: &str, key_name: &str) -> (r: Result<
    (String, Option<i64>),
    CacheVaultError,
>)
    requires
        store.wf(),
    ensures
        !has_entry(store@.entries, namespace@, key_name@) ==> (r matches Err(e) && e
            == CacheVaultError::NotFound),
        (r matches Err(e) && e == CacheVaultError::NotFound) ==> !has_entry(
            store@.entries,
            namespace@,
            key_name@,
        ),
        r matches Err(e) ==> (e == CacheVaultError::NotFound || e == CacheVaultError::KeyUnavailable
            || e == CacheVaultError::CorruptKeyEncoding || e
            == CacheVaultError::AuthenticationFailed || e == CacheVaultError::InvalidUtf8),
        r matches Ok(p) ==> has_entry(store@.entries, namespace@, key_name@) && opens_to(
            entry_row(store@.entries, namespace@, key_name@).nonce,
            entry_row(store@.entries, namespace@, key_name@).encrypted_value,
            p.0@,
        ) && opt_view(p.1) == entry_row(store@.entries, namespace@, key_name@).expired_at,
{
    let entry = match Entry::fetch(store, namespace, key_name) {
        Ok(e) => e,
        Err(e) => {
            return Err(e);
        },
    };
    let text = match entry.plaintext() {
        Ok(t) => t,
        Err(e) => {
            return Err(e);
        },
    };
    Ok((text, entry.expired_at))
}

/// Fetches the entry for (namespace, key_name) with every attribute of it:
/// the decrypted value, the expiry, and — only if at least one attribute row
/// exists — the complete (name, plaintext) list in stored order. With no
/// attribute rows the third component is `None`, not an empty list.
pub fn fetch_with_attributes(store: &VaultStore, namespace: &str, key_name: &str) -> (r: Result<
    (String, Option<i64>, Option<Vec<(String, String)>>),
    CacheVaultError,
>)
    requires
        store.wf(),
    ensures
        !has_entry(store@.entries, namespace@, key_name@) ==> (r matches Err(e) && e
            == CacheVaultError::NotFound),
        (r matches Err(e) && e == CacheVaultError::NotFound) ==> !has_entry(
            store@.entries,
            namespace@,
            key_name@,
        ),
        r matches Err(e) ==> (e == CacheVaultError::NotFound || e == CacheVaultError::KeyUnavailable
            || e == CacheVaultError::CorruptKeyEncoding || e
            == CacheVaultError::AuthenticationFailed || e == CacheVaultError::InvalidUtf8),
        r matches Ok(t) ==> has_entry(store@.entries, namespace@, key_name@) && ({
            let row = entry_row(store@.entries, namespace@, key_name@);
            let sel = attrs_for(store@.attributes, row.id);
            &&& opens_to(row.nonce, row.encrypted_value, t.0@)
            &&& opt_view(t.1) == row.expired_at
            &&& (t.2 is None <==> sel.len() == 0)
            &&& (t.2 matches Some(list) ==> list@.len() == sel.len() && forall|j: int|
                0 <= j < sel.len() ==> (#[trigger] list@[j]).0@ == sel[j].name && opens_to(
                    sel[j].nonce,
                    sel[j].encrypted_value,
                    list@[j].1@,
                ))
        }),
{
    let entry = match Entry::fetch(store, namespace, key_name) {
        Ok(e) => e,
        Err(e) => {
            return Err(e);
        },
    };
    let rows = match Attribute::fetch_all(store, entry.id) {
        Ok(v) => v,
        Err(e) => {
            return Err(e);
        },
    };
    let mut list: Vec<(String, String)> = Vec::new();
    let n = rows.len();
    let mut i: usize = 0;
    while i < n
        invariant
            n == rows@.len(),
            i <= n,
            list@.len() == i,
            store.wf(),
            has_entry(store@.entries, namespace@, key_name@),
            entry@ == entry_row(store@.entries, namespace@, key_name@),
            attr_views(rows@) == attrs_for(store@.attributes, entry@.id),
            forall|j: int|
                0 <= j < i ==> (#[trigger] list@[j]).0@ == rows@[j]@.name && opens_to(
                    rows@[j]@.nonce,
                    rows@[j]@.encrypted_value,
                    list@[j].1@,
                ),
        decreases n - i,
    {
        let text = match rows[i].plaintext() {
            Ok(t) => t,
            Err(e) => {
                return Err(e);
            },
        };
        let name = rows[i].name.clone();
        list.push((name, text));
        proof {
            assert(attr_views(rows@)[i as int] == rows@[i as int]@);
        }
        i += 1;
    }
    let text = match entry.plaintext() {
        Ok(t) => t,
        Err(e) => {
            return Err(e);
        },
    };
    proof {
        assert forall|j: int|
            0 <= j < attrs_for(store@.attributes, entry@.id).len() implies attr_views(rows@)[j]
            == attrs_for(store@.attributes, entry@.id)[j] by {}
    }
    if list.is_empty() {
        Ok((text, entry.expired_at, None))
    } else {
        Ok((text, entry.expired_at, Some(list)))
    }
}

} // verus!
