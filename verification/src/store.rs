use vstd::prelude::*;

use crate::error::CacheVaultError;
use crate::models::{Attribute, AttributeModel, Entry, EntryModel};

verus! {

/// The mathematical content of an `Option<i64>` column.
pub open spec fn opt_view(o: Option<i64>) -> Option<int> {
    match o {
        Some(v) => Some(v as int),
        None => None,
    }
}

/// The in-memory vault store: the two tables, plus the next row identity of
/// each. It replaces the relational engine's upsert/unique-constraint
/// semantics with verified ones; fields are public so that contracts can
/// speak about them, and the methods keep `wf` as their invariant.
pub struct VaultStore {
    pub entries: Vec<Entry>,
    pub attributes: Vec<Attribute>,
    pub next_entry_id: i64,
    pub next_attribute_id: i64,
}

/// The mathematical model of the whole store.
pub struct StoreModel {
    pub entries: Seq<EntryModel>,
    pub attributes: Seq<AttributeModel>,
    pub next_entry_id: int,
    pub next_attribute_id: int,
}

impl View for VaultStore {
    type V = StoreModel;

    open spec fn view(&self) -> StoreModel {
        StoreModel {
            entries: Seq::new(self.entries@.len(), |i: int| self.entries@[i]@),
            attributes: Seq::new(self.attributes@.len(), |i: int| self.attributes@[i]@),
            next_entry_id: self.next_entry_id as int,
            next_attribute_id: self.next_attribute_id as int,
        }
    }
}

/// Whether an entry row carries this (namespace, key_name) identity.
pub open spec fn entry_matches(e: EntryModel, ns: Seq<char>, key: Seq<char>) -> bool {
    e.namespace == ns && e.key_name == key
}

/// Whether some entry row carries this (namespace, key_name) identity.
pub open spec fn has_entry(entries: Seq<EntryModel>, ns: Seq<char>, key: Seq<char>) -> bool {
    exists|i: int| 0 <= i < entries.len() && #[trigger] entry_matches(entries[i], ns, key)
}

/// The position of the row for (namespace, key_name); meaningful only when
/// `has_entry` holds and the keys are unique.
pub open spec fn entry_index(entries: Seq<EntryModel>, ns: Seq<char>, key: Seq<char>) -> int {
    choose|i: int| 0 <= i < entries.len() && #[trigger] entry_matches(entries[i], ns, key)
}

/// The row for (namespace, key_name).
pub open spec fn entry_row(entries: Seq<EntryModel>, ns: Seq<char>, key: Seq<char>) -> EntryModel {
    entries[entry_index(entries, ns, key)]
}

/// Whether some entry row carries this row identity.
pub open spec fn has_entry_id(entries: Seq<EntryModel>, id: int) -> bool {
    exists|i: int| 0 <= i < entries.len() && (#[trigger] entries[i]).id == id
}

/// The position of the entry row with this identity.
pub open spec fn entry_id_index(entries: Seq<EntryModel>, id: int) -> int {
    choose|i: int| 0 <= i < entries.len() && (#[trigger] entries[i]).id == id
}

/// Whether an attribute row carries this (entry_id, name) identity.
pub open spec fn attr_matches(a: AttributeModel, entry_id: int, name: Seq<char>) -> bool {
    a.entry_id == entry_id && a.name == name
}

/// Whether some attribute row carries this (entry_id, name) identity.
pub open spec fn has_attr(attrs: Seq<AttributeModel>, entry_id: int, name: Seq<char>) -> bool {
    exists|i: int| 0 <= i < attrs.len() && #[trigger] attr_matches(attrs[i], entry_id, name)
}

/// The position of the row for (entry_id, name); meaningful only when
/// `has_attr` holds and the identities are unique.
pub open spec fn attr_index(attrs: Seq<AttributeModel>, entry_id: int, name: Seq<char>) -> int {
    choose|i: int| 0 <= i < attrs.len() && #[trigger] attr_matches(attrs[i], entry_id, name)
}

/// The row for (entry_id, name).
pub open spec fn attr_row(attrs: Seq<AttributeModel>, entry_id: int, name: Seq<char>) -> AttributeModel {
    attrs[attr_index(attrs, entry_id, name)]
}

/// Whether some attribute row carries this row identity.
pub open spec fn has_attr_id(attrs: Seq<AttributeModel>, id: int) -> bool {
    exists|i: int| 0 <= i < attrs.len() && (#[trigger] attrs[i]).id == id
}

/// The position of the attribute row with this identity.
pub open spec fn attr_id_index(attrs: Seq<AttributeModel>, id: int) -> int {
    choose|i: int| 0 <= i < attrs.len() && (#[trigger] attrs[i]).id == id
}

/// The entry row with this identity.
pub open spec fn entry_row_by_id(entries: Seq<EntryModel>, id: int) -> EntryModel {
    entries[entry_id_index(entries, id)]
}

/// The attribute row with this identity.
pub open spec fn attr_row_by_id(attrs: Seq<AttributeModel>, id: int) -> AttributeModel {
    attrs[attr_id_index(attrs, id)]
}

/// The attribute rows of one entry, in stored (ascending id) order.
pub open spec fn attrs_for(attrs: Seq<AttributeModel>, entry_id: int) -> Seq<AttributeModel>
    decreases attrs.len(),
{
    if attrs.len() == 0 {
        Seq::empty()
    } else {
        let rest = attrs_for(attrs.drop_last(), entry_id);
        if attrs.last().entry_id == entry_id {
            rest.push(attrs.last())
        } else {
            rest
        }
    }
}

/// No two entry rows share a (namespace, key_name) identity.
pub open spec fn entries_key_unique(entries: Seq<EntryModel>) -> bool {
    forall|i: int, j: int|
        #![trigger entries[i], entries[j]]
        0 <= i < j < entries.len() ==> !entry_matches(
            entries[i],
            entries[j].namespace,
            entries[j].key_name,
        )
}

/// No two entry rows share a row identity.
pub open spec fn entries_id_unique(entries: Seq<EntryModel>) -> bool {
    forall|i: int, j: int|
        #![trigger entries[i], entries[j]]
        0 <= i < j < entries.len() ==> entries[i].id != entries[j].id
}

/// Every entry row identity is positive and below the next one to hand out.
pub open spec fn entries_ids_below(entries: Seq<EntryModel>, bound: int) -> bool {
    forall|i: int| 0 <= i < entries.len() ==> 0 < (#[trigger] entries[i]).id < bound
}

/// No two attribute rows share an (entry_id, name) identity.
pub open spec fn attrs_key_unique(attrs: Seq<AttributeModel>) -> bool {
    forall|i: int, j: int|
        #![trigger attrs[i], attrs[j]]
        0 <= i < j < attrs.len() ==> !attr_matches(attrs[i], attrs[j].entry_id, attrs[j].name)
}

/// Attribute rows are stored in strictly ascending row-identity order, so a
/// scan returns them in creation order.
pub open spec fn attrs_sorted(attrs: Seq<AttributeModel>) -> bool {
    forall|i: int, j: int|
        #![trigger attrs[i], attrs[j]]
        0 <= i < j < attrs.len() ==> attrs[i].id < attrs[j].id
}

/// Every attribute row identity is positive and below the next one to hand out.
pub open spec fn attrs_ids_below(attrs: Seq<AttributeModel>, bound: int) -> bool {
    forall|i: int| 0 <= i < attrs.len() ==> 0 < (#[trigger] attrs[i]).id < bound
}

/// Every attribute row points at an existing entry row.
pub open spec fn attrs_parented(attrs: Seq<AttributeModel>, entries: Seq<EntryModel>) -> bool {
    forall|i: int| 0 <= i < attrs.len() ==> has_entry_id(entries, (#[trigger] attrs[i]).entry_id)
}

/// Well-formedness of the whole store: the unique-constraint, ordering and
/// referential-integrity guarantees the record model relies on.
pub open spec fn wf_model(m: StoreModel) -> bool {
    &&& 1 <= m.next_entry_id <= i64::MAX
    &&& 1 <= m.next_attribute_id <= i64::MAX
    &&& entries_key_unique(m.entries)
    &&& entries_id_unique(m.entries)
    &&& entries_ids_below(m.entries, m.next_entry_id)
    &&& attrs_key_unique(m.attributes)
    &&& attrs_sorted(m.attributes)
    &&& attrs_ids_below(m.attributes, m.next_attribute_id)
    &&& attrs_parented(m.attributes, m.entries)
}

/// How one entry upsert changes the store: on conflict the row keeps its
/// identity, position and created_at and replaces nonce, payload, expiry and
/// updated_at; otherwise a fresh row is appended under the next identity.
/// Attribute rows are untouched either way.
pub open spec fn entry_upserted(
    pre: StoreModel,
    post: StoreModel,
    ns: Seq<char>,
    key: Seq<char>,
    nonce: Seq<u8>,
    value: Seq<u8>,
    expired_at: Option<int>,
    now: int,
    id: int,
) -> bool {
    &&& post.attributes == pre.attributes
    &&& post.next_attribute_id == pre.next_attribute_id
    &&& if has_entry(pre.entries, ns, key) {
        let i = entry_index(pre.entries, ns, key);
        let prev = pre.entries[i];
        &&& id == prev.id
        &&& post.next_entry_id == pre.next_entry_id
        &&& post.entries == pre.entries.update(
            i,
            (EntryModel {
                id: prev.id,
                namespace: prev.namespace,
                key_name: prev.key_name,
                nonce,
                encrypted_value: value,
                created_at: prev.created_at,
                updated_at: now,
                expired_at,
            }),
        )
    } else {
        &&& id == pre.next_entry_id
        &&& post.next_entry_id == pre.next_entry_id + 1
        &&& post.entries == pre.entries.push(
            (EntryModel {
                id,
                namespace: ns,
                key_name: key,
                nonce,
                encrypted_value: value,
                created_at: now,
                updated_at: now,
                expired_at,
            }),
        )
    }
}

/// How one attribute upsert changes the store: on conflict the row keeps its
/// identity, position and created_at and replaces nonce, payload, digest and
/// updated_at; otherwise a fresh row is appended under the next identity.
/// Entry rows are untouched either way.
pub open spec fn attr_upserted(
    pre: StoreModel,
    post: StoreModel,
    entry_id: int,
    name: Seq<char>,
    nonce: Seq<u8>,
    value: Seq<u8>,
    hashed: Seq<u8>,
    now: int,
    id: int,
) -> bool {
    &&& post.entries == pre.entries
    &&& post.next_entry_id == pre.next_entry_id
    &&& if has_attr(pre.attributes, entry_id, name) {
        let i = attr_index(pre.attributes, entry_id, name);
        let prev = pre.attributes[i];
        &&& id == prev.id
        &&& post.next_attribute_id == pre.next_attribute_id
        &&& post.attributes == pre.attributes.update(
            i,
            (AttributeModel {
                id: prev.id,
                entry_id: prev.entry_id,
                name: prev.name,
                nonce,
                encrypted_value: value,
                hashed_value: hashed,
                created_at: prev.created_at,
                updated_at: now,
            }),
        )
    } else {
        &&& id == pre.next_attribute_id
        &&& post.next_attribute_id == pre.next_attribute_id + 1
        &&& post.attributes == pre.attributes.push(
            (AttributeModel {
                id,
                entry_id,
                name,
                nonce,
                encrypted_value: value,
                hashed_value: hashed,
                created_at: now,
                updated_at: now,
            }),
        )
    }
}

/// A row that matches (namespace, key_name) sits exactly where `entry_index`
/// says, provided keys are unique.
pub proof fn lemma_entry_index_is(entries: Seq<EntryModel>, ns: Seq<char>, key: Seq<char>, i: int)
    requires
        entries_key_unique(entries),
        0 <= i < entries.len(),
        entry_matches(entries[i], ns, key),
    ensures
        has_entry(entries, ns, key),
        entry_index(entries, ns, key) == i,
{
    assert(has_entry(entries, ns, key));
    let n = entry_index(entries, ns, key);
    if n != i {
        let a = if n < i {
            n
        } else {
            i
        };
        let b = if n < i {
            i
        } else {
            n
        };
        assert(entry_matches(entries[a], ns, key));
        assert(entry_matches(entries[b], ns, key));
        assert(!entry_matches(entries[a], entries[b].namespace, entries[b].key_name));
        assert(false);
    }
}

/// A row that matches an entry identity sits exactly where `entry_id_index`
/// says, provided identities are unique.
pub proof fn lemma_entry_id_index_is(entries: Seq<EntryModel>, id: int, i: int)
    requires
        entries_id_unique(entries),
        0 <= i < entries.len(),
        entries[i].id == id,
    ensures
        has_entry_id(entries, id),
        entry_id_index(entries, id) == i,
{
    assert(has_entry_id(entries, id));
    let n = entry_id_index(entries, id);
    if n != i {
        assert(entries[n].id == id);
        assert(false);
    }
}

/// A row that matches (entry_id, name) sits exactly where `attr_index` says,
/// provided identities are unique.
pub proof fn lemma_attr_index_is(attrs: Seq<AttributeModel>, entry_id: int, name: Seq<char>, i: int)
    requires
        attrs_key_unique(attrs),
        0 <= i < attrs.len(),
        attr_matches(attrs[i], entry_id, name),
    ensures
        has_attr(attrs, entry_id, name),
        attr_index(attrs, entry_id, name) == i,
{
    assert(has_attr(attrs, entry_id, name));
    let n = attr_index(attrs, entry_id, name);
    if n != i {
        let a = if n < i {
            n
        } else {
            i
        };
        let b = if n < i {
            i
        } else {
            n
        };
        assert(attr_matches(attrs[a], entry_id, name));
        assert(attr_matches(attrs[b], entry_id, name));
        assert(!attr_matches(attrs[a], attrs[b].entry_id, attrs[b].name));
        assert(false);
    }
}

/// A row that matches an attribute identity sits exactly where
/// `attr_id_index` says, provided the rows are sorted by identity.
pub proof fn lemma_attr_id_index_is(attrs: Seq<AttributeModel>, id: int, i: int)
    requires
        attrs_sorted(attrs),
        0 <= i < attrs.len(),
        attrs[i].id == id,
    ensures
        has_attr_id(attrs, id),
        attr_id_index(attrs, id) == i,
{
    assert(has_attr_id(attrs, id));
    let n = attr_id_index(attrs, id);
    if n != i {
        assert(attrs[n].id == id);
        assert(false);
    }
}

impl VaultStore {
    /// Well-formedness: the store's model satisfies the table invariants.
    pub open spec fn wf(&self) -> bool {
        wf_model(self@)
    }

    /// An empty store with fresh identity counters: the explicit handle that
    /// every vault operation works on.
    pub fn new() -> (r: Self)
        ensures
            r.wf(),
            r@.entries.len() == 0,
            r@.attributes.len() == 0,
            r@.next_entry_id == 1,
            r@.next_attribute_id == 1,
    {
        let r = VaultStore {
            entries: Vec::new(),
            attributes: Vec::new(),
            next_entry_id: 1,
            next_attribute_id: 1,
        };
        proof {
            assert(r@.entries =~= Seq::<EntryModel>::empty());
            assert(r@.attributes =~= Seq::<AttributeModel>::empty());
        }
        r
    }

    /// The position of the row for (namespace, key_name), if any.
    pub(crate) fn find_entry(&self, ns: &String, key: &String) -> (r: Option<usize>)
        requires
            entries_key_unique(self@.entries),
        ensures
            r matches Some(i) ==> i < self@.entries.len() && entry_matches(
                self@.entries[i as int],
                ns@,
                key@,
            ) && has_entry(self@.entries, ns@, key@) && entry_index(self@.entries, ns@, key@)
                == i as int,
            r is None ==> !has_entry(self@.entries, ns@, key@),
    {
        let n = self.entries.len();
        let mut i: usize = 0;
        while i < n
            invariant
                n == self@.entries.len(),
                i <= n,
                entries_key_unique(self@.entries),
                forall|j: int| 0 <= j < i ==> !entry_matches(#[trigger] self@.entries[j], ns@, key@),
            decreases n - i,
        {
            if self.entries[i].namespace == *ns && self.entries[i].key_name == *key {
                proof {
                    lemma_entry_index_is(self@.entries, ns@, key@, i as int);
                }
                return Some(i);
            }
            i += 1;
        }
        proof {
            assert forall|w: int|
                0 <= w < self@.entries.len() implies !entry_matches(
                self@.entries[w],
                ns@,
                key@,
            ) by {}
        }
        None
    }

    /// The position of the entry row with this identity, if any.
    pub(crate) fn find_entry_by_id(&self, id: i64) -> (r: Option<usize>)
        requires
            entries_id_unique(self@.entries),
        ensures
            r matches Some(i) ==> i < self@.entries.len() && self@.entries[i as int].id == id as int
                && has_entry_id(self@.entries, id as int) && entry_id_index(
                self@.entries,
                id as int,
            ) == i as int,
            r is None ==> !has_entry_id(self@.entries, id as int),
    {
        let n = self.entries.len();
        let mut i: usize = 0;
        while i < n
            invariant
                n == self@.entries.len(),
                i <= n,
                entries_id_unique(self@.entries),
                forall|j: int| 0 <= j < i ==> (#[trigger] self@.entries[j]).id != id as int,
            decreases n - i,
        {
            if self.entries[i].id == id {
                proof {
                    lemma_entry_id_index_is(self@.entries, id as int, i as int);
                }
                return Some(i);
            }
            i += 1;
        }
        None
    }

    /// The position of the row for (entry_id, name), if any.
    pub(crate) fn find_attr(&self, entry_id: i64, name: &String) -> (r: Option<usize>)
        requires
            attrs_key_unique(self@.attributes),
        ensures
            r matches Some(i) ==> i < self@.attributes.len() && attr_matches(
                self@.attributes[i as int],
                entry_id as int,
                name@,
            ) && has_attr(self@.attributes, entry_id as int, name@) && attr_index(
                self@.attributes,
                entry_id as int,
                name@,
            ) == i as int,
            r is None ==> !has_attr(self@.attributes, entry_id as int, name@),
    {
        let n = self.attributes.len();
        let mut i: usize = 0;
        while i < n
            invariant
                n == self@.attributes.len(),
                i <= n,
                attrs_key_unique(self@.attributes),
                forall|j: int|
                    0 <= j < i ==> !attr_matches(
                        #[trigger] self@.attributes[j],
                        entry_id as int,
                        name@,
                    ),
            decreases n - i,
        {
            if self.attributes[i].entry_id == entry_id && self.attributes[i].name == *name {
                proof {
                    lemma_attr_index_is(self@.attributes, entry_id as int, name@, i as int);
                }
                return Some(i);
            }
            i += 1;
        }
        None
    }

    /// The position of the attribute row with this identity, if any.
    pub(crate) fn find_attr_by_id(&self, id: i64) -> (r: Option<usize>)
        requires
            attrs_sorted(self@.attributes),
        ensures
            r matches Some(i) ==> i < self@.attributes.len() && self@.attributes[i as int].id
                == id as int && has_attr_id(self@.attributes, id as int) && attr_id_index(
                self@.attributes,
                id as int,
            ) == i as int,
            r is None ==> !has_attr_id(self@.attributes, id as int),
    {
        let n = self.attributes.len();
        let mut i: usize = 0;
        while i < n
            invariant
                n == self@.attributes.len(),
                i <= n,
                attrs_sorted(self@.attributes),
                forall|j: int| 0 <= j < i ==> (#[trigger] self@.attributes[j]).id != id as int,
            decreases n - i,
        {
            if self.attributes[i].id == id {
                proof {
                    lemma_attr_id_index_is(self@.attributes, id as int, i as int);
                }
                return Some(i);
            }
            i += 1;
        }
        None
    }

    /// Insert-or-update keyed on (namespace, key_name): on conflict the row
    /// keeps its identity and created_at and replaces nonce, payload, expiry
    /// and updated_at; otherwise a fresh row is created. Returns the row
    /// identity either way.
    pub fn upsert_entry(
        &mut self,
        namespace: String,
        key_name: String,
        nonce: Vec<u8>,
        encrypted_value: Vec<u8>,
        expired_at: Option<i64>,
        now: i64,
    ) -> (id: i64)
        requires
            old(self).wf(),
            old(self)@.next_entry_id < i64::MAX,
        ensures
            final(self).wf(),
            entry_upserted(
                old(self)@,
                final(self)@,
                namespace@,
                key_name@,
                nonce@,
                encrypted_value@,
                opt_view(expired_at),
                now as int,
                id as int,
            ),
    {
        let ghost pre = self@;
        let ghost nonce0 = nonce@;
        let ghost value0 = encrypted_value@;
        let ghost ns0 = namespace@;
        let ghost key0 = key_name@;
        let found = self.find_entry(&namespace, &key_name);
        match found {
            Some(i) => {
                let prev = self.entries.remove(i);
                let id = prev.id;
                let row = Entry {
                    id: prev.id,
                    namespace: prev.namespace,
                    key_name: prev.key_name,
                    nonce,
                    encrypted_value,
                    created_at: prev.created_at,
                    updated_at: now,
                    expired_at,
                };
                self.entries.insert(i, row);
                proof {
                    let post = self@;
                    let updated = (EntryModel {
                        id: pre.entries[i as int].id,
                        namespace: pre.entries[i as int].namespace,
                        key_name: pre.entries[i as int].key_name,
                        nonce: nonce0,
                        encrypted_value: value0,
                        created_at: pre.entries[i as int].created_at,
                        updated_at: now as int,
                        expired_at: opt_view(expired_at),
                    });
                    assert(post.entries =~= pre.entries.update(i as int, updated));
                    assert(post.attributes =~= pre.attributes);
                    assert(entry_upserted(
                        pre,
                        post,
                        ns0,
                        key0,
                        nonce0,
                        value0,
                        opt_view(expired_at),
                        now as int,
                        id as int,
                    ));
                    assert forall|j: int| 0 <= j < post.entries.len() implies post.entries[j].id
                        == pre.entries[j].id && post.entries[j].namespace
                        == pre.entries[j].namespace && post.entries[j].key_name
                        == pre.entries[j].key_name by {}
                    assert forall|t: int|
                        0 <= t < post.attributes.len() implies has_entry_id(
                        post.entries,
                        (#[trigger] post.attributes[t]).entry_id,
                    ) by {
                        assert(has_entry_id(pre.entries, pre.attributes[t].entry_id));
                        let w = entry_id_index(pre.entries, pre.attributes[t].entry_id);
                        assert(post.entries[w].id == pre.attributes[t].entry_id);
                    }
                    assert(wf_model(post));
                }
                id
            },
            None => {
                let id = self.next_entry_id;
                let row = Entry {
                    id,
                    namespace,
                    key_name,
                    nonce,
                    encrypted_value,
                    created_at: now,
                    updated_at: now,
                    expired_at,
                };
                self.entries.push(row);
                self.next_entry_id = self.next_entry_id + 1;
                proof {
                    let post = self@;
                    let fresh = (EntryModel {
                        id: id as int,
                        namespace: ns0,
                        key_name: key0,
                        nonce: nonce0,
                        encrypted_value: value0,
                        created_at: now as int,
                        updated_at: now as int,
                        expired_at: opt_view(expired_at),
                    });
                    assert(post.entries =~= pre.entries.push(fresh));
                    assert(post.attributes =~= pre.attributes);
                    assert(entry_upserted(
                        pre,
                        post,
                        ns0,
                        key0,
                        nonce0,
                        value0,
                        opt_view(expired_at),
                        now as int,
                        id as int,
                    ));
                    assert forall|t: int|
                        0 <= t < post.attributes.len() implies has_entry_id(
                        post.entries,
                        (#[trigger] post.attributes[t]).entry_id,
                    ) by {
                        assert(has_entry_id(pre.entries, pre.attributes[t].entry_id));
                        let w = entry_id_index(pre.entries, pre.attributes[t].entry_id);
                        assert(post.entries[w].id == pre.attributes[t].entry_id);
                    }
                    assert(wf_model(post));
                }
                id
            },
        }
    }

    /// Insert-or-update keyed on (entry_id, name): on conflict the row keeps
    /// its identity and created_at and replaces nonce, payload, digest and
    /// updated_at; otherwise a fresh row is created. Refuses a missing parent
    /// entry, keeping referential integrity.
    pub fn upsert_attribute(
        &mut self,
        entry_id: i64,
        name: String,
        nonce: Vec<u8>,
        encrypted_value: Vec<u8>,
        hashed_value: Vec<u8>,
        now: i64,
    ) -> (r: Result<i64, CacheVaultError>)
        requires
            old(self).wf(),
            old(self)@.next_attribute_id < i64::MAX,
        ensures
            final(self).wf(),
            r matches Ok(id) ==> has_entry_id(old(self)@.entries, entry_id as int)
                && attr_upserted(
                old(self)@,
                final(self)@,
                entry_id as int,
                name@,
                nonce@,
                encrypted_value@,
                hashed_value@,
                now as int,
                id as int,
            ),
            r matches Err(e) ==> *final(self) == *old(self) && e == CacheVaultError::StorageFailure
                && !has_entry_id(old(self)@.entries, entry_id as int),
    {
        let ghost pre = self@;
        let ghost nonce0 = nonce@;
        let ghost value0 = encrypted_value@;
        let ghost hashed0 = hashed_value@;
        let ghost name0 = name@;
        if self.find_entry_by_id(entry_id).is_none() {
            return Err(CacheVaultError::StorageFailure);
        }
        let found = self.find_attr(entry_id, &name);
        match found {
            Some(i) => {
                let prev = self.attributes.remove(i);
                let id = prev.id;
                let row = Attribute {
                    id: prev.id,
                    entry_id: prev.entry_id,
                    name: prev.name,
                    nonce,
                    encrypted_value,
                    hashed_value,
                    created_at: prev.created_at,
                    updated_at: now,
                };
                self.attributes.insert(i, row);
                proof {
                    let post = self@;
                    let updated = (AttributeModel {
                        id: pre.attributes[i as int].id,
                        entry_id: pre.attributes[i as int].entry_id,
                        name: pre.attributes[i as int].name,
                        nonce: nonce0,
                        encrypted_value: value0,
                        hashed_value: hashed0,
                        created_at: pre.attributes[i as int].created_at,
                        updated_at: now as int,
                    });
                    assert(post.attributes =~= pre.attributes.update(i as int, updated));
                    assert(post.entries =~= pre.entries);
                    assert(attr_upserted(
                        pre,
                        post,
                        entry_id as int,
                        name0,
                        nonce0,
                        value0,
                        hashed0,
                        now as int,
                        id as int,
                    ));
                    assert forall|j: int|
                        0 <= j < post.attributes.len() implies post.attributes[j].id
                        == pre.attributes[j].id && post.attributes[j].entry_id
                        == pre.attributes[j].entry_id && post.attributes[j].name
                        == pre.attributes[j].name by {}
                    assert(wf_model(post));
                }
                Ok(id)
            },
            None => {
                let id = self.next_attribute_id;
                let row = Attribute {
                    id,
                    entry_id,
                    name,
                    nonce,
                    encrypted_value,
                    hashed_value,
                    created_at: now,
                    updated_at: now,
                };
                self.attributes.push(row);
                self.next_attribute_id = self.next_attribute_id + 1;
                proof {
                    let post = self@;
                    let fresh = (AttributeModel {
                        id: id as int,
                        entry_id: entry_id as int,
                        name: name0,
                        nonce: nonce0,
                        encrypted_value: value0,
                        hashed_value: hashed0,
                        created_at: now as int,
                        updated_at: now as int,
                    });
                    assert(post.attributes =~= pre.attributes.push(fresh));
                    assert(post.entries =~= pre.entries);
                    assert(attr_upserted(
                        pre,
                        post,
                        entry_id as int,
                        name0,
                        nonce0,
                        value0,
                        hashed0,
                        now as int,
                        id as int,
                    ));
                    assert(wf_model(post));
                }
                Ok(id)
            },
        }
    }
}

/// After an entry upsert, the row for (namespace, key_name) is present and
/// holds exactly the upserted payload, expiry, timestamp and identity.
pub proof fn lemma_entry_upserted_row(
    pre: StoreModel,
    post: StoreModel,
    ns: Seq<char>,
    key: Seq<char>,
    n: Seq<u8>,
    c: Seq<u8>,
    x: Option<int>,
    now: int,
    id: int,
)
    requires
        wf_model(pre),
        wf_model(post),
        entry_upserted(pre, post, ns, key, n, c, x, now, id),
    ensures
        has_entry(post.entries, ns, key),
        entry_row(post.entries, ns, key).id == id,
        entry_row(post.entries, ns, key).namespace == ns,
        entry_row(post.entries, ns, key).key_name == key,
        entry_row(post.entries, ns, key).nonce == n,
        entry_row(post.entries, ns, key).encrypted_value == c,
        entry_row(post.entries, ns, key).expired_at == x,
        entry_row(post.entries, ns, key).updated_at == now,
        has_entry_id(post.entries, id),
        entry_id_index(post.entries, id) == entry_index(post.entries, ns, key),
        has_entry(pre.entries, ns, key) ==> entry_row(post.entries, ns, key).created_at
            == entry_row(pre.entries, ns, key).created_at,
        !has_entry(pre.entries, ns, key) ==> entry_row(post.entries, ns, key).created_at == now,
{
    if has_entry(pre.entries, ns, key) {
        let i = entry_index(pre.entries, ns, key);
        assert(entry_matches(pre.entries[i], ns, key));
        assert(entry_matches(post.entries[i], ns, key));
        lemma_entry_index_is(post.entries, ns, key, i);
        lemma_entry_id_index_is(post.entries, id, i);
    } else {
        let i = pre.entries.len() as int;
        assert(entry_matches(post.entries[i], ns, key));
        lemma_entry_index_is(post.entries, ns, key, i);
        lemma_entry_id_index_is(post.entries, id, i);
    }
}

/// After an attribute upsert, the row for (entry_id, name) is present and
/// holds exactly the upserted payload, digest, timestamp and identity.
pub proof fn lemma_attr_upserted_row(
    pre: StoreModel,
    post: StoreModel,
    entry_id: int,
    name: Seq<char>,
    n: Seq<u8>,
    c: Seq<u8>,
    h: Seq<u8>,
    now: int,
    id: int,
)
    requires
        wf_model(pre),
        wf_model(post),
        attr_upserted(pre, post, entry_id, name, n, c, h, now, id),
    ensures
        has_attr(post.attributes, entry_id, name),
        attr_row(post.attributes, entry_id, name).id == id,
        attr_row(post.attributes, entry_id, name).entry_id == entry_id,
        attr_row(post.attributes, entry_id, name).name == name,
        attr_row(post.attributes, entry_id, name).nonce == n,
        attr_row(post.attributes, entry_id, name).encrypted_value == c,
        attr_row(post.attributes, entry_id, name).hashed_value == h,
        attr_row(post.attributes, entry_id, name).updated_at == now,
        has_attr(pre.attributes, entry_id, name) ==> attr_row(
            post.attributes,
            entry_id,
            name,
        ).created_at == attr_row(pre.attributes, entry_id, name).created_at,
        !has_attr(pre.attributes, entry_id, name) ==> attr_row(
            post.attributes,
            entry_id,
            name,
        ).created_at == now,
{
    if has_attr(pre.attributes, entry_id, name) {
        let i = attr_index(pre.attributes, entry_id, name);
        assert(attr_matches(pre.attributes[i], entry_id, name));
        assert(attr_matches(post.attributes[i], entry_id, name));
        lemma_attr_index_is(post.attributes, entry_id, name, i);
    } else {
        let i = pre.attributes.len() as int;
        assert(attr_matches(post.attributes[i], entry_id, name));
        lemma_attr_index_is(post.attributes, entry_id, name, i);
    }
}

/// An attribute upsert leaves the row of every other attribute identity in
/// place and unchanged.
pub proof fn lemma_attr_upsert_keeps_row(
    pre: StoreModel,
    post: StoreModel,
    entry_id: int,
    name: Seq<char>,
    n: Seq<u8>,
    c: Seq<u8>,
    h: Seq<u8>,
    now: int,
    id: int,
    other_eid: int,
    other_name: Seq<char>,
)
    requires
        attrs_key_unique(pre.attributes),
        attrs_key_unique(post.attributes),
        attr_upserted(pre, post, entry_id, name, n, c, h, now, id),
        has_attr(pre.attributes, other_eid, other_name),
        !(other_eid == entry_id && other_name == name),
    ensures
        has_attr(post.attributes, other_eid, other_name),
        attr_row(post.attributes, other_eid, other_name) == attr_row(
            pre.attributes,
            other_eid,
            other_name,
        ),
{
    let w = choose|w: int|
        0 <= w < pre.attributes.len() && #[trigger] attr_matches(
            pre.attributes[w],
            other_eid,
            other_name,
        );
    lemma_attr_index_is(pre.attributes, other_eid, other_name, w);
    if has_attr(pre.attributes, entry_id, name) {
        let i = attr_index(pre.attributes, entry_id, name);
        assert(attr_matches(pre.attributes[i], entry_id, name));
        assert(w != i);
        assert(attr_matches(post.attributes[w], other_eid, other_name));
        lemma_attr_index_is(post.attributes, other_eid, other_name, w);
    } else {
        assert(attr_matches(post.attributes[w], other_eid, other_name));
        lemma_attr_index_is(post.attributes, other_eid, other_name, w);
    }
}

/// Upserting the same (namespace, key_name) twice leaves exactly one row for
/// that identity; the row keeps the identity and created_at the first upsert
/// gave it and carries the payload, expiry and timestamp of the second.
pub proof fn lemma_upsert_twice(
    m0: StoreModel,
    m1: StoreModel,
    m2: StoreModel,
    ns: Seq<char>,
    key: Seq<char>,
    n1: Seq<u8>,
    v1: Seq<u8>,
    x1: Option<int>,
    t1: int,
    id1: int,
    n2: Seq<u8>,
    v2: Seq<u8>,
    x2: Option<int>,
    t2: int,
    id2: int,
)
    requires
        wf_model(m0),
        wf_model(m1),
        wf_model(m2),
        entry_upserted(m0, m1, ns, key, n1, v1, x1, t1, id1),
        entry_upserted(m1, m2, ns, key, n2, v2, x2, t2, id2),
    ensures
        id2 == id1,
        has_entry(m2.entries, ns, key),
        forall|i: int, j: int|
            #![trigger m2.entries[i], m2.entries[j]]
            (0 <= i < m2.entries.len() && 0 <= j < m2.entries.len() && entry_matches(
                m2.entries[i],
                ns,
                key,
            ) && entry_matches(m2.entries[j], ns, key)) ==> i == j,
        entry_row(m2.entries, ns, key).id == id1,
        entry_row(m2.entries, ns, key).nonce == n2,
        entry_row(m2.entries, ns, key).encrypted_value == v2,
        entry_row(m2.entries, ns, key).expired_at == x2,
        entry_row(m2.entries, ns, key).updated_at == t2,
        entry_row(m2.entries, ns, key).created_at == entry_row(m1.entries, ns, key).created_at,
{
    lemma_entry_upserted_row(m0, m1, ns, key, n1, v1, x1, t1, id1);
    lemma_entry_upserted_row(m1, m2, ns, key, n2, v2, x2, t2, id2);
    let i1 = entry_index(m1.entries, ns, key);
    assert(entry_matches(m1.entries[i1], ns, key));
    assert(m1.entries[i1].id == id1);
    assert(id2 == m1.entries[i1].id);
    assert forall|i: int, j: int|
        #![trigger m2.entries[i], m2.entries[j]]
        (0 <= i < m2.entries.len() && 0 <= j < m2.entries.len() && entry_matches(
            m2.entries[i],
            ns,
            key,
        ) && entry_matches(m2.entries[j], ns, key)) implies i == j by {
        if i < j {
            assert(!entry_matches(m2.entries[i], m2.entries[j].namespace, m2.entries[j].key_name));
        } else if j < i {
            assert(!entry_matches(m2.entries[j], m2.entries[i].namespace, m2.entries[i].key_name));
        }
    }
}

/// Every row selected for an entry is one of the stored rows, and the
/// selection keeps the ascending identity order.
pub proof fn lemma_attrs_for_sorted(attrs: Seq<AttributeModel>, entry_id: int)
    requires
        attrs_sorted(attrs),
    ensures
        attrs_sorted(attrs_for(attrs, entry_id)),
        forall|x: AttributeModel| #[trigger]
            attrs_for(attrs, entry_id).contains(x) ==> attrs.contains(x) && x.entry_id == entry_id,
    decreases attrs.len(),
{
    if attrs.len() > 0 {
        let head = attrs.drop_last();
        assert(attrs_sorted(head));
        lemma_attrs_for_sorted(head, entry_id);
        let rest = attrs_for(head, entry_id);
        assert forall|x: AttributeModel| #[trigger]
            attrs_for(attrs, entry_id).contains(x) implies attrs.contains(x) && x.entry_id
            == entry_id by {
            if rest.contains(x) {
                assert(head.contains(x));
                let j = choose|j: int| 0 <= j < head.len() && head[j] == x;
                assert(attrs[j] == x);
            } else {
                assert(x == attrs.last());
                assert(attrs[attrs.len() - 1] == x);
            }
        }
        if attrs.last().entry_id == entry_id {
            let sel = attrs_for(attrs, entry_id);
            assert forall|i: int, j: int|
                #![trigger sel[i], sel[j]]
                0 <= i < j < sel.len() implies sel[i].id < sel[j].id by {
                if j < sel.len() - 1 {
                    assert(rest[i] == sel[i] && rest[j] == sel[j]);
                } else {
                    assert(sel[j] == attrs.last());
                    assert(rest.contains(rest[i]));
                    assert(head.contains(sel[i]));
                    let n = choose|n: int| 0 <= n < head.len() && head[n] == sel[i];
                    assert(attrs[n] == sel[i]);
                    assert(attrs[n].id < attrs[attrs.len() - 1].id);
                }
            }
        }
    }
}

} // verus!
