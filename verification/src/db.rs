//! The collection storage engine: named collections of documents with
//! pluggable identity generation, optional expiration, uniqueness
//! enforcement, and a name-to-collection registry.
//!
//! Storage is an association vector in insertion order: a full scan yields
//! documents in the order they were first stored. Every compound operation
//! holds the collection exclusively for its whole duration, so a
//! check-then-write sequence (uniqueness check and insert, existence check
//! and update) cannot interleave with another write.

use vstd::prelude::*;
use crate::config::KeyType;
use crate::config::TTL;
use crate::error::StoreError;
use crate::ids::dec_rep;
use crate::ids::new_uuid_string;
use crate::ids::u64_to_dec;
use crate::value::Value;
use crate::value::ValueView;
use crate::value::dup_value;
use crate::value::get_field;
use crate::value::set_field;
use crate::value::str_eq;
use crate::value::value_eq;
use crate::value::vget;
use crate::value::vset;

verus! {

/// What a completed operation reports back.
#[derive(Debug, PartialEq)]
pub enum OperationResult {
    Inserted { id: String, document: Value },
    Updated { id: String, old_document: Value, new_document: Value },
    Deleted { id: String, document: Value },
}

/// One stored document with its optional absolute expiration instant,
/// in seconds. `None` means the entry never expires.
#[derive(Debug)]
pub struct DocumentEntry {
    pub value: Value,
    pub expiration: Option<u64>,
}

/// Abstraction of a stored entry.
#[verifier::ext_equal]
pub struct EntryView {
    pub value: ValueView,
    pub expiration: Option<u64>,
}

impl View for DocumentEntry {
    type V = EntryView;

    open spec fn view(&self) -> EntryView {
        EntryView { value: self.value@, expiration: self.expiration }
    }
}

/// An entry has expired at `now` when its expiration instant has been
/// reached; an entry without one never expires.
pub open spec fn is_expired(e: EntryView, now: u64) -> bool {
    match e.expiration {
        Some(t) => t <= now,
        None => false,
    }
}

/// Abstraction of a keyed association sequence.
pub open spec fn assoc_view<T: View>(s: Seq<(String, T)>) -> Seq<(Seq<char>, T::V)> {
    Seq::new(s.len(), |i: int| (s[i].0@, s[i].1@))
}

/// First index at or after `i` whose key equals `key`; the length when
/// there is none.
pub open spec fn idx_of_from<T>(s: Seq<(Seq<char>, T)>, key: Seq<char>, i: int) -> int
    decreases s.len() - i,
{
    if i < 0 || i >= s.len() {
        s.len() as int
    } else if s[i].0 == key {
        i
    } else {
        idx_of_from(s, key, i + 1)
    }
}

/// First index whose key equals `key`; the length when there is none.
pub open spec fn idx_of<T>(s: Seq<(Seq<char>, T)>, key: Seq<char>) -> int {
    idx_of_from(s, key, 0)
}

/// Whether some pair carries `key`.
pub open spec fn has_key<T>(s: Seq<(Seq<char>, T)>, key: Seq<char>) -> bool {
    idx_of(s, key) < s.len()
}

/// The value stored under `key`.
pub open spec fn value_at<T>(s: Seq<(Seq<char>, T)>, key: Seq<char>) -> T
    recommends
        has_key(s, key),
{
    s[idx_of(s, key)].1
}

/// Store `v` under `key`: replace in place when the key is present, append
/// at the end when it is not.
pub open spec fn set_at<T>(s: Seq<(Seq<char>, T)>, key: Seq<char>, v: T) -> Seq<(Seq<char>, T)> {
    if has_key(s, key) {
        s.update(idx_of(s, key), (key, v))
    } else {
        s.push((key, v))
    }
}

/// Drop the pair carrying `key`, if any; the order of the rest is kept.
pub open spec fn remove_at<T>(s: Seq<(Seq<char>, T)>, key: Seq<char>) -> Seq<(Seq<char>, T)> {
    if has_key(s, key) {
        s.remove(idx_of(s, key))
    } else {
        s
    }
}

/// `idx_of_from` finds a match at `i` and skips mismatches before it.
pub proof fn lemma_idx_of_from_props<T>(s: Seq<(Seq<char>, T)>, key: Seq<char>, i: int)
    requires
        0 <= i <= s.len(),
    ensures
        i <= idx_of_from(s, key, i) <= s.len(),
        idx_of_from(s, key, i) < s.len() ==> s[idx_of_from(s, key, i)].0 == key,
        forall|j: int| i <= j < idx_of_from(s, key, i) ==> s[j].0 != key,
    decreases s.len() - i,
{
    if i < s.len() && s[i].0 != key {
        lemma_idx_of_from_props(s, key, i + 1);
    }
}

/// `idx_of` finds the first match: what stands before it does not match,
/// and a hit within the sequence carries the key.
pub proof fn lemma_idx_of_props<T>(s: Seq<(Seq<char>, T)>, key: Seq<char>)
    ensures
        0 <= idx_of(s, key) <= s.len(),
        idx_of(s, key) < s.len() ==> s[idx_of(s, key)].0 == key,
        forall|j: int| 0 <= j < idx_of(s, key) ==> s[j].0 != key,
{
    lemma_idx_of_from_props(s, key, 0);
}

/// When the first `i` keys miss, the search outcome is settled from `i` on.
pub proof fn lemma_idx_of_skip<T>(s: Seq<(Seq<char>, T)>, key: Seq<char>, i: int)
    requires
        0 <= i <= s.len(),
        forall|j: int| 0 <= j < i ==> s[j].0 != key,
    ensures
        idx_of(s, key) == idx_of_from(s, key, i),
    decreases i,
{
    if i > 0 {
        lemma_idx_of_skip(s, key, i - 1);
        assert(idx_of_from(s, key, i - 1) == idx_of_from(s, key, i));
    }
}

/// Distinct keys, and every stored value a field mapping: what a
/// well-formed collection's storage satisfies.
pub open spec fn docs_wf(docs: Seq<(Seq<char>, EntryView)>) -> bool {
    &&& forall|i: int, j: int| 0 <= i < j < docs.len() ==> docs[i].0 != docs[j].0
    &&& forall|i: int| 0 <= i < docs.len() ==> docs[i].1.value is Obj
}

/// `set_at` keeps keys distinct, and keeps every stored value an object if
/// the new one is.
pub proof fn lemma_set_at_wf(docs: Seq<(Seq<char>, EntryView)>, key: Seq<char>, e: EntryView)
    requires
        docs_wf(docs),
        e.value is Obj,
    ensures
        docs_wf(set_at(docs, key, e)),
{
    lemma_idx_of_props(docs, key);
    if has_key(docs, key) {
        let k = idx_of(docs, key);
        assert forall|i: int, j: int|
            0 <= i < j < set_at(docs, key, e).len() implies set_at(docs, key, e)[i].0 != set_at(
            docs,
            key,
            e,
        )[j].0 by {
            assert(docs[k].0 == key);
        }
    } else {
        assert forall|i: int, j: int|
            0 <= i < j < set_at(docs, key, e).len() implies set_at(docs, key, e)[i].0 != set_at(
            docs,
            key,
            e,
        )[j].0 by {
            if j == docs.len() {
                assert(docs[i].0 != key);
            }
        }
    }
}

/// `remove_at` keeps well-formedness.
pub proof fn lemma_remove_at_wf(docs: Seq<(Seq<char>, EntryView)>, key: Seq<char>)
    requires
        docs_wf(docs),
    ensures
        docs_wf(remove_at(docs, key)),
{
    lemma_idx_of_props(docs, key);
}

/// Whether `ttl` resolves to an expiration instant that fits in seconds.
pub open spec fn ttl_fits(ttl: Option<TTL>, now: u64) -> bool {
    match ttl {
        Some(TTL::GlobalTTL(s)) => now + s <= u64::MAX,
        Some(TTL::CustomTTL(s)) => now + s <= u64::MAX,
        _ => true,
    }
}

/// The absolute expiration instant `ttl` resolves to at `now`: a given
/// number of seconds from now, or none.
pub open spec fn resolve_expiration(ttl: Option<TTL>, now: u64) -> Option<u64> {
    match ttl {
        Some(TTL::GlobalTTL(s)) => Some((now + s) as u64),
        Some(TTL::CustomTTL(s)) => Some((now + s) as u64),
        _ => None,
    }
}

/// The expiration instant for `ttl` at `now`.
fn expiration_from(ttl: Option<TTL>, now: u64) -> (r: Option<u64>)
    requires
        ttl_fits(ttl, now),
    ensures
        r == resolve_expiration(ttl, now),
{
    match ttl {
        Some(TTL::GlobalTTL(s)) => Some(now + s),
        Some(TTL::CustomTTL(s)) => Some(now + s),
        _ => None,
    }
}

/// The unique field `uniques[a]` is present on `doc` and some live stored
/// document `docs[i]` holds an equal value for it.
pub open spec fn conflict_at(
    docs: Seq<(Seq<char>, EntryView)>,
    uniques: Seq<Seq<char>>,
    doc: ValueView,
    now: u64,
    a: int,
    i: int,
) -> bool {
    &&& vget(doc, uniques[a]) is Some
    &&& !is_expired(docs[i].1, now)
    &&& vget(docs[i].1.value, uniques[a]) == vget(doc, uniques[a])
}

/// Whether inserting `doc` would put two live documents with an equal value
/// for some unique field into the collection.
pub open spec fn violates_unique(
    docs: Seq<(Seq<char>, EntryView)>,
    uniques: Seq<Seq<char>>,
    doc: ValueView,
    now: u64,
) -> bool {
    exists|a: int, i: int|
        0 <= a < uniques.len() && 0 <= i < docs.len() && conflict_at(docs, uniques, doc, now, a, i)
}

/// `r` reports an insert of `doc` under identity `id`.
pub open spec fn is_inserted_with(r: OperationResult, id: Seq<char>, doc: ValueView) -> bool {
    match r {
        OperationResult::Inserted { id: rid, document } => rid@ == id && document@ == doc,
        _ => false,
    }
}

/// `r` reports an update of identity `id` from `old_doc` to `new_doc`.
pub open spec fn is_updated_with(
    r: OperationResult,
    id: Seq<char>,
    old_doc: ValueView,
    new_doc: ValueView,
) -> bool {
    match r {
        OperationResult::Updated { id: rid, old_document, new_document } => rid@ == id
            && old_document@ == old_doc && new_document@ == new_doc,
        _ => false,
    }
}

/// `r` reports a deletion of identity `id` that held `doc`.
pub open spec fn is_deleted_with(r: OperationResult, id: Seq<char>, doc: ValueView) -> bool {
    match r {
        OperationResult::Deleted { id: rid, document } => rid@ == id && document@ == doc,
        _ => false,
    }
}

/// With some field declared unique, a stored live document and an incoming
/// one that hold an equal value for it are a uniqueness violation: the
/// second of two documents with the same value for a unique field is
/// refused by `insert`, whose contract returns `DuplicateUniqueValue`
/// exactly on a violation.
pub proof fn lemma_second_duplicate_refused(
    docs: Seq<(Seq<char>, EntryView)>,
    uniques: Seq<Seq<char>>,
    field: Seq<char>,
    doc2: ValueView,
    key: Seq<char>,
    now: u64,
)
    requires
        uniques.contains(field),
        has_key(docs, key),
        !is_expired(value_at(docs, key), now),
        vget(doc2, field) is Some,
        vget(value_at(docs, key).value, field) == vget(doc2, field),
    ensures
        violates_unique(docs, uniques, doc2, now),
{
    let a = choose|a: int| 0 <= a < uniques.len() && uniques[a] == field;
    let i = idx_of(docs, key);
    lemma_idx_of_props(docs, key);
    assert(conflict_at(docs, uniques, doc2, now, a, i));
}

/// A conflict of a key-stamped document transfers to the plain document
/// when the key field is not itself a unique field.
proof fn lemma_conflict_transfer(
    docs: Seq<(Seq<char>, EntryView)>,
    uniques: Seq<Seq<char>>,
    doc: ValueView,
    kf: Seq<char>,
    idval: ValueView,
    now: u64,
)
    requires
        doc is Obj || doc is Null,
        violates_unique(docs, uniques, crate::value::vset(doc, kf, idval), now),
        !uniques.contains(kf),
    ensures
        violates_unique(docs, uniques, doc, now),
{
    let stamped = crate::value::vset(doc, kf, idval);
    let (a, i) = choose|a: int, i: int|
        0 <= a < uniques.len() && 0 <= i < docs.len() && conflict_at(
            docs,
            uniques,
            stamped,
            now,
            a,
            i,
        );
    assert(uniques[a] != kf);
    crate::value::lemma_vget_vset(doc, kf, idval, uniques[a]);
    assert(conflict_at(docs, uniques, doc, now, a, i));
}

/// A named collection: document storage in insertion order, the identity
/// strategy and its counter, and the uniqueness declarations.
#[derive(Debug)]
pub struct Collection {
    pub documents: Vec<(String, DocumentEntry)>,
    pub key_field: Option<String>,
    pub key_type: KeyType,
    pub unique_keys: Vec<String>,
    pub next_id: u64,
    pub db_name: String,
    pub collection_name: String,
}

/// Abstraction of a collection.
#[verifier::ext_equal]
pub struct CollectionView {
    pub docs: Seq<(Seq<char>, EntryView)>,
    pub key_field: Option<Seq<char>>,
    pub key_type: KeyType,
    pub unique_keys: Seq<Seq<char>>,
    pub next_id: u64,
    pub db_name: Seq<char>,
    pub collection_name: Seq<char>,
}

impl View for Collection {
    type V = CollectionView;

    open spec fn view(&self) -> CollectionView {
        CollectionView {
            docs: assoc_view(self.documents@),
            key_field: match self.key_field {
                Some(kf) => Some(kf@),
                None => None,
            },
            key_type: self.key_type,
            unique_keys: Seq::new(self.unique_keys@.len(), |i: int| self.unique_keys@[i]@),
            next_id: self.next_id,
            db_name: self.db_name@,
            collection_name: self.collection_name@,
        }
    }
}

/// The parts of a collection that no document operation changes.
pub open spec fn same_config(a: CollectionView, b: CollectionView) -> bool {
    &&& a.key_field == b.key_field
    &&& a.key_type == b.key_type
    &&& a.unique_keys == b.unique_keys
    &&& a.db_name == b.db_name
    &&& a.collection_name == b.collection_name
}

/// Index of the first pair keyed `key`, scanning in insertion order.
fn find_assoc<T: View>(docs: &Vec<(String, T)>, key: &str) -> (r: Option<usize>)
    ensures
        match r {
            Some(i) => i as int == idx_of(assoc_view(docs@), key@) && (i as int) < docs@.len(),
            None => idx_of(assoc_view(docs@), key@) == docs@.len(),
        },
{
    let ghost dv = assoc_view(docs@);
    let n = docs.len();
    let mut i: usize = 0;
    while i < n
        invariant
            i <= n,
            n == docs@.len(),
            dv == assoc_view(docs@),
            forall|j: int| 0 <= j < i ==> dv[j].0 != key@,
        decreases n - i,
    {
        if str_eq(docs[i].0.as_str(), key) {
            proof {
                assert(dv[i as int].0 == key@);
                lemma_idx_of_skip(dv, key@, i as int);
            }
            return Some(i);
        }
        proof {
            assert(dv[i as int].0 == docs@[i as int].0@);
        }
        i += 1;
    }
    proof {
        lemma_idx_of_skip(dv, key@, n as int);
    }
    None
}

impl Collection {
    /// Storage is well-formed: identities are unique within the collection
    /// and every stored document is a field mapping.
    pub open spec fn wf(&self) -> bool {
        docs_wf(self@.docs)
    }

    /// An empty collection with the given declarations; the identity
    /// counter starts at zero.
    pub fn new(
        db_name: String,
        collection_name: String,
        key_field: Option<String>,
        key_type: KeyType,
        unique_keys: Vec<String>,
    ) -> (r: Collection)
        ensures
            r@.docs == Seq::<(Seq<char>, EntryView)>::empty(),
            r@.key_field == (match key_field {
                Some(kf) => Some(kf@),
                None => None::<Seq<char>>,
            }),
            r@.key_type == key_type,
            r@.unique_keys.len() == unique_keys@.len(),
            forall|i: int| 0 <= i < unique_keys@.len() ==> r@.unique_keys[i] == unique_keys@[i]@,
            r@.next_id == 0,
            r@.db_name == db_name@,
            r@.collection_name == collection_name@,
            r.wf(),
    {
        let r = Collection {
            documents: Vec::new(),
            key_field,
            key_type,
            unique_keys,
            next_id: 0,
            db_name,
            collection_name,
        };
        proof {
            assert(assoc_view(r.documents@) =~= Seq::<(Seq<char>, EntryView)>::empty());
        }
        r
    }

    /// Whether storing `doc` now would violate a uniqueness declaration:
    /// some unique field is present on `doc` and some live stored document
    /// holds an equal value for it.
    pub fn check_unique(&self, doc: &Value, now: u64) -> (r: bool)
        ensures
            r == violates_unique(self@.docs, self@.unique_keys, doc@, now),
    {
        let ghost docs = self@.docs;
        let ghost uniques = self@.unique_keys;
        let nu = self.unique_keys.len();
        let mut a: usize = 0;
        while a < nu
            invariant
                a <= nu,
                nu == self.unique_keys@.len(),
                docs == self@.docs,
                uniques == self@.unique_keys,
                forall|x: int, i: int|
                    0 <= x < a && 0 <= i < docs.len() ==> !conflict_at(
                        docs,
                        uniques,
                        doc@,
                        now,
                        x,
                        i,
                    ),
            decreases nu - a,
        {
            proof {
                assert(uniques[a as int] == self.unique_keys@[a as int]@);
            }
            match get_field(doc, self.unique_keys[a].as_str()) {
                None => {},
                Some(val) => {
                    let nd = self.documents.len();
                    let mut i: usize = 0;
                    while i < nd
                        invariant
                            i <= nd,
                            a < nu,
                            nu == self.unique_keys@.len(),
                            nd == self.documents@.len(),
                            docs == self@.docs,
                            uniques == self@.unique_keys,
                            uniques[a as int] == self.unique_keys@[a as int]@,
                            vget(doc@, uniques[a as int]) == Some(val@),
                            forall|j: int| 0 <= j < i ==> !conflict_at(
                                docs,
                                uniques,
                                doc@,
                                now,
                                a as int,
                                j,
                            ),
                        decreases nd - i,
                    {
                        proof {
                            assert(docs[i as int] == (self.documents@[i as int].0@,
                            self.documents@[i as int].1@));
                        }
                        let live = match self.documents[i].1.expiration {
                            Some(t) => now < t,
                            None => true,
                        };
                        if live {
                            match get_field(&self.documents[i].1.value, self.unique_keys[a].as_str())
                                {
                                Some(ev) => {
                                    if value_eq(ev, val) {
                                        proof {
                                            assert(conflict_at(
                                                docs,
                                                uniques,
                                                doc@,
                                                now,
                                                a as int,
                                                i as int,
                                            ));
                                        }
                                        return true;
                                    }
                                },
                                None => {},
                            }
                        }
                        i += 1;
                    }
                },
            }
            a += 1;
        }
        false
    }

    /// Writes `doc` under `id` with the expiration `ttl` resolves to, in
    /// place when the identity exists and at the end of the order when it
    /// does not, and reports the insert.
    fn store_doc(&mut self, id: String, doc: Value, ttl: Option<TTL>, now: u64) -> (r:
        OperationResult)
        requires
            old(self).wf(),
            doc@ is Obj,
            ttl_fits(ttl, now),
        ensures
            final(self)@.docs == set_at(
                old(self)@.docs,
                id@,
                (EntryView { value: doc@, expiration: resolve_expiration(ttl, now) }),
            ),
            same_config(final(self)@, old(self)@),
            final(self)@.next_id == old(self)@.next_id,
            is_inserted_with(r, id@, doc@),
            final(self).wf(),
    {
        let ghost dv = assoc_view(old(self).documents@);
        let ghost e = EntryView { value: doc@, expiration: resolve_expiration(ttl, now) };
        let exp = expiration_from(ttl, now);
        let id_ret = id.clone();
        let stored = DocumentEntry { value: dup_value(&doc), expiration: exp };
        match find_assoc(&self.documents, id.as_str()) {
            Some(i) => {
                let pair = self.documents.remove(i);
                self.documents.insert(i, (pair.0, stored));
                proof {
                    lemma_idx_of_props(dv, id@);
                    assert(dv[i as int].0 == id@);
                    assert(dv[i as int].0 == old(self).documents@[i as int].0@);
                    assert(self.documents@ =~= old(self).documents@.update(
                        i as int,
                        (pair.0, stored),
                    ));
                    assert(has_key(dv, id@));
                    assert forall|j: int| 0 <= j < self.documents@.len() implies assoc_view(
                        self.documents@,
                    )[j] == set_at(dv, id@, e)[j] by {
                        assert(assoc_view(self.documents@)[j] == (self.documents@[j].0@,
                        self.documents@[j].1@));
                        if j != i {
                            assert(dv[j] == (old(self).documents@[j].0@,
                            old(self).documents@[j].1@));
                        }
                    }
                    assert(assoc_view(self.documents@) =~= set_at(dv, id@, e));
                    lemma_set_at_wf(dv, id@, e);
                }
            },
            None => {
                self.documents.push((id, stored));
                proof {
                    assert(!has_key(dv, id_ret@));
                    assert forall|j: int| 0 <= j < self.documents@.len() implies assoc_view(
                        self.documents@,
                    )[j] == set_at(dv, id_ret@, e)[j] by {
                        assert(assoc_view(self.documents@)[j] == (self.documents@[j].0@,
                        self.documents@[j].1@));
                        if j < dv.len() {
                            assert(dv[j] == (old(self).documents@[j].0@,
                            old(self).documents@[j].1@));
                        }
                    }
                    assert(assoc_view(self.documents@) =~= set_at(dv, id_ret@, e));
                    lemma_set_at_wf(dv, id_ret@, e);
                }
            },
        }
        OperationResult::Inserted { id: id_ret, document: doc }
    }

    /// Stores a document. The identity is produced by the collection's
    /// strategy: `Increment` stamps the decimal form of the counter into the
    /// key field and moves the counter on (also when the insert then fails
    /// the uniqueness check); `UUID` stamps a fresh UUID string; the field
    /// strategies read the key field from the document itself, and an
    /// identity already present silently overwrites the prior entry. A
    /// document whose value for some declared unique field equals that of a
    /// live stored document is refused. The expiration is `now` plus the
    /// given time-to-live, or absent.
    pub fn insert(&mut self, document: Value, ttl: Option<TTL>, now: u64) -> (r: Result<
        OperationResult,
        StoreError,
    >)
        requires
            old(self).wf(),
            document@ is Obj,
            old(self).key_type == KeyType::Increment ==> old(self).next_id < u64::MAX,
            ttl_fits(ttl, now),
        ensures
            final(self).wf(),
            same_config(final(self)@, old(self)@),
            final(self)@.next_id == if old(self)@.key_field is Some && old(self)@.key_type
                == KeyType::Increment {
                (old(self)@.next_id + 1) as u64
            } else {
                old(self)@.next_id
            },
            old(self)@.key_field is None ==> r == Err::<OperationResult, StoreError>(
                StoreError::MissingKeyField,
            ) && final(self)@ == old(self)@,
            (match old(self)@.key_field {
                Some(kf) => (old(self)@.key_type == KeyType::StringField || old(self)@.key_type
                    == KeyType::CustomField) ==> (match vget(document@, kf) {
                    None => r == Err::<OperationResult, StoreError>(StoreError::MissingKeyField)
                        && final(self)@ == old(self)@,
                    Some(x) => if !(x is Text) {
                        r == Err::<OperationResult, StoreError>(StoreError::InvalidKeyType) && final(self)@
                            == old(self)@
                    } else {
                        if violates_unique(old(self)@.docs, old(self)@.unique_keys, document@, now) {
                            r == Err::<OperationResult, StoreError>(StoreError::DuplicateUniqueValue)
                                && final(self)@ == old(self)@
                        } else {
                            r matches Ok(op) && is_inserted_with(op, x->Text_0, document@)
                                && final(self)@.docs == set_at(
                                old(self)@.docs,
                                x->Text_0,
                                (EntryView {
                                    value: document@,
                                    expiration: resolve_expiration(ttl, now),
                                }),
                            )
                        }
                    },
                }),
                None => true,
            }),
            (match old(self)@.key_field {
                Some(kf) => old(self)@.key_type == KeyType::Increment ==> ({
                    let id = dec_rep(old(self)@.next_id as nat);
                    let doc2 = vset(document@, kf, ValueView::Text(id));
                    if violates_unique(old(self)@.docs, old(self)@.unique_keys, doc2, now) {
                        r == Err::<OperationResult, StoreError>(StoreError::DuplicateUniqueValue)
                            && final(self)@.docs == old(self)@.docs
                    } else {
                        r matches Ok(op) && is_inserted_with(op, id, doc2) && final(self)@.docs == set_at(
                            old(self)@.docs,
                            id,
                            (EntryView { value: doc2, expiration: resolve_expiration(ttl, now) }),
                        )
                    }
                }),
                None => true,
            }),
            (match old(self)@.key_field {
                Some(kf) => old(self)@.key_type == KeyType::UUID ==> (match r {
                    Ok(op) => (match op {
                        OperationResult::Inserted { id: rid, document: rdoc } => rid@.len() == 36
                            && rdoc@ == vset(document@, kf, ValueView::Text(rid@))
                            && !violates_unique(old(self)@.docs, old(self)@.unique_keys, rdoc@, now)
                            && final(self)@.docs == set_at(
                            old(self)@.docs,
                            rid@,
                            (EntryView { value: rdoc@, expiration: resolve_expiration(ttl, now) }),
                        ),
                        _ => false,
                    }),
                    Err(e) => e == StoreError::DuplicateUniqueValue && final(self)@ == old(self)@,
                }),
                None => true,
            }),
            (match old(self)@.key_field {
                Some(kf) => ({
                    &&& ((old(self)@.key_type == KeyType::StringField || old(self)@.key_type
                        == KeyType::CustomField) ==> vget(document@, kf) matches Some(
                        ValueView::Text(_),
                    ))
                    &&& ((old(self)@.key_type == KeyType::Increment || old(self)@.key_type
                        == KeyType::UUID) ==> !old(self)@.unique_keys.contains(kf))
                    &&& !violates_unique(old(self)@.docs, old(self)@.unique_keys, document@, now)
                }) ==> r is Ok,
                None => true,
            }),
    {
        let kf = match &self.key_field {
            Some(k) => k.clone(),
            None => {
                return Err(StoreError::MissingKeyField);
            },
        };
        match self.key_type {
            KeyType::Increment => {
                let id = u64_to_dec(self.next_id);
                self.next_id = self.next_id + 1;
                let doc2 = set_field(document, kf.as_str(), Value::Text(id.clone()));
                proof {
                    assert(doc2@ is Obj);
                }
                if self.check_unique(&doc2, now) {
                    proof {
                        if !old(self)@.unique_keys.contains(kf@) {
                            lemma_conflict_transfer(
                                old(self)@.docs,
                                old(self)@.unique_keys,
                                document@,
                                kf@,
                                ValueView::Text(dec_rep(old(self)@.next_id as nat)),
                                now,
                            );
                        }
                    }
                    return Err(StoreError::DuplicateUniqueValue);
                }
                Ok(self.store_doc(id, doc2, ttl, now))
            },
            KeyType::UUID => {
                let id = new_uuid_string();
                let doc2 = set_field(document, kf.as_str(), Value::Text(id.clone()));
                proof {
                    assert(doc2@ is Obj);
                }
                if self.check_unique(&doc2, now) {
                    proof {
                        if !old(self)@.unique_keys.contains(kf@) {
                            lemma_conflict_transfer(
                                old(self)@.docs,
                                old(self)@.unique_keys,
                                document@,
                                kf@,
                                ValueView::Text(id@),
                                now,
                            );
                        }
                    }
                    return Err(StoreError::DuplicateUniqueValue);
                }
                Ok(self.store_doc(id, doc2, ttl, now))
            },
            KeyType::StringField | KeyType::CustomField => {
                let id = match get_field(&document, kf.as_str()) {
                    None => {
                        return Err(StoreError::MissingKeyField);
                    },
                    Some(v) => match v {
                        Value::Text(s) => s.clone(),
                        _ => {
                            return Err(StoreError::InvalidKeyType);
                        },
                    },
                };
                if self.check_unique(&document, now) {
                    return Err(StoreError::DuplicateUniqueValue);
                }
                Ok(self.store_doc(id, document, ttl, now))
            },
        }
    }

    /// Replaces the document stored under the identity read from the key
    /// field of the incoming document. The entry's expiration is left
    /// untouched. Fails with `NotFound` when no entry has that identity.
    pub fn update(&mut self, document: Value) -> (r: Result<OperationResult, StoreError>)
        requires
            old(self).wf(),
            document@ is Obj,
        ensures
            final(self).wf(),
            same_config(final(self)@, old(self)@),
            final(self)@.next_id == old(self)@.next_id,
            old(self)@.key_field is None ==> r == Err::<OperationResult, StoreError>(
                StoreError::MissingKeyField,
            ) && final(self)@ == old(self)@,
            (match old(self)@.key_field {
                Some(kf) => (match vget(document@, kf) {
                    None => r == Err::<OperationResult, StoreError>(StoreError::MissingKeyField)
                        && final(self)@ == old(self)@,
                    Some(x) => if !(x is Text) {
                        r == Err::<OperationResult, StoreError>(StoreError::InvalidKeyType) && final(self)@ == old(self)@
                    } else {
                        if has_key(old(self)@.docs, x->Text_0) {
                            r matches Ok(op) && is_updated_with(
                                op,
                                x->Text_0,
                                value_at(old(self)@.docs, x->Text_0).value,
                                document@,
                            ) && final(self)@.docs == set_at(
                                old(self)@.docs,
                                x->Text_0,
                                (EntryView {
                                    value: document@,
                                    expiration: value_at(old(self)@.docs, x->Text_0).expiration,
                                }),
                            )
                        } else {
                            r == Err::<OperationResult, StoreError>(StoreError::NotFound) && final(self)@ == old(self)@
                        }
                    },
                }),
                None => true,
            }),
    {
        let ghost dv = assoc_view(old(self).documents@);
        let kf = match &self.key_field {
            Some(k) => k.clone(),
            None => {
                return Err(StoreError::MissingKeyField);
            },
        };
        let id = match get_field(&document, kf.as_str()) {
            None => {
                return Err(StoreError::MissingKeyField);
            },
            Some(v) => match v {
                Value::Text(s) => s.clone(),
                _ => {
                    return Err(StoreError::InvalidKeyType);
                },
            },
        };
        match find_assoc(&self.documents, id.as_str()) {
            Some(i) => {
                proof {
                    lemma_idx_of_props(dv, id@);
                }
                let pair = self.documents.remove(i);
                let old_doc = pair.1.value;
                let new_entry = DocumentEntry {
                    value: dup_value(&document),
                    expiration: pair.1.expiration,
                };
                self.documents.insert(i, (pair.0, new_entry));
                proof {
                    let ghost e = EntryView {
                        value: document@,
                        expiration: value_at(dv, id@).expiration,
                    };
                    assert(self.documents@ =~= old(self).documents@.update(
                        i as int,
                        (pair.0, new_entry),
                    ));
                    assert forall|j: int| 0 <= j < self.documents@.len() implies assoc_view(
                        self.documents@,
                    )[j] == set_at(dv, id@, e)[j] by {
                        assert(assoc_view(self.documents@)[j] == (self.documents@[j].0@,
                        self.documents@[j].1@));
                        if j != i {
                            assert(dv[j] == (old(self).documents@[j].0@,
                            old(self).documents@[j].1@));
                        }
                    }
                    assert(assoc_view(self.documents@) =~= set_at(dv, id@, e));
                    lemma_set_at_wf(dv, id@, e);
                }
                Ok(
                    OperationResult::Updated {
                        id,
                        old_document: old_doc,
                        new_document: document,
                    },
                )
            },
            None => Err(StoreError::NotFound),
        }
    }

    /// Update-or-insert, keyed by the identity read from the key field of
    /// the incoming document. An existing identity is updated in place and,
    /// unlike a plain update, its expiration is overwritten from the given
    /// time-to-live; a new identity is inserted as `insert` would.
    pub fn upsert(&mut self, document: Value, ttl: Option<TTL>, now: u64) -> (r: Result<
        OperationResult,
        StoreError,
    >)
        requires
            old(self).wf(),
            document@ is Obj,
            old(self).key_type == KeyType::Increment ==> old(self).next_id < u64::MAX,
            ttl_fits(ttl, now),
        ensures
            final(self).wf(),
            same_config(final(self)@, old(self)@),
            old(self)@.key_field is None ==> r == Err::<OperationResult, StoreError>(
                StoreError::MissingKeyField,
            ) && final(self)@ == old(self)@,
            (match old(self)@.key_field {
                Some(kf) => (match vget(document@, kf) {
                    None => r == Err::<OperationResult, StoreError>(StoreError::MissingKeyField)
                        && final(self)@ == old(self)@,
                    Some(x) => if !(x is Text) {
                        r == Err::<OperationResult, StoreError>(StoreError::InvalidKeyType) && final(self)@ == old(self)@
                    } else {
                        if has_key(old(self)@.docs, x->Text_0) {
                            r matches Ok(op) && is_updated_with(
                                op,
                                x->Text_0,
                                value_at(old(self)@.docs, x->Text_0).value,
                                document@,
                            ) && final(self)@.docs == set_at(
                                old(self)@.docs,
                                x->Text_0,
                                (EntryView {
                                    value: document@,
                                    expiration: resolve_expiration(ttl, now),
                                }),
                            ) && final(self)@.next_id == old(self)@.next_id
                        } else {
                            ({
                                &&& final(self)@.next_id == if old(self)@.key_type
                                    == KeyType::Increment {
                                    (old(self)@.next_id + 1) as u64
                                } else {
                                    old(self)@.next_id
                                }
                                &&& ((old(self)@.key_type == KeyType::StringField || old(
                                    self,
                                )@.key_type == KeyType::CustomField) ==> if violates_unique(
                                    old(self)@.docs,
                                    old(self)@.unique_keys,
                                    document@,
                                    now,
                                ) {
                                    r == Err::<OperationResult, StoreError>(
                                        StoreError::DuplicateUniqueValue,
                                    ) && final(self)@ == old(self)@
                                } else {
                                    r matches Ok(op) && is_inserted_with(op, x->Text_0, document@)
                                        && final(self)@.docs == set_at(
                                        old(self)@.docs,
                                        x->Text_0,
                                        (EntryView {
                                            value: document@,
                                            expiration: resolve_expiration(ttl, now),
                                        }),
                                    )
                                })
                                &&& (old(self)@.key_type == KeyType::Increment ==> ({
                                    let id2 = dec_rep(old(self)@.next_id as nat);
                                    let doc2 = vset(document@, kf, ValueView::Text(id2));
                                    if violates_unique(
                                        old(self)@.docs,
                                        old(self)@.unique_keys,
                                        doc2,
                                        now,
                                    ) {
                                        r == Err::<OperationResult, StoreError>(
                                            StoreError::DuplicateUniqueValue,
                                        ) && final(self)@.docs == old(self)@.docs
                                    } else {
                                        r matches Ok(op) && is_inserted_with(op, id2, doc2) && final(self)@.docs == set_at(
                                            old(self)@.docs,
                                            id2,
                                            (EntryView {
                                                value: doc2,
                                                expiration: resolve_expiration(ttl, now),
                                            }),
                                        )
                                    }
                                }))
                                &&& (old(self)@.key_type == KeyType::UUID ==> (match r {
                                    Ok(op) => (match op {
                                        OperationResult::Inserted { id: rid, document: rdoc } => {
                                            &&& rid@.len() == 36
                                            &&& rdoc@ == vset(document@, kf, ValueView::Text(rid@))
                                            &&& final(self)@.docs == set_at(
                                                old(self)@.docs,
                                                rid@,
                                                (EntryView {
                                                    value: rdoc@,
                                                    expiration: resolve_expiration(ttl, now),
                                                }),
                                            )
                                        },
                                        _ => false,
                                    }),
                                    Err(e) => e == StoreError::DuplicateUniqueValue && final(self)@
                                        == old(self)@,
                                }))
                            })
                        }
                    },
                }),
                None => true,
            }),
    {
        let ghost dv = assoc_view(old(self).documents@);
        let kf = match &self.key_field {
            Some(k) => k.clone(),
            None => {
                return Err(StoreError::MissingKeyField);
            },
        };
        let id = match get_field(&document, kf.as_str()) {
            None => {
                return Err(StoreError::MissingKeyField);
            },
            Some(v) => match v {
                Value::Text(s) => s.clone(),
                _ => {
                    return Err(StoreError::InvalidKeyType);
                },
            },
        };
        match find_assoc(&self.documents, id.as_str()) {
            Some(i) => {
                proof {
                    lemma_idx_of_props(dv, id@);
                }
                let exp = expiration_from(ttl, now);
                let pair = self.documents.remove(i);
                let old_doc = pair.1.value;
                let new_entry = DocumentEntry { value: dup_value(&document), expiration: exp };
                self.documents.insert(i, (pair.0, new_entry));
                proof {
                    let ghost e = EntryView {
                        value: document@,
                        expiration: resolve_expiration(ttl, now),
                    };
                    assert(self.documents@ =~= old(self).documents@.update(
                        i as int,
                        (pair.0, new_entry),
                    ));
                    assert forall|j: int| 0 <= j < self.documents@.len() implies assoc_view(
                        self.documents@,
                    )[j] == set_at(dv, id@, e)[j] by {
                        assert(assoc_view(self.documents@)[j] == (self.documents@[j].0@,
                        self.documents@[j].1@));
                        if j != i {
                            assert(dv[j] == (old(self).documents@[j].0@,
                            old(self).documents@[j].1@));
                        }
                    }
                    assert(assoc_view(self.documents@) =~= set_at(dv, id@, e));
                    lemma_set_at_wf(dv, id@, e);
                }
                Ok(
                    OperationResult::Updated {
                        id,
                        old_document: old_doc,
                        new_document: document,
                    },
                )
            },
            None => self.insert(document, ttl, now),
        }
    }

    /// Removes the entry stored under `key` and reports what it held.
    /// Fails with `NotFound` when no entry has that identity.
    pub fn delete(&mut self, key: &str) -> (r: Result<OperationResult, StoreError>)
        requires
            old(self).wf(),
        ensures
            final(self).wf(),
            same_config(final(self)@, old(self)@),
            final(self)@.next_id == old(self)@.next_id,
            has_key(old(self)@.docs, key@) ==> (r matches Ok(op) && is_deleted_with(
                op,
                key@,
                value_at(old(self)@.docs, key@).value,
            ) && final(self)@.docs == remove_at(old(self)@.docs, key@)),
            !has_key(old(self)@.docs, key@) ==> r == Err::<OperationResult, StoreError>(
                StoreError::NotFound,
            ) && final(self)@ == old(self)@,
    {
        let ghost dv = assoc_view(old(self).documents@);
        match find_assoc(&self.documents, key) {
            Some(i) => {
                proof {
                    lemma_idx_of_props(dv, key@);
                }
                let pair = self.documents.remove(i);
                proof {
                    assert forall|j: int| 0 <= j < self.documents@.len() implies assoc_view(
                        self.documents@,
                    )[j] == remove_at(dv, key@)[j] by {
                        assert(assoc_view(self.documents@)[j] == (self.documents@[j].0@,
                        self.documents@[j].1@));
                        if j < i {
                            assert(dv[j] == (old(self).documents@[j].0@,
                            old(self).documents@[j].1@));
                        } else {
                            assert(dv[j + 1] == (old(self).documents@[j + 1].0@,
                            old(self).documents@[j + 1].1@));
                        }
                    }
                    assert(assoc_view(self.documents@) =~= remove_at(dv, key@));
                    lemma_remove_at_wf(dv, key@);
                }
                Ok(OperationResult::Deleted { id: key.to_owned(), document: pair.1.value })
            },
            None => Err(StoreError::NotFound),
        }
    }

    /// Direct lookup: a copy of the live document stored under `key`. An
    /// entry whose expiration has been reached at `now` is removed from
    /// storage and reported absent; this lazy eviction is the only place
    /// expiration is enforced, full scans see entries that have not been
    /// looked up.
    pub fn lookup(&mut self, key: &str, now: u64) -> (r: Option<Value>)
        requires
            old(self).wf(),
        ensures
            final(self).wf(),
            same_config(final(self)@, old(self)@),
            final(self)@.next_id == old(self)@.next_id,
            !has_key(old(self)@.docs, key@) ==> r is None && final(self)@ == old(self)@,
            has_key(old(self)@.docs, key@) && !is_expired(value_at(old(self)@.docs, key@), now)
                ==> (r matches Some(v) && v@ == value_at(old(self)@.docs, key@).value && final(
            self)@ == old(self)@),
            has_key(old(self)@.docs, key@) && is_expired(value_at(old(self)@.docs, key@), now) ==> r
                is None && final(self)@.docs == remove_at(old(self)@.docs, key@),
    {
        let ghost dv = assoc_view(old(self).documents@);
        match find_assoc(&self.documents, key) {
            None => None,
            Some(i) => {
                proof {
                    lemma_idx_of_props(dv, key@);
                    assert(dv[i as int] == (old(self).documents@[i as int].0@,
                    old(self).documents@[i as int].1@));
                }
                let expired = match self.documents[i].1.expiration {
                    Some(t) => t <= now,
                    None => false,
                };
                if expired {
                    let _removed = self.documents.remove(i);
                    proof {
                        assert forall|j: int| 0 <= j < self.documents@.len() implies assoc_view(
                            self.documents@,
                        )[j] == remove_at(dv, key@)[j] by {
                            assert(assoc_view(self.documents@)[j] == (self.documents@[j].0@,
                            self.documents@[j].1@));
                            if j < i {
                                assert(dv[j] == (old(self).documents@[j].0@,
                                old(self).documents@[j].1@));
                            } else {
                                assert(dv[j + 1] == (old(self).documents@[j + 1].0@,
                                old(self).documents@[j + 1].1@));
                            }
                        }
                        assert(assoc_view(self.documents@) =~= remove_at(dv, key@));
                        lemma_remove_at_wf(dv, key@);
                    }
                    None
                } else {
                    Some(dup_value(&self.documents[i].1.value))
                }
            },
        }
    }
}

/// Stores `val` under `key` in an association vector: in place when the key
/// is present, at the end of the order when it is not.
fn assoc_set<T: View>(v: &mut Vec<(String, T)>, key: String, val: T)
    ensures
        assoc_view(final(v)@) == set_at(assoc_view(old(v)@), key@, val@),
{
    let ghost dv = assoc_view(old(v)@);
    let ghost key_view = key@;
    let ghost val_view = val@;
    match find_assoc(v, key.as_str()) {
        Some(i) => {
            proof {
                lemma_idx_of_props(dv, key_view);
            }
            let pair = v.remove(i);
            v.insert(i, (pair.0, val));
            proof {
                assert(dv[i as int].0 == key_view);
                assert(dv[i as int].0 == old(v)@[i as int].0@);
                assert(v@ =~= old(v)@.update(i as int, (pair.0, v@[i as int].1)));
                assert forall|j: int| 0 <= j < v@.len() implies assoc_view(v@)[j] == set_at(
                    dv,
                    key_view,
                    val_view,
                )[j] by {
                    assert(assoc_view(v@)[j] == (v@[j].0@, v@[j].1@));
                    if j != i {
                        assert(dv[j] == (old(v)@[j].0@, old(v)@[j].1@));
                    }
                }
                assert(assoc_view(v@) =~= set_at(dv, key_view, val_view));
            }
        },
        None => {
            v.push((key, val));
            proof {
                assert(!has_key(dv, key_view));
                assert forall|j: int| 0 <= j < v@.len() implies assoc_view(v@)[j] == set_at(
                    dv,
                    key_view,
                    val_view,
                )[j] by {
                    assert(assoc_view(v@)[j] == (v@[j].0@, v@[j].1@));
                    if j < dv.len() {
                        assert(dv[j] == (old(v)@[j].0@, old(v)@[j].1@));
                    }
                }
                assert(assoc_view(v@) =~= set_at(dv, key_view, val_view));
            }
        },
    }
}

/// `base` after writing the fields of `fields` into it one by one, from
/// index `i` on.
pub open spec fn merge_from(
    base: ValueView,
    fields: Seq<(Seq<char>, ValueView)>,
    i: int,
) -> ValueView
    decreases fields.len() - i,
{
    if i < 0 || i >= fields.len() {
        base
    } else {
        merge_from(vset(base, fields[i].0, fields[i].1), fields, i + 1)
    }
}

/// `base` after writing every top-level field of `v` into it, in field
/// order; a non-object `v` writes nothing.
pub open spec fn merge_fields(base: ValueView, v: ValueView) -> ValueView {
    match v {
        ValueView::Obj(fields) => merge_from(base, fields, 0),
        _ => base,
    }
}

impl DocumentEntry {
    /// An entry holding `value` with the given expiration instant.
    pub fn new(value: Value, expiration: Option<u64>) -> (r: DocumentEntry)
        ensures
            r@ == (EntryView { value: value@, expiration }),
    {
        DocumentEntry { value, expiration }
    }

    /// Replaces the held value; the expiration stays.
    pub fn set(&mut self, value: Value)
        ensures
            final(self)@ == (EntryView { value: value@, expiration: old(self)@.expiration }),
    {
        self.value = value;
    }

    /// Writes each top-level field of `value` into the held value, in field
    /// order; other fields and the expiration stay.
    pub fn update(&mut self, value: Value)
        requires
            old(self)@.value is Obj || old(self)@.value is Null,
            value@ is Obj,
        ensures
            final(self)@.expiration == old(self)@.expiration,
            final(self)@.value == merge_fields(old(self)@.value, value@),
    {
        match value {
            Value::Obj(fields) => {
                proof {
                    crate::value::lemma_fields_view(fields@);
                }
                let ghost fv = crate::value::fields_view(fields@);
                let ghost base = old(self)@.value;
                let mut cur = Value::Null;
                core::mem::swap(&mut self.value, &mut cur);
                let n = fields.len();
                let mut i: usize = 0;
                while i < n
                    invariant
                        i <= n,
                        n == fields@.len(),
                        fv == crate::value::fields_view(fields@),
                        fv.len() == n,
                        forall|j: int| 0 <= j < n ==> fv[j] == (fields@[j].0@,
                        crate::value::value_view(fields@[j].1)),
                        cur@ is Obj || cur@ is Null,
                        merge_from(base, fv, 0) == merge_from(cur@, fv, i as int),
                        self.expiration == old(self).expiration,
                    decreases n - i,
                {
                    let name_ref = fields[i].0.as_str();
                    let fval = dup_value(&fields[i].1);
                    proof {
                        assert(fv[i as int] == (fields@[i as int].0@, crate::value::value_view(
                            fields@[i as int].1,
                        )));
                    }
                    cur = set_field(cur, name_ref, fval);
                    i += 1;
                }
                self.value = cur;
            },
            _ => {
                proof {
                    assert(false);
                }
            },
        }
    }
}

/// A prepared batch of storage entries, all keyed by one identity: feeding
/// several entries through it lands them on the same key, so at most the
/// last one stays.
pub struct Document {
    pub documents: Vec<(String, DocumentEntry)>,
}

impl Document {
    /// Stores each entry under `pkey` in turn; the last one stays.
    pub fn new(pkey: &str, documents: Vec<DocumentEntry>) -> (r: Document)
        ensures
            documents@.len() == 0 ==> r.documents@.len() == 0,
            documents@.len() > 0 ==> r.documents@.len() == 1 && r.documents@[0].0@ == pkey@
                && r.documents@[0].1@ == documents@[documents@.len() - 1]@,
    {
        let mut entries = documents;
        let mut keyed: Vec<(String, DocumentEntry)> = Vec::new();
        match entries.pop() {
            Some(e) => {
                keyed.push((pkey.to_owned(), e));
            },
            None => {},
        }
        Document { documents: keyed }
    }
}

impl Collection {
    /// Throws the stored documents away and takes the batch's entries as
    /// the new storage.
    pub fn reset_documents(&mut self, documents: Document)
        ensures
            final(self)@.docs == assoc_view(documents.documents@),
            same_config(final(self)@, old(self)@),
            final(self)@.next_id == old(self)@.next_id,
    {
        self.documents.clear();
        self.documents = documents.documents;
    }
}

/// Abstraction of a registry of named collections.
#[verifier::ext_equal]
pub struct DbView {
    pub name: Seq<char>,
    pub collections: Seq<(Seq<char>, CollectionView)>,
    pub default_ttl: TTL,
}

/// The name-to-collection registry, with the default time-to-live it was
/// declared with.
#[derive(Debug)]
pub struct InMemoryDB {
    pub name: String,
    pub collections: Vec<(String, Collection)>,
    pub default_ttl: TTL,
}

impl View for InMemoryDB {
    type V = DbView;

    open spec fn view(&self) -> DbView {
        DbView {
            name: self.name@,
            collections: assoc_view(self.collections@),
            default_ttl: self.default_ttl,
        }
    }
}

/// A copy of a string vector, character for character.
fn dup_strings(v: &Vec<String>) -> (r: Vec<String>)
    ensures
        r@.len() == v@.len(),
        forall|i: int| 0 <= i < v@.len() ==> r@[i]@ == v@[i]@,
{
    let n = v.len();
    let mut r: Vec<String> = Vec::new();
    let mut i: usize = 0;
    while i < n
        invariant
            i <= n,
            n == v@.len(),
            r@.len() == i,
            forall|j: int| 0 <= j < i ==> r@[j]@ == v@[j]@,
        decreases n - i,
    {
        r.push(v[i].clone());
        i += 1;
    }
    r
}

/// A deep copy of a collection, equal under the abstraction.
fn dup_collection(c: &Collection) -> (r: Collection)
    ensures
        r@ == c@,
{
    let n = c.documents.len();
    let mut documents: Vec<(String, DocumentEntry)> = Vec::new();
    let mut i: usize = 0;
    while i < n
        invariant
            i <= n,
            n == c.documents@.len(),
            documents@.len() == i,
            forall|j: int| 0 <= j < i ==> documents@[j].0@ == c.documents@[j].0@
                && documents@[j].1@ == c.documents@[j].1@,
        decreases n - i,
    {
        let key = c.documents[i].0.clone();
        let entry = DocumentEntry {
            value: dup_value(&c.documents[i].1.value),
            expiration: c.documents[i].1.expiration,
        };
        documents.push((key, entry));
        i += 1;
    }
    let key_field = match &c.key_field {
        Some(kf) => Some(kf.clone()),
        None => None,
    };
    let r = Collection {
        documents,
        key_field,
        key_type: c.key_type,
        unique_keys: dup_strings(&c.unique_keys),
        next_id: c.next_id,
        db_name: c.db_name.clone(),
        collection_name: c.collection_name.clone(),
    };
    proof {
        assert(assoc_view(r.documents@) =~= assoc_view(c.documents@));
        assert(Seq::new(r.unique_keys@.len(), |i: int| r.unique_keys@[i]@) =~= Seq::new(
            c.unique_keys@.len(),
            |i: int| c.unique_keys@[i]@,
        ));
        assert(r@ =~= c@);
    }
    r
}

impl InMemoryDB {
    /// An empty registry.
    pub fn new(name: &str, default_ttl: TTL) -> (r: InMemoryDB)
        ensures
            r@.name == name@,
            r@.collections == Seq::<(Seq<char>, CollectionView)>::empty(),
            r@.default_ttl == default_ttl,
    {
        let r = InMemoryDB { name: name.to_owned(), collections: Vec::new(), default_ttl };
        proof {
            assert(assoc_view(r.collections@) =~= Seq::<(Seq<char>, CollectionView)>::empty());
        }
        r
    }

    /// A builder for a collection to be registered here.
    pub fn create(&self) -> (r: CollectionBuilder)
        ensures
            r.name@.len() == 0,
            r.key_field is None,
            r.key_type == KeyType::UUID,
            r.unique_keys@.len() == 0,
    {
        CollectionBuilder::new()
    }

    /// A copy of the collection registered under `name`, if any.
    pub fn get(&self, name: &str) -> (r: Option<Collection>)
        ensures
            has_key(self@.collections, name@) ==> (r matches Some(c) && c@ == value_at(
                self@.collections,
                name@,
            )),
            !has_key(self@.collections, name@) ==> r is None,
    {
        let ghost cv = assoc_view(self.collections@);
        match find_assoc(&self.collections, name) {
            Some(i) => {
                proof {
                    lemma_idx_of_props(cv, name@);
                    assert(cv[i as int] == (self.collections@[i as int].0@,
                    self.collections@[i as int].1@));
                }
                Some(dup_collection(&self.collections[i].1))
            },
            None => None,
        }
    }

    /// The registered collection names, in registration order.
    pub fn collection_names(&self) -> (r: Vec<String>)
        ensures
            r@.len() == self@.collections.len(),
            forall|i: int| 0 <= i < r@.len() ==> r@[i]@ == self@.collections[i].0,
    {
        let n = self.collections.len();
        let mut r: Vec<String> = Vec::new();
        let mut i: usize = 0;
        while i < n
            invariant
                i <= n,
                n == self.collections@.len(),
                r@.len() == i,
                forall|j: int| 0 <= j < i ==> r@[j]@ == self.collections@[j].0@,
            decreases n - i,
        {
            r.push(self.collections[i].0.clone());
            i += 1;
        }
        proof {
            assert forall|i: int| 0 <= i < r@.len() implies r@[i]@ == self@.collections[i].0 by {
                assert(self@.collections[i] == (self.collections@[i].0@,
                self.collections@[i].1@));
            }
        }
        r
    }
}

/// Accumulates the declarations for one collection and registers it.
#[derive(Debug)]
pub struct CollectionBuilder {
    pub name: String,
    pub key_field: Option<String>,
    pub key_type: KeyType,
    pub unique_keys: Vec<String>,
}

impl CollectionBuilder {
    /// A builder with nothing declared; the identity strategy starts as
    /// `UUID`.
    pub fn new() -> (r: CollectionBuilder)
        ensures
            r.name@.len() == 0,
            r.key_field is None,
            r.key_type == KeyType::UUID,
            r.unique_keys@.len() == 0,
    {
        CollectionBuilder {
            name: String::new(),
            key_field: None,
            key_type: KeyType::UUID,
            unique_keys: Vec::new(),
        }
    }

    /// Sets the collection name.
    pub fn name(self, name: &str) -> (r: CollectionBuilder)
        ensures
            r.name@ == name@,
            r.key_field == self.key_field,
            r.key_type == self.key_type,
            r.unique_keys == self.unique_keys,
    {
        CollectionBuilder { name: name.to_owned(), ..self }
    }

    /// Sets the key field.
    pub fn key(self, key_field: &str) -> (r: CollectionBuilder)
        ensures
            r.name == self.name,
            r.key_field matches Some(kf) && kf@ == key_field@,
            r.key_type == self.key_type,
            r.unique_keys == self.unique_keys,
    {
        CollectionBuilder { key_field: Some(key_field.to_owned()), ..self }
    }

    /// Sets the identity strategy.
    pub fn key_type(self, key_type: KeyType) -> (r: CollectionBuilder)
        ensures
            r == (CollectionBuilder { key_type, ..self }),
    {
        CollectionBuilder { key_type, ..self }
    }

    /// Sets the unique fields.
    pub fn unique_keys(self, keys: Vec<&str>) -> (r: CollectionBuilder)
        ensures
            r.name == self.name,
            r.key_field == self.key_field,
            r.key_type == self.key_type,
            r.unique_keys@.len() == keys@.len(),
            forall|i: int| 0 <= i < keys@.len() ==> r.unique_keys@[i]@ == keys@[i]@,
    {
        let n = keys.len();
        let mut owned: Vec<String> = Vec::new();
        let mut i: usize = 0;
        while i < n
            invariant
                i <= n,
                n == keys@.len(),
                owned@.len() == i,
                forall|j: int| 0 <= j < i ==> owned@[j]@ == keys@[j]@,
            decreases n - i,
        {
            owned.push(keys[i].to_owned());
            i += 1;
        }
        CollectionBuilder { unique_keys: owned, ..self }
    }

    /// Builds the collection, registers it in `db` under the builder's
    /// name, and hands it back.
    pub fn build(self, db: &mut InMemoryDB) -> (r: Collection)
        ensures
            r@.docs == Seq::<(Seq<char>, EntryView)>::empty(),
            r@.key_field == (match self.key_field {
                Some(kf) => Some(kf@),
                None => None::<Seq<char>>,
            }),
            r@.key_type == self.key_type,
            r@.unique_keys.len() == self.unique_keys@.len(),
            forall|i: int| 0 <= i < self.unique_keys@.len() ==> r@.unique_keys[i]
                == self.unique_keys@[i]@,
            r@.next_id == 0,
            r@.db_name == old(db)@.name,
            r@.collection_name == self.name@,
            r.wf(),
            final(db)@.name == old(db)@.name,
            final(db)@.default_ttl == old(db)@.default_ttl,
            final(db)@.collections == set_at(old(db)@.collections, self.name@, r@),
    {
        let key_field2 = match &self.key_field {
            Some(kf) => Some(kf.clone()),
            None => None,
        };
        let registered = Collection::new(
            db.name.clone(),
            self.name.clone(),
            key_field2,
            self.key_type,
            dup_strings(&self.unique_keys),
        );
        let returned = Collection::new(
            db.name.clone(),
            self.name.clone(),
            self.key_field,
            self.key_type,
            self.unique_keys,
        );
        proof {
            assert(registered@.unique_keys =~= returned@.unique_keys);
            assert(registered@ =~= returned@);
        }
        assoc_set(&mut db.collections, self.name, registered);
        returned
    }
}

} // verus!
