use docstore::config::KeyType;
use docstore::config::TTL;
use docstore::db::Collection;
use docstore::db::Document;
use docstore::db::DocumentEntry;
use docstore::db::OperationResult;
use docstore::error::StoreError;
use docstore::value::Value;
use docstore::value::value_eq;

fn c_text(s: &str) -> Value {
    Value::Text(s.to_string())
}

fn c_doc(pairs: Vec<(&str, Value)>) -> Value {
    Value::Obj(pairs.into_iter().map(|(k, v)| (k.to_string(), v)).collect())
}

fn c_coll(key_type: KeyType, uniques: Vec<&str>) -> Collection {
    Collection::new(
        "db".to_string(),
        "things".to_string(),
        Some("id".to_string()),
        key_type,
        uniques.iter().map(|s| s.to_string()).collect(),
    )
}

fn c_inserted_id(r: Result<OperationResult, StoreError>) -> String {
    match r.unwrap() {
        OperationResult::Inserted { id, .. } => id,
        other => panic!("expected Inserted, got {:?}", other),
    }
}

#[test]
fn increment_identities_strictly_increase() {
    let mut c = c_coll(KeyType::Increment, vec![]);
    let mut ids: Vec<u64> = Vec::new();
    for n in 0..5 {
        let r = c.insert(c_doc(vec![("n", Value::Int(n))]), None, 0);
        ids.push(c_inserted_id(r).parse::<u64>().unwrap());
    }
    assert_eq!(ids, vec![0, 1, 2, 3, 4]);
    for w in ids.windows(2) {
        assert!(w[0] < w[1]);
    }
}

#[test]
fn increment_identity_stamped_into_document() {
    let mut c = c_coll(KeyType::Increment, vec![]);
    let r = c.insert(c_doc(vec![("n", Value::Int(7))]), None, 0).unwrap();
    match r {
        OperationResult::Inserted { id, document } => {
            assert_eq!(id, "0");
            assert_eq!(
                document,
                c_doc(vec![("n", Value::Int(7)), ("id", c_text("0"))])
            );
        }
        other => panic!("expected Inserted, got {:?}", other),
    }
}

#[test]
fn increment_identity_consumed_even_on_duplicate() {
    let mut c = c_coll(KeyType::Increment, vec!["email"]);
    let a = c.insert(c_doc(vec![("email", c_text("x@y"))]), None, 0);
    assert_eq!(c_inserted_id(a), "0");
    let dup = c.insert(c_doc(vec![("email", c_text("x@y"))]), None, 0);
    assert_eq!(dup.unwrap_err(), StoreError::DuplicateUniqueValue);
    let b = c.insert(c_doc(vec![("email", c_text("z@y"))]), None, 0);
    assert_eq!(c_inserted_id(b), "2");
}

#[test]
fn uuid_identities_do_not_repeat() {
    let mut c = c_coll(KeyType::UUID, vec![]);
    let a = c_inserted_id(c.insert(c_doc(vec![("n", Value::Int(1))]), None, 0));
    let b = c_inserted_id(c.insert(c_doc(vec![("n", Value::Int(2))]), None, 0));
    assert_eq!(a.len(), 36);
    assert_eq!(b.len(), 36);
    assert_ne!(a, b);
    assert_eq!(c.documents.len(), 2);
}

#[test]
fn duplicate_unique_value_refused() {
    let mut c = c_coll(KeyType::Increment, vec!["email"]);
    let first = c.insert(
        c_doc(vec![("name", c_text("a")), ("email", c_text("a@x"))]),
        None,
        0,
    );
    assert!(first.is_ok());
    let second = c.insert(
        c_doc(vec![("name", c_text("b")), ("email", c_text("a@x"))]),
        None,
        0,
    );
    assert_eq!(second.unwrap_err(), StoreError::DuplicateUniqueValue);
    let third = c.insert(
        c_doc(vec![("name", c_text("b")), ("email", c_text("b@x"))]),
        None,
        0,
    );
    assert!(third.is_ok());
    assert_eq!(c.documents.len(), 2);
}

#[test]
fn unique_check_ignores_expired_entries() {
    let mut c = c_coll(KeyType::Increment, vec!["email"]);
    c.insert(
        c_doc(vec![("email", c_text("a@x"))]),
        Some(TTL::CustomTTL(10)),
        100,
    )
    .unwrap();
    // At 110 the first entry's expiration has been reached.
    let again = c.insert(c_doc(vec![("email", c_text("a@x"))]), None, 110);
    assert!(again.is_ok());
}

#[test]
fn upsert_existing_updates_and_keeps_identity() {
    let mut c = c_coll(KeyType::StringField, vec![]);
    c.insert(c_doc(vec![("id", c_text("k1")), ("v", Value::Int(1))]), None, 0)
        .unwrap();
    let r = c
        .upsert(c_doc(vec![("id", c_text("k1")), ("v", Value::Int(2))]), None, 0)
        .unwrap();
    match r {
        OperationResult::Updated {
            id,
            old_document,
            new_document,
        } => {
            assert_eq!(id, "k1");
            assert_eq!(old_document, c_doc(vec![("id", c_text("k1")), ("v", Value::Int(1))]));
            assert_eq!(new_document, c_doc(vec![("id", c_text("k1")), ("v", Value::Int(2))]));
        }
        other => panic!("expected Updated, got {:?}", other),
    }
    assert_eq!(c.documents.len(), 1);
}

#[test]
fn upsert_new_identity_inserts() {
    let mut c = c_coll(KeyType::StringField, vec![]);
    let r = c
        .upsert(c_doc(vec![("id", c_text("k9")), ("v", Value::Int(3))]), None, 0)
        .unwrap();
    assert!(matches!(r, OperationResult::Inserted { .. }));
    assert_eq!(c.documents.len(), 1);
}

#[test]
fn update_never_alters_expiration() {
    let mut c = c_coll(KeyType::StringField, vec![]);
    c.insert(
        c_doc(vec![("id", c_text("k")), ("v", Value::Int(1))]),
        Some(TTL::GlobalTTL(10)),
        100,
    )
    .unwrap();
    assert_eq!(c.documents[0].1.expiration, Some(110));
    c.update(c_doc(vec![("id", c_text("k")), ("v", Value::Int(2))]))
        .unwrap();
    assert_eq!(c.documents[0].1.expiration, Some(110));
    assert_eq!(
        c.documents[0].1.value,
        c_doc(vec![("id", c_text("k")), ("v", Value::Int(2))])
    );
}

#[test]
fn upsert_with_ttl_always_overwrites_expiration() {
    let mut c = c_coll(KeyType::StringField, vec![]);
    c.insert(
        c_doc(vec![("id", c_text("k"))]),
        Some(TTL::GlobalTTL(10)),
        100,
    )
    .unwrap();
    assert_eq!(c.documents[0].1.expiration, Some(110));
    c.upsert(
        c_doc(vec![("id", c_text("k"))]),
        Some(TTL::CustomTTL(50)),
        100,
    )
    .unwrap();
    assert_eq!(c.documents[0].1.expiration, Some(150));
    // An upsert without a time-to-live clears it.
    c.upsert(c_doc(vec![("id", c_text("k"))]), None, 100).unwrap();
    assert_eq!(c.documents[0].1.expiration, None);
}

#[test]
fn lookup_returns_live_document() {
    let mut c = c_coll(KeyType::StringField, vec![]);
    c.insert(
        c_doc(vec![("id", c_text("k")), ("v", Value::Int(5))]),
        Some(TTL::CustomTTL(10)),
        100,
    )
    .unwrap();
    let got = c.lookup("k", 105).unwrap();
    assert!(value_eq(
        &got,
        &c_doc(vec![("id", c_text("k")), ("v", Value::Int(5))])
    ));
    assert_eq!(c.documents.len(), 1);
}

#[test]
fn lookup_of_expired_entry_is_absent_and_evicts() {
    let mut c = c_coll(KeyType::StringField, vec![]);
    c.insert(
        c_doc(vec![("id", c_text("k"))]),
        Some(TTL::CustomTTL(10)),
        100,
    )
    .unwrap();
    // The expiration instant itself counts as passed.
    assert!(c.lookup("k", 110).is_none());
    assert_eq!(c.documents.len(), 0);
    assert!(c.lookup("k", 0).is_none());
}

#[test]
fn eviction_keeps_the_order_of_the_rest() {
    let mut c = c_coll(KeyType::StringField, vec![]);
    c.insert(c_doc(vec![("id", c_text("a"))]), None, 0).unwrap();
    c.insert(
        c_doc(vec![("id", c_text("b"))]),
        Some(TTL::CustomTTL(5)),
        0,
    )
    .unwrap();
    c.insert(c_doc(vec![("id", c_text("c"))]), None, 0).unwrap();
    assert!(c.lookup("b", 10).is_none());
    assert_eq!(c.documents.len(), 2);
    assert_eq!(c.documents[0].0, "a");
    assert_eq!(c.documents[1].0, "c");
}

#[test]
fn entry_without_ttl_never_expires() {
    let mut c = c_coll(KeyType::StringField, vec![]);
    c.insert(c_doc(vec![("id", c_text("k"))]), None, 0).unwrap();
    assert!(c.lookup("k", u64::MAX).is_some());
    c.insert(
        c_doc(vec![("id", c_text("m"))]),
        Some(TTL::NoTTL),
        0,
    )
    .unwrap();
    assert!(c.lookup("m", u64::MAX).is_some());
}

#[test]
fn missing_key_field_reported() {
    let mut no_field = Collection::new(
        "db".to_string(),
        "c".to_string(),
        None,
        KeyType::Increment,
        vec![],
    );
    let r = no_field.insert(c_doc(vec![("v", Value::Int(1))]), None, 0);
    assert_eq!(r.unwrap_err(), StoreError::MissingKeyField);

    let mut c = c_coll(KeyType::StringField, vec![]);
    let r = c.insert(c_doc(vec![("v", Value::Int(1))]), None, 0);
    assert_eq!(r.unwrap_err(), StoreError::MissingKeyField);
}

#[test]
fn non_string_key_field_reported() {
    let mut c = c_coll(KeyType::CustomField, vec![]);
    let r = c.insert(c_doc(vec![("id", Value::Int(3))]), None, 0);
    assert_eq!(r.unwrap_err(), StoreError::InvalidKeyType);
    let r = c.update(c_doc(vec![("id", Value::Bool(true))]));
    assert_eq!(r.unwrap_err(), StoreError::InvalidKeyType);
}

#[test]
fn update_and_delete_of_absent_identity_fail() {
    let mut c = c_coll(KeyType::StringField, vec![]);
    let r = c.update(c_doc(vec![("id", c_text("nope"))]));
    assert_eq!(r.unwrap_err(), StoreError::NotFound);
    let r = c.delete("nope");
    assert_eq!(r.unwrap_err(), StoreError::NotFound);
}

#[test]
fn delete_reports_the_removed_document() {
    let mut c = c_coll(KeyType::StringField, vec![]);
    c.insert(c_doc(vec![("id", c_text("k")), ("v", Value::Int(9))]), None, 0)
        .unwrap();
    let r = c.delete("k").unwrap();
    match r {
        OperationResult::Deleted { id, document } => {
            assert_eq!(id, "k");
            assert_eq!(document, c_doc(vec![("id", c_text("k")), ("v", Value::Int(9))]));
        }
        other => panic!("expected Deleted, got {:?}", other),
    }
    assert_eq!(c.documents.len(), 0);
}

#[test]
fn string_strategy_insert_overwrites_existing_identity() {
    let mut c = c_coll(KeyType::StringField, vec![]);
    c.insert(c_doc(vec![("id", c_text("k")), ("v", Value::Int(1))]), None, 0)
        .unwrap();
    c.insert(c_doc(vec![("id", c_text("other"))]), None, 0).unwrap();
    // A second insert under the same identity silently replaces the entry
    // and keeps its position in the order.
    c.insert(c_doc(vec![("id", c_text("k")), ("v", Value::Int(2))]), None, 0)
        .unwrap();
    assert_eq!(c.documents.len(), 2);
    assert_eq!(c.documents[0].0, "k");
    assert_eq!(
        c.documents[0].1.value,
        c_doc(vec![("id", c_text("k")), ("v", Value::Int(2))])
    );
}

#[test]
fn document_entry_set_and_merge() {
    let mut e = DocumentEntry::new(c_doc(vec![("a", Value::Int(1))]), Some(7));
    e.set(c_doc(vec![("b", Value::Int(2))]));
    assert_eq!(e.expiration, Some(7));
    assert_eq!(e.value, c_doc(vec![("b", Value::Int(2))]));
    e.update(c_doc(vec![("b", Value::Int(3)), ("c", c_text("x"))]));
    assert_eq!(e.expiration, Some(7));
    assert_eq!(
        e.value,
        c_doc(vec![("b", Value::Int(3)), ("c", c_text("x"))])
    );
}

#[test]
fn document_batch_keeps_only_the_last_entry() {
    let entries = vec![
        DocumentEntry::new(c_doc(vec![("v", Value::Int(1))]), None),
        DocumentEntry::new(c_doc(vec![("v", Value::Int(2))]), None),
    ];
    let d = Document::new("pk", entries);
    assert_eq!(d.documents.len(), 1);
    assert_eq!(d.documents[0].0, "pk");
    assert_eq!(d.documents[0].1.value, c_doc(vec![("v", Value::Int(2))]));

    let empty = Document::new("pk", vec![]);
    assert_eq!(empty.documents.len(), 0);
}

#[test]
fn reset_documents_replaces_storage() {
    let mut c = c_coll(KeyType::StringField, vec![]);
    c.insert(c_doc(vec![("id", c_text("k"))]), None, 0).unwrap();
    let batch = Document::new(
        "pk",
        vec![DocumentEntry::new(c_doc(vec![("v", Value::Int(1))]), None)],
    );
    c.reset_documents(batch);
    assert_eq!(c.documents.len(), 1);
    assert_eq!(c.documents[0].0, "pk");
}
