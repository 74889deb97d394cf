use docstore::config::CollectionConfig;
use docstore::config::KeyType;
use docstore::config::TTL;
use docstore::db::InMemoryDB;
use docstore::error::StoreError;
use docstore::ids::u64_to_dec;
use docstore::value::dup_value;
use docstore::value::value_eq;
use docstore::value::Value;

fn r_text(s: &str) -> Value {
    Value::Text(s.to_string())
}

fn r_doc(pairs: Vec<(&str, Value)>) -> Value {
    Value::Obj(pairs.into_iter().map(|(k, v)| (k.to_string(), v)).collect())
}

#[test]
fn config_accumulates_declarations() {
    let c = CollectionConfig::new()
        .key("id")
        .key_type(KeyType::Increment)
        .unique_keys(vec!["email"])
        .not_null(vec!["name"])
        .nullable(vec!["nick"])
        .field_types(vec![("id", "string"), ("name", "string")])
        .ttl(TTL::GlobalTTL(60));
    assert_eq!(c.key_field, Some("id"));
    assert_eq!(c.key_type, Some(KeyType::Increment));
    assert_eq!(c.unique_keys, vec!["email"]);
    assert_eq!(c.not_null_fields, vec!["name"]);
    assert_eq!(c.nullable_fields, vec!["nick"]);
    assert_eq!(c.field_types, vec![("id", "string"), ("name", "string")]);
    assert_eq!(c.ttl, Some(TTL::GlobalTTL(60)));
    assert!(c.validate().is_ok());
}

#[test]
fn config_rejects_custom_strategy_without_key() {
    let c = CollectionConfig::new().key_type(KeyType::CustomField);
    assert_eq!(c.validate().unwrap_err(), StoreError::ConfigValidation);
}

#[test]
fn config_rejects_undeclared_key_field() {
    let c = CollectionConfig::new()
        .key("id")
        .field_types(vec![("name", "string")]);
    assert_eq!(c.validate().unwrap_err(), StoreError::ConfigValidation);
}

#[test]
fn config_rejects_field_both_not_null_and_nullable() {
    let c = CollectionConfig::new()
        .not_null(vec!["a", "b"])
        .nullable(vec!["c", "b"]);
    assert_eq!(c.validate().unwrap_err(), StoreError::ConfigValidation);
}

#[test]
fn config_with_nothing_declared_validates() {
    assert!(CollectionConfig::new().validate().is_ok());
}

#[test]
fn registry_builds_registers_and_hands_out_collections() {
    let mut db = InMemoryDB::new("main", TTL::NoTTL);
    let mut users = db
        .create()
        .name("users")
        .key("id")
        .key_type(KeyType::Increment)
        .unique_keys(vec!["email"])
        .build(&mut db);
    assert_eq!(users.collection_name, "users");
    assert_eq!(users.db_name, "main");
    assert_eq!(users.key_field, Some("id".to_string()));
    assert_eq!(users.key_type, KeyType::Increment);
    assert_eq!(users.unique_keys, vec!["email".to_string()]);

    users
        .insert(r_doc(vec![("email", r_text("a@x"))]), None, 0)
        .unwrap();

    assert!(db.get("users").is_some());
    assert!(db.get("nope").is_none());
    assert_eq!(db.collection_names(), vec!["users".to_string()]);

    db.create().name("orders").key("id").build(&mut db);
    assert_eq!(
        db.collection_names(),
        vec!["users".to_string(), "orders".to_string()]
    );
}

#[test]
fn registry_get_returns_a_copy_of_registered_state() {
    let mut db = InMemoryDB::new("main", TTL::NoTTL);
    db.create()
        .name("c")
        .key("id")
        .key_type(KeyType::StringField)
        .build(&mut db);
    // The registered collection was empty at build time.
    let copy = db.get("c").unwrap();
    assert_eq!(copy.documents.len(), 0);
    assert_eq!(copy.key_type, KeyType::StringField);
}

#[test]
fn deep_value_equality() {
    let a = r_doc(vec![
        ("n", Value::Int(1)),
        ("arr", Value::Arr(vec![Value::Bool(true), Value::Null])),
        ("nested", r_doc(vec![("x", r_text("y"))])),
    ]);
    let b = r_doc(vec![
        ("n", Value::Int(1)),
        ("arr", Value::Arr(vec![Value::Bool(true), Value::Null])),
        ("nested", r_doc(vec![("x", r_text("y"))])),
    ]);
    assert!(value_eq(&a, &b));
    let c = r_doc(vec![
        ("n", Value::Int(1)),
        ("arr", Value::Arr(vec![Value::Bool(false), Value::Null])),
        ("nested", r_doc(vec![("x", r_text("y"))])),
    ]);
    assert!(!value_eq(&a, &c));
    assert!(!value_eq(&a, &r_text("y")));
}

#[test]
fn dup_value_makes_an_equal_copy() {
    let a = r_doc(vec![
        ("n", Value::Int(1)),
        ("nested", r_doc(vec![("x", r_text("y"))])),
    ]);
    let b = dup_value(&a);
    assert!(value_eq(&a, &b));
    assert_eq!(a, b);
}

#[test]
fn event_kinds_carry_their_column() {
    let e = docstore::subscription::EventType::ColumnUpdate("age");
    match e {
        docstore::subscription::EventType::ColumnUpdate(col) => assert_eq!(col, "age"),
        _ => panic!("wrong kind"),
    }
}

#[test]
fn decimal_form_of_counters() {
    assert_eq!(u64_to_dec(0), "0");
    assert_eq!(u64_to_dec(7), "7");
    assert_eq!(u64_to_dec(42), "42");
    assert_eq!(u64_to_dec(1234567890), "1234567890");
    assert_eq!(u64_to_dec(u64::MAX), "18446744073709551615");
}
