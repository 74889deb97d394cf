use docstore::config::KeyType;
use docstore::config::TTL;
use docstore::db::Collection;
use docstore::query::Filter;
use docstore::query::JoinBuilder;
use docstore::query::Transform;
use docstore::value::Value;

fn q_text(s: &str) -> Value {
    Value::Text(s.to_string())
}

fn q_doc(pairs: Vec<(&str, Value)>) -> Value {
    Value::Obj(pairs.into_iter().map(|(k, v)| (k.to_string(), v)).collect())
}

fn q_coll(name: &str) -> Collection {
    Collection::new(
        "db".to_string(),
        name.to_string(),
        Some("id".to_string()),
        KeyType::StringField,
        vec![],
    )
}

fn q_get<'a>(doc: &'a Value, field: &str) -> &'a Value {
    match doc {
        Value::Obj(fields) => fields
            .iter()
            .find(|(k, _)| k == field)
            .map(|(_, v)| v)
            .unwrap_or_else(|| panic!("field {} missing in {:?}", field, doc)),
        other => panic!("not an object: {:?}", other),
    }
}

fn q_has(doc: &Value, field: &str) -> bool {
    match doc {
        Value::Obj(fields) => fields.iter().any(|(k, _)| k == field),
        _ => false,
    }
}

fn q_people() -> Collection {
    let mut c = Collection::new(
        "db".to_string(),
        "people".to_string(),
        Some("id".to_string()),
        KeyType::Increment,
        vec![],
    );
    for (name, age) in [
        ("a", 30),
        ("b", 25),
        ("c", 35),
        ("d", 28),
        ("e", 32),
    ] {
        c.insert(
            q_doc(vec![("name", q_text(name)), ("age", Value::Int(age))]),
            None,
            0,
        )
        .unwrap();
    }
    c
}

#[test]
fn projection_of_selected_fields() {
    let mut c = q_coll("p");
    c.insert(
        q_doc(vec![
            ("id", q_text("bob")),
            ("name", q_text("Bob")),
            ("age", Value::Int(25)),
            ("score", Value::Int(92)),
        ]),
        None,
        0,
    )
    .unwrap();
    let out = c.select("name,age").execute(0).unwrap();
    assert_eq!(out.len(), 1);
    assert_eq!(
        out[0],
        q_doc(vec![("name", q_text("Bob")), ("age", Value::Int(25))])
    );
}

#[test]
fn projection_with_empty_selection_returns_full_document() {
    let mut c = q_coll("p");
    let full = q_doc(vec![
        ("id", q_text("bob")),
        ("name", q_text("Bob")),
        ("age", Value::Int(25)),
    ]);
    c.insert(full, None, 0).unwrap();
    for spec in ["*", "", " "] {
        let out = c.select(spec).execute(0).unwrap();
        assert_eq!(out.len(), 1);
        assert_eq!(
            out[0],
            q_doc(vec![
                ("id", q_text("bob")),
                ("name", q_text("Bob")),
                ("age", Value::Int(25)),
            ])
        );
    }
}

#[test]
fn projection_silently_omits_missing_fields() {
    let mut c = q_coll("p");
    c.insert(
        q_doc(vec![("id", q_text("x")), ("name", q_text("N"))]),
        None,
        0,
    )
    .unwrap();
    let out = c.select("name,age").execute(0).unwrap();
    assert_eq!(out[0], q_doc(vec![("name", q_text("N"))]));
}

#[test]
fn scan_returns_matches_in_insertion_order() {
    let c = q_people();
    // Greater-or-equal keeps the boundary age too, all in insertion order.
    let out = c.select("*").gte("age", 28).execute(0).unwrap();
    let ages: Vec<&Value> = out.iter().map(|d| q_get(d, "age")).collect();
    assert_eq!(
        ages,
        vec![&Value::Int(30), &Value::Int(35), &Value::Int(28), &Value::Int(32)]
    );
    // The three documents strictly above 28 come back in insertion order.
    let out = c.select("*").gt("age", 28).execute(0).unwrap();
    let ages: Vec<&Value> = out.iter().map(|d| q_get(d, "age")).collect();
    assert_eq!(
        ages,
        vec![&Value::Int(30), &Value::Int(35), &Value::Int(32)]
    );
    assert_eq!(out.len(), 3);
}

#[test]
fn comparison_filters() {
    let c = q_people();
    assert_eq!(c.select("*").gt("age", 30).execute(0).unwrap().len(), 2);
    assert_eq!(c.select("*").lt("age", 30).execute(0).unwrap().len(), 2);
    assert_eq!(c.select("*").lte("age", 30).execute(0).unwrap().len(), 3);
    assert_eq!(
        c.select("*").gte("age", 28).lte("age", 32).execute(0).unwrap().len(),
        3
    );
    // A comparison on a non-integer field never matches.
    assert_eq!(c.select("*").gt("name", 0).execute(0).unwrap().len(), 0);
}

#[test]
fn equality_and_membership_filters() {
    let c = q_people();
    let out = c.select("*").eq("name", q_text("c")).execute(0).unwrap();
    assert_eq!(out.len(), 1);
    assert_eq!(q_get(&out[0], "age"), &Value::Int(35));

    let out = c.select("*").neq("name", q_text("c")).execute(0).unwrap();
    assert_eq!(out.len(), 4);

    let out = c
        .select("*")
        .in_("age", vec![Value::Int(25), Value::Int(28), Value::Int(99)])
        .execute(0)
        .unwrap();
    assert_eq!(out.len(), 2);
}

#[test]
fn composed_filters() {
    let c = q_people();
    let out = c
        .select("*")
        .filter(Filter::Not(Box::new(Filter::GreaterOrEqual(
            "age".to_string(),
            28,
        ))))
        .execute(0)
        .unwrap();
    assert_eq!(out.len(), 1);
    assert_eq!(q_get(&out[0], "age"), &Value::Int(25));

    let out = c
        .select("*")
        .filter(Filter::AnyOf(vec![
            Filter::Equals("name".to_string(), q_text("a")),
            Filter::Equals("name".to_string(), q_text("b")),
        ]))
        .execute(0)
        .unwrap();
    assert_eq!(out.len(), 2);

    let out = c
        .select("*")
        .filter(Filter::AllOf(vec![
            Filter::GreaterThan("age".to_string(), 26),
            Filter::LessThan("age".to_string(), 33),
        ]))
        .execute(0)
        .unwrap();
    assert_eq!(out.len(), 3);
}

#[test]
fn execute_returns_ok_on_empty_result() {
    let c = q_people();
    let out = c.select("*").eq("name", q_text("zz")).execute(0).unwrap();
    assert!(out.is_empty());
}

#[test]
fn scans_still_see_expired_entries() {
    let mut c = q_coll("p");
    c.insert(
        q_doc(vec![("id", q_text("k"))]),
        Some(TTL::CustomTTL(10)),
        100,
    )
    .unwrap();
    // Expiration is enforced only on direct lookup, never during a scan.
    let out = c.select("*").execute(1000).unwrap();
    assert_eq!(out.len(), 1);
}

#[test]
fn query_join_attaches_fields_from_one_matching_target() {
    let mut orders = q_coll("orders");
    orders
        .insert(
            q_doc(vec![("id", q_text("o1")), ("user_id", q_text("1"))]),
            None,
            0,
        )
        .unwrap();
    let mut users = Collection::new(
        "db".to_string(),
        "users".to_string(),
        Some("id".to_string()),
        KeyType::Increment,
        vec![],
    );
    users
        .insert(
            q_doc(vec![("user_id", q_text("1")), ("name", q_text("Alice"))]),
            None,
            0,
        )
        .unwrap();
    users
        .insert(
            q_doc(vec![("user_id", q_text("2")), ("name", q_text("Bea"))]),
            None,
            0,
        )
        .unwrap();
    let out = orders
        .select("*")
        .join("user_id", "user_id", &users)
        .execute(0)
        .unwrap();
    assert_eq!(out.len(), 1);
    assert_eq!(q_get(&out[0], "joined_name"), &q_text("Alice"));
    assert_eq!(q_get(&out[0], "joined_user_id"), &q_text("1"));
    assert_eq!(q_get(&out[0], "user_id"), &q_text("1"));
}

#[test]
fn join_takes_the_first_of_several_matching_targets() {
    let mut src = q_coll("src");
    src.insert(
        q_doc(vec![("id", q_text("s")), ("k", q_text("1"))]),
        None,
        0,
    )
    .unwrap();
    let mut tgt = Collection::new(
        "db".to_string(),
        "tgt".to_string(),
        Some("id".to_string()),
        KeyType::Increment,
        vec![],
    );
    tgt.insert(q_doc(vec![("k", q_text("1")), ("tag", q_text("A"))]), None, 0)
        .unwrap();
    tgt.insert(q_doc(vec![("k", q_text("1")), ("tag", q_text("B"))]), None, 0)
        .unwrap();
    let out = src.select("*").join("k", "k", &tgt).execute(0).unwrap();
    assert_eq!(out.len(), 1);
    // Exactly one target row's fields are attached: the first encountered.
    assert_eq!(q_get(&out[0], "joined_tag"), &q_text("A"));
}

#[test]
fn join_builder_selection_and_null_fill() {
    let mut src = q_coll("src");
    src.insert(
        q_doc(vec![("id", q_text("s1")), ("k", q_text("1"))]),
        None,
        0,
    )
    .unwrap();
    src.insert(
        q_doc(vec![("id", q_text("s2")), ("k", q_text("9"))]),
        None,
        0,
    )
    .unwrap();
    let mut tgt = q_coll("tgt");
    tgt.insert(
        q_doc(vec![
            ("id", q_text("t1")),
            ("k", q_text("1")),
            ("name", q_text("N")),
            ("extra", Value::Int(5)),
        ]),
        None,
        0,
    )
    .unwrap();
    let out = JoinBuilder::new(&src, &tgt)
        .select(" name , k ")
        .on("k", "k")
        .execute(0);
    assert_eq!(out.len(), 2);
    // The matching source row gets only the selected target fields.
    assert_eq!(q_get(&out[0], "joined_name"), &q_text("N"));
    assert_eq!(q_get(&out[0], "joined_k"), &q_text("1"));
    assert!(!q_has(&out[0], "joined_extra"));
    // The row without a match gets the selection filled with nulls.
    assert_eq!(q_get(&out[1], "joined_name"), &Value::Null);
    assert_eq!(q_get(&out[1], "joined_k"), &Value::Null);
}

#[test]
fn join_builder_without_selection_adds_nothing_on_miss() {
    let mut src = q_coll("src");
    src.insert(
        q_doc(vec![("id", q_text("s")), ("k", q_text("9"))]),
        None,
        0,
    )
    .unwrap();
    let tgt = q_coll("tgt");
    let out = JoinBuilder::new(&src, &tgt).on("k", "k").execute(0);
    assert_eq!(out.len(), 1);
    assert_eq!(
        out[0],
        q_doc(vec![("id", q_text("s")), ("k", q_text("9"))])
    );
}

#[test]
fn join_builder_post_filter_drops_rows() {
    let mut src = q_coll("src");
    src.insert(
        q_doc(vec![("id", q_text("s1")), ("k", q_text("1"))]),
        None,
        0,
    )
    .unwrap();
    src.insert(
        q_doc(vec![("id", q_text("s2")), ("k", q_text("2"))]),
        None,
        0,
    )
    .unwrap();
    let mut tgt = q_coll("tgt");
    tgt.insert(
        q_doc(vec![("id", q_text("t1")), ("k", q_text("1")), ("good", Value::Bool(true))]),
        None,
        0,
    )
    .unwrap();
    let out = JoinBuilder::new(&src, &tgt)
        .on("k", "k")
        .filter(Filter::Equals("joined_good".to_string(), Value::Bool(true)))
        .execute(0);
    assert_eq!(out.len(), 1);
    assert_eq!(q_get(&out[0], "id"), &q_text("s1"));
}

#[test]
fn join_builder_transform_reshapes_kept_rows() {
    let mut src = q_coll("src");
    src.insert(
        q_doc(vec![("id", q_text("s")), ("k", q_text("1"))]),
        None,
        0,
    )
    .unwrap();
    let tgt = q_coll("tgt");
    let out = JoinBuilder::new(&src, &tgt)
        .on("k", "k")
        .map(Transform::SetField("seen".to_string(), Value::Bool(true)))
        .execute(0);
    assert_eq!(
        out[0],
        q_doc(vec![
            ("id", q_text("s")),
            ("k", q_text("1")),
            ("seen", Value::Bool(true)),
        ])
    );
    let out = JoinBuilder::new(&src, &tgt)
        .on("k", "k")
        .map(Transform::RemoveField("k".to_string()))
        .execute(0);
    assert_eq!(out[0], q_doc(vec![("id", q_text("s"))]));
}

#[test]
fn join_skips_expired_targets() {
    let mut src = q_coll("src");
    src.insert(
        q_doc(vec![("id", q_text("s")), ("k", q_text("1"))]),
        None,
        0,
    )
    .unwrap();
    let mut tgt = q_coll("tgt");
    tgt.insert(
        q_doc(vec![("id", q_text("t1")), ("k", q_text("1")), ("tag", q_text("old"))]),
        Some(TTL::CustomTTL(10)),
        0,
    )
    .unwrap();
    tgt.insert(
        q_doc(vec![("id", q_text("t2")), ("k", q_text("1")), ("tag", q_text("new"))]),
        None,
        0,
    )
    .unwrap();
    // At 50 the first target has expired; the join must take the second.
    let out = src.select("*").join("k", "k", &tgt).execute(50).unwrap();
    assert_eq!(q_get(&out[0], "joined_tag"), &q_text("new"));
}

#[test]
fn select_string_is_split_at_commas_untrimmed() {
    let mut c = q_coll("p");
    c.insert(
        q_doc(vec![("id", q_text("x")), ("a", Value::Int(1)), ("b", Value::Int(2))]),
        None,
        0,
    )
    .unwrap();
    // Collection::select does not trim: " b" does not name the field b.
    let out = c.select("a, b").execute(0).unwrap();
    assert_eq!(out[0], q_doc(vec![("a", Value::Int(1))]));
    let out = c.select("a,b").execute(0).unwrap();
    assert_eq!(
        out[0],
        q_doc(vec![("a", Value::Int(1)), ("b", Value::Int(2))])
    );
}
