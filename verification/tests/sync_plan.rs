use mongodm::Doc;
use mongodm::Index;
use mongodm::IndexOption;
use mongodm::Indexes;
use mongodm::SyncError;
use mongodm::SortOrder;
use mongodm::Value;
use mongodm::command_error_code;
use mongodm::drop_indexes_command;
use mongodm::drop_one_index_command;
use mongodm::list_indexes_command;
use mongodm::namespace_not_found;
use mongodm::parse_listing;
use mongodm::plan_from_listing;
use mongodm::plan_sync;

fn doc_of(entries: Vec<(&str, Value)>) -> Doc {
    let mut d = Doc::new();
    for (k, v) in entries {
        d.insert(k, v);
    }
    d
}

fn text(s: &str) -> Value {
    Value::Text(s.to_string())
}

fn id_index_descriptor(ns: &str) -> Doc {
    doc_of(vec![
        ("v", Value::Int32(2)),
        ("key", Value::Subdoc(doc_of(vec![("_id", Value::Int32(1))]))),
        ("name", text("_id_")),
        ("ns", text(ns)),
    ])
}

#[test]
fn plan_for_fresh_collection() {
    let indexes = Indexes::new().with(Index::new("username").with_option(IndexOption::Unique));
    let plan = plan_sync(&indexes, &vec![]).unwrap();
    assert!(plan.to_drop.is_empty());
    let expected = doc_of(vec![
        ("createIndexes", text("users")),
        (
            "indexes",
            Value::List(vec![Value::Subdoc(doc_of(vec![
                ("key", Value::Subdoc(doc_of(vec![("username", Value::Int32(1))]))),
                ("unique", Value::Boolean(true)),
                ("name", text("username_1")),
            ]))]),
        ),
    ]);
    assert_eq!(plan.to_create.create_indexes_command("users"), expected);
}

#[test]
fn plan_recreates_on_option_change() {
    let existing = vec![
        id_index_descriptor("db.things"),
        doc_of(vec![
            ("v", Value::Int32(2)),
            ("unique", Value::Boolean(true)),
            ("key", Value::Subdoc(doc_of(vec![("field", Value::Int32(1))]))),
            ("name", text("field_1")),
            ("ns", text("db.things")),
        ]),
    ];
    let indexes = Indexes::new().with(Index::new("field"));
    let plan = plan_sync(&indexes, &existing).unwrap();
    assert_eq!(plan.to_drop, vec!["field_1".to_string()]);
    assert_eq!(plan.to_create.0.len(), 1);
    let fragment = plan.to_create.0.into_iter().next().unwrap().into_document();
    let expected = doc_of(vec![
        ("key", Value::Subdoc(doc_of(vec![("field", Value::Int32(1))]))),
        ("name", text("field_1")),
    ]);
    assert_eq!(fragment, expected);
}

#[test]
fn plan_is_idempotent_when_synchronized() {
    let existing = vec![
        id_index_descriptor("db.things"),
        doc_of(vec![
            ("v", Value::Int32(2)),
            ("unique", Value::Boolean(true)),
            ("key", Value::Subdoc(doc_of(vec![("field", Value::Int32(1))]))),
            ("name", text("field_1")),
            ("ns", text("db.things")),
        ]),
    ];
    let indexes = Indexes::new().with(Index::new("field").with_option(IndexOption::Unique));
    let plan = plan_sync(&indexes, &existing).unwrap();
    assert!(plan.to_drop.is_empty());
    assert!(plan.to_create.0.is_empty());
}

#[test]
fn primary_key_index_is_never_dropped() {
    let existing = vec![id_index_descriptor("db.things")];
    let plan = plan_sync(&Indexes::new(), &existing).unwrap();
    assert!(plan.to_drop.is_empty());
    assert!(plan.to_create.0.is_empty());

    // Even a declaration that collides with the primary-key index and is out
    // of sync with it never schedules "_id_" for dropping.
    let indexes = Indexes::new().with(Index::new("_id").with_option(IndexOption::Unique));
    let plan = plan_sync(&indexes, &existing).unwrap();
    assert!(plan.to_drop.is_empty());
    assert_eq!(plan.to_create.0.len(), 1);
}

#[test]
fn text_index_with_default_weights_is_in_sync() {
    let existing = vec![
        id_index_descriptor("db.posts"),
        doc_of(vec![
            ("v", Value::Int32(2)),
            (
                "key",
                Value::Subdoc(doc_of(vec![
                    ("_fts", text("text")),
                    ("_ftsx", Value::Int32(1)),
                ])),
            ),
            ("name", text("subject_text")),
            ("ns", text("db.posts")),
            ("weights", Value::Subdoc(doc_of(vec![("subject", Value::Int32(1))]))),
        ]),
    ];
    let indexes = Indexes::new().with(Index::new_with_text("subject"));
    let plan = plan_sync(&indexes, &existing).unwrap();
    assert!(plan.to_drop.is_empty());
    assert!(plan.to_create.0.is_empty());
}

#[test]
fn text_index_with_other_weights_is_rebuilt() {
    let existing = vec![
        id_index_descriptor("db.posts"),
        doc_of(vec![
            ("v", Value::Int32(2)),
            (
                "key",
                Value::Subdoc(doc_of(vec![
                    ("_fts", text("text")),
                    ("_ftsx", Value::Int32(1)),
                ])),
            ),
            ("name", text("subject_text")),
            ("ns", text("db.posts")),
            ("weights", Value::Subdoc(doc_of(vec![("subject", Value::Int32(5))]))),
        ]),
    ];
    let indexes = Indexes::new().with(Index::new_with_text("subject"));
    let plan = plan_sync(&indexes, &existing).unwrap();
    assert_eq!(plan.to_drop, vec!["subject_text".to_string()]);
    assert_eq!(plan.to_create.0.len(), 1);
}

#[test]
fn obsolete_index_is_swept() {
    let existing = vec![
        id_index_descriptor("db.things"),
        doc_of(vec![
            ("v", Value::Int32(2)),
            ("key", Value::Subdoc(doc_of(vec![("stale", Value::Int32(1))]))),
            ("name", text("stale_1")),
            ("ns", text("db.things")),
        ]),
    ];
    let plan = plan_sync(&Indexes::new(), &existing).unwrap();
    assert_eq!(plan.to_drop, vec!["stale_1".to_string()]);
    assert!(plan.to_create.0.is_empty());
}

#[test]
fn parse_listing_reads_cursor_and_batch() {
    let response = doc_of(vec![(
        "cursor",
        Value::Subdoc(doc_of(vec![
            ("id", Value::Int64(0)),
            ("ns", text("db.things")),
            (
                "firstBatch",
                Value::List(vec![Value::Subdoc(id_index_descriptor("db.things"))]),
            ),
        ])),
    )]);
    let listing = parse_listing(&response).unwrap();
    assert_eq!(listing.cursor_id, 0);
    assert_eq!(listing.batch, vec![id_index_descriptor("db.things")]);
}

#[test]
fn parse_listing_defaults_to_empty_batch() {
    let response = doc_of(vec![(
        "cursor",
        Value::Subdoc(doc_of(vec![("id", Value::Int32(0))])),
    )]);
    let listing = parse_listing(&response).unwrap();
    assert_eq!(listing.cursor_id, 0);
    assert!(listing.batch.is_empty());
}

#[test]
fn paginated_listing_is_refused() {
    let response = doc_of(vec![(
        "cursor",
        Value::Subdoc(doc_of(vec![
            ("id", Value::Int64(77)),
            ("firstBatch", Value::List(vec![])),
        ])),
    )]);
    let err = plan_from_listing(&Indexes::new(), &response).unwrap_err();
    assert_eq!(err, SyncError::IncompleteListing);
}

#[test]
fn listing_without_cursor_is_malformed() {
    let response = doc_of(vec![("ok", Value::Int32(1))]);
    let err = parse_listing(&response).unwrap_err();
    assert_eq!(err, SyncError::MalformedListing);
}

#[test]
fn descriptor_without_key_is_an_error() {
    let existing = vec![doc_of(vec![("name", text("mystery"))])];
    let err = plan_sync(&Indexes::new(), &existing).unwrap_err();
    assert_eq!(err, SyncError::MissingKey);
}

#[test]
fn descriptor_without_name_is_an_error_when_dropped() {
    let existing = vec![doc_of(vec![
        ("v", Value::Int32(2)),
        ("key", Value::Subdoc(doc_of(vec![("field", Value::Int32(1))]))),
    ])];
    let indexes = Indexes::new().with(Index::new("field").with_option(IndexOption::Unique));
    let err = plan_sync(&indexes, &existing).unwrap_err();
    assert_eq!(err, SyncError::MissingName);
}

#[test]
fn plan_from_listing_accepts_synchronized_state() {
    let response = doc_of(vec![(
        "cursor",
        Value::Subdoc(doc_of(vec![
            ("id", Value::Int64(0)),
            ("ns", text("db.one_sync")),
            (
                "firstBatch",
                Value::List(vec![
                    Value::Subdoc(id_index_descriptor("db.one_sync")),
                    Value::Subdoc(doc_of(vec![
                        ("v", Value::Int32(2)),
                        ("unique", Value::Boolean(true)),
                        ("key", Value::Subdoc(doc_of(vec![("field", Value::Int32(1))]))),
                        ("name", text("field_1")),
                        ("ns", text("db.one_sync")),
                    ])),
                ]),
            ),
        ])),
    )]);
    let indexes = Indexes::new().with(Index::new("field").with_option(IndexOption::Unique));
    let plan = plan_from_listing(&indexes, &response).unwrap();
    assert!(plan.to_drop.is_empty());
    assert!(plan.to_create.0.is_empty());
}

#[test]
fn list_command_shape() {
    let expected = doc_of(vec![("listIndexes", text("things"))]);
    assert_eq!(list_indexes_command("things"), expected);
}

#[test]
fn drop_command_shapes_agree() {
    let names = vec!["a_1".to_string(), "b_1".to_string()];
    let bulk = drop_indexes_command("things", &names);
    let expected = doc_of(vec![
        ("dropIndexes", text("things")),
        ("index", Value::List(vec![text("a_1"), text("b_1")])),
    ]);
    assert_eq!(bulk, expected);

    // The fallback path names exactly the same indexes, one command each.
    for name in &names {
        let single = drop_one_index_command("things", name);
        assert_eq!(
            single,
            doc_of(vec![("dropIndexes", text("things")), ("index", text(name))])
        );
    }
}

#[test]
fn command_error_code_reads_code_field() {
    let response = doc_of(vec![
        ("ok", Value::Int32(0)),
        ("errmsg", text("ns does not exist")),
        ("code", Value::Int32(26)),
        ("codeName", text("NamespaceNotFound")),
    ]);
    assert_eq!(command_error_code(&response), Some(26));
    assert!(namespace_not_found(26));
    assert!(!namespace_not_found(25));

    let wide = doc_of(vec![("code", Value::Int64(26))]);
    assert_eq!(command_error_code(&wide), Some(26));

    let huge = doc_of(vec![("code", Value::Int64(1 << 40))]);
    assert_eq!(command_error_code(&huge), None);

    let none = doc_of(vec![("ok", Value::Int32(1))]);
    assert_eq!(command_error_code(&none), None);
}

#[test]
fn mixed_text_and_sort_index_weights() {
    let mut declared = Index::new_with_text("subject");
    declared.add_key_with_direction("rank", SortOrder::Descending);
    let indexes = Indexes::new().with(declared);
    let existing = vec![doc_of(vec![
        ("v", Value::Int32(2)),
        (
            "key",
            Value::Subdoc(doc_of(vec![
                ("_fts", text("text")),
                ("_ftsx", Value::Int32(1)),
            ])),
        ),
        ("name", text("subject_text_rank_-1")),
        ("ns", text("db.posts")),
        (
            "weights",
            Value::Subdoc(doc_of(vec![
                ("subject", Value::Int32(1)),
                ("rank", Value::Int32(-1)),
            ])),
        ),
    ])];
    let plan = plan_sync(&indexes, &existing).unwrap();
    assert!(plan.to_drop.is_empty());
    assert!(plan.to_create.0.is_empty());
}
