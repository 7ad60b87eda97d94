use mongodm::BulkUpdate;
use mongodm::BulkUpdateOptions;
use mongodm::Doc;
use mongodm::Operator;
use mongodm::Value;
use mongodm::bulk_update_command;
use mongodm::canonical_eq;
use mongodm::clone_doc;
use mongodm::doc_are_eq;
use mongodm::value_eq;

fn doc_of(entries: Vec<(&str, Value)>) -> Doc {
    let mut d = Doc::new();
    for (k, v) in entries {
        d.insert(k, v);
    }
    d
}

fn text(s: &str) -> Value {
    Value::Text(s.to_string())
}

#[test]
fn insert_replaces_in_place() {
    let mut d = Doc::new();
    d.insert("a", Value::Int32(1));
    d.insert("b", Value::Int32(2));
    d.insert("a", Value::Int32(3));
    assert_eq!(d.len(), 2);
    assert_eq!(d.get("a"), Some(&Value::Int32(3)));
    // The replaced entry keeps its position before "b".
    let expected = doc_of(vec![("a", Value::Int32(3)), ("b", Value::Int32(2))]);
    assert_eq!(d, expected);
}

#[test]
fn remove_keeps_the_rest() {
    let mut d = doc_of(vec![
        ("a", Value::Int32(1)),
        ("b", Value::Int32(2)),
        ("c", Value::Int32(3)),
    ]);
    let removed = d.remove("b");
    assert_eq!(removed, Some(Value::Int32(2)));
    assert_eq!(d, doc_of(vec![("a", Value::Int32(1)), ("c", Value::Int32(3))]));
    assert_eq!(d.remove("nope"), None);
}

#[test]
fn get_str_wants_a_string() {
    let d = doc_of(vec![("n", text("x")), ("m", Value::Int32(1))]);
    assert_eq!(d.get_str("n").unwrap().as_str(), "x");
    assert!(d.get_str("m").is_none());
    assert!(d.get_str("absent").is_none());
}

#[test]
fn document_equality_ignores_order() {
    let a = doc_of(vec![("x", Value::Int32(1)), ("y", text("s"))]);
    let b = doc_of(vec![("y", text("s")), ("x", Value::Int32(1))]);
    assert!(doc_are_eq(&a, &b));
    assert_ne!(a, b);

    let nested_a = doc_of(vec![("inner", Value::Subdoc(a))]);
    let nested_b = doc_of(vec![("inner", Value::Subdoc(b))]);
    assert!(doc_are_eq(&nested_a, &nested_b));
}

#[test]
fn value_equality_is_exact_on_widths() {
    assert!(value_eq(&Value::Int32(1), &Value::Int32(1)));
    assert!(!value_eq(&Value::Int32(1), &Value::Int64(1)));
    assert!(!value_eq(&Value::Int32(1), &Value::Int32(2)));
    assert!(value_eq(
        &Value::List(vec![text("a"), Value::Boolean(true)]),
        &Value::List(vec![text("a"), Value::Boolean(true)]),
    ));
    assert!(!value_eq(
        &Value::List(vec![text("a")]),
        &Value::List(vec![text("a"), text("b")]),
    ));
}

#[test]
fn canonical_equality_conflates_widths_but_keeps_order() {
    assert!(canonical_eq(&Value::Int32(1), &Value::Int64(1)));
    assert!(canonical_eq(&Value::Int64(-7), &Value::Int32(-7)));
    assert!(!canonical_eq(&Value::Int32(1), &Value::Int32(2)));

    let a = Value::Subdoc(doc_of(vec![("x", Value::Int32(1)), ("y", Value::Int32(2))]));
    let b = Value::Subdoc(doc_of(vec![("x", Value::Int64(1)), ("y", Value::Int64(2))]));
    let c = Value::Subdoc(doc_of(vec![("y", Value::Int32(2)), ("x", Value::Int32(1))]));
    assert!(canonical_eq(&a, &b));
    assert!(!canonical_eq(&a, &c));
}

#[test]
fn clone_makes_an_equal_document() {
    let d = doc_of(vec![
        ("s", text("v")),
        ("sub", Value::Subdoc(doc_of(vec![("k", Value::Int32(1))]))),
        ("l", Value::List(vec![Value::Boolean(false)])),
    ]);
    assert_eq!(clone_doc(&d), d);
}

#[test]
fn bulk_update_command_shape() {
    let set = Operator::SetField.symbol();
    let updates = vec![
        BulkUpdate {
            query: doc_of(vec![("name", text("Dane"))]),
            update: doc_of(vec![(set, Value::Subdoc(doc_of(vec![("age", Value::Int32(12))])))]),
            options: None,
        },
        BulkUpdate {
            query: doc_of(vec![("name", text("David"))]),
            update: doc_of(vec![(set, Value::Subdoc(doc_of(vec![("age", Value::Int32(30))])))]),
            options: Some(BulkUpdateOptions {
                upsert: Some(true),
                collation: None,
                array_filters: None,
                hint: None,
            }),
        },
    ];
    let cmd = bulk_update_command("user", &updates, None);
    let expected = doc_of(vec![
        ("update", text("user")),
        (
            "updates",
            Value::List(vec![
                Value::Subdoc(doc_of(vec![
                    ("q", Value::Subdoc(doc_of(vec![("name", text("Dane"))]))),
                    (
                        "u",
                        Value::Subdoc(doc_of(vec![(
                            "$set",
                            Value::Subdoc(doc_of(vec![("age", Value::Int32(12))])),
                        )])),
                    ),
                    ("multi", Value::Boolean(false)),
                ])),
                Value::Subdoc(doc_of(vec![
                    ("q", Value::Subdoc(doc_of(vec![("name", text("David"))]))),
                    (
                        "u",
                        Value::Subdoc(doc_of(vec![(
                            "$set",
                            Value::Subdoc(doc_of(vec![("age", Value::Int32(30))])),
                        )])),
                    ),
                    ("multi", Value::Boolean(false)),
                    ("upsert", Value::Boolean(true)),
                ])),
            ]),
        ),
    ]);
    assert_eq!(cmd, expected);
}

#[test]
fn bulk_update_command_carries_write_concern() {
    let wc = doc_of(vec![("w", Value::Int32(1))]);
    let cmd = bulk_update_command("user", &vec![], Some(&wc));
    let expected = doc_of(vec![
        ("update", text("user")),
        ("updates", Value::List(vec![])),
        ("writeConcern", Value::Subdoc(doc_of(vec![("w", Value::Int32(1))]))),
    ]);
    assert_eq!(cmd, expected);
}
