use mongodm::Doc;
use mongodm::Index;
use mongodm::IndexOption;
use mongodm::Indexes;
use mongodm::Operator;
use mongodm::SortOrder;
use mongodm::Value;

fn doc_of(entries: Vec<(&str, Value)>) -> Doc {
    let mut d = Doc::new();
    for (k, v) in entries {
        d.insert(k, v);
    }
    d
}

fn text(s: &str) -> Value {
    Value::Text(s.to_string())
}

#[test]
fn create_indexes_command() {
    let index = Index::new_with_direction("id", SortOrder::Descending)
        .with_key("last_seen")
        .with_option(IndexOption::Background)
        .with_option(IndexOption::Unique);

    let index_2 = Index::new("last_seen").with_option(IndexOption::ExpireAfterSeconds(60));

    let indexes = Indexes::from(vec![index, index_2]);

    let expected = doc_of(vec![
        ("createIndexes", text("my_collection")),
        (
            "indexes",
            Value::List(vec![
                Value::Subdoc(doc_of(vec![
                    (
                        "key",
                        Value::Subdoc(doc_of(vec![
                            ("id", Value::Int32(-1)),
                            ("last_seen", Value::Int32(1)),
                        ])),
                    ),
                    ("background", Value::Boolean(true)),
                    ("unique", Value::Boolean(true)),
                    ("name", text("id_-1_last_seen_1")),
                ])),
                Value::Subdoc(doc_of(vec![
                    ("key", Value::Subdoc(doc_of(vec![("last_seen", Value::Int32(1))]))),
                    ("expireAfterSeconds", Value::Int32(60)),
                    ("name", text("last_seen_1")),
                ])),
            ]),
        ),
    ]);

    assert_eq!(indexes.create_indexes_command("my_collection"), expected);
}

#[test]
fn default_name_single_ascending() {
    let d = Index::new("id").into_document();
    assert_eq!(d.get_str("name").unwrap().as_str(), "id_1");
}

#[test]
fn default_name_single_descending() {
    let d = Index::new_with_direction("id", SortOrder::Descending).into_document();
    assert_eq!(d.get_str("name").unwrap().as_str(), "id_-1");
}

#[test]
fn default_name_compound() {
    let d = Index::new_with_direction("id", SortOrder::Descending)
        .with_key("last_seen")
        .into_document();
    assert_eq!(d.get_str("name").unwrap().as_str(), "id_-1_last_seen_1");
}

#[test]
fn default_name_text_key() {
    let d = Index::new_with_text("subject").into_document();
    assert_eq!(d.get_str("name").unwrap().as_str(), "subject_text");
    assert_eq!(
        d.get("key").unwrap(),
        &Value::Subdoc(doc_of(vec![("subject", text("text"))]))
    );
}

#[test]
fn explicit_name_wins() {
    let d = Index::new_with_direction("whatever", SortOrder::Descending)
        .with_key("other")
        .with_option(IndexOption::Name("custom".to_string()))
        .into_document();
    assert_eq!(d.get_str("name").unwrap().as_str(), "custom");
}

#[test]
fn compound_with_options_fragment() {
    let d = Index::new_with_direction("id", SortOrder::Descending)
        .with_key("last_seen")
        .with_option(IndexOption::Background)
        .with_option(IndexOption::Unique)
        .into_document();
    let expected = doc_of(vec![
        (
            "key",
            Value::Subdoc(doc_of(vec![
                ("id", Value::Int32(-1)),
                ("last_seen", Value::Int32(1)),
            ])),
        ),
        ("background", Value::Boolean(true)),
        ("unique", Value::Boolean(true)),
        ("name", text("id_-1_last_seen_1")),
    ]);
    assert_eq!(d, expected);
}

#[test]
fn option_wire_pairs() {
    let (k, v) = IndexOption::Unique.into_key_value();
    assert_eq!(k.as_str(), "unique");
    assert_eq!(v, Value::Boolean(true));

    let (k, v) = IndexOption::ExpireAfterSeconds(60).into_key_value();
    assert_eq!(k.as_str(), "expireAfterSeconds");
    assert_eq!(v, Value::Int32(60));

    let (k, v) = IndexOption::Weights(vec![("subject".to_string(), 3)]).into_key_value();
    assert_eq!(k.as_str(), "weights");
    assert_eq!(v, Value::Subdoc(doc_of(vec![("subject", Value::Int32(3))])));

    let (k, v) = IndexOption::Custom {
        name: "hidden".to_string(),
        value: Value::Boolean(true),
    }
    .into_key_value();
    assert_eq!(k.as_str(), "hidden");
    assert_eq!(v, Value::Boolean(true));
}

#[test]
fn operator_symbols() {
    assert_eq!(Operator::And.symbol(), "$and");
    assert_eq!(Operator::Or.symbol(), "$or");
    assert_eq!(Operator::Exists.symbol(), "$exists");
    assert_eq!(Operator::GreaterThan.symbol(), "$gt");
    assert_eq!(Operator::SetField.symbol(), "$set");
    assert_eq!(Operator::SetOnInsert.symbol(), "$setOnInsert");
    assert_eq!(Operator::UpdateAllDocuments.symbol(), "$[]");
    assert_eq!(Operator::ProjectFirst.symbol(), "$");
    assert_eq!(Operator::Bit.symbol(), "$bit");
}

#[test]
fn several_text_keys_join_in_order() {
    let mut ix = Index::new_with_text("a");
    ix.add_key_with_text("b");
    let d = ix.into_document();
    assert_eq!(d.get_str("name").unwrap().as_str(), "a_text_b_text");
    assert_eq!(
        d.get("key").unwrap(),
        &Value::Subdoc(doc_of(vec![("a", text("text")), ("b", text("text"))]))
    );
}

#[test]
fn repeated_key_is_encoded_once_but_named_twice() {
    let d = Index::new("a").with_key("a").into_document();
    assert_eq!(
        d.get("key").unwrap(),
        &Value::Subdoc(doc_of(vec![("a", Value::Int32(1))]))
    );
    assert_eq!(d.get_str("name").unwrap().as_str(), "a_1_a_1");
}

#[test]
fn last_name_option_wins() {
    let d = Index::new("a")
        .with_option(IndexOption::Name("first".to_string()))
        .with_option(IndexOption::Name("second".to_string()))
        .into_document();
    assert_eq!(d.get_str("name").unwrap().as_str(), "second");
}
