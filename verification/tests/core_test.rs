use datatect::json::Value;
use datatect::schema::Schema;
use datatect::strictify::strictify;
use datatect::es_document_iterator::{ElasticSearchDocumentIterator, HttpClient, ProtocolError};

fn s(x: &str) -> Value {
    Value::Str(x.to_string())
}

fn obj(ps: Vec<(&str, Value)>) -> Value {
    Value::Obj(ps.into_iter().map(|(k, v)| (k.to_string(), v)).collect())
}

fn scroll_response(cursor: &str, docs: Vec<Value>) -> Value {
    obj(vec![
        ("_scroll_id", s(cursor)),
        ("hits", obj(vec![("hits", Value::Arr(docs))])),
    ])
}

// Strictifier shape

#[test]
fn strictify_stamps_object_nodes() {
    let schema = obj(vec![
        ("type", s("object")),
        ("properties", obj(vec![("foo", obj(vec![("type", s("string"))]))])),
    ]);
    let expected = obj(vec![
        ("type", s("object")),
        ("properties", obj(vec![("foo", obj(vec![("type", s("string"))]))])),
        ("additionalProperties", Value::Bool(false)),
        ("required", Value::Arr(vec![s("foo")])),
    ]);
    assert_eq!(strictify(&schema), expected);
}

#[test]
fn strictify_missing_properties_means_empty_required() {
    let schema = obj(vec![("type", s("object"))]);
    let expected = obj(vec![
        ("type", s("object")),
        ("additionalProperties", Value::Bool(false)),
        ("required", Value::Arr(vec![])),
    ]);
    assert_eq!(strictify(&schema), expected);
}

#[test]
fn strictify_leaves_primitive_nodes_alone() {
    let schema = obj(vec![("type", s("string"))]);
    assert_eq!(strictify(&schema), schema);
    assert_eq!(strictify(&Value::Bool(true)), Value::Bool(true));
    assert_eq!(strictify(&s("x")), s("x"));
}

#[test]
fn strictify_array_without_items_is_untouched() {
    let schema = obj(vec![("type", s("array"))]);
    assert_eq!(strictify(&schema), schema);
}

#[test]
fn strictify_descends_into_one_of_branches() {
    let schema = obj(vec![(
        "oneOf",
        Value::Arr(vec![obj(vec![("type", s("null"))]), obj(vec![("type", s("object"))])]),
    )]);
    let expected = obj(vec![(
        "oneOf",
        Value::Arr(vec![
            obj(vec![("type", s("null"))]),
            obj(vec![
                ("type", s("object")),
                ("additionalProperties", Value::Bool(false)),
                ("required", Value::Arr(vec![])),
            ]),
        ]),
    )]);
    assert_eq!(strictify(&schema), expected);
}

#[test]
fn strictify_twice_is_strictify_once() {
    let schema = obj(vec![
        ("type", s("object")),
        (
            "properties",
            obj(vec![
                ("foo", obj(vec![("type", s("string"))])),
                (
                    "bar",
                    obj(vec![
                        ("type", s("object")),
                        ("properties", obj(vec![("biz", obj(vec![("type", s("boolean"))]))])),
                    ]),
                ),
            ]),
        ),
    ]);
    let once = strictify(&schema);
    assert_eq!(strictify(&once), once);
}

// The evaluator adapter

#[test]
fn compile_rejects_a_broken_schema() {
    let schema = obj(vec![
        ("type", s("object")),
        (
            "properties",
            obj(vec![("foo", obj(vec![("type", Value::Num(serde_json::Number::from(5u32)))]))]),
        ),
    ]);
    assert!(Schema::new(schema).is_err());
}

#[test]
fn valid_document_has_empty_report() {
    let schema = Schema::new(obj(vec![
        ("type", s("object")),
        ("properties", obj(vec![("foo", obj(vec![("type", s("string"))]))])),
    ]))
    .unwrap();
    let data = obj(vec![("foo", s("bar"))]);
    assert!(schema.is_valid(&data));
    assert!(schema.validate(&data).is_empty());
}

// The scroll iterator, against scripted backends

struct TwoThenEmpty;

impl HttpClient for TwoThenEmpty {
    fn new() -> Self {
        TwoThenEmpty
    }

    fn start_scroll(&self, _host: &str, _index: &str) -> Value {
        scroll_response("c1", vec![s("d1"), s("d2")])
    }

    fn next_scroll(&self, _host: &str, _scroll: &str) -> Value {
        scroll_response("c2", vec![])
    }
}

#[test]
fn iterator_yields_batch_then_stays_exhausted() {
    let mut it: ElasticSearchDocumentIterator<TwoThenEmpty> =
        ElasticSearchDocumentIterator::new("h".to_string(), "i".to_string());
    assert_eq!(it.next(), Ok(Some(s("d1"))));
    assert_eq!(it.next(), Ok(Some(s("d2"))));
    assert_eq!(it.next(), Ok(None));
    assert_eq!(it.next(), Ok(None));
    assert_eq!(it.next(), Ok(None));
}

struct CursorKeyed;

impl HttpClient for CursorKeyed {
    fn new() -> Self {
        CursorKeyed
    }

    fn start_scroll(&self, _host: &str, _index: &str) -> Value {
        scroll_response("c1", vec![s("d1"), s("d2")])
    }

    fn next_scroll(&self, _host: &str, scroll: &str) -> Value {
        if scroll == "c1" {
            scroll_response("c2", vec![s("d3"), s("d4")])
        } else {
            scroll_response("c3", vec![])
        }
    }
}

#[test]
fn iterator_preserves_order_across_batches_and_renews_cursor() {
    let mut it: ElasticSearchDocumentIterator<CursorKeyed> =
        ElasticSearchDocumentIterator::new("h".to_string(), "i".to_string());
    assert_eq!(it.next(), Ok(Some(s("d1"))));
    assert_eq!(it.next(), Ok(Some(s("d2"))));
    assert_eq!(it.next(), Ok(Some(s("d3"))));
    assert_eq!(it.next(), Ok(Some(s("d4"))));
    assert_eq!(it.next(), Ok(None));
    assert_eq!(it.next(), Ok(None));
}

struct NoCursor;

impl HttpClient for NoCursor {
    fn new() -> Self {
        NoCursor
    }

    fn start_scroll(&self, _host: &str, _index: &str) -> Value {
        obj(vec![("hits", obj(vec![("hits", Value::Arr(vec![s("d1")]))]))])
    }

    fn next_scroll(&self, _host: &str, _scroll: &str) -> Value {
        Value::Null
    }
}

#[test]
fn missing_cursor_is_a_protocol_error_and_ends_the_stream() {
    let mut it: ElasticSearchDocumentIterator<NoCursor> =
        ElasticSearchDocumentIterator::new("h".to_string(), "i".to_string());
    assert_eq!(it.next(), Err(ProtocolError::MissingScrollId));
    assert_eq!(it.next(), Ok(None));
}

struct NoBatch;

impl HttpClient for NoBatch {
    fn new() -> Self {
        NoBatch
    }

    fn start_scroll(&self, _host: &str, _index: &str) -> Value {
        obj(vec![("_scroll_id", s("c1")), ("hits", obj(vec![]))])
    }

    fn next_scroll(&self, _host: &str, _scroll: &str) -> Value {
        Value::Null
    }
}

#[test]
fn missing_batch_is_a_protocol_error_and_ends_the_stream() {
    let mut it: ElasticSearchDocumentIterator<NoBatch> =
        ElasticSearchDocumentIterator::new("h".to_string(), "i".to_string());
    assert_eq!(it.next(), Err(ProtocolError::MissingHits));
    assert_eq!(it.next(), Ok(None));
}
