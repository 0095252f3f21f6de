use intake::collection::{self, Routed};
use intake::errors::Error;
use intake::event::{events_from_mutations, DecodeError, Event, Mutation, MutationKind, Scalar};
use intake::record::Values;
use intake::schema::Schema;
use intake::segment::{self, segment_file_name, Column, CACHE_CAPACITY};
use intake::terminator;
use intake::value::Value;

fn insert(table: &str, cols: &[&str], vals: Vec<Scalar>, types: &[&str]) -> Mutation {
    Mutation {
        kind: MutationKind::Insert,
        table: table.into(),
        columns: cols.iter().map(|c| c.to_string()).collect(),
        values: vals,
        types: types.iter().map(|t| t.to_string()).collect(),
    }
}

fn record(id: i64, name: &str) -> Values {
    let mut v = Values::new();
    v.insert("id".into(), Value::Int64(id));
    v.insert("name".into(), Value::String(name.into()));
    v
}

#[test]
fn decode_single_insert() {
    let m = insert("orders", &["a"], vec![Scalar::Integer(42)], &["integer"]);
    match Event::from_mutation(&m).unwrap() {
        Event::Insert(index, values) => {
            assert_eq!(index, "orders");
            assert_eq!(values.len(), 1);
            assert_eq!(values.get("a"), Some(&Value::Int64(42)));
        }
        other => panic!("unexpected {:?}", other),
    }
}

#[test]
fn decode_errors() {
    let m = insert("t", &["a", "b"], vec![Scalar::Integer(1)], &["integer", "integer"]);
    assert_eq!(Event::from_mutation(&m).unwrap_err(), DecodeError::ColumnCountMismatch);
    let m = insert("t", &["a"], vec![Scalar::Integer(1)], &["boolean"]);
    assert_eq!(Event::from_mutation(&m).unwrap_err(), DecodeError::UnknownType);
    let m = insert("t", &["a"], vec![Scalar::Text("x".into())], &["integer"]);
    assert_eq!(Event::from_mutation(&m).unwrap_err(), DecodeError::ValueMismatch);
    let m = insert("t", &["a"], vec![Scalar::Other], &["text"]);
    assert_eq!(Event::from_mutation(&m).unwrap_err(), DecodeError::ValueMismatch);
}

#[test]
fn update_and_delete_keep_their_kind() {
    let mut m = insert("t", &[], vec![], &[]);
    m.kind = MutationKind::Update;
    assert!(matches!(Event::from_mutation(&m).unwrap(), Event::Update(i, v) if i == "t" && v.is_empty()));
    m.kind = MutationKind::Delete;
    assert!(matches!(Event::from_mutation(&m).unwrap(), Event::Delete(i, v) if i == "t" && v.is_empty()));
}

#[test]
fn decode_of_encoded_record_round_trips() {
    let expected = record(7, "seven");
    let m = insert(
        "orders",
        &["id", "name"],
        vec![Scalar::Integer(7), Scalar::Text("seven".into())],
        &["integer", "text"],
    );
    match Event::from_mutation(&m).unwrap() {
        Event::Insert(_, values) => assert_eq!(values, expected),
        other => panic!("unexpected {:?}", other),
    }
}

#[test]
fn payload_fails_as_a_whole() {
    let good = insert("t", &["a"], vec![Scalar::Integer(1)], &["integer"]);
    let bad = insert("t", &["a"], vec![Scalar::Integer(1)], &["float"]);
    assert_eq!(events_from_mutations(&vec![good.clone(), good.clone()]).unwrap().len(), 2);
    assert_eq!(
        events_from_mutations(&vec![good, bad]).unwrap_err(),
        DecodeError::UnknownType
    );
}

#[test]
fn default_event() {
    match Event::default() {
        Event::Insert(i, v) => {
            assert_eq!(i, "undefined index");
            assert!(v.is_empty());
        }
        other => panic!("unexpected {:?}", other),
    }
}

#[test]
fn schema_fixed_on_first_record() {
    let mut c = collection::new();
    assert!(matches!(c.insert_with_id("orders", record(1, "a"), 11), Ok(Routed::Opened(11))));
    assert!(matches!(c.insert_with_id("orders", record(2, "b"), 12), Ok(Routed::Appended)));
    let mut other = Values::new();
    other.insert("id".into(), Value::String("x".into()));
    assert_eq!(c.insert_with_id("orders", other, 13).unwrap_err(), Error::SchemaMismatch);
    let seg = match c.expired("orders", 11) {
        Some(s) => s,
        None => panic!("segment should be live"),
    };
    let closed = terminator::new().terminate(seg).unwrap().unwrap();
    assert_eq!(closed.uuid, 11);
    assert_eq!(closed.columns.len(), 2);
    assert_eq!(closed.columns[0].0, "id");
    assert_eq!(closed.columns[0].1, Column::Int64(vec![1, 2]));
    assert_eq!(closed.columns[1].0, "name");
    assert_eq!(closed.columns[1].1, Column::String(vec!["a".into(), "b".into()]));
    assert!(c.expired("orders", 11).is_none());
    assert!(matches!(c.insert_with_id("orders", record(3, "c"), 14), Ok(Routed::Opened(14))));
}

#[test]
fn two_indices_stay_apart() {
    let mut c = collection::new();
    c.insert_with_id("a", record(1, "x"), 1).unwrap();
    c.insert_with_id("b", record(2, "y"), 2).unwrap();
    c.insert_with_id("a", record(3, "z"), 3).unwrap();
    let a = terminator::new().terminate(c.expired("a", 1).unwrap()).unwrap().unwrap();
    let b = terminator::new().terminate(c.expired("b", 2).unwrap()).unwrap().unwrap();
    assert_eq!(a.columns[0].1, Column::Int64(vec![1, 3]));
    assert_eq!(b.columns[0].1, Column::Int64(vec![2]));
    assert_ne!(a.file_name, b.file_name);
}

#[test]
fn stale_expiry_is_ignored() {
    let mut c = collection::new();
    c.insert_with_id("a", record(1, "x"), 1).unwrap();
    assert!(c.expired("a", 2).is_none());
    assert!(c.expired("missing", 1).is_none());
    assert!(matches!(
        c.dispatch(Event::SegmentExpired("a".into(), 2)),
        Ok(Routed::Ignored)
    ));
    assert!(matches!(
        c.dispatch(Event::SegmentExpired("a".into(), 1)),
        Ok(Routed::Expire(_))
    ));
}

#[test]
fn full_segment_expires_at_capacity() {
    let mut c = collection::new();
    for i in 0..(CACHE_CAPACITY as i64 - 1) {
        let r = c.insert_with_id("a", record(i, "r"), 5).unwrap();
        assert!(!matches!(r, Routed::Expire(_)));
    }
    let seg = match c.insert_with_id("a", record(999, "r"), 5).unwrap() {
        Routed::Expire(s) => s,
        other => panic!("expected expiry, got {:?}", other),
    };
    assert!(seg.full());
    assert!(matches!(c.insert_with_id("a", record(1000, "r"), 6), Ok(Routed::Opened(6))));
    let closed = terminator::new().terminate(seg).unwrap().unwrap();
    match &closed.columns[0].1 {
        Column::Int64(v) => assert_eq!(v.len(), CACHE_CAPACITY),
        _ => panic!("wrong column type"),
    }
}

#[test]
fn empty_segment_is_dropped() {
    let mut values = Values::new();
    values.insert("id".into(), Value::Int64(1));
    let schema = Schema::try_from("a", &values).unwrap();
    let seg = segment::new(&schema, 3);
    assert!(seg.is_empty());
    assert!(terminator::new().terminate(seg).unwrap().is_none());
}

#[test]
fn segment_file_is_named_by_id() {
    assert_eq!(
        segment_file_name(0x0123_4567_89ab_cdef_0123_4567_89ab_cdef),
        "./01234567-89ab-cdef-0123-456789abcdef.parquet"
    );
}

#[test]
fn random_ids_open_segments() {
    let mut c = collection::new();
    assert!(matches!(c.insert("a", record(1, "x")), Ok(Routed::Opened(_))));
    assert!(matches!(c.insert("a", record(2, "y")), Ok(Routed::Appended)));
}

#[test]
fn mutation_kinds_by_name() {
    assert_eq!(MutationKind::from_name("insert"), Some(MutationKind::Insert));
    assert_eq!(MutationKind::from_name("update"), Some(MutationKind::Update));
    assert_eq!(MutationKind::from_name("delete"), Some(MutationKind::Delete));
    assert_eq!(MutationKind::from_name("truncate"), None);
}

#[test]
fn consecutive_segments_keep_order() {
    let mut c = collection::new();
    c.insert_with_id("a", record(1, "x"), 1).unwrap();
    c.insert_with_id("a", record(2, "y"), 1).unwrap();
    let first = terminator::new().terminate(c.expired("a", 1).unwrap()).unwrap().unwrap();
    c.insert_with_id("a", record(3, "z"), 2).unwrap();
    let second = terminator::new().terminate(c.expired("a", 2).unwrap()).unwrap().unwrap();
    let mut ids = Vec::new();
    for closed in [&first, &second] {
        match &closed.columns[0].1 {
            Column::Int64(v) => ids.extend_from_slice(v),
            _ => panic!("wrong column type"),
        }
    }
    assert_eq!(ids, vec![1, 2, 3]);
    assert_eq!(second.columns[1].1, Column::String(vec!["z".into()]));
}
