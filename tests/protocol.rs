use intake::config::{check_document_count, ConfigError};
use intake::protocol::{
    classify, create_slot_query, keepalive_requested, micros_since_2000,
    start_replication_query, status_update, Frame, Step,
};
use intake::state::{State, StateUpdateError};

fn header(start: i64, end: i64, clock: i64) -> Vec<u8> {
    let mut h = Vec::new();
    h.extend_from_slice(&start.to_be_bytes());
    h.extend_from_slice(&end.to_be_bytes());
    h.extend_from_slice(&clock.to_be_bytes());
    h
}

#[test]
fn keepalive_reply_only_when_asked() {
    assert!(keepalive_requested(&[0x6b, 0, 0, 1]));
    assert!(!keepalive_requested(&[0x6b, 0, 0, 0]));
    assert!(!keepalive_requested(&[0x77, 0, 0, 1]));
    assert!(!keepalive_requested(&[]));
    assert!(keepalive_requested(&[0x6b, 1]));
}

#[test]
fn classify_frames() {
    assert_eq!(classify(&[]), Frame::Other);
    assert_eq!(classify(&[0x6b, 0, 1]), Frame::Keepalive { reply: true });
    assert_eq!(classify(&[0x6b, 0, 0]), Frame::Keepalive { reply: false });
    assert_eq!(classify(&[0x77, 1, 2]), Frame::Truncated);
    assert_eq!(classify(&[0x64, 1]), Frame::Other);
    let mut f = vec![0x77];
    let h = header(0x10, 0x18, 0x20);
    f.extend_from_slice(&h);
    f.extend_from_slice(b"{}");
    assert_eq!(
        classify(&f),
        Frame::XLogData { header: h, payload: b"{}".to_vec() }
    );
}

#[test]
fn start_and_done_move_positions() {
    let mut s = State::new("state.json".into(), "test1".into());
    let h = header(0x10, 0x18, 0x20);
    assert_eq!(s.start(&h), Ok(()));
    assert_eq!(s.wal.start, 0x10);
    assert_eq!(s.wal.clock, 0x20);
    assert_eq!(s.wal.flushed, 0);
    assert_eq!(s.done(&h), Ok(()));
    assert_eq!(s.wal.flushed, 0x10);
    assert_eq!(s.wal.applied, 0x10);
    assert_eq!(s.slot(), "test1");
}

#[test]
fn short_header_is_rejected() {
    let mut s = State::new("state.json".into(), "slot".into());
    assert_eq!(s.start(&[0u8; 23]), Err(StateUpdateError::ParseError));
    assert_eq!(s.wal.start, 0);
}

#[test]
fn positions_plus_one_big_endian() {
    let mut s = State::new("p".into(), "s".into());
    s.wal.flushed = 0x10;
    s.wal.applied = 0x0f;
    assert_eq!(s.last_flushed(), [0, 0, 0, 0, 0, 0, 0, 0x11]);
    assert_eq!(s.last_applied(), [0, 0, 0, 0, 0, 0, 0, 0x10]);
    s.wal.flushed = i64::MAX;
    assert_eq!(s.last_flushed(), [0x80, 0, 0, 0, 0, 0, 0, 0]);
}

#[test]
fn status_update_frame() {
    let mut s = State::new("p".into(), "s".into());
    s.wal.flushed = 0x10;
    s.wal.applied = 0x10;
    let r = status_update(&s, 0x0102);
    assert_eq!(r.len(), 34);
    assert_eq!(r[0], 0x72);
    assert_eq!(&r[1..9], &17i64.to_be_bytes());
    assert_eq!(&r[9..17], &17i64.to_be_bytes());
    assert_eq!(&r[17..25], &17i64.to_be_bytes());
    assert_eq!(&r[25..33], &0x0102u64.to_be_bytes());
    assert_eq!(r[33], 1);
}

#[test]
fn clock_since_2000() {
    assert_eq!(micros_since_2000(946_684_800_000_000), Some(0));
    assert_eq!(micros_since_2000(946_684_800_000_001), Some(1));
    assert_eq!(micros_since_2000(5), None);
    assert_eq!(micros_since_2000(u128::MAX), None);
}

#[test]
fn replication_queries() {
    assert_eq!(
        create_slot_query("test1"),
        "CREATE_REPLICATION_SLOT test1 TEMPORARY LOGICAL wal2json"
    );
    assert_eq!(
        start_replication_query("test1", "0/16B3748"),
        "START_REPLICATION SLOT test1 LOGICAL 0/16B3748"
    );
}

#[test]
fn exactly_one_document() {
    assert_eq!(check_document_count(1), Ok(()));
    assert_eq!(check_document_count(0), Err(ConfigError::DocumentCount(0)));
    assert_eq!(check_document_count(2), Err(ConfigError::DocumentCount(2)));
}

#[test]
fn batches_keep_positions_ordered() {
    let mut s = State::new("p".into(), "s".into());
    let mut last_start = s.wal.start;
    for start in [0x10i64, 0x20, 0x20, 0x35] {
        let h = header(start, start + 8, 0);
        s.start(&h).unwrap();
        s.done(&h).unwrap();
        assert!(s.wal.flushed >= s.wal.applied);
        assert!(s.wal.start >= last_start);
        assert_eq!(s.wal.flushed, s.wal.start);
        last_start = s.wal.start;
    }
}

#[test]
fn frames_drive_the_state() {
    let mut s = State::new("p".into(), "s".into());
    let mut f = vec![0x77];
    let h = header(0x10, 0x18, 0x20);
    f.extend_from_slice(&h);
    f.extend_from_slice(b"{\"change\":[]}");
    assert_eq!(
        s.on_frame(&f, 7),
        Step::Decode { header: h.clone(), payload: b"{\"change\":[]}".to_vec() }
    );
    assert_eq!(s.wal.start, 0x10);
    assert_eq!(s.wal.flushed, 0);
    s.done(&h).unwrap();
    match s.on_frame(&[0x6b, 0, 0, 1], 7) {
        Step::Reply(b) => {
            assert_eq!(b.len(), 34);
            assert_eq!(&b[1..9], &17i64.to_be_bytes());
            assert_eq!(&b[25..33], &7u64.to_be_bytes());
        }
        other => panic!("expected a reply, got {:?}", other),
    }
    assert_eq!(s.on_frame(&[0x6b, 0, 0, 0], 7), Step::Skip);
    assert_eq!(s.on_frame(&[0x77, 0, 0], 7), Step::Skip);
    assert_eq!(s.on_frame(&[], 7), Step::Skip);
    assert_eq!(s.wal.start, 0x10);
}
