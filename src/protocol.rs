use vstd::prelude::*;

use crate::state::{be_value, bits64, u64_to_be, wal_after_start, State, WalState, WAL_HEADER_LEN};

verus! {

/// Seconds from 1970-01-01 to 2000-01-01 UTC.
pub const SECONDS_FROM_UNIX_EPOCH_TO_2000: u128 = 946684800;

/// Type byte of a WAL data frame ('w').
pub const XLOG_DATA: u8 = 0x77;

/// Type byte of a primary keepalive frame ('k').
pub const PRIMARY_KEEPALIVE: u8 = 0x6b;

/// Type byte of a receiver status update ('r').
pub const STATUS_UPDATE: u8 = 0x72;

/// Length of a receiver status update.
pub const STATUS_UPDATE_LEN: usize = 34;

/// An inbound replication frame, by its type byte.
#[derive(Debug, Clone, PartialEq)]
pub enum Frame {
    /// WAL data: a 24-byte header, then the payload.
    XLogData { header: Vec<u8>, payload: Vec<u8> },
    /// A WAL data frame too short to hold its header.
    Truncated,
    /// A keepalive; `reply` when the server asks for an answer now.
    Keepalive { reply: bool },
    /// Any other frame, skipped.
    Other,
}

/// A keepalive asks for a reply when its type is 'k' and its last byte is 1.
pub open spec fn wants_reply(f: Seq<u8>) -> bool {
    f.len() > 0 && f[0] == PRIMARY_KEEPALIVE && f.last() == 1
}

/// Whether the frame is a keepalive that asks for a reply now.
pub fn keepalive_requested(frame: &[u8]) -> (r: bool)
    ensures
        r == wants_reply(frame@),
{
    frame.len() > 0 && frame[0] == PRIMARY_KEEPALIVE && frame[frame.len() - 1] == 1
}

fn copy_range(b: &[u8], from: usize, to: usize) -> (r: Vec<u8>)
    requires
        from <= to <= b@.len(),
    ensures
        r@ == b@.subrange(from as int, to as int),
{
    let mut out: Vec<u8> = Vec::new();
    let mut i: usize = from;
    while i < to
        invariant
            from <= i <= to,
            to <= b@.len(),
            out@ == b@.subrange(from as int, i as int),
        decreases to - i,
    {
        out.push(b[i]);
        assert(out@ =~= b@.subrange(from as int, i + 1));
        i = i + 1;
    }
    out
}

/// Sorts a frame by its first byte; a WAL data frame is split into its
/// header (bytes 1..25) and its payload (bytes 25..).
pub fn classify(frame: &[u8]) -> (r: Frame)
    ensures
        frame@.len() == 0 ==> r == Frame::Other,
        frame@.len() > 0 && frame@[0] == XLOG_DATA && frame@.len() > WAL_HEADER_LEN ==> r == (Frame::XLogData {
            header: r->header,
            payload: r->payload,
        }) && r->header@ == frame@.subrange(1, 25) && r->payload@ == frame@.subrange(
            25,
            frame@.len() as int,
        ),
        frame@.len() > 0 && frame@[0] == XLOG_DATA && frame@.len() <= WAL_HEADER_LEN ==> r
            == Frame::Truncated,
        frame@.len() > 0 && frame@[0] == PRIMARY_KEEPALIVE ==> r == (Frame::Keepalive {
            reply: wants_reply(frame@),
        }),
        frame@.len() > 0 && frame@[0] != XLOG_DATA && frame@[0] != PRIMARY_KEEPALIVE ==> r
            == Frame::Other,
{
    if frame.len() == 0 {
        Frame::Other
    } else if frame[0] == XLOG_DATA {
        if frame.len() <= WAL_HEADER_LEN {
            Frame::Truncated
        } else {
            let header = copy_range(frame, 1, 25);
            let payload = copy_range(frame, 25, frame.len());
            Frame::XLogData { header, payload }
        }
    } else if frame[0] == PRIMARY_KEEPALIVE {
        Frame::Keepalive { reply: keepalive_requested(frame) }
    } else {
        Frame::Other
    }
}

/// Microseconds since 2000-01-01 UTC, from microseconds since the Unix epoch;
/// `None` before 2000 or past what 64 bits hold.
pub fn micros_since_2000(unix_micros: u128) -> (r: Option<u64>)
    ensures
        r == (if unix_micros >= SECONDS_FROM_UNIX_EPOCH_TO_2000 * 1_000_000 && unix_micros
            - SECONDS_FROM_UNIX_EPOCH_TO_2000 * 1_000_000 <= u64::MAX {
            Some((unix_micros - SECONDS_FROM_UNIX_EPOCH_TO_2000 * 1_000_000) as u64)
        } else {
            None
        }),
{
    let epoch: u128 = SECONDS_FROM_UNIX_EPOCH_TO_2000 * 1_000_000;
    if unix_micros < epoch {
        return None;
    }
    let d = unix_micros - epoch;
    if d > u64::MAX as u128 {
        None
    } else {
        Some(d as u64)
    }
}

fn push_all(out: &mut Vec<u8>, b: &[u8; 8])
    ensures
        final(out)@ == old(out)@ + b@,
{
    let mut i: usize = 0;
    let ghost start = out@;
    while i < 8
        invariant
            i <= 8,
            out@ == start + b@.subrange(0, i as int),
        decreases 8 - i,
    {
        out.push(b[i]);
        assert(out@ =~= start + b@.subrange(0, i + 1));
        i = i + 1;
    }
    assert(b@.subrange(0, 8) =~= b@);
}

/// The receiver status update answering a keepalive: 'r', the flushed
/// position plus one (twice: in the received slot and the flushed slot),
/// the applied position plus one, the client clock, and a request for reply.
pub open spec fn is_status_update(r: Seq<u8>, w: WalState, micros: u64) -> bool {
    &&& r.len() == STATUS_UPDATE_LEN
    &&& r[0] == STATUS_UPDATE
    &&& be_value(r.subrange(1, 9)) == bits64(w.flushed + 1)
    &&& be_value(r.subrange(9, 17)) == bits64(w.flushed + 1)
    &&& be_value(r.subrange(17, 25)) == bits64(w.applied + 1)
    &&& be_value(r.subrange(25, 33)) == micros
    &&& r[33] == 1
}

/// Builds the status update for the state's positions and the client clock.
pub fn status_update(state: &State, micros: u64) -> (r: Vec<u8>)
    ensures
        is_status_update(r@, state.wal, micros),
{
    let mut out: Vec<u8> = Vec::new();
    out.push(STATUS_UPDATE);
    let flushed = state.last_flushed();
    let applied = state.last_applied();
    let clock = u64_to_be(micros);
    push_all(&mut out, &flushed);
    push_all(&mut out, &flushed);
    push_all(&mut out, &applied);
    push_all(&mut out, &clock);
    out.push(1);
    assert(out@.subrange(1, 9) =~= flushed@);
    assert(out@.subrange(9, 17) =~= flushed@);
    assert(out@.subrange(17, 25) =~= applied@);
    assert(out@.subrange(25, 33) =~= clock@);
    out
}

/// The query that creates a temporary logical slot with the JSON output plugin.
pub fn create_slot_query(slot: &str) -> (r: String)
    ensures
        r@ == "CREATE_REPLICATION_SLOT "@ + slot@ + " TEMPORARY LOGICAL wal2json"@,
{
    let mut q = String::from_str("CREATE_REPLICATION_SLOT ");
    q.append(slot);
    q.append(" TEMPORARY LOGICAL wal2json");
    q
}

/// The query that starts streaming from slot `slot` at position `lsn`.
pub fn start_replication_query(slot: &str, lsn: &str) -> (r: String)
    ensures
        r@ == "START_REPLICATION SLOT "@ + slot@ + " LOGICAL "@ + lsn@,
{
    let mut q = String::from_str("START_REPLICATION SLOT ");
    q.append(slot);
    q.append(" LOGICAL ");
    q.append(lsn);
    q
}

/// What the receiver does with one inbound frame.
#[derive(Debug, Clone, PartialEq)]
pub enum Step {
    /// Decode the payload and queue its events; then finish the batch with
    /// `done(header)`. A payload that fails to decode is skipped without it.
    Decode { header: Vec<u8>, payload: Vec<u8> },
    /// Send this status update.
    Reply(Vec<u8>),
    /// Nothing to do.
    Skip,
}

impl State {
    /// Handles one inbound frame: a WAL data frame has its header read into
    /// the state and its payload handed on; a keepalive that asks for it gets
    /// a status update stamped `micros`; anything else is skipped.
    pub fn on_frame(&mut self, frame: &[u8], micros: u64) -> (r: Step)
        ensures
            final(self).slot == old(self).slot,
            final(self).path == old(self).path,
            final(self).last_consistent_point == old(self).last_consistent_point,
            frame@.len() > WAL_HEADER_LEN && frame@[0] == XLOG_DATA ==> (r matches Step::Decode {
                header,
                payload,
            } && header@ == frame@.subrange(1, 25) && payload@ == frame@.subrange(
                25,
                frame@.len() as int,
            ) && final(self).wal == wal_after_start(old(self).wal, header@)),
            wants_reply(frame@) ==> (r matches Step::Reply(b) && is_status_update(
                b@,
                old(self).wal,
                micros,
            ) && final(self).wal == old(self).wal),
            !(frame@.len() > WAL_HEADER_LEN && frame@[0] == XLOG_DATA) && !wants_reply(frame@) ==> r
                == Step::Skip && final(self).wal == old(self).wal,
    {
        match classify(frame) {
            Frame::XLogData { header, payload } => {
                let started = self.start(header.as_slice());
                Step::Decode { header, payload }
            },
            Frame::Keepalive { reply } => {
                if reply {
                    Step::Reply(status_update(self, micros))
                } else {
                    Step::Skip
                }
            },
            Frame::Truncated => Step::Skip,
            Frame::Other => Step::Skip,
        }
    }
}

} // verus!
