use vstd::prelude::*;

verus! {

/// The unsigned number that bytes spell, most significant byte first.
pub open spec fn be_value(b: Seq<u8>) -> nat
    decreases b.len(),
{
    if b.len() == 0 {
        0
    } else {
        be_value(b.drop_last()) * 256 + b.last() as nat
    }
}

/// The 64-bit two's-complement integer that eight bytes spell, big-endian.
pub open spec fn be_i64(b: Seq<u8>) -> i64 {
    be_value(b) as i64
}

/// The 64-bit pattern of an integer, reduced modulo 2^64.
pub open spec fn bits64(x: int) -> nat {
    (x % 0x1_0000_0000_0000_0000int) as nat
}

/// Relies on i64::from_be_bytes: the integer that the bytes spell, most significant first.
#[verifier::external_body]
fn i64_from_be(b: [u8; 8]) -> (r: i64)
    ensures
        r == be_i64(b@),
{
    i64::from_be_bytes(b)
}

/// Relies on i64::to_be_bytes: the two's-complement bytes, most significant first.
#[verifier::external_body]
pub(crate) fn i64_to_be(x: i64) -> (r: [u8; 8])
    ensures
        be_value(r@) == bits64(x as int),
{
    x.to_be_bytes()
}

/// Relies on u64::to_be_bytes: the bytes of the number, most significant first.
#[verifier::external_body]
pub(crate) fn u64_to_be(x: u64) -> (r: [u8; 8])
    ensures
        be_value(r@) == x,
{
    x.to_be_bytes()
}

/// Positions in the write-ahead log, as last seen, flushed and applied.
#[derive(Debug, Clone, Copy, PartialEq, Eq, Structural, Default)]
pub struct WalState {
    pub start: i64,
    pub flushed: i64,
    pub applied: i64,
    pub clock: i64,
}

/// Failure to read a WAL header.
#[derive(Debug, Clone, Copy, PartialEq, Eq, Structural)]
pub enum StateUpdateError {
    /// The header is shorter than the 24 bytes it must hold.
    ParseError,
}

/// Length of the WAL header of an XLogData frame.
pub const WAL_HEADER_LEN: usize = 24;

/// The replication progress that is persisted between runs.
#[derive(Debug, Clone)]
pub struct State {
    pub slot: String,
    pub last_consistent_point: String,
    pub wal: WalState,
    /// Where the state is persisted; not part of the stored form.
    pub path: String,
}

/// Positions are ordered: applied ≤ flushed ≤ start.
pub open spec fn wal_ordered(w: WalState) -> bool {
    w.applied <= w.flushed && w.flushed <= w.start
}

/// What reading a WAL header does to the positions.
pub open spec fn wal_after_start(w: WalState, hdr: Seq<u8>) -> WalState {
    WalState { start: be_i64(hdr.subrange(0, 8)), clock: be_i64(hdr.subrange(16, 24)), ..w }
}

/// What finishing a batch does to the positions.
pub open spec fn wal_after_done(w: WalState) -> WalState {
    WalState { flushed: w.start, applied: w.start, ..w }
}

fn header_word(data: &[u8], at: usize) -> (r: i64)
    requires
        at + 8 <= data@.len(),
    ensures
        r == be_i64(data@.subrange(at as int, at + 8)),
{
    let b: [u8; 8] = [
        data[at],
        data[at + 1],
        data[at + 2],
        data[at + 3],
        data[at + 4],
        data[at + 5],
        data[at + 6],
        data[at + 7],
    ];
    assert(b@ =~= data@.subrange(at as int, at + 8));
    i64_from_be(b)
}

impl State {
    /// A state with no progress yet, for slot `slot`, persisted at `path`.
    pub fn new(path: String, slot: String) -> (r: State)
        ensures
            r.path@ == path@,
            r.slot@ == slot@,
            r.last_consistent_point@.len() == 0,
            r.wal == (WalState { start: 0, flushed: 0, applied: 0, clock: 0 }),
    {
        State {
            slot,
            last_consistent_point: String::new(),
            wal: WalState { start: 0, flushed: 0, applied: 0, clock: 0 },
            path,
        }
    }

    /// The replication slot's name.
    pub fn slot(&self) -> (r: &str)
        ensures
            r@ == self.slot@,
    {
        self.slot.as_str()
    }

    /// The flushed position plus one, as eight big-endian bytes.
    pub fn last_flushed(&self) -> (r: [u8; 8])
        ensures
            be_value(r@) == bits64(self.wal.flushed + 1),
    {
        let n = self.wal.flushed.wrapping_add(1);
        proof { lemma_wrap_bits(self.wal.flushed); }
        i64_to_be(n)
    }

    /// The applied position plus one, as eight big-endian bytes.
    pub fn last_applied(&self) -> (r: [u8; 8])
        ensures
            be_value(r@) == bits64(self.wal.applied + 1),
    {
        let n = self.wal.applied.wrapping_add(1);
        proof { lemma_wrap_bits(self.wal.applied); }
        i64_to_be(n)
    }

    /// Reads a WAL header: its first word becomes the start position and its
    /// third word the server clock.
    pub fn start(&mut self, data: &[u8]) -> (r: Result<(), StateUpdateError>)
        ensures
            r is Ok <==> data@.len() >= WAL_HEADER_LEN,
            r is Ok ==> final(self).wal == wal_after_start(old(self).wal, data@),
            r is Err ==> final(self).wal == old(self).wal,
            final(self).slot == old(self).slot,
            final(self).path == old(self).path,
            final(self).last_consistent_point == old(self).last_consistent_point,
    {
        if data.len() < WAL_HEADER_LEN {
            return Err(StateUpdateError::ParseError);
        }
        self.wal.start = header_word(data, 0);
        self.wal.clock = header_word(data, 16);
        Ok(())
    }

    /// Finishes a batch: the start position becomes both flushed and applied.
    /// The caller persists the state afterwards.
    pub fn done(&mut self, _data: &[u8]) -> (r: Result<(), StateUpdateError>)
        ensures
            r is Ok,
            final(self).wal == wal_after_done(old(self).wal),
            final(self).slot == old(self).slot,
            final(self).path == old(self).path,
            final(self).last_consistent_point == old(self).last_consistent_point,
    {
        self.wal.flushed = self.wal.start;
        self.wal.applied = self.wal.start;
        Ok(())
    }
}

proof fn lemma_wrap_bits(x: i64)
    ensures
        bits64(x.wrapping_add(1) as int) == bits64(x + 1),
{
    if x == i64::MAX {
        assert(x.wrapping_add(1) == i64::MIN);
    } else {
        assert(x.wrapping_add(1) == x + 1);
    }
}

/// A batch leaves the positions ordered, and the start position never goes
/// back, as long as each frame's header does not go back: for any ordered
/// positions and header that does not move the start backwards, reading the
/// header and finishing the batch gives ordered positions with
/// applied = flushed = start, and start at least the former start.
pub proof fn lemma_batch_keeps_order(w: WalState, hdr: Seq<u8>)
    requires
        wal_ordered(w),
        hdr.len() >= WAL_HEADER_LEN,
        be_i64(hdr.subrange(0, 8)) >= w.start,
    ensures
        wal_ordered(wal_after_start(w, hdr)),
        wal_ordered(wal_after_done(wal_after_start(w, hdr))),
        wal_after_done(wal_after_start(w, hdr)).start >= w.start,
        wal_after_done(wal_after_start(w, hdr)).flushed >= wal_after_done(wal_after_start(w, hdr)).applied,
{
}

} // verus!
