//! The binary event records of the notification handle, and their decoder.
//!
//! One read fills a buffer with records that follow each other without gaps.
//! A record starts with a fixed part of 24 bytes:
//!
//! | bytes  | field                                   |
//! |--------|-----------------------------------------|
//! | 0..4   | length of the whole record, unsigned    |
//! | 4      | version of the record format            |
//! | 5..8   | reserved, and the length of the header  |
//! | 8..16  | mask of the events that happened        |
//! | 16..20 | descriptor of the file, signed          |
//! | 20..24 | id of the process that caused the event |
//!
//! Integers are in the byte order of the machine, which the caller names.
use crate::kernel;
use crate::text::push_all;
use vstd::prelude::*;

verus! {

/// The length in bytes of the fixed part of an event record.
pub const RECORD_LEN: usize = 24;

/// The one version of the record format that this decoder reads.
pub const RECORD_VERSION: u8 = 3;

/// The order of the bytes of an integer in memory.
#[derive(Clone, Copy, Debug, PartialEq, Eq, Structural)]
pub enum ByteOrder {
    /// Least significant byte first.
    Little,
    /// Most significant byte first.
    Big,
}

/// The fixed part of one event record, as the kernel wrote it.
#[derive(Clone, Copy, Debug, PartialEq, Eq, Structural)]
pub struct RawRecord {
    /// The length that the record declares for itself, in bytes.
    pub event_len: u32,
    /// The version of the record format.
    pub vers: u8,
    /// The events that happened.
    pub mask: u64,
    /// The descriptor of the file, or a negative number where there is none.
    pub fd: i32,
    /// The id of the process that caused the event.
    pub pid: i32,
}

impl RawRecord {
    /// The descriptor of the record, where it has one: the kernel writes a
    /// negative number where an event has no file.
    pub fn descriptor(&self) -> (fd: Option<i32>)
        ensures
            fd == if self.fd >= 0 {
                Some(self.fd)
            } else {
                None
            },
    {
        if self.fd >= 0 {
            Some(self.fd)
        } else {
            None
        }
    }
}

/// The reason why the records of a read cannot be trusted.
#[derive(Clone, Copy, Debug, PartialEq, Eq, Structural)]
pub enum ProtocolError {
    /// A record has a version other than [`RECORD_VERSION`].
    UnsupportedVersion { found: u8 },
}

/// The unsigned integer that the four bytes of `bytes` from `at` on hold.
#[verifier::opaque]
pub open spec fn spec_u32_at(bytes: Seq<u8>, at: int, order: ByteOrder) -> u32 {
    match order {
        ByteOrder::Little => (bytes[at] + bytes[at + 1] * 0x100 + bytes[at + 2] * 0x1_0000 + bytes[at
            + 3] * 0x100_0000) as u32,
        ByteOrder::Big => (bytes[at + 3] + bytes[at + 2] * 0x100 + bytes[at + 1] * 0x1_0000 + bytes[at]
            * 0x100_0000) as u32,
    }
}

/// The signed integer that the four bytes of `bytes` from `at` on hold, in
/// two's complement.
pub open spec fn spec_i32_at(bytes: Seq<u8>, at: int, order: ByteOrder) -> i32 {
    let unsigned = spec_u32_at(bytes, at, order);
    if unsigned >= 0x8000_0000 {
        (unsigned - 0x1_0000_0000) as i32
    } else {
        unsigned as i32
    }
}

/// The unsigned integer that the eight bytes of `bytes` from `at` on hold.
pub open spec fn spec_u64_at(bytes: Seq<u8>, at: int, order: ByteOrder) -> u64 {
    match order {
        ByteOrder::Little => (spec_u32_at(bytes, at, order) + spec_u32_at(bytes, at + 4, order)
            * 0x1_0000_0000) as u64,
        ByteOrder::Big => (spec_u32_at(bytes, at + 4, order) + spec_u32_at(bytes, at, order)
            * 0x1_0000_0000) as u64,
    }
}

/// The four bytes that hold the unsigned integer `value`.
pub open spec fn spec_u32_bytes(value: u32, order: ByteOrder) -> Seq<u8> {
    let b0 = (value % 0x100) as u8;
    let b1 = (value / 0x100 % 0x100) as u8;
    let b2 = (value / 0x1_0000 % 0x100) as u8;
    let b3 = (value / 0x100_0000) as u8;
    match order {
        ByteOrder::Little => seq![b0, b1, b2, b3],
        ByteOrder::Big => seq![b3, b2, b1, b0],
    }
}

/// The four bytes that hold the signed integer `value`, in two's complement.
pub open spec fn spec_i32_bytes(value: i32, order: ByteOrder) -> Seq<u8> {
    if value < 0 {
        spec_u32_bytes((value + 0x1_0000_0000) as u32, order)
    } else {
        spec_u32_bytes(value as u32, order)
    }
}

/// The eight bytes that hold the unsigned integer `value`.
pub open spec fn spec_u64_bytes(value: u64, order: ByteOrder) -> Seq<u8> {
    let low = (value % 0x1_0000_0000) as u32;
    let high = (value / 0x1_0000_0000) as u32;
    match order {
        ByteOrder::Little => spec_u32_bytes(low, order) + spec_u32_bytes(high, order),
        ByteOrder::Big => spec_u32_bytes(high, order) + spec_u32_bytes(low, order),
    }
}

/// The fixed part of `record` as the kernel writes it: the reserved byte is
/// zero, and the length of the header is that of the fixed part.
#[verifier::opaque]
pub open spec fn spec_record_bytes(record: RawRecord, order: ByteOrder) -> Seq<u8> {
    spec_u32_bytes(record.event_len, order) + seq![record.vers, 0u8] + (match order {
        ByteOrder::Little => seq![RECORD_LEN as u8, 0u8],
        ByteOrder::Big => seq![0u8, RECORD_LEN as u8],
    }) + spec_u64_bytes(record.mask, order) + spec_i32_bytes(record.fd, order) + spec_i32_bytes(
        record.pid,
        order,
    )
}

/// The fixed parts of `records`, one after the other.
pub open spec fn spec_stream(records: Seq<RawRecord>, order: ByteOrder) -> Seq<u8>
    decreases records.len(),
{
    if records.len() == 0 {
        Seq::empty()
    } else {
        spec_record_bytes(records[0], order) + spec_stream(records.drop_first(), order)
    }
}

/// The record whose fixed part starts at `at`.
#[verifier::opaque]
pub open spec fn spec_record_at(bytes: Seq<u8>, at: int, order: ByteOrder) -> RawRecord {
    RawRecord {
        event_len: spec_u32_at(bytes, at, order),
        vers: bytes[at + 4],
        mask: spec_u64_at(bytes, at + 8, order),
        fd: spec_i32_at(bytes, at + 16, order),
        pid: spec_i32_at(bytes, at + 20, order),
    }
}

/// `records` in front of what `rest` holds, or the error of `rest`.
pub open spec fn spec_prepend(
    records: Seq<RawRecord>,
    rest: Result<Seq<RawRecord>, ProtocolError>,
) -> Result<Seq<RawRecord>, ProtocolError> {
    match rest {
        Ok(more) => Ok(records + more),
        Err(error) => Err(error),
    }
}

/// What the `remaining` bytes of `bytes` from `at` on decode to.
///
/// The walk ends without an error where fewer bytes remain than a fixed part,
/// or where a record declares a length below that of the fixed part or above
/// what remains. A record of another version makes the whole result an error.
pub open spec fn spec_decode_from(bytes: Seq<u8>, at: int, remaining: int, order: ByteOrder) -> Result<
    Seq<RawRecord>,
    ProtocolError,
>
    decreases remaining,
{
    let record = spec_record_at(bytes, at, order);
    if remaining < RECORD_LEN {
        Ok(Seq::empty())
    } else if record.event_len < RECORD_LEN || record.event_len > remaining {
        Ok(Seq::empty())
    } else if record.vers != RECORD_VERSION {
        Err(ProtocolError::UnsupportedVersion { found: record.vers })
    } else {
        spec_prepend(
            seq![record],
            spec_decode_from(bytes, at + record.event_len, remaining - record.event_len, order),
        )
    }
}

/// What the first `nread` bytes of `bytes` decode to.
pub open spec fn spec_decode(bytes: Seq<u8>, nread: int, order: ByteOrder) -> Result<
    Seq<RawRecord>,
    ProtocolError,
> {
    spec_decode_from(bytes, 0, nread, order)
}

/// The bytes that well-formed `records` take, one after the other.
pub open spec fn spec_span(records: Seq<RawRecord>) -> int
    decreases records.len(),
{
    if records.len() == 0 {
        0
    } else {
        records[0].event_len + spec_span(records.drop_first())
    }
}

/// A record that the decoder accepts where enough bytes remain.
pub open spec fn well_formed(record: RawRecord) -> bool {
    record.event_len >= RECORD_LEN && record.vers == RECORD_VERSION
}

/// From `at` on, `bytes` holds exactly `records`, each well formed and each
/// starting where the one before it ends.
pub open spec fn holds_records(
    bytes: Seq<u8>,
    at: int,
    records: Seq<RawRecord>,
    order: ByteOrder,
) -> bool
    decreases records.len(),
{
    if records.len() == 0 {
        true
    } else {
        &&& spec_record_at(bytes, at, order) == records[0]
        &&& well_formed(records[0])
        &&& holds_records(bytes, at + records[0].event_len, records.drop_first(), order)
    }
}

/// Reads the unsigned integer in the four bytes from `at` on.
fn read_u32(buf: &[u8], at: usize, order: ByteOrder) -> (value: u32)
    requires
        at + 4 <= buf.len(),
    ensures
        value == spec_u32_at(buf@, at as int, order),
{
    reveal(spec_u32_at);
    let b0 = buf[at] as u32;
    let b1 = buf[at + 1] as u32;
    let b2 = buf[at + 2] as u32;
    let b3 = buf[at + 3] as u32;
    match order {
        ByteOrder::Little => b0 + b1 * 0x100 + b2 * 0x1_0000 + b3 * 0x100_0000,
        ByteOrder::Big => b3 + b2 * 0x100 + b1 * 0x1_0000 + b0 * 0x100_0000,
    }
}

/// Reads the signed integer in the four bytes from `at` on.
fn read_i32(buf: &[u8], at: usize, order: ByteOrder) -> (value: i32)
    requires
        at + 4 <= buf.len(),
    ensures
        value == spec_i32_at(buf@, at as int, order),
{
    let unsigned = read_u32(buf, at, order);
    if unsigned >= 0x8000_0000 {
        let low = (unsigned - 0x8000_0000) as i32;
        low + i32::MIN
    } else {
        unsigned as i32
    }
}

/// Reads the unsigned integer in the eight bytes from `at` on.
fn read_u64(buf: &[u8], at: usize, order: ByteOrder) -> (value: u64)
    requires
        at + 8 <= buf.len(),
    ensures
        value == spec_u64_at(buf@, at as int, order),
{
    let first = read_u32(buf, at, order) as u64;
    let second = read_u32(buf, at + 4, order) as u64;
    match order {
        ByteOrder::Little => first + second * 0x1_0000_0000,
        ByteOrder::Big => second + first * 0x1_0000_0000,
    }
}

/// Appends the four bytes that hold the unsigned integer `value`.
pub fn write_u32(out: &mut Vec<u8>, value: u32, order: ByteOrder)
    ensures
        final(out)@ == old(out)@ + spec_u32_bytes(value, order),
{
    let b0 = (value % 0x100) as u8;
    let b1 = (value / 0x100 % 0x100) as u8;
    let b2 = (value / 0x1_0000 % 0x100) as u8;
    let b3 = (value / 0x100_0000) as u8;
    let bytes: [u8; 4] = match order {
        ByteOrder::Little => [b0, b1, b2, b3],
        ByteOrder::Big => [b3, b2, b1, b0],
    };
    assert(bytes@ =~= spec_u32_bytes(value, order));
    push_all(out, bytes.as_slice());
}

/// Appends the four bytes that hold the signed integer `value`.
pub fn write_i32(out: &mut Vec<u8>, value: i32, order: ByteOrder)
    ensures
        final(out)@ == old(out)@ + spec_i32_bytes(value, order),
{
    let unsigned: u32 = if value < 0 {
        ((value - i32::MIN) as u32) + 0x8000_0000
    } else {
        value as u32
    };
    write_u32(out, unsigned, order);
}

/// Reads the fixed part of the record that starts at `at`.
fn read_record(buf: &[u8], at: usize, order: ByteOrder) -> (record: RawRecord)
    requires
        at + RECORD_LEN <= buf.len(),
    ensures
        record == spec_record_at(buf@, at as int, order),
{
    reveal(spec_record_at);
    RawRecord {
        event_len: read_u32(buf, at, order),
        vers: buf[at + 4],
        mask: read_u64(buf, at + 8, order),
        fd: read_i32(buf, at + 16, order),
        pid: read_i32(buf, at + 20, order),
    }
}

/// Decodes the records that one read put into `buf`, of which it filled the
/// first `nread` bytes.
///
/// The records come out in the order in which they lie in the buffer. An
/// incomplete record at the end is left out without an error. If a record
/// has a version other than [`RECORD_VERSION`], nothing is returned but the
/// error.
pub fn decode(buf: &[u8], nread: usize, order: ByteOrder) -> (decoded: Result<
    Vec<RawRecord>,
    ProtocolError,
>)
    requires
        nread <= buf.len(),
    ensures
        match decoded {
            Ok(records) => spec_decode(buf@, nread as int, order) == Ok::<
                Seq<RawRecord>,
                ProtocolError,
            >(records@),
            Err(error) => spec_decode(buf@, nread as int, order) == Err::<
                Seq<RawRecord>,
                ProtocolError,
            >(error),
        },
{
    let fixed = kernel::metadata_len();
    let version = kernel::metadata_version();
    let mut records: Vec<RawRecord> = Vec::new();
    let mut at: usize = 0;
    let mut remaining: usize = nread;
    loop
        invariant
            fixed == RECORD_LEN,
            version == RECORD_VERSION,
            at + remaining == nread <= buf.len(),
            spec_decode(buf@, nread as int, order) == spec_prepend(
                records@,
                spec_decode_from(buf@, at as int, remaining as int, order),
            ),
        decreases remaining,
    {
        if remaining < fixed {
            proof {
                assert(records@ + Seq::<RawRecord>::empty() =~= records@);
            }
            return Ok(records);
        }
        let record = read_record(buf, at, order);
        let len = record.event_len as usize;
        if len < fixed || len > remaining {
            proof {
                assert(records@ + Seq::<RawRecord>::empty() =~= records@);
            }
            return Ok(records);
        }
        if record.vers != version {
            return Err(ProtocolError::UnsupportedVersion { found: record.vers });
        }
        proof {
            let rest = spec_decode_from(buf@, at + len, remaining - len, order);
            if let Ok(more) = rest {
                assert(records@ + (seq![record] + more) =~= records@.push(record) + more);
            }
        }
        records.push(record);
        at = at + len;
        remaining = remaining - len;
    }
}

/// Records take no negative number of bytes.
proof fn lemma_span_nonnegative(records: Seq<RawRecord>)
    ensures
        spec_span(records) >= 0,
    decreases records.len(),
{
    if records.len() > 0 {
        lemma_span_nonnegative(records.drop_first());
    }
}

/// A walk that starts at well-formed records yields them first, in order, and
/// goes on behind them.
proof fn lemma_decode_leading(
    bytes: Seq<u8>,
    at: int,
    records: Seq<RawRecord>,
    remaining: int,
    order: ByteOrder,
)
    requires
        holds_records(bytes, at, records, order),
        spec_span(records) <= remaining,
    ensures
        spec_decode_from(bytes, at, remaining, order) == spec_prepend(
            records,
            spec_decode_from(bytes, at + spec_span(records), remaining - spec_span(records), order),
        ),
    decreases records.len(),
{
    if records.len() == 0 {
        if let Ok(more) = spec_decode_from(bytes, at, remaining, order) {
            assert(records + more =~= more);
        }
    } else {
        let first = records[0];
        let others = records.drop_first();
        lemma_span_nonnegative(others);
        lemma_decode_leading(
            bytes,
            at + first.event_len,
            others,
            remaining - first.event_len,
            order,
        );
        let behind = spec_decode_from(
            bytes,
            at + spec_span(records),
            remaining - spec_span(records),
            order,
        );
        if let Ok(more) = behind {
            assert(seq![first] + (others + more) =~= records + more);
        }
    }
}

/// A buffer that holds nothing but `records`, each well formed, decodes to
/// exactly these records in their order.
pub proof fn lemma_decode_well_formed(bytes: Seq<u8>, records: Seq<RawRecord>, order: ByteOrder)
    requires
        holds_records(bytes, 0, records, order),
    ensures
        spec_decode(bytes, spec_span(records), order) == Ok::<Seq<RawRecord>, ProtocolError>(
            records,
        ),
{
    lemma_decode_leading(bytes, 0, records, spec_span(records), order);
    assert(records + Seq::<RawRecord>::empty() =~= records);
}

/// Where the well-formed `records` are followed by a record that is cut off,
/// the buffer decodes to `records` alone, without an error: either fewer bytes
/// than a fixed part follow them, or the record that follows declares more
/// bytes than were read.
pub proof fn lemma_decode_truncated(
    bytes: Seq<u8>,
    records: Seq<RawRecord>,
    nread: int,
    order: ByteOrder,
)
    requires
        holds_records(bytes, 0, records, order),
        spec_span(records) <= nread,
        nread - spec_span(records) < RECORD_LEN || spec_record_at(
            bytes,
            spec_span(records),
            order,
        ).event_len > nread - spec_span(records),
    ensures
        spec_decode(bytes, nread, order) == Ok::<Seq<RawRecord>, ProtocolError>(records),
{
    lemma_decode_leading(bytes, 0, records, nread, order);
    assert(records + Seq::<RawRecord>::empty() =~= records);
}

/// A complete record of another version makes the whole decode fail, whatever
/// well-formed records lie before it and whatever follows it.
pub proof fn lemma_decode_version_mismatch(
    bytes: Seq<u8>,
    records: Seq<RawRecord>,
    nread: int,
    order: ByteOrder,
)
    requires
        holds_records(bytes, 0, records, order),
        ({
            let bad = spec_record_at(bytes, spec_span(records), order);
            &&& RECORD_LEN <= bad.event_len <= nread - spec_span(records)
            &&& bad.vers != RECORD_VERSION
        }),
    ensures
        spec_decode(bytes, nread, order) == Err::<Seq<RawRecord>, ProtocolError>(
            ProtocolError::UnsupportedVersion {
                found: spec_record_at(bytes, spec_span(records), order).vers,
            },
        ),
{
    lemma_decode_leading(bytes, 0, records, nread, order);
}

/// What the decoder yields lies in the buffer: the records are well formed,
/// follow each other from the start, and end within what was read.
pub proof fn lemma_decoded_lie_in_buffer(bytes: Seq<u8>, nread: int, order: ByteOrder)
    requires
        0 <= nread,
    ensures
        spec_decode(bytes, nread, order) matches Ok(records) ==> holds_records(
            bytes,
            0,
            records,
            order,
        ) && spec_span(records) <= nread,
{
    lemma_decoded_from(bytes, 0, nread, order);
}

proof fn lemma_decoded_from(bytes: Seq<u8>, at: int, remaining: int, order: ByteOrder)
    requires
        0 <= remaining,
    ensures
        spec_decode_from(bytes, at, remaining, order) matches Ok(records) ==> holds_records(
            bytes,
            at,
            records,
            order,
        ) && spec_span(records) <= remaining,
    decreases remaining,
{
    let record = spec_record_at(bytes, at, order);
    if remaining >= RECORD_LEN && RECORD_LEN <= record.event_len <= remaining && record.vers
        == RECORD_VERSION {
        lemma_decoded_from(bytes, at + record.event_len, remaining - record.event_len, order);
        let rest = spec_decode_from(bytes, at + record.event_len, remaining - record.event_len, order);
        if let Ok(more) = rest {
            assert((seq![record] + more).drop_first() =~= more);
        }
    }
}

/// Four bytes that were written for an unsigned integer read back as that
/// integer, wherever they lie.
pub proof fn lemma_u32_round_trip(bytes: Seq<u8>, at: int, value: u32, order: ByteOrder)
    requires
        0 <= at,
        at + 4 <= bytes.len(),
        bytes.subrange(at, at + 4) == spec_u32_bytes(value, order),
    ensures
        spec_u32_at(bytes, at, order) == value,
{
    reveal(spec_u32_at);
    let part = bytes.subrange(at, at + 4);
    assert(part[0] == bytes[at] && part[1] == bytes[at + 1] && part[2] == bytes[at + 2] && part[3]
        == bytes[at + 3]);
}

/// Four bytes that were written for a signed integer read back as that
/// integer, wherever they lie.
pub proof fn lemma_i32_round_trip(bytes: Seq<u8>, at: int, value: i32, order: ByteOrder)
    requires
        0 <= at,
        at + 4 <= bytes.len(),
        bytes.subrange(at, at + 4) == spec_i32_bytes(value, order),
    ensures
        spec_i32_at(bytes, at, order) == value,
{
    if value < 0 {
        lemma_u32_round_trip(bytes, at, (value + 0x1_0000_0000) as u32, order);
    } else {
        lemma_u32_round_trip(bytes, at, value as u32, order);
    }
}

/// Eight bytes that were written for an unsigned integer read back as that
/// integer, wherever they lie.
pub proof fn lemma_u64_round_trip(bytes: Seq<u8>, at: int, value: u64, order: ByteOrder)
    requires
        0 <= at,
        at + 8 <= bytes.len(),
        bytes.subrange(at, at + 8) == spec_u64_bytes(value, order),
    ensures
        spec_u64_at(bytes, at, order) == value,
{
    let part = bytes.subrange(at, at + 8);
    let low = (value % 0x1_0000_0000) as u32;
    let high = (value / 0x1_0000_0000) as u32;
    assert(bytes.subrange(at, at + 4) =~= part.subrange(0, 4));
    assert(bytes.subrange(at + 4, at + 8) =~= part.subrange(4, 8));
    match order {
        ByteOrder::Little => {
            assert(part.subrange(0, 4) =~= spec_u32_bytes(low, order));
            assert(part.subrange(4, 8) =~= spec_u32_bytes(high, order));
            lemma_u32_round_trip(bytes, at, low, order);
            lemma_u32_round_trip(bytes, at + 4, high, order);
        },
        ByteOrder::Big => {
            assert(part.subrange(0, 4) =~= spec_u32_bytes(high, order));
            assert(part.subrange(4, 8) =~= spec_u32_bytes(low, order));
            lemma_u32_round_trip(bytes, at, high, order);
            lemma_u32_round_trip(bytes, at + 4, low, order);
        },
    }
}

/// The fixed part of a record reads back as that record, wherever it lies.
pub proof fn lemma_record_round_trip(
    bytes: Seq<u8>,
    at: int,
    record: RawRecord,
    order: ByteOrder,
)
    requires
        0 <= at,
        at + RECORD_LEN <= bytes.len(),
        bytes.subrange(at, at + RECORD_LEN) == spec_record_bytes(record, order),
    ensures
        spec_record_at(bytes, at, order) == record,
{
    reveal(spec_record_bytes);
    reveal(spec_record_at);
    let part = bytes.subrange(at, at + RECORD_LEN);
    assert(spec_record_bytes(record, order).len() == RECORD_LEN);
    assert(bytes.subrange(at, at + 4) =~= part.subrange(0, 4));
    assert(part.subrange(0, 4) =~= spec_u32_bytes(record.event_len, order));
    lemma_u32_round_trip(bytes, at, record.event_len, order);
    assert(bytes[at + 4] == part[4]);
    assert(bytes.subrange(at + 8, at + 16) =~= part.subrange(8, 16));
    assert(part.subrange(8, 16) =~= spec_u64_bytes(record.mask, order));
    lemma_u64_round_trip(bytes, at + 8, record.mask, order);
    assert(bytes.subrange(at + 16, at + 20) =~= part.subrange(16, 20));
    assert(part.subrange(16, 20) =~= spec_i32_bytes(record.fd, order));
    lemma_i32_round_trip(bytes, at + 16, record.fd, order);
    assert(bytes.subrange(at + 20, at + 24) =~= part.subrange(20, 24));
    assert(part.subrange(20, 24) =~= spec_i32_bytes(record.pid, order));
    lemma_i32_round_trip(bytes, at + 20, record.pid, order);
}

/// The fixed part of a record has its length.
pub proof fn lemma_record_bytes_len(record: RawRecord, order: ByteOrder)
    ensures
        spec_record_bytes(record, order).len() == RECORD_LEN,
{
    reveal(spec_record_bytes);
}

/// What lies between two runs of bytes is found at the end of the first.
proof fn lemma_middle(head: Seq<u8>, part: Seq<u8>, tail: Seq<u8>)
    ensures
        (head + part + tail).subrange(head.len() as int, (head.len() + part.len()) as int) == part,
{
    assert((head + part + tail).subrange(head.len() as int, (head.len() + part.len()) as int)
        =~= part);
}

/// All of `records` have the length of the fixed part and the right version.
pub open spec fn all_plain(records: Seq<RawRecord>) -> bool {
    forall|i: int|
        0 <= i < records.len() ==> (#[trigger] records[i]).event_len == RECORD_LEN && records[i].vers
            == RECORD_VERSION
}

/// Between any bytes, the fixed parts of plain records lie as a run of
/// well-formed records.
proof fn lemma_stream_holds(
    head: Seq<u8>,
    records: Seq<RawRecord>,
    tail: Seq<u8>,
    order: ByteOrder,
)
    requires
        all_plain(records),
    ensures
        holds_records(
            head + spec_stream(records, order) + tail,
            head.len() as int,
            records,
            order,
        ),
        spec_span(records) == RECORD_LEN * records.len(),
        spec_stream(records, order).len() == RECORD_LEN * records.len(),
    decreases records.len(),
{
    if records.len() > 0 {
        let first = records[0];
        let others = records.drop_first();
        let bytes = head + spec_stream(records, order) + tail;
        let part = spec_record_bytes(first, order);
        lemma_record_bytes_len(first, order);
        assert forall|i: int| 0 <= i < others.len() implies (#[trigger] others[i]).event_len
            == RECORD_LEN && others[i].vers == RECORD_VERSION by {
            assert(others[i] == records[i + 1]);
        }
        lemma_stream_holds(head + part, others, tail, order);
        assert(bytes =~= (head + part) + spec_stream(others, order) + tail);
        assert(bytes =~= head + part + (spec_stream(others, order) + tail));
        lemma_middle(head, part, spec_stream(others, order) + tail);
        lemma_record_round_trip(bytes, head.len() as int, first, order);
    }
}

/// The fixed parts of `n` plain records, written one after the other, decode
/// to exactly these `n` records in their order.
pub proof fn lemma_decode_stream(records: Seq<RawRecord>, order: ByteOrder)
    requires
        all_plain(records),
    ensures
        spec_decode(spec_stream(records, order), RECORD_LEN * records.len(), order) == Ok::<
            Seq<RawRecord>,
            ProtocolError,
        >(records),
{
    lemma_stream_holds(Seq::empty(), records, Seq::empty(), order);
    assert(Seq::<u8>::empty() + spec_stream(records, order) + Seq::<u8>::empty() =~= spec_stream(
        records,
        order,
    ));
    lemma_decode_well_formed(spec_stream(records, order), records, order);
}

/// Where a read ends inside a record, the records before it are decoded and
/// there is no error: behind `records`, fewer bytes than a fixed part were
/// read, whatever they are.
pub proof fn lemma_decode_cut_stream(
    records: Seq<RawRecord>,
    rest: Seq<u8>,
    nread: int,
    order: ByteOrder,
)
    requires
        all_plain(records),
        RECORD_LEN * records.len() <= nread < RECORD_LEN * records.len() + RECORD_LEN,
    ensures
        spec_decode(spec_stream(records, order) + rest, nread, order) == Ok::<
            Seq<RawRecord>,
            ProtocolError,
        >(records),
{
    lemma_stream_holds(Seq::empty(), records, rest, order);
    assert(Seq::<u8>::empty() + spec_stream(records, order) + rest =~= spec_stream(records, order)
        + rest);
    lemma_decode_truncated(spec_stream(records, order) + rest, records, nread, order);
}

/// A record of another version fails the whole decode, whatever plain records
/// were read before it and whatever bytes were read behind it.
pub proof fn lemma_decode_stream_of_another_version(
    records: Seq<RawRecord>,
    bad: RawRecord,
    rest: Seq<u8>,
    nread: int,
    order: ByteOrder,
)
    requires
        all_plain(records),
        bad.event_len == RECORD_LEN,
        bad.vers != RECORD_VERSION,
        RECORD_LEN * records.len() + RECORD_LEN <= nread,
    ensures
        spec_decode(
            spec_stream(records, order) + spec_record_bytes(bad, order) + rest,
            nread,
            order,
        ) == Err::<Seq<RawRecord>, ProtocolError>(
            ProtocolError::UnsupportedVersion { found: bad.vers },
        ),
{
    let part = spec_record_bytes(bad, order);
    let stream = spec_stream(records, order);
    let bytes = stream + part + rest;
    lemma_stream_holds(Seq::empty(), records, part + rest, order);
    assert(Seq::<u8>::empty() + stream + (part + rest) =~= bytes);
    let at = spec_span(records);
    lemma_record_bytes_len(bad, order);
    lemma_middle(stream, part, rest);
    lemma_record_round_trip(bytes, at, bad, order);
    lemma_decode_version_mismatch(bytes, records, nread, order);
}

} // verus!
