//! The append-only history log: a flat run of records, each a length in four bytes,
//! little-endian, and as many bytes of body.
use crate::bytes;
use crate::bytes::{copy_range, put_bytes, put_u32le, u32le};
use crate::ids::Id;
use crate::monitor::{CallRecord, CallRecordModel, SdsRecord};
use crate::telemetry::{SdsTelemetryModel, SdsTelemetryRecord};
use vstd::prelude::*;

verus! {

/// One event of the history, in the order in which they occurred.
#[derive(Debug, Clone)]
pub enum StoredRecord {
    /// A call that has ended.
    Call(CallRecord),
    /// A short data message.
    Sds(SdsRecord),
    /// A delivery report for an earlier message.
    SdsReport { uuid: Id },
    /// A short data message that a base station told of.
    SdsTelemetry(SdsTelemetryRecord),
}

#[verifier::ext_equal]
pub enum RecordModel {
    Call(CallRecordModel),
    Sds(SdsRecord),
    SdsReport(Id),
    SdsTelemetry(SdsTelemetryModel),
}

impl View for StoredRecord {
    type V = RecordModel;

    open spec fn view(&self) -> RecordModel {
        match self {
            StoredRecord::Call(c) => RecordModel::Call(c@),
            StoredRecord::Sds(s) => RecordModel::Sds(*s),
            StoredRecord::SdsReport { uuid } => RecordModel::SdsReport(*uuid),
            StoredRecord::SdsTelemetry(e) => RecordModel::SdsTelemetry(e@),
        }
    }
}

pub open spec fn record_models(v: Seq<StoredRecord>) -> Seq<RecordModel> {
    Seq::new(v.len(), |i: int| v[i]@)
}

/// A record as it stands in the log. The length field counts modulo 2^32.
pub open spec fn framed(body: Seq<u8>) -> Seq<u8> {
    bytes::le32_bytes((body.len() % 0x1_0000_0000) as u32) + body
}

/// The log of records, one after the other.
pub open spec fn log_of(bodies: Seq<Seq<u8>>) -> Seq<u8>
    decreases bodies.len(),
{
    if bodies.len() == 0 {
        seq![]
    } else {
        log_of(bodies.drop_last()) + framed(bodies.last())
    }
}

/// The bodies of the complete records of a log from `pos` on. What is left behind the
/// last of them, a record cut short, is passed over.
pub open spec fn bodies_from(log: Seq<u8>, pos: int) -> Seq<Seq<u8>>
    decreases log.len() - pos,
{
    if pos < 0 || pos + 4 > log.len() {
        seq![]
    } else {
        let end = pos + 4 + bytes::le32(log, pos);
        if end < pos + 4 || end > log.len() {
            seq![]
        } else {
            seq![log.subrange(pos + 4, end)] + bodies_from(log, end)
        }
    }
}

/// Frames the body of a record for the log.
pub fn frame(body: &[u8]) -> (r: Vec<u8>)
    ensures
        r@ == framed(body@),
{
    let n: usize = body.len();
    let m: u32 = (n as u64 % 0x1_0000_0000) as u32;
    let mut out: Vec<u8> = Vec::new();
    put_u32le(&mut out, m);
    put_bytes(&mut out, body);
    assert(out@ =~= framed(body@));
    out
}

pub open spec fn body_views(v: Seq<Vec<u8>>) -> Seq<Seq<u8>> {
    Seq::new(v.len(), |i: int| v[i]@)
}

/// Reads the bodies of the complete records of a log.
pub fn read_frames(log: &[u8]) -> (r: Vec<Vec<u8>>)
    ensures
        body_views(r@) == bodies_from(log@, 0),
{
    let n: usize = log.len();
    let mut out: Vec<Vec<u8>> = Vec::new();
    let mut pos: usize = 0;
    while n - pos >= 4
        invariant_except_break
            bodies_from(log@, 0) == body_views(out@) + bodies_from(log@, pos as int),
        invariant
            n == log@.len(),
            pos <= n,
        ensures
            bodies_from(log@, 0) == body_views(out@),
        decreases n - pos,
    {
        let len: usize = u32le(log, pos) as usize;
        let start: usize = pos + 4;
        if len > n - start {
            assert(bodies_from(log@, pos as int) =~= Seq::<Seq<u8>>::empty());
            assert(body_views(out@) + bodies_from(log@, pos as int) =~= body_views(out@));
            break;
        }
        let end: usize = start + len;
        let ghost before = body_views(out@);
        let body = copy_range(log, start, end);
        let ghost b = body@;
        out.push(body);
        assert(body_views(out@) =~= before.push(b));
        assert(bodies_from(log@, pos as int) == seq![b] + bodies_from(log@, end as int));
        assert(before + (seq![b] + bodies_from(log@, end as int)) =~= before.push(b) + bodies_from(
            log@,
            end as int,
        ));
        pos = end;
    }
    out
}

/// The records before the first body that could not be decoded.
pub open spec fn good(records: Seq<Option<RecordModel>>) -> Seq<RecordModel>
    decreases records.len(),
{
    if records.len() == 0 || records[0] is None {
        seq![]
    } else {
        seq![records[0]->0] + good(records.subrange(1, records.len() as int))
    }
}

pub open spec fn decoded_models(v: Seq<Option<StoredRecord>>) -> Seq<Option<RecordModel>> {
    Seq::new(
        v.len(),
        |i: int|
            match v[i] {
                Some(r) => Some(r@),
                None => None,
            },
    )
}

/// Keeps the records before the first one that could not be decoded.
pub fn replay(decoded: Vec<Option<StoredRecord>>) -> (r: Vec<StoredRecord>)
    ensures
        record_models(r@) == good(decoded_models(decoded@)),
{
    let ghost all = decoded_models(decoded@);
    let mut left = decoded;
    let mut out: Vec<StoredRecord> = Vec::new();
    while left.len() > 0
        invariant_except_break
            good(all) == record_models(out@) + good(decoded_models(left@)),
        ensures
            good(all) == record_models(out@),
        decreases left.len(),
    {
        let ghost whole = decoded_models(left@);
        let ghost before = record_models(out@);
        let first = left.remove(0);
        assert(decoded_models(left@) =~= whole.subrange(1, whole.len() as int));
        match first {
            Some(rec) => {
                let ghost m = rec@;
                out.push(rec);
                assert(record_models(out@) =~= before.push(m));
                assert(before + (seq![m] + good(decoded_models(left@))) =~= before.push(m) + good(
                    decoded_models(left@),
                ));
            },
            None => {
                assert(good(whole) =~= Seq::<RecordModel>::empty());
                assert(before + good(whole) =~= before);
                break;
            },
        }
    }
    assert(good(all) =~= record_models(out@));
    out
}

/// Reading starts at a record however much log stands before it.
proof fn reading_is_local(head: Seq<u8>, tail: Seq<u8>, pos: int)
    requires
        0 <= pos,
    ensures
        bodies_from(head + tail, head.len() + pos) == bodies_from(tail, pos),
    decreases tail.len() - pos,
{
    let log = head + tail;
    let at = head.len() + pos;
    if pos + 4 <= tail.len() {
        assert(bytes::le32(log, at) == bytes::le32(tail, pos));
        let end = pos + 4 + bytes::le32(tail, pos);
        if end >= pos + 4 && end <= tail.len() {
            reading_is_local(head, tail, end);
            assert(log.subrange(at + 4, head.len() + end) =~= tail.subrange(pos + 4, end));
        }
    }
}

/// What is read first does not depend on what was appended later, provided that the
/// log ended with a complete record.
proof fn first_record_is_read(body: Seq<u8>, rest: Seq<u8>)
    requires
        body.len() < 0x1_0000_0000,
    ensures
        bodies_from(framed(body) + rest, 0) == seq![body] + bodies_from(rest, 0),
{
    let log = framed(body) + rest;
    let n = body.len() as u32;
    bytes::le32_round_trip(n);
    assert(log.subrange(0, 4) =~= bytes::le32_bytes(n));
    assert(bytes::le32(log, 0) == bytes::le32(bytes::le32_bytes(n), 0));
    assert(log.subrange(4, 4 + n) =~= body);
    reading_is_local(framed(body), rest, 0);
}

proof fn log_splits(bodies: Seq<Seq<u8>>)
    requires
        bodies.len() > 0,
    ensures
        log_of(bodies) == framed(bodies[0]) + log_of(bodies.subrange(1, bodies.len() as int)),
    decreases bodies.len(),
{
    let tail = bodies.subrange(1, bodies.len() as int);
    if bodies.len() == 1 {
        assert(bodies.drop_last() =~= Seq::<Seq<u8>>::empty());
        assert(tail =~= Seq::<Seq<u8>>::empty());
        assert(log_of(bodies) =~= framed(bodies[0]) + log_of(tail));
    } else {
        let init = bodies.drop_last();
        log_splits(init);
        let init_tail = init.subrange(1, init.len() as int);
        assert(tail.drop_last() =~= init_tail);
        assert(tail.last() == bodies.last());
        assert(log_of(bodies) =~= framed(bodies[0]) + log_of(tail));
    }
}

/// Whatever was appended is read back, in order, and a record that was cut short
/// behind it does not change that: `torn` is less than a whole record.
pub proof fn appended_records_are_read_back(bodies: Seq<Seq<u8>>, torn: Seq<u8>)
    requires
        forall|i: int| 0 <= i < bodies.len() ==> (#[trigger] bodies[i]).len() < 0x1_0000_0000,
        torn.len() < 4 || torn.len() < 4 + bytes::le32(torn, 0),
    ensures
        bodies_from(log_of(bodies) + torn, 0) == bodies,
    decreases bodies.len(),
{
    if bodies.len() == 0 {
        assert(log_of(bodies) + torn =~= torn);
        assert(bodies_from(torn, 0) =~= bodies);
    } else {
        let tail = bodies.subrange(1, bodies.len() as int);
        log_splits(bodies);
        appended_records_are_read_back(tail, torn);
        assert(log_of(bodies) + torn =~= framed(bodies[0]) + (log_of(tail) + torn));
        first_record_is_read(bodies[0], log_of(tail) + torn);
        assert(seq![bodies[0]] + tail =~= bodies);
    }
}

/// Appending to a log adds one record behind those it held, whether or not the writer
/// was restarted in between.
pub proof fn appending_adds_one_record(bodies: Seq<Seq<u8>>, body: Seq<u8>)
    requires
        forall|i: int| 0 <= i < bodies.len() ==> (#[trigger] bodies[i]).len() < 0x1_0000_0000,
        body.len() < 0x1_0000_0000,
    ensures
        bodies_from(log_of(bodies) + framed(body), 0) == bodies.push(body),
{
    let all = bodies.push(body);
    assert(all.drop_last() =~= bodies);
    assert forall|i: int| 0 <= i < all.len() implies (#[trigger] all[i]).len() < 0x1_0000_0000 by {
        if i < bodies.len() {
            assert(all[i] == bodies[i]);
        }
    }
    appended_records_are_read_back(all, seq![]);
    assert(log_of(all) + Seq::<u8>::empty() =~= log_of(bodies) + framed(body));
}

/// What a log is replayed to when `decode` reads the body of a record: the records up to
/// the first that cannot be read.
pub open spec fn replayed(
    log: Seq<u8>,
    decode: spec_fn(Seq<u8>) -> Option<RecordModel>,
) -> Seq<RecordModel> {
    good(bodies_from(log, 0).map_values(decode))
}

/// Records that can all be read are all good.
proof fn readable_records_are_good(records: Seq<RecordModel>)
    ensures
        good(records.map_values(|r: RecordModel| Some(r))) == records,
    decreases records.len(),
{
    let read = records.map_values(|r: RecordModel| Some(r));
    if records.len() > 0 {
        let tail = records.subrange(1, records.len() as int);
        readable_records_are_good(tail);
        assert(read.subrange(1, read.len() as int) =~= tail.map_values(
            |r: RecordModel| Some(r),
        ));
        assert(seq![records[0]] + tail =~= records);
    }
}

/// A log is replayed to the records that were appended to it, in order, whatever encoding
/// they were written in, provided that it can be read again; a record that was cut short
/// behind them gives nothing and is no error. `torn` is less than a whole record.
pub proof fn replay_gives_back_what_was_appended(
    records: Seq<RecordModel>,
    encode: spec_fn(RecordModel) -> Seq<u8>,
    decode: spec_fn(Seq<u8>) -> Option<RecordModel>,
    torn: Seq<u8>,
)
    requires
        forall|i: int|
            0 <= i < records.len() ==> decode(encode(#[trigger] records[i])) == Some(records[i])
                && encode(records[i]).len() < 0x1_0000_0000,
        torn.len() < 4 || torn.len() < 4 + bytes::le32(torn, 0),
    ensures
        replayed(log_of(records.map_values(encode)) + torn, decode) == records,
{
    let bodies = records.map_values(encode);
    assert forall|i: int| 0 <= i < bodies.len() implies (#[trigger] bodies[i]).len()
        < 0x1_0000_0000 by {
        assert(bodies[i] == encode(records[i]));
    }
    appended_records_are_read_back(bodies, torn);
    assert(bodies.map_values(decode) =~= records.map_values(|r: RecordModel| Some(r))) by {
        assert forall|i: int| 0 <= i < records.len() implies bodies.map_values(decode)[i] == Some(
            records[i],
        ) by {
            assert(bodies[i] == encode(records[i]));
        }
    }
    readable_records_are_good(records);
}

/// An empty log holds no records.
pub proof fn empty_log_is_empty()
    ensures
        bodies_from(seq![], 0) == Seq::<Seq<u8>>::empty(),
{
}

/// A record in the log is its length in four bytes, the least significant first, and then
/// itself.
pub proof fn records_carry_their_length(body: Seq<u8>)
    requires
        body.len() < 0x1_0000_0000,
    ensures
        framed(body).len() == 4 + body.len(),
        framed(body)[0] + 0x100 * framed(body)[1] + 0x1_0000 * framed(body)[2] + 0x100_0000
            * framed(body)[3] == body.len(),
        framed(body).subrange(4, framed(body).len() as int) == body,
{
    assert(framed(body).subrange(4, framed(body).len() as int) =~= body);
}

} // verus!
