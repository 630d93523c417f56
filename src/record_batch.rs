//! Records and record batches of a KRaft log, and a log file as a sequence
//! of batches.
//!
//! A batch is `base_offset:INT64, batch_length:INT32,
//! partition_leader_epoch:INT32, magic:INT8, crc:INT32`, then a header,
//! `records_count:INT32` and the records. `batch_length` counts every byte
//! after itself; `crc` is the CRC-32C of every byte after itself.
use vstd::prelude::*;
use crate::wire::{
    CodecError, get_i8, get_i16, get_i32, get_i64, put_i8, put_i16, put_i32, put_i64, put_u32,
    put_bytes, get_bytes, parse_i8, parse_i16, parse_i32, parse_i64, parse_svarint, i8_bytes,
    i16_bytes, i32_bytes, i64_bytes, u32_bytes, be_bytes, svarint_bytes, unsigned_of,
    concat_map, VarIntSigned, lemma_int_round_trips, lemma_int_lens, lemma_svarint_round_trip,
    lemma_concat_map_front,
};
use crate::record::{
    RecordType, RecordValueModel, parse_record_value, record_value_bytes, value_recognized,
    lemma_record_value_round_trip,
};

verus! {

/// What a batch header holds.
pub struct BatchHeaderModel {
    pub attributes: i16,
    pub last_offset_delta: i32,
    pub base_timestamp: i64,
    pub max_timestamp: i64,
    pub producer_id: i64,
    pub producer_epoch: i16,
    pub base_sequence: i32,
}

/// The fields of a batch between its CRC and its record count: `attributes:INT16,
/// last_offset_delta:INT32, base_timestamp:INT64, max_timestamp:INT64,
/// producer_id:INT64, producer_epoch:INT16, base_sequence:INT32`.
#[derive(Debug, Clone, Copy)]
pub struct BatchHeader {
    pub attributes: i16,
    pub last_offset_delta: i32,
    pub base_timestamp: i64,
    pub max_timestamp: i64,
    pub producer_id: i64,
    pub producer_epoch: i16,
    pub base_sequence: i32,
}

impl View for BatchHeader {
    type V = BatchHeaderModel;

    open spec fn view(&self) -> BatchHeaderModel {
        BatchHeaderModel {
            attributes: self.attributes,
            last_offset_delta: self.last_offset_delta,
            base_timestamp: self.base_timestamp,
            max_timestamp: self.max_timestamp,
            producer_id: self.producer_id,
            producer_epoch: self.producer_epoch,
            base_sequence: self.base_sequence,
        }
    }
}

pub open spec fn batch_header_fits(m: BatchHeaderModel) -> bool {
    true
}

/// Reads a batch header.
#[verifier::opaque]
pub open spec fn parse_batch_header(s: Seq<u8>) -> Result<(BatchHeaderModel, nat), CodecError> {
    match parse_i16(s) {
        Err(e) => Err(e),
        Ok((v0, n0)) => {
            let s0 = s.skip(n0 as int);
            match parse_i32(s0) {
                Err(e) => Err(e),
                Ok((v1, n1)) => {
                    let s1 = s0.skip(n1 as int);
                    match parse_i64(s1) {
                        Err(e) => Err(e),
                        Ok((v2, n2)) => {
                            let s2 = s1.skip(n2 as int);
                            match parse_i64(s2) {
                                Err(e) => Err(e),
                                Ok((v3, n3)) => {
                                    let s3 = s2.skip(n3 as int);
                                    match parse_i64(s3) {
                                        Err(e) => Err(e),
                                        Ok((v4, n4)) => {
                                            let s4 = s3.skip(n4 as int);
                                            match parse_i16(s4) {
                                                Err(e) => Err(e),
                                                Ok((v5, n5)) => {
                                                    let s5 = s4.skip(n5 as int);
                                                    match parse_i32(s5) {
                                                        Err(e) => Err(e),
                                                        Ok((v6, n6)) => {
                                                            let s6 = s5.skip(n6 as int);
                                                            Ok((BatchHeaderModel { attributes: v0, last_offset_delta: v1, base_timestamp: v2, max_timestamp: v3, producer_id: v4, producer_epoch: v5, base_sequence: v6 }, n0 + n1 + n2 + n3 + n4 + n5 + n6))
                                                        },
                                                    }
                                                },
                                            }
                                        },
                                    }
                                },
                            }
                        },
                    }
                },
            }
        },
    }
}

/// The bytes of a batch header.
pub open spec fn batch_header_bytes(m: BatchHeaderModel) -> Seq<u8> {
    i16_bytes(m.attributes)
        + i32_bytes(m.last_offset_delta)
        + i64_bytes(m.base_timestamp)
        + i64_bytes(m.max_timestamp)
        + i64_bytes(m.producer_id)
        + i16_bytes(m.producer_epoch)
        + i32_bytes(m.base_sequence)
}

impl BatchHeader {
    /// Reads the value at `pos`.
    #[verifier::rlimit(40)]
    pub fn deserialize(buf: &[u8], pos: usize) -> (r: Result<(BatchHeader, usize), CodecError>)
        requires
            pos <= buf@.len(),
        ensures
            match r {
                Ok((v, p)) => pos < p <= buf@.len() && parse_batch_header(buf@.skip(pos as int)) == Ok::<(BatchHeaderModel, nat), CodecError>((v@, (p - pos) as nat)),
                Err(e) => parse_batch_header(buf@.skip(pos as int)) == Err::<(BatchHeaderModel, nat), CodecError>(e),
            },
    {
        reveal(parse_batch_header);
        let (attributes, p0) = get_i16(buf, pos)?;
        assert(buf@.skip(p0 as int) =~= buf@.skip(pos as int).skip(p0 - pos));
        let (last_offset_delta, p1) = get_i32(buf, p0)?;
        assert(buf@.skip(p1 as int) =~= buf@.skip(p0 as int).skip(p1 - p0));
        let (base_timestamp, p2) = get_i64(buf, p1)?;
        assert(buf@.skip(p2 as int) =~= buf@.skip(p1 as int).skip(p2 - p1));
        let (max_timestamp, p3) = get_i64(buf, p2)?;
        assert(buf@.skip(p3 as int) =~= buf@.skip(p2 as int).skip(p3 - p2));
        let (producer_id, p4) = get_i64(buf, p3)?;
        assert(buf@.skip(p4 as int) =~= buf@.skip(p3 as int).skip(p4 - p3));
        let (producer_epoch, p5) = get_i16(buf, p4)?;
        assert(buf@.skip(p5 as int) =~= buf@.skip(p4 as int).skip(p5 - p4));
        let (base_sequence, p6) = get_i32(buf, p5)?;
        assert(buf@.skip(p6 as int) =~= buf@.skip(p5 as int).skip(p6 - p5));
        let end = p6;
        Ok((BatchHeader { attributes, last_offset_delta, base_timestamp, max_timestamp, producer_id, producer_epoch, base_sequence }, end))
    }

    /// Appends the fields.
    pub fn serialize(&self, out: &mut Vec<u8>)
        ensures
            final(out)@ == old(out)@ + batch_header_bytes(self@),
    {
        put_i16(out, self.attributes);
        put_i32(out, self.last_offset_delta);
        assert(out@ =~= old(out)@ + (i16_bytes(self@.attributes) + i32_bytes(self@.last_offset_delta)));
        put_i64(out, self.base_timestamp);
        assert(out@ =~= old(out)@ + (i16_bytes(self@.attributes) + i32_bytes(self@.last_offset_delta) + i64_bytes(self@.base_timestamp)));
        put_i64(out, self.max_timestamp);
        assert(out@ =~= old(out)@ + (i16_bytes(self@.attributes) + i32_bytes(self@.last_offset_delta) + i64_bytes(self@.base_timestamp) + i64_bytes(self@.max_timestamp)));
        put_i64(out, self.producer_id);
        assert(out@ =~= old(out)@ + (i16_bytes(self@.attributes) + i32_bytes(self@.last_offset_delta) + i64_bytes(self@.base_timestamp) + i64_bytes(self@.max_timestamp) + i64_bytes(self@.producer_id)));
        put_i16(out, self.producer_epoch);
        assert(out@ =~= old(out)@ + (i16_bytes(self@.attributes) + i32_bytes(self@.last_offset_delta) + i64_bytes(self@.base_timestamp) + i64_bytes(self@.max_timestamp) + i64_bytes(self@.producer_id) + i16_bytes(self@.producer_epoch)));
        put_i32(out, self.base_sequence);
        assert(out@ =~= old(out)@ + (i16_bytes(self@.attributes) + i32_bytes(self@.last_offset_delta) + i64_bytes(self@.base_timestamp) + i64_bytes(self@.max_timestamp) + i64_bytes(self@.producer_id) + i16_bytes(self@.producer_epoch) + i32_bytes(self@.base_sequence)));
        assert(final(out)@ =~= old(out)@ + batch_header_bytes(self@));
    }
}

/// A batch header reads back as written, whatever follows it.
#[verifier::rlimit(40)]
pub proof fn lemma_batch_header_round_trip(m: BatchHeaderModel, rest: Seq<u8>)
    requires
        batch_header_fits(m),
    ensures
        parse_batch_header(batch_header_bytes(m) + rest) == Ok::<(BatchHeaderModel, nat), CodecError>((m, batch_header_bytes(m).len())),
{
    reveal(parse_batch_header);
    let f0 = i16_bytes(m.attributes);
    let f1 = i32_bytes(m.last_offset_delta);
    let f2 = i64_bytes(m.base_timestamp);
    let f3 = i64_bytes(m.max_timestamp);
    let f4 = i64_bytes(m.producer_id);
    let f5 = i16_bytes(m.producer_epoch);
    let f6 = i32_bytes(m.base_sequence);
    let r7 = rest;
    let r6 = f6 + r7;
    let r5 = f5 + r6;
    let r4 = f4 + r5;
    let r3 = f3 + r4;
    let r2 = f2 + r3;
    let r1 = f1 + r2;
    let r0 = f0 + r1;
    assert(batch_header_bytes(m) + rest =~= r0);
    lemma_int_lens(0, m.attributes, 0, 0, 0, 0);
    lemma_int_round_trips(0, m.attributes, 0, 0, r1);
    assert(r0.skip(f0.len() as int) =~= r1);
    lemma_int_lens(0, 0, m.last_offset_delta, 0, 0, 0);
    lemma_int_round_trips(0, 0, m.last_offset_delta, 0, r2);
    assert(r1.skip(f1.len() as int) =~= r2);
    lemma_int_lens(0, 0, 0, m.base_timestamp, 0, 0);
    lemma_int_round_trips(0, 0, 0, m.base_timestamp, r3);
    assert(r2.skip(f2.len() as int) =~= r3);
    lemma_int_lens(0, 0, 0, m.max_timestamp, 0, 0);
    lemma_int_round_trips(0, 0, 0, m.max_timestamp, r4);
    assert(r3.skip(f3.len() as int) =~= r4);
    lemma_int_lens(0, 0, 0, m.producer_id, 0, 0);
    lemma_int_round_trips(0, 0, 0, m.producer_id, r5);
    assert(r4.skip(f4.len() as int) =~= r5);
    lemma_int_lens(0, m.producer_epoch, 0, 0, 0, 0);
    lemma_int_round_trips(0, m.producer_epoch, 0, 0, r6);
    assert(r5.skip(f5.len() as int) =~= r6);
    lemma_int_lens(0, 0, m.base_sequence, 0, 0, 0);
    lemma_int_round_trips(0, 0, m.base_sequence, 0, r7);
    assert(r6.skip(f6.len() as int) =~= r7);
}

/// What a record holds.
pub struct RecordModel {
    pub length: i64,
    pub attributes: i8,
    pub timestamp_delta: i64,
    pub offset_delta: i64,
    pub key_length: i64,
    pub key: Seq<u8>,
    pub value_length: i64,
    pub value: RecordValueModel,
    pub headers_count: i8,
}

/// A record: `length:SVARINT, attributes:INT8, timestamp_delta:SVARINT,
/// offset_delta:SVARINT, key_length:SVARINT`, the key if `key_length` is
/// positive, `value_length:SVARINT`, the value, `headers_count:INT8`.
#[derive(Debug, Clone)]
pub struct Record {
    pub length: i64,
    pub attributes: i8,
    pub timestamp_delta: i64,
    pub offset_delta: i64,
    pub key_length: i64,
    pub key: Vec<u8>,
    pub value_length: i64,
    pub value: RecordType,
    pub headers_count: i8,
}

impl View for Record {
    type V = RecordModel;

    open spec fn view(&self) -> RecordModel {
        RecordModel {
            length: self.length,
            attributes: self.attributes,
            timestamp_delta: self.timestamp_delta,
            offset_delta: self.offset_delta,
            key_length: self.key_length,
            key: self.key@,
            value_length: self.value_length,
            value: self.value@,
            headers_count: self.headers_count,
        }
    }
}

/// Reads the key of a record: `key_length` bytes if it is positive, else
/// none.
pub open spec fn parse_key(s: Seq<u8>, key_length: i64) -> Result<(Seq<u8>, nat), CodecError> {
    if key_length <= 0 {
        Ok((Seq::empty(), 0))
    } else if s.len() < key_length {
        Err(CodecError::EndOfBuffer)
    } else {
        Ok((s.take(key_length as int), key_length as nat))
    }
}

/// Reads a record.
#[verifier::opaque]
pub open spec fn parse_record(s: Seq<u8>) -> Result<(RecordModel, nat), CodecError> {
    match parse_svarint(s) {
        Err(e) => Err(e),
        Ok((length, n0)) => {
            let s0 = s.skip(n0 as int);
            match parse_i8(s0) {
                Err(e) => Err(e),
                Ok((attributes, n1)) => {
                    let s1 = s0.skip(n1 as int);
                    match parse_svarint(s1) {
                        Err(e) => Err(e),
                        Ok((timestamp_delta, n2)) => {
                            let s2 = s1.skip(n2 as int);
                            match parse_svarint(s2) {
                                Err(e) => Err(e),
                                Ok((offset_delta, n3)) => {
                                    let s3 = s2.skip(n3 as int);
                                    match parse_svarint(s3) {
                                        Err(e) => Err(e),
                                        Ok((key_length, n4)) => {
                                            let s4 = s3.skip(n4 as int);
                                            match parse_key(s4, key_length) {
                                                Err(e) => Err(e),
                                                Ok((key, n5)) => {
                                                    let s5 = s4.skip(n5 as int);
                                                    match parse_svarint(s5) {
                                                        Err(e) => Err(e),
                                                        Ok((value_length, n6)) => {
                                                            let s6 = s5.skip(n6 as int);
                                                            match parse_record_value(s6, value_length) {
                                                                Err(e) => Err(e),
                                                                Ok((value, n7)) => {
                                                                    let s7 = s6.skip(n7 as int);
                                                                    match parse_i8(s7) {
                                                                        Err(e) => Err(e),
                                                                        Ok((headers_count, n8)) => Ok((
                                                                            RecordModel {
                                                                                length,
                                                                                attributes,
                                                                                timestamp_delta,
                                                                                offset_delta,
                                                                                key_length,
                                                                                key,
                                                                                value_length,
                                                                                value,
                                                                                headers_count,
                                                                            },
                                                                            n0 + n1 + n2 + n3 + n4 + n5 + n6 + n7 + n8,
                                                                        )),
                                                                    }
                                                                },
                                                            }
                                                        },
                                                    }
                                                },
                                            }
                                        },
                                    }
                                },
                            }
                        },
                    }
                },
            }
        },
    }
}

/// The bytes of a record; its length fields are written as they stand.
pub open spec fn record_bytes(r: RecordModel) -> Seq<u8> {
    svarint_bytes(r.length) + i8_bytes(r.attributes) + svarint_bytes(r.timestamp_delta)
        + svarint_bytes(r.offset_delta) + svarint_bytes(r.key_length) + r.key
        + svarint_bytes(r.value_length) + record_value_bytes(r.value) + i8_bytes(r.headers_count)
}

/// A record whose key and value lengths are those of its key and value, and
/// whose value is of a type decoded here.
pub open spec fn record_canonical(r: RecordModel) -> bool {
    &&& (r.key_length > 0 ==> r.key.len() == r.key_length)
    &&& (r.key_length <= 0 ==> r.key.len() == 0)
    &&& value_recognized(r.value)
    &&& r.value_length == record_value_bytes(r.value).len()
}

impl Record {
    /// Reads a record at `pos`.
    #[verifier::rlimit(60)]
    pub fn deserialize(buf: &[u8], pos: usize) -> (r: Result<(Record, usize), CodecError>)
        requires
            pos <= buf@.len(),
        ensures
            match r {
                Ok((v, p)) => pos < p <= buf@.len() && parse_record(buf@.skip(pos as int)) == Ok::<(RecordModel, nat), CodecError>((v@, (p - pos) as nat)),
                Err(e) => parse_record(buf@.skip(pos as int)) == Err::<(RecordModel, nat), CodecError>(e),
            },
    {
        reveal(parse_record);
        let (length, p0) = VarIntSigned::deserialize(buf, pos)?;
        assert(buf@.skip(p0 as int) =~= buf@.skip(pos as int).skip(p0 - pos));
        let (attributes, p1) = get_i8(buf, p0)?;
        assert(buf@.skip(p1 as int) =~= buf@.skip(p0 as int).skip(p1 - p0));
        let (timestamp_delta, p2) = VarIntSigned::deserialize(buf, p1)?;
        assert(buf@.skip(p2 as int) =~= buf@.skip(p1 as int).skip(p2 - p1));
        let (offset_delta, p3) = VarIntSigned::deserialize(buf, p2)?;
        assert(buf@.skip(p3 as int) =~= buf@.skip(p2 as int).skip(p3 - p2));
        let (key_length, p4) = VarIntSigned::deserialize(buf, p3)?;
        assert(buf@.skip(p4 as int) =~= buf@.skip(p3 as int).skip(p4 - p3));
        let (key, p5) = if key_length.0 > 0 {
            if ((buf.len() - p4) as u64) < key_length.0 as u64 {
                return Err(CodecError::EndOfBuffer);
            }
            let (key, p5) = get_bytes(buf, p4, key_length.0 as usize)?;
            assert(key@ =~= buf@.skip(p4 as int).take(key_length.0 as int));
            (key, p5)
        } else {
            (Vec::new(), p4)
        };
        assert(buf@.skip(p5 as int) =~= buf@.skip(p4 as int).skip(p5 - p4));
        let (value_length, p6) = VarIntSigned::deserialize(buf, p5)?;
        assert(buf@.skip(p6 as int) =~= buf@.skip(p5 as int).skip(p6 - p5));
        let (value, p7) = RecordType::new(buf, p6, value_length.0)?;
        assert(buf@.skip(p7 as int) =~= buf@.skip(p6 as int).skip(p7 - p6));
        let (headers_count, p8) = get_i8(buf, p7)?;
        let record = Record {
            length: length.0,
            attributes,
            timestamp_delta: timestamp_delta.0,
            offset_delta: offset_delta.0,
            key_length: key_length.0,
            key,
            value_length: value_length.0,
            value,
            headers_count,
        };
        Ok((record, p8))
    }

    /// Appends the record.
    pub fn serialize(&self, out: &mut Vec<u8>)
        ensures
            final(out)@ == old(out)@ + record_bytes(self@),
    {
        let m = Ghost(self@);
        VarIntSigned(self.length).serialize(out);
        put_i8(out, self.attributes);
        assert(out@ =~= old(out)@ + (svarint_bytes(m@.length) + i8_bytes(m@.attributes)));
        VarIntSigned(self.timestamp_delta).serialize(out);
        VarIntSigned(self.offset_delta).serialize(out);
        VarIntSigned(self.key_length).serialize(out);
        assert(out@ =~= old(out)@ + (svarint_bytes(m@.length) + i8_bytes(m@.attributes) + svarint_bytes(m@.timestamp_delta)
            + svarint_bytes(m@.offset_delta) + svarint_bytes(m@.key_length)));
        put_bytes(out, self.key.as_slice());
        VarIntSigned(self.value_length).serialize(out);
        assert(out@ =~= old(out)@ + (svarint_bytes(m@.length) + i8_bytes(m@.attributes) + svarint_bytes(m@.timestamp_delta)
            + svarint_bytes(m@.offset_delta) + svarint_bytes(m@.key_length) + m@.key + svarint_bytes(m@.value_length)));
        self.value.serialize(out);
        put_i8(out, self.headers_count);
        assert(out@ =~= old(out)@ + record_bytes(self@));
    }
}

/// A canonical record reads back as written, whatever follows it.
#[verifier::spinoff_prover]
#[verifier::rlimit(100)]
pub proof fn lemma_record_round_trip(m: RecordModel, rest: Seq<u8>)
    requires
        record_canonical(m),
    ensures
        parse_record(record_bytes(m) + rest) == Ok::<(RecordModel, nat), CodecError>((m, record_bytes(m).len())),
{
    reveal(parse_record);
    let f0 = svarint_bytes(m.length);
    let f1 = i8_bytes(m.attributes);
    let f2 = svarint_bytes(m.timestamp_delta);
    let f3 = svarint_bytes(m.offset_delta);
    let f4 = svarint_bytes(m.key_length);
    let f5 = m.key;
    let f6 = svarint_bytes(m.value_length);
    let f7 = record_value_bytes(m.value);
    let f8 = i8_bytes(m.headers_count);
    let r9 = rest;
    let r8 = f8 + r9;
    let r7 = f7 + r8;
    let r6 = f6 + r7;
    let r5 = f5 + r6;
    let r4 = f4 + r5;
    let r3 = f3 + r4;
    let r2 = f2 + r3;
    let r1 = f1 + r2;
    let r0 = f0 + r1;
    assert(record_bytes(m) + rest =~= r0) by {
        assert(record_bytes(m) + rest =~= f0 + f1 + f2 + f3 + f4 + f5 + f6 + f7 + f8 + rest);
    }
    lemma_svarint_round_trip(m.length, r1);
    assert(r0.skip(f0.len() as int) =~= r1);
    lemma_int_lens(m.attributes, 0, 0, 0, 0, 0);
    lemma_int_round_trips(m.attributes, 0, 0, 0, r2);
    assert(r1.skip(1) =~= r2);
    lemma_svarint_round_trip(m.timestamp_delta, r3);
    assert(r2.skip(f2.len() as int) =~= r3);
    lemma_svarint_round_trip(m.offset_delta, r4);
    assert(r3.skip(f3.len() as int) =~= r4);
    lemma_svarint_round_trip(m.key_length, r5);
    assert(r4.skip(f4.len() as int) =~= r5);
    assert(r5.take(f5.len() as int) =~= f5);
    assert(r5.skip(f5.len() as int) =~= r6);
    lemma_svarint_round_trip(m.value_length, r7);
    assert(r6.skip(f6.len() as int) =~= r7);
    lemma_record_value_round_trip(m.value, r8);
    assert(r7.skip(f7.len() as int) =~= r8);
    lemma_int_lens(m.headers_count, 0, 0, 0, 0, 0);
    lemma_int_round_trips(m.headers_count, 0, 0, 0, r9);
    if m.key_length <= 0 {
        assert(f5 =~= Seq::<u8>::empty());
    }
    assert(parse_key(r5, m.key_length) == Ok::<(Seq<u8>, nat), CodecError>((f5, f5.len())));
}

/// Reads `k` records one after another.
pub open spec fn parse_records(s: Seq<u8>, k: nat) -> Result<(Seq<RecordModel>, nat), CodecError>
    decreases k,
{
    if k == 0 {
        Ok((Seq::empty(), 0))
    } else {
        match parse_record(s) {
            Err(e) => Err(e),
            Ok((r, n)) => match parse_records(s.skip(n as int), (k - 1) as nat) {
                Err(e) => Err(e),
                Ok((rs, m)) => Ok((seq![r] + rs, n + m)),
            },
        }
    }
}

/// The records before a position, then the rest read from there.
pub open spec fn records_after(
    before: Seq<RecordModel>,
    taken: nat,
    rest: Result<(Seq<RecordModel>, nat), CodecError>,
) -> Result<(Seq<RecordModel>, nat), CodecError> {
    match rest {
        Err(e) => Err(e),
        Ok((rs, m)) => Ok((before + rs, taken + m)),
    }
}

pub open spec fn records_view(v: Seq<Record>) -> Seq<RecordModel> {
    v.map_values(|r: Record| r@)
}

/// Reads `k` records at `pos`.
fn read_records(buf: &[u8], pos: usize, k: u32) -> (r: Result<(Vec<Record>, usize), CodecError>)
    requires
        pos <= buf@.len(),
    ensures
        match r {
            Ok((v, p)) => pos <= p <= buf@.len() && parse_records(buf@.skip(pos as int), k as nat) == Ok::<(Seq<RecordModel>, nat), CodecError>((records_view(v@), (p - pos) as nat)),
            Err(e) => parse_records(buf@.skip(pos as int), k as nat) == Err::<(Seq<RecordModel>, nat), CodecError>(e),
        },
{
    let mut v: Vec<Record> = Vec::new();
    let mut p = pos;
    let mut i: u32 = 0;
    while i < k
        invariant
            pos <= p <= buf.len(),
            i <= k,
            parse_records(buf@.skip(pos as int), k as nat) == records_after(
                records_view(v@),
                (p - pos) as nat,
                parse_records(buf@.skip(p as int), (k - i) as nat),
            ),
        decreases k - i,
    {
        let ghost s = buf@.skip(p as int);
        let (record, q) = match Record::deserialize(buf, p) {
            Ok(x) => x,
            Err(e) => {
                return Err(e);
            },
        };
        assert(buf@.skip(q as int) =~= s.skip(q - p));
        let ghost before = records_view(v@);
        v.push(record);
        assert(records_view(v@) =~= before + seq![record@]);
        assert forall|rs: Seq<RecordModel>| #![auto] before + (seq![record@] + rs) =~= records_view(v@) + rs by {}
        p = q;
        i = i + 1;
    }
    assert(records_view(v@) + Seq::<RecordModel>::empty() =~= records_view(v@));
    Ok((v, p))
}

/// What a record batch holds.
pub struct RecordBatchModel {
    pub base_offset: i64,
    pub batch_length: i32,
    pub partition_leader_epoch: i32,
    pub magic: i8,
    pub crc: i32,
    pub header: BatchHeaderModel,
    pub records: Seq<RecordModel>,
}

/// A record batch of a KRaft log.
#[derive(Debug, Clone)]
pub struct RecordBatch {
    pub base_offset: i64,
    pub batch_length: i32,
    pub partition_leader_epoch: i32,
    pub magic_byte: i8,
    pub crc: i32,
    pub header: BatchHeader,
    pub records: Vec<Record>,
}

impl View for RecordBatch {
    type V = RecordBatchModel;

    open spec fn view(&self) -> RecordBatchModel {
        RecordBatchModel {
            base_offset: self.base_offset,
            batch_length: self.batch_length,
            partition_leader_epoch: self.partition_leader_epoch,
            magic: self.magic_byte,
            crc: self.crc,
            header: self.header@,
            records: records_view(self.records@),
        }
    }
}

/// Reads a batch. It must end where its `batch_length` says: `batch_length`
/// plus twelve bytes after its start. A negative record count reads as none.
#[verifier::opaque]
pub open spec fn parse_batch(s: Seq<u8>) -> Result<(RecordBatchModel, nat), CodecError> {
    match parse_i64(s) {
        Err(e) => Err(e),
        Ok((base_offset, n0)) => {
            let s0 = s.skip(n0 as int);
            match parse_i32(s0) {
                Err(e) => Err(e),
                Ok((batch_length, n1)) => {
                    let s1 = s0.skip(n1 as int);
                    match parse_i32(s1) {
                        Err(e) => Err(e),
                        Ok((partition_leader_epoch, n2)) => {
                            let s2 = s1.skip(n2 as int);
                            match parse_i8(s2) {
                                Err(e) => Err(e),
                                Ok((magic, n3)) => {
                                    let s3 = s2.skip(n3 as int);
                                    match parse_i32(s3) {
                                        Err(e) => Err(e),
                                        Ok((crc, n4)) => {
                                            let s4 = s3.skip(n4 as int);
                                            match parse_batch_header(s4) {
                                                Err(e) => Err(e),
                                                Ok((header, n5)) => {
                                                    let s5 = s4.skip(n5 as int);
                                                    match parse_i32(s5) {
                                                        Err(e) => Err(e),
                                                        Ok((count, n6)) => {
                                                            let s6 = s5.skip(n6 as int);
                                                            let k: nat = if count > 0 { count as nat } else { 0 };
                                                            match parse_records(s6, k) {
                                                                Err(e) => Err(e),
                                                                Ok((records, n7)) => {
                                                                    let total = n0 + n1 + n2 + n3 + n4 + n5 + n6 + n7;
                                                                    if total == batch_length + 12 {
                                                                        Ok((
                                                                            RecordBatchModel {
                                                                                base_offset,
                                                                                batch_length,
                                                                                partition_leader_epoch,
                                                                                magic,
                                                                                crc,
                                                                                header,
                                                                                records,
                                                                            },
                                                                            total,
                                                                        ))
                                                                    } else {
                                                                        Err(CodecError::InvalidLength)
                                                                    }
                                                                },
                                                            }
                                                        },
                                                    }
                                                },
                                            }
                                        },
                                    }
                                },
                            }
                        },
                    }
                },
            }
        },
    }
}

/// The bytes of the records, one after another.
pub open spec fn records_bytes(rs: Seq<RecordModel>) -> Seq<u8> {
    concat_map(rs, |r: RecordModel| record_bytes(r))
}

/// The bytes that the CRC covers: the header, the record count and the
/// records.
pub open spec fn batch_tail_bytes(b: RecordBatchModel) -> Seq<u8> {
    batch_header_bytes(b.header) + be_bytes(b.records.len() % 0x1_0000_0000, 4) + records_bytes(b.records)
}

/// The bytes of a batch whose covered bytes are `tail`, with CRC `crc`:
/// `batch_length` is counted from `tail`, and the stored length and CRC are
/// not used.
pub open spec fn batch_frame_bytes(b: RecordBatchModel, tail: Seq<u8>, crc: u32) -> Seq<u8> {
    i64_bytes(b.base_offset) + be_bytes(((9 + tail.len()) % 0x1_0000_0000) as nat, 4)
        + i32_bytes(b.partition_leader_epoch) + i8_bytes(b.magic) + u32_bytes(crc) + tail
}

/// The CRC-32C of some bytes, as `crc32c::crc32c` computes it.
pub uninterp spec fn crc32c_of(data: Seq<u8>) -> u32;

/// Relies on `crc32c::crc32c`: the CRC-32C (Castagnoli) checksum of `data`,
/// a function of the bytes alone.
#[verifier::external_body]
fn crc32c_checksum(data: &[u8]) -> (r: u32)
    ensures
        r == crc32c_of(data@),
{
    crc32c::crc32c(data)
}

/// The bytes of a batch as the encoder writes it: length and CRC computed.
pub open spec fn batch_bytes(b: RecordBatchModel) -> Seq<u8> {
    let tail = batch_tail_bytes(b);
    batch_frame_bytes(b, tail, crc32c_of(tail))
}

/// A batch whose stored length and CRC are those of its bytes, whose record
/// count fits an `INT32`, and whose records are canonical.
pub open spec fn batch_canonical(b: RecordBatchModel) -> bool {
    let tail = batch_tail_bytes(b);
    &&& b.batch_length == 9 + tail.len()
    &&& unsigned_of(b.crc as int, 0x1_0000_0000) == crc32c_of(tail)
    &&& b.records.len() < 0x8000_0000
    &&& forall|i: int| 0 <= i < b.records.len() ==> record_canonical(#[trigger] b.records[i])
}

impl RecordBatch {
    /// Reads a batch at `pos`.
    #[verifier::rlimit(60)]
    pub fn deserialize(buf: &[u8], pos: usize) -> (r: Result<(RecordBatch, usize), CodecError>)
        requires
            pos <= buf@.len(),
        ensures
            match r {
                Ok((v, p)) => pos < p <= buf@.len() && parse_batch(buf@.skip(pos as int)) == Ok::<(RecordBatchModel, nat), CodecError>((v@, (p - pos) as nat)),
                Err(e) => parse_batch(buf@.skip(pos as int)) == Err::<(RecordBatchModel, nat), CodecError>(e),
            },
            r matches Ok((b, p)) ==> p - pos == b.batch_length + 12,
    {
        reveal(parse_batch);
        let (base_offset, p0) = get_i64(buf, pos)?;
        assert(buf@.skip(p0 as int) =~= buf@.skip(pos as int).skip(p0 - pos));
        let (batch_length, p1) = get_i32(buf, p0)?;
        assert(buf@.skip(p1 as int) =~= buf@.skip(p0 as int).skip(p1 - p0));
        let (partition_leader_epoch, p2) = get_i32(buf, p1)?;
        assert(buf@.skip(p2 as int) =~= buf@.skip(p1 as int).skip(p2 - p1));
        let (magic_byte, p3) = get_i8(buf, p2)?;
        assert(buf@.skip(p3 as int) =~= buf@.skip(p2 as int).skip(p3 - p2));
        let (crc, p4) = get_i32(buf, p3)?;
        assert(buf@.skip(p4 as int) =~= buf@.skip(p3 as int).skip(p4 - p3));
        let (header, p5) = BatchHeader::deserialize(buf, p4)?;
        assert(buf@.skip(p5 as int) =~= buf@.skip(p4 as int).skip(p5 - p4));
        let (count, p6) = get_i32(buf, p5)?;
        assert(buf@.skip(p6 as int) =~= buf@.skip(p5 as int).skip(p6 - p5));
        let k: u32 = if count > 0 { count as u32 } else { 0 };
        let (records, p7) = read_records(buf, p6, k)?;
        if (p7 - pos) as i128 != batch_length as i128 + 12 {
            return Err(CodecError::InvalidLength);
        }
        let batch = RecordBatch {
            base_offset,
            batch_length,
            partition_leader_epoch,
            magic_byte,
            crc,
            header,
            records,
        };
        Ok((batch, p7))
    }

    /// Appends the bytes that the CRC covers.
    fn serialize_tail(&self, out: &mut Vec<u8>)
        ensures
            final(out)@ == old(out)@ + batch_tail_bytes(self@),
    {
        self.header.serialize(out);
        let count = (self.records.len() as u64 % 0x1_0000_0000) as u32;
        put_u32(out, count);
        let ghost start = out@;
        let mut i: usize = 0;
        while i < self.records.len()
            invariant
                i <= self.records@.len(),
                out@ == start + records_bytes(records_view(self.records@.take(i as int))),
            decreases self.records@.len() - i,
        {
            self.records[i].serialize(out);
            assert(records_view(self.records@.take(i + 1)).drop_last() =~= records_view(self.records@.take(i as int)));
            i = i + 1;
            assert(out@ =~= start + records_bytes(records_view(self.records@.take(i as int))));
        }
        assert(self.records@.take(i as int) =~= self.records@);
        assert(out@ =~= old(out)@ + batch_tail_bytes(self@));
    }

    /// Appends the batch around `tail`, the bytes that the CRC covers, given
    /// their CRC: the batch length is counted from `tail`.
    pub fn serialize_frame(&self, tail: &[u8], crc: u32, out: &mut Vec<u8>)
        ensures
            final(out)@ == old(out)@ + batch_frame_bytes(self@, tail@, crc),
    {
        put_i64(out, self.base_offset);
        let length = ((tail.len() as u64 % 0x1_0000_0000 + 9) % 0x1_0000_0000) as u32;
        put_u32(out, length);
        put_i32(out, self.partition_leader_epoch);
        put_i8(out, self.magic_byte);
        put_u32(out, crc);
        put_bytes(out, tail);
        assert(out@ =~= old(out)@ + batch_frame_bytes(self@, tail@, crc));
    }

    /// Appends the batch; its length and CRC are computed from its contents.
    pub fn serialize(&self, out: &mut Vec<u8>)
        ensures
            final(out)@ == old(out)@ + batch_bytes(self@),
    {
        let mut tail: Vec<u8> = Vec::new();
        self.serialize_tail(&mut tail);
        let crc = crc32c_checksum(tail.as_slice());
        self.serialize_frame(tail.as_slice(), crc, out);
    }
}

/// Canonical records read back as written, whatever follows them.
pub proof fn lemma_records_round_trip(rs: Seq<RecordModel>, rest: Seq<u8>)
    requires
        forall|i: int| 0 <= i < rs.len() ==> record_canonical(#[trigger] rs[i]),
    ensures
        parse_records(records_bytes(rs) + rest, rs.len()) == Ok::<(Seq<RecordModel>, nat), CodecError>((rs, records_bytes(rs).len())),
    decreases rs.len(),
{
    let f = |r: RecordModel| record_bytes(r);
    if rs.len() == 0 {
        assert(rs =~= Seq::<RecordModel>::empty());
        assert(records_bytes(rs) + rest =~= rest);
    } else {
        lemma_concat_map_front(rs, f);
        let t = rs.drop_first();
        assert forall|i: int| 0 <= i < t.len() implies record_canonical(#[trigger] t[i]) by {
            assert(t[i] == rs[i + 1]);
        }
        lemma_records_round_trip(t, rest);
        assert(record_canonical(rs[0]));
        lemma_record_round_trip(rs[0], records_bytes(t) + rest);
        let s = records_bytes(rs) + rest;
        assert(s =~= record_bytes(rs[0]) + (records_bytes(t) + rest));
        assert(s.skip(record_bytes(rs[0]).len() as int) =~= records_bytes(t) + rest);
        assert(seq![rs[0]] + t =~= rs);
    }
}

proof fn lemma_be4_is_i32(v: i32)
    requires
        v >= 0,
    ensures
        be_bytes(v as nat % 0x1_0000_0000, 4) == i32_bytes(v),
{
}

/// A canonical batch reads back as written, whatever follows it: decoding
/// the encoder's bytes gives the batch, length and CRC included.
#[verifier::spinoff_prover]
#[verifier::rlimit(100)]
pub proof fn lemma_batch_round_trip(b: RecordBatchModel, rest: Seq<u8>)
    requires
        batch_canonical(b),
    ensures
        parse_batch(batch_bytes(b) + rest) == Ok::<(RecordBatchModel, nat), CodecError>((b, batch_bytes(b).len())),
{
    reveal(parse_batch);
    let tail = batch_tail_bytes(b);
    let f0 = i64_bytes(b.base_offset);
    let f1 = i32_bytes(b.batch_length);
    let f2 = i32_bytes(b.partition_leader_epoch);
    let f3 = i8_bytes(b.magic);
    let f4 = i32_bytes(b.crc);
    let f5 = batch_header_bytes(b.header);
    let f6 = i32_bytes(b.records.len() as i32);
    let f7 = records_bytes(b.records);
    assert(f1 == be_bytes(((9 + tail.len()) % 0x1_0000_0000) as nat, 4)) by {
        lemma_be4_is_i32(b.batch_length);
    }
    assert(f4 == u32_bytes(crc32c_of(tail)));
    assert(f6 == be_bytes(b.records.len() % 0x1_0000_0000, 4)) by {
        lemma_be4_is_i32(b.records.len() as i32);
    }
    let r8 = rest;
    let r7 = f7 + r8;
    let r6 = f6 + r7;
    let r5 = f5 + r6;
    let r4 = f4 + r5;
    let r3 = f3 + r4;
    let r2 = f2 + r3;
    let r1 = f1 + r2;
    let r0 = f0 + r1;
    assert(tail =~= f5 + f6 + f7);
    assert(batch_bytes(b) + rest =~= r0) by {
        assert(batch_bytes(b) + rest =~= f0 + f1 + f2 + f3 + f4 + (f5 + f6 + f7) + rest);
    }
    lemma_int_lens(b.magic, 0, b.batch_length, b.base_offset, 0, 0);
    lemma_int_lens(0, 0, b.partition_leader_epoch, 0, 0, 0);
    lemma_int_lens(0, 0, b.crc, 0, 0, 0);
    lemma_int_lens(0, 0, b.records.len() as i32, 0, 0, 0);
    lemma_int_round_trips(0, 0, 0, b.base_offset, r1);
    assert(r0.skip(8) =~= r1);
    lemma_int_round_trips(0, 0, b.batch_length, 0, r2);
    assert(r1.skip(4) =~= r2);
    lemma_int_round_trips(0, 0, b.partition_leader_epoch, 0, r3);
    assert(r2.skip(4) =~= r3);
    lemma_int_round_trips(b.magic, 0, 0, 0, r4);
    assert(r3.skip(1) =~= r4);
    lemma_int_round_trips(0, 0, b.crc, 0, r5);
    assert(r4.skip(4) =~= r5);
    lemma_batch_header_round_trip(b.header, r6);
    assert(r5.skip(f5.len() as int) =~= r6);
    lemma_int_round_trips(0, 0, b.records.len() as i32, 0, r7);
    assert(r6.skip(4) =~= r7);
    lemma_records_round_trip(b.records, r8);
}

/// Re-encoding a decoded canonical batch gives back its bytes, CRC included.
pub proof fn lemma_batch_reencode(s: Seq<u8>, b: RecordBatchModel)
    requires
        batch_canonical(b),
        s == batch_bytes(b),
    ensures
        parse_batch(s) matches Ok((d, n)) && n == s.len() && batch_bytes(d) == s,
{
    lemma_batch_round_trip(b, Seq::empty());
    assert(s + Seq::<u8>::empty() =~= s);
}

} // verus!
