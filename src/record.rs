//! The values carried by records of the cluster-metadata log.
//!
//! A value starts with `frame_version:INT8, record_type:INT8, version:INT8`;
//! its type decides what follows. Topic (2), partition (3) and feature-level
//! (12) values are decoded into fields; any other value is kept as raw bytes,
//! so that a log re-encodes byte for byte.
use vstd::prelude::*;
use crate::wire::{
    CodecError, CompactArray, TextData, get_i8, get_i16, get_i32, get_uuid, put_i8, put_i16,
    put_i32, put_uuid, skip_tag_buffer, parse_i8, parse_i16, parse_i32, parse_uuid,
    parse_compact_string, parse_i32_array, parse_uuid_array, parse_tag_buffer, i8_bytes,
    i16_bytes, i32_bytes, uuid_bytes, compact_string_bytes, i32_array_bytes, uuid_array_bytes,
    empty_tag_buffer, utf8_bytes, lemma_int_round_trips, lemma_uuid_round_trip,
    lemma_compact_string_round_trip, lemma_empty_tag_buffer, lemma_i32_array_round_trip,
    lemma_uuid_array_round_trip, lemma_int_lens, get_bytes, put_bytes,
};

verus! {

/// The record type of a topic value.
pub const TOPIC_RECORD_TYPE: i8 = 2;

/// The record type of a partition value.
pub const PARTITION_RECORD_TYPE: i8 = 3;

/// The record type of a feature-level value.
pub const FEATURE_LEVEL_RECORD_TYPE: i8 = 12;

/// A string field whose length plus one fits in an unsigned varint.
pub open spec fn name_fits(t: Option<Seq<char>>) -> bool {
    t matches Some(c) ==> utf8_bytes(c).len() < 0xffff_ffff_ffff_ffff
}

/// An array field whose length plus one fits in an unsigned varint.
pub open spec fn array_fits<T>(a: Option<Seq<T>>) -> bool {
    a matches Some(v) ==> v.len() < 0xffff_ffff_ffff_ffff
}

/// What a topic value holds.
pub struct TopicRecordModel {
    pub frame_version: i8,
    pub record_type: i8,
    pub version: i8,
    pub name: Option<Seq<char>>,
    pub uuid: i128,
}

/// A topic value: `name:COMPACT_STRING, uuid:UUID`, then a tag buffer.
#[derive(Debug, Clone)]
pub struct TopicRecord {
    pub frame_version: i8,
    pub record_type: i8,
    pub version: i8,
    pub topic_name: TextData,
    pub uuid: i128,
}

impl View for TopicRecord {
    type V = TopicRecordModel;

    open spec fn view(&self) -> TopicRecordModel {
        TopicRecordModel {
            frame_version: self.frame_version,
            record_type: self.record_type,
            version: self.version,
            name: self.topic_name@,
            uuid: self.uuid,
        }
    }
}
pub open spec fn topic_record_fits(m: TopicRecordModel) -> bool {
    name_fits(m.name)
}

/// Reads a topic value.
#[verifier::opaque]
pub open spec fn parse_topic_record(s: Seq<u8>) -> Result<(TopicRecordModel, nat), CodecError> {
    match parse_i8(s) {
        Err(e) => Err(e),
        Ok((v0, n0)) => {
            let s0 = s.skip(n0 as int);
            match parse_i8(s0) {
                Err(e) => Err(e),
                Ok((v1, n1)) => {
                    let s1 = s0.skip(n1 as int);
                    match parse_i8(s1) {
                        Err(e) => Err(e),
                        Ok((v2, n2)) => {
                            let s2 = s1.skip(n2 as int);
                            match parse_compact_string(s2) {
                                Err(e) => Err(e),
                                Ok((v3, n3)) => {
                                    let s3 = s2.skip(n3 as int);
                                    match parse_uuid(s3) {
                                        Err(e) => Err(e),
                                        Ok((v4, n4)) => {
                                            let s4 = s3.skip(n4 as int);
                                            match parse_tag_buffer(s4) {
                                                Err(e) => Err(e),
                                                Ok((_, t)) => Ok((TopicRecordModel { frame_version: v0, record_type: v1, version: v2, name: v3, uuid: v4 }, n0 + n1 + n2 + n3 + n4 + t)),
                                            }
                                        },
                                    }
                                },
                            }
                        },
                    }
                },
            }
        },
    }
}

/// The bytes of a topic value.
pub open spec fn topic_record_bytes(m: TopicRecordModel) -> Seq<u8> {
    i8_bytes(m.frame_version)
        + i8_bytes(m.record_type)
        + i8_bytes(m.version)
        + compact_string_bytes(m.name)
        + uuid_bytes(m.uuid)
        + empty_tag_buffer()
}

impl TopicRecord {
    /// Reads the value at `pos`.
    #[verifier::rlimit(40)]
    pub fn deserialize(buf: &[u8], pos: usize) -> (r: Result<(TopicRecord, usize), CodecError>)
        requires
            pos <= buf@.len(),
        ensures
            match r {
                Ok((v, p)) => pos < p <= buf@.len() && parse_topic_record(buf@.skip(pos as int)) == Ok::<(TopicRecordModel, nat), CodecError>((v@, (p - pos) as nat)),
                Err(e) => parse_topic_record(buf@.skip(pos as int)) == Err::<(TopicRecordModel, nat), CodecError>(e),
            },
    {
        reveal(parse_topic_record);
        let (frame_version, p0) = get_i8(buf, pos)?;
        assert(buf@.skip(p0 as int) =~= buf@.skip(pos as int).skip(p0 - pos));
        let (record_type, p1) = get_i8(buf, p0)?;
        assert(buf@.skip(p1 as int) =~= buf@.skip(p0 as int).skip(p1 - p0));
        let (version, p2) = get_i8(buf, p1)?;
        assert(buf@.skip(p2 as int) =~= buf@.skip(p1 as int).skip(p2 - p1));
        let (topic_name, p3) = TextData::deserialize(buf, p2)?;
        assert(buf@.skip(p3 as int) =~= buf@.skip(p2 as int).skip(p3 - p2));
        let (uuid, p4) = get_uuid(buf, p3)?;
        assert(buf@.skip(p4 as int) =~= buf@.skip(p3 as int).skip(p4 - p3));
        let end = skip_tag_buffer(buf, p4)?;
        Ok((TopicRecord { frame_version, record_type, version, topic_name, uuid }, end))
    }

    /// Appends the value, with an empty tag buffer.
    pub fn serialize(&self, out: &mut Vec<u8>)
        ensures
            final(out)@ == old(out)@ + topic_record_bytes(self@),
    {
        put_i8(out, self.frame_version);
        put_i8(out, self.record_type);
        assert(out@ =~= old(out)@ + (i8_bytes(self@.frame_version) + i8_bytes(self@.record_type)));
        put_i8(out, self.version);
        assert(out@ =~= old(out)@ + (i8_bytes(self@.frame_version) + i8_bytes(self@.record_type) + i8_bytes(self@.version)));
        self.topic_name.serialize(out);
        assert(out@ =~= old(out)@ + (i8_bytes(self@.frame_version) + i8_bytes(self@.record_type) + i8_bytes(self@.version) + compact_string_bytes(self@.name)));
        put_uuid(out, self.uuid);
        assert(out@ =~= old(out)@ + (i8_bytes(self@.frame_version) + i8_bytes(self@.record_type) + i8_bytes(self@.version) + compact_string_bytes(self@.name) + uuid_bytes(self@.uuid)));
        out.push(0u8);
        assert(final(out)@ =~= old(out)@ + topic_record_bytes(self@));
    }
}

/// A topic value reads back as written, whatever follows it.
#[verifier::rlimit(40)]
pub proof fn lemma_topic_record_round_trip(m: TopicRecordModel, rest: Seq<u8>)
    requires
        topic_record_fits(m),
    ensures
        parse_topic_record(topic_record_bytes(m) + rest) == Ok::<(TopicRecordModel, nat), CodecError>((m, topic_record_bytes(m).len())),
{
    reveal(parse_topic_record);
    let f0 = i8_bytes(m.frame_version);
    let f1 = i8_bytes(m.record_type);
    let f2 = i8_bytes(m.version);
    let f3 = compact_string_bytes(m.name);
    let f4 = uuid_bytes(m.uuid);
    let r5 = empty_tag_buffer() + rest;
    let r4 = f4 + r5;
    let r3 = f3 + r4;
    let r2 = f2 + r3;
    let r1 = f1 + r2;
    let r0 = f0 + r1;
    assert(topic_record_bytes(m) + rest =~= r0);
    lemma_int_lens(m.frame_version, 0, 0, 0, 0, 0);
    lemma_int_round_trips(m.frame_version, 0, 0, 0, r1);
    assert(r0.skip(f0.len() as int) =~= r1);
    lemma_int_lens(m.record_type, 0, 0, 0, 0, 0);
    lemma_int_round_trips(m.record_type, 0, 0, 0, r2);
    assert(r1.skip(f1.len() as int) =~= r2);
    lemma_int_lens(m.version, 0, 0, 0, 0, 0);
    lemma_int_round_trips(m.version, 0, 0, 0, r3);
    assert(r2.skip(f2.len() as int) =~= r3);
    lemma_compact_string_round_trip(m.name, r4);
    assert(r3.skip(f3.len() as int) =~= r4);
    lemma_int_lens(0, 0, 0, 0, m.uuid, 0);
    lemma_uuid_round_trip(m.uuid, r5);
    assert(r4.skip(f4.len() as int) =~= r5);
    lemma_empty_tag_buffer(rest);
}

/// What the second part of a partition value holds.
pub struct PartitionStateModel {
    pub removing_replicas: Option<Seq<i32>>,
    pub adding_replicas: Option<Seq<i32>>,
    pub leader_id: i32,
    pub leader_epoch: i32,
    pub partition_epoch: i32,
    pub directories: Option<Seq<i128>>,
}

/// The second part of a partition value: the removing and adding replica
/// arrays, `leader_id`, `leader_epoch`, `partition_epoch`, the directories,
/// then the value's tag buffer.
#[derive(Debug, Clone)]
pub struct PartitionState {
    pub removing_replica_array: CompactArray<i32>,
    pub adding_replica_array: CompactArray<i32>,
    pub leader_id: i32,
    pub leader_epoch: i32,
    pub partition_epoch: i32,
    pub directories_array: CompactArray<i128>,
}

impl View for PartitionState {
    type V = PartitionStateModel;

    open spec fn view(&self) -> PartitionStateModel {
        PartitionStateModel {
            removing_replicas: self.removing_replica_array@,
            adding_replicas: self.adding_replica_array@,
            leader_id: self.leader_id,
            leader_epoch: self.leader_epoch,
            partition_epoch: self.partition_epoch,
            directories: self.directories_array@,
        }
    }
}
pub open spec fn partition_state_fits(m: PartitionStateModel) -> bool {
    array_fits(m.removing_replicas) && array_fits(m.adding_replicas) && array_fits(m.directories)
}

/// Reads the second part of a partition value.
#[verifier::opaque]
pub open spec fn parse_partition_state(s: Seq<u8>) -> Result<(PartitionStateModel, nat), CodecError> {
    match parse_i32_array(s) {
        Err(e) => Err(e),
        Ok((v0, n0)) => {
            let s0 = s.skip(n0 as int);
            match parse_i32_array(s0) {
                Err(e) => Err(e),
                Ok((v1, n1)) => {
                    let s1 = s0.skip(n1 as int);
                    match parse_i32(s1) {
                        Err(e) => Err(e),
                        Ok((v2, n2)) => {
                            let s2 = s1.skip(n2 as int);
                            match parse_i32(s2) {
                                Err(e) => Err(e),
                                Ok((v3, n3)) => {
                                    let s3 = s2.skip(n3 as int);
                                    match parse_i32(s3) {
                                        Err(e) => Err(e),
                                        Ok((v4, n4)) => {
                                            let s4 = s3.skip(n4 as int);
                                            match parse_uuid_array(s4) {
                                                Err(e) => Err(e),
                                                Ok((v5, n5)) => {
                                                    let s5 = s4.skip(n5 as int);
                                                    match parse_tag_buffer(s5) {
                                                        Err(e) => Err(e),
                                                        Ok((_, t)) => Ok((PartitionStateModel { removing_replicas: v0, adding_replicas: v1, leader_id: v2, leader_epoch: v3, partition_epoch: v4, directories: v5 }, n0 + n1 + n2 + n3 + n4 + n5 + t)),
                                                    }
                                                },
                                            }
                                        },
                                    }
                                },
                            }
                        },
                    }
                },
            }
        },
    }
}

/// The bytes of the second part of a partition value.
pub open spec fn partition_state_bytes(m: PartitionStateModel) -> Seq<u8> {
    i32_array_bytes(m.removing_replicas)
        + i32_array_bytes(m.adding_replicas)
        + i32_bytes(m.leader_id)
        + i32_bytes(m.leader_epoch)
        + i32_bytes(m.partition_epoch)
        + uuid_array_bytes(m.directories)
        + empty_tag_buffer()
}

impl PartitionState {
    /// Reads the value at `pos`.
    #[verifier::rlimit(40)]
    pub fn deserialize(buf: &[u8], pos: usize) -> (r: Result<(PartitionState, usize), CodecError>)
        requires
            pos <= buf@.len(),
        ensures
            match r {
                Ok((v, p)) => pos < p <= buf@.len() && parse_partition_state(buf@.skip(pos as int)) == Ok::<(PartitionStateModel, nat), CodecError>((v@, (p - pos) as nat)),
                Err(e) => parse_partition_state(buf@.skip(pos as int)) == Err::<(PartitionStateModel, nat), CodecError>(e),
            },
    {
        reveal(parse_partition_state);
        let (removing_replica_array, p0) = CompactArray::<i32>::read_i32s(buf, pos)?;
        assert(buf@.skip(p0 as int) =~= buf@.skip(pos as int).skip(p0 - pos));
        let (adding_replica_array, p1) = CompactArray::<i32>::read_i32s(buf, p0)?;
        assert(buf@.skip(p1 as int) =~= buf@.skip(p0 as int).skip(p1 - p0));
        let (leader_id, p2) = get_i32(buf, p1)?;
        assert(buf@.skip(p2 as int) =~= buf@.skip(p1 as int).skip(p2 - p1));
        let (leader_epoch, p3) = get_i32(buf, p2)?;
        assert(buf@.skip(p3 as int) =~= buf@.skip(p2 as int).skip(p3 - p2));
        let (partition_epoch, p4) = get_i32(buf, p3)?;
        assert(buf@.skip(p4 as int) =~= buf@.skip(p3 as int).skip(p4 - p3));
        let (directories_array, p5) = CompactArray::<i128>::read_uuids(buf, p4)?;
        assert(buf@.skip(p5 as int) =~= buf@.skip(p4 as int).skip(p5 - p4));
        let end = skip_tag_buffer(buf, p5)?;
        Ok((PartitionState { removing_replica_array, adding_replica_array, leader_id, leader_epoch, partition_epoch, directories_array }, end))
    }

    /// Appends the value, with an empty tag buffer.
    pub fn serialize(&self, out: &mut Vec<u8>)
        ensures
            final(out)@ == old(out)@ + partition_state_bytes(self@),
    {
        self.removing_replica_array.serialize(out);
        self.adding_replica_array.serialize(out);
        assert(out@ =~= old(out)@ + (i32_array_bytes(self@.removing_replicas) + i32_array_bytes(self@.adding_replicas)));
        put_i32(out, self.leader_id);
        assert(out@ =~= old(out)@ + (i32_array_bytes(self@.removing_replicas) + i32_array_bytes(self@.adding_replicas) + i32_bytes(self@.leader_id)));
        put_i32(out, self.leader_epoch);
        assert(out@ =~= old(out)@ + (i32_array_bytes(self@.removing_replicas) + i32_array_bytes(self@.adding_replicas) + i32_bytes(self@.leader_id) + i32_bytes(self@.leader_epoch)));
        put_i32(out, self.partition_epoch);
        assert(out@ =~= old(out)@ + (i32_array_bytes(self@.removing_replicas) + i32_array_bytes(self@.adding_replicas) + i32_bytes(self@.leader_id) + i32_bytes(self@.leader_epoch) + i32_bytes(self@.partition_epoch)));
        self.directories_array.serialize(out);
        assert(out@ =~= old(out)@ + (i32_array_bytes(self@.removing_replicas) + i32_array_bytes(self@.adding_replicas) + i32_bytes(self@.leader_id) + i32_bytes(self@.leader_epoch) + i32_bytes(self@.partition_epoch) + uuid_array_bytes(self@.directories)));
        out.push(0u8);
        assert(final(out)@ =~= old(out)@ + partition_state_bytes(self@));
    }
}

/// The second part of a partition value reads back as written, whatever
/// follows it.
#[verifier::rlimit(40)]
pub proof fn lemma_partition_state_round_trip(m: PartitionStateModel, rest: Seq<u8>)
    requires
        partition_state_fits(m),
    ensures
        parse_partition_state(partition_state_bytes(m) + rest) == Ok::<(PartitionStateModel, nat), CodecError>((m, partition_state_bytes(m).len())),
{
    reveal(parse_partition_state);
    let f0 = i32_array_bytes(m.removing_replicas);
    let f1 = i32_array_bytes(m.adding_replicas);
    let f2 = i32_bytes(m.leader_id);
    let f3 = i32_bytes(m.leader_epoch);
    let f4 = i32_bytes(m.partition_epoch);
    let f5 = uuid_array_bytes(m.directories);
    let r6 = empty_tag_buffer() + rest;
    let r5 = f5 + r6;
    let r4 = f4 + r5;
    let r3 = f3 + r4;
    let r2 = f2 + r3;
    let r1 = f1 + r2;
    let r0 = f0 + r1;
    assert(partition_state_bytes(m) + rest =~= r0);
    lemma_i32_array_round_trip(m.removing_replicas, r1);
    assert(r0.skip(f0.len() as int) =~= r1);
    lemma_i32_array_round_trip(m.adding_replicas, r2);
    assert(r1.skip(f1.len() as int) =~= r2);
    lemma_int_lens(0, 0, m.leader_id, 0, 0, 0);
    lemma_int_round_trips(0, 0, m.leader_id, 0, r3);
    assert(r2.skip(f2.len() as int) =~= r3);
    lemma_int_lens(0, 0, m.leader_epoch, 0, 0, 0);
    lemma_int_round_trips(0, 0, m.leader_epoch, 0, r4);
    assert(r3.skip(f3.len() as int) =~= r4);
    lemma_int_lens(0, 0, m.partition_epoch, 0, 0, 0);
    lemma_int_round_trips(0, 0, m.partition_epoch, 0, r5);
    assert(r4.skip(f4.len() as int) =~= r5);
    lemma_uuid_array_round_trip(m.directories, r6);
    assert(r5.skip(f5.len() as int) =~= r6);
    lemma_empty_tag_buffer(rest);
}

/// What a partition value holds.
pub struct PartitionRecordModel {
    pub frame_version: i8,
    pub record_type: i8,
    pub version: i8,
    pub partition_id: i32,
    pub topic_uuid: i128,
    pub replicas: Option<Seq<i32>>,
    pub isr: Option<Seq<i32>>,
    pub state: PartitionStateModel,
}

/// A partition value: `partition_id:INT32, topic_uuid:UUID`, the replica
/// and in-sync arrays of `INT32`, then the remaining fields.
#[derive(Debug, Clone)]
pub struct PartitionRecord {
    pub frame_version: i8,
    pub record_type: i8,
    pub version: i8,
    pub partition_id: i32,
    pub topic_uuid: i128,
    pub replica_array: CompactArray<i32>,
    pub in_sync_replica_array: CompactArray<i32>,
    pub state: PartitionState,
}

impl View for PartitionRecord {
    type V = PartitionRecordModel;

    open spec fn view(&self) -> PartitionRecordModel {
        PartitionRecordModel {
            frame_version: self.frame_version,
            record_type: self.record_type,
            version: self.version,
            partition_id: self.partition_id,
            topic_uuid: self.topic_uuid,
            replicas: self.replica_array@,
            isr: self.in_sync_replica_array@,
            state: self.state@,
        }
    }
}
pub open spec fn partition_record_fits(m: PartitionRecordModel) -> bool {
    array_fits(m.replicas) && array_fits(m.isr) && partition_state_fits(m.state)
}

/// Reads a partition value.
#[verifier::opaque]
pub open spec fn parse_partition_record(s: Seq<u8>) -> Result<(PartitionRecordModel, nat), CodecError> {
    match parse_i8(s) {
        Err(e) => Err(e),
        Ok((v0, n0)) => {
            let s0 = s.skip(n0 as int);
            match parse_i8(s0) {
                Err(e) => Err(e),
                Ok((v1, n1)) => {
                    let s1 = s0.skip(n1 as int);
                    match parse_i8(s1) {
                        Err(e) => Err(e),
                        Ok((v2, n2)) => {
                            let s2 = s1.skip(n2 as int);
                            match parse_i32(s2) {
                                Err(e) => Err(e),
                                Ok((v3, n3)) => {
                                    let s3 = s2.skip(n3 as int);
                                    match parse_uuid(s3) {
                                        Err(e) => Err(e),
                                        Ok((v4, n4)) => {
                                            let s4 = s3.skip(n4 as int);
                                            match parse_i32_array(s4) {
                                                Err(e) => Err(e),
                                                Ok((v5, n5)) => {
                                                    let s5 = s4.skip(n5 as int);
                                                    match parse_i32_array(s5) {
                                                        Err(e) => Err(e),
                                                        Ok((v6, n6)) => {
                                                            let s6 = s5.skip(n6 as int);
                                                            match parse_partition_state(s6) {
                                                                Err(e) => Err(e),
                                                                Ok((v7, n7)) => {
                                                                    let s7 = s6.skip(n7 as int);
                                                                    Ok((PartitionRecordModel { frame_version: v0, record_type: v1, version: v2, partition_id: v3, topic_uuid: v4, replicas: v5, isr: v6, state: v7 }, n0 + n1 + n2 + n3 + n4 + n5 + n6 + n7))
                                                                },
                                                            }
                                                        },
                                                    }
                                                },
                                            }
                                        },
                                    }
                                },
                            }
                        },
                    }
                },
            }
        },
    }
}

/// The bytes of a partition value.
pub open spec fn partition_record_bytes(m: PartitionRecordModel) -> Seq<u8> {
    i8_bytes(m.frame_version)
        + i8_bytes(m.record_type)
        + i8_bytes(m.version)
        + i32_bytes(m.partition_id)
        + uuid_bytes(m.topic_uuid)
        + i32_array_bytes(m.replicas)
        + i32_array_bytes(m.isr)
        + partition_state_bytes(m.state)
}

impl PartitionRecord {
    /// Reads the value at `pos`.
    #[verifier::rlimit(40)]
    pub fn deserialize(buf: &[u8], pos: usize) -> (r: Result<(PartitionRecord, usize), CodecError>)
        requires
            pos <= buf@.len(),
        ensures
            match r {
                Ok((v, p)) => pos < p <= buf@.len() && parse_partition_record(buf@.skip(pos as int)) == Ok::<(PartitionRecordModel, nat), CodecError>((v@, (p - pos) as nat)),
                Err(e) => parse_partition_record(buf@.skip(pos as int)) == Err::<(PartitionRecordModel, nat), CodecError>(e),
            },
    {
        reveal(parse_partition_record);
        let (frame_version, p0) = get_i8(buf, pos)?;
        assert(buf@.skip(p0 as int) =~= buf@.skip(pos as int).skip(p0 - pos));
        let (record_type, p1) = get_i8(buf, p0)?;
        assert(buf@.skip(p1 as int) =~= buf@.skip(p0 as int).skip(p1 - p0));
        let (version, p2) = get_i8(buf, p1)?;
        assert(buf@.skip(p2 as int) =~= buf@.skip(p1 as int).skip(p2 - p1));
        let (partition_id, p3) = get_i32(buf, p2)?;
        assert(buf@.skip(p3 as int) =~= buf@.skip(p2 as int).skip(p3 - p2));
        let (topic_uuid, p4) = get_uuid(buf, p3)?;
        assert(buf@.skip(p4 as int) =~= buf@.skip(p3 as int).skip(p4 - p3));
        let (replica_array, p5) = CompactArray::<i32>::read_i32s(buf, p4)?;
        assert(buf@.skip(p5 as int) =~= buf@.skip(p4 as int).skip(p5 - p4));
        let (in_sync_replica_array, p6) = CompactArray::<i32>::read_i32s(buf, p5)?;
        assert(buf@.skip(p6 as int) =~= buf@.skip(p5 as int).skip(p6 - p5));
        let (state, p7) = PartitionState::deserialize(buf, p6)?;
        assert(buf@.skip(p7 as int) =~= buf@.skip(p6 as int).skip(p7 - p6));
        let end = p7;
        Ok((PartitionRecord { frame_version, record_type, version, partition_id, topic_uuid, replica_array, in_sync_replica_array, state }, end))
    }

    /// Appends the fields.
    pub fn serialize(&self, out: &mut Vec<u8>)
        ensures
            final(out)@ == old(out)@ + partition_record_bytes(self@),
    {
        put_i8(out, self.frame_version);
        put_i8(out, self.record_type);
        assert(out@ =~= old(out)@ + (i8_bytes(self@.frame_version) + i8_bytes(self@.record_type)));
        put_i8(out, self.version);
        assert(out@ =~= old(out)@ + (i8_bytes(self@.frame_version) + i8_bytes(self@.record_type) + i8_bytes(self@.version)));
        put_i32(out, self.partition_id);
        assert(out@ =~= old(out)@ + (i8_bytes(self@.frame_version) + i8_bytes(self@.record_type) + i8_bytes(self@.version) + i32_bytes(self@.partition_id)));
        put_uuid(out, self.topic_uuid);
        assert(out@ =~= old(out)@ + (i8_bytes(self@.frame_version) + i8_bytes(self@.record_type) + i8_bytes(self@.version) + i32_bytes(self@.partition_id) + uuid_bytes(self@.topic_uuid)));
        self.replica_array.serialize(out);
        assert(out@ =~= old(out)@ + (i8_bytes(self@.frame_version) + i8_bytes(self@.record_type) + i8_bytes(self@.version) + i32_bytes(self@.partition_id) + uuid_bytes(self@.topic_uuid) + i32_array_bytes(self@.replicas)));
        self.in_sync_replica_array.serialize(out);
        assert(out@ =~= old(out)@ + (i8_bytes(self@.frame_version) + i8_bytes(self@.record_type) + i8_bytes(self@.version) + i32_bytes(self@.partition_id) + uuid_bytes(self@.topic_uuid) + i32_array_bytes(self@.replicas) + i32_array_bytes(self@.isr)));
        self.state.serialize(out);
        assert(out@ =~= old(out)@ + (i8_bytes(self@.frame_version) + i8_bytes(self@.record_type) + i8_bytes(self@.version) + i32_bytes(self@.partition_id) + uuid_bytes(self@.topic_uuid) + i32_array_bytes(self@.replicas) + i32_array_bytes(self@.isr) + partition_state_bytes(self@.state)));
        assert(final(out)@ =~= old(out)@ + partition_record_bytes(self@));
    }
}

/// A partition value reads back as written, whatever follows it.
#[verifier::rlimit(40)]
pub proof fn lemma_partition_record_round_trip(m: PartitionRecordModel, rest: Seq<u8>)
    requires
        partition_record_fits(m),
    ensures
        parse_partition_record(partition_record_bytes(m) + rest) == Ok::<(PartitionRecordModel, nat), CodecError>((m, partition_record_bytes(m).len())),
{
    reveal(parse_partition_record);
    let f0 = i8_bytes(m.frame_version);
    let f1 = i8_bytes(m.record_type);
    let f2 = i8_bytes(m.version);
    let f3 = i32_bytes(m.partition_id);
    let f4 = uuid_bytes(m.topic_uuid);
    let f5 = i32_array_bytes(m.replicas);
    let f6 = i32_array_bytes(m.isr);
    let f7 = partition_state_bytes(m.state);
    let r8 = rest;
    let r7 = f7 + r8;
    let r6 = f6 + r7;
    let r5 = f5 + r6;
    let r4 = f4 + r5;
    let r3 = f3 + r4;
    let r2 = f2 + r3;
    let r1 = f1 + r2;
    let r0 = f0 + r1;
    assert(partition_record_bytes(m) + rest =~= r0);
    lemma_int_lens(m.frame_version, 0, 0, 0, 0, 0);
    lemma_int_round_trips(m.frame_version, 0, 0, 0, r1);
    assert(r0.skip(f0.len() as int) =~= r1);
    lemma_int_lens(m.record_type, 0, 0, 0, 0, 0);
    lemma_int_round_trips(m.record_type, 0, 0, 0, r2);
    assert(r1.skip(f1.len() as int) =~= r2);
    lemma_int_lens(m.version, 0, 0, 0, 0, 0);
    lemma_int_round_trips(m.version, 0, 0, 0, r3);
    assert(r2.skip(f2.len() as int) =~= r3);
    lemma_int_lens(0, 0, m.partition_id, 0, 0, 0);
    lemma_int_round_trips(0, 0, m.partition_id, 0, r4);
    assert(r3.skip(f3.len() as int) =~= r4);
    lemma_int_lens(0, 0, 0, 0, m.topic_uuid, 0);
    lemma_uuid_round_trip(m.topic_uuid, r5);
    assert(r4.skip(f4.len() as int) =~= r5);
    lemma_i32_array_round_trip(m.replicas, r6);
    assert(r5.skip(f5.len() as int) =~= r6);
    lemma_i32_array_round_trip(m.isr, r7);
    assert(r6.skip(f6.len() as int) =~= r7);
    lemma_partition_state_round_trip(m.state, r8);
    assert(r7.skip(f7.len() as int) =~= r8);
}

/// What a feature-level value holds.
pub struct FeatureLevelRecordModel {
    pub frame_version: i8,
    pub record_type: i8,
    pub version: i8,
    pub name: Option<Seq<char>>,
    pub feature_level: i16,
}

/// A feature-level value: `name:COMPACT_STRING, feature_level:INT16`, then a
/// tag buffer.
#[derive(Debug, Clone)]
pub struct FeatureLevelRecord {
    pub frame_version: i8,
    pub record_type: i8,
    pub version: i8,
    pub name: TextData,
    pub feature_level: i16,
}

impl View for FeatureLevelRecord {
    type V = FeatureLevelRecordModel;

    open spec fn view(&self) -> FeatureLevelRecordModel {
        FeatureLevelRecordModel {
            frame_version: self.frame_version,
            record_type: self.record_type,
            version: self.version,
            name: self.name@,
            feature_level: self.feature_level,
        }
    }
}
pub open spec fn feature_level_record_fits(m: FeatureLevelRecordModel) -> bool {
    name_fits(m.name)
}

/// Reads a feature-level value.
#[verifier::opaque]
pub open spec fn parse_feature_level_record(s: Seq<u8>) -> Result<(FeatureLevelRecordModel, nat), CodecError> {
    match parse_i8(s) {
        Err(e) => Err(e),
        Ok((v0, n0)) => {
            let s0 = s.skip(n0 as int);
            match parse_i8(s0) {
                Err(e) => Err(e),
                Ok((v1, n1)) => {
                    let s1 = s0.skip(n1 as int);
                    match parse_i8(s1) {
                        Err(e) => Err(e),
                        Ok((v2, n2)) => {
                            let s2 = s1.skip(n2 as int);
                            match parse_compact_string(s2) {
                                Err(e) => Err(e),
                                Ok((v3, n3)) => {
                                    let s3 = s2.skip(n3 as int);
                                    match parse_i16(s3) {
                                        Err(e) => Err(e),
                                        Ok((v4, n4)) => {
                                            let s4 = s3.skip(n4 as int);
                                            match parse_tag_buffer(s4) {
                                                Err(e) => Err(e),
                                                Ok((_, t)) => Ok((FeatureLevelRecordModel { frame_version: v0, record_type: v1, version: v2, name: v3, feature_level: v4 }, n0 + n1 + n2 + n3 + n4 + t)),
                                            }
                                        },
                                    }
                                },
                            }
                        },
                    }
                },
            }
        },
    }
}

/// The bytes of a feature-level value.
pub open spec fn feature_level_record_bytes(m: FeatureLevelRecordModel) -> Seq<u8> {
    i8_bytes(m.frame_version)
        + i8_bytes(m.record_type)
        + i8_bytes(m.version)
        + compact_string_bytes(m.name)
        + i16_bytes(m.feature_level)
        + empty_tag_buffer()
}

impl FeatureLevelRecord {
    /// Reads the value at `pos`.
    #[verifier::rlimit(40)]
    pub fn deserialize(buf: &[u8], pos: usize) -> (r: Result<(FeatureLevelRecord, usize), CodecError>)
        requires
            pos <= buf@.len(),
        ensures
            match r {
                Ok((v, p)) => pos < p <= buf@.len() && parse_feature_level_record(buf@.skip(pos as int)) == Ok::<(FeatureLevelRecordModel, nat), CodecError>((v@, (p - pos) as nat)),
                Err(e) => parse_feature_level_record(buf@.skip(pos as int)) == Err::<(FeatureLevelRecordModel, nat), CodecError>(e),
            },
    {
        reveal(parse_feature_level_record);
        let (frame_version, p0) = get_i8(buf, pos)?;
        assert(buf@.skip(p0 as int) =~= buf@.skip(pos as int).skip(p0 - pos));
        let (record_type, p1) = get_i8(buf, p0)?;
        assert(buf@.skip(p1 as int) =~= buf@.skip(p0 as int).skip(p1 - p0));
        let (version, p2) = get_i8(buf, p1)?;
        assert(buf@.skip(p2 as int) =~= buf@.skip(p1 as int).skip(p2 - p1));
        let (name, p3) = TextData::deserialize(buf, p2)?;
        assert(buf@.skip(p3 as int) =~= buf@.skip(p2 as int).skip(p3 - p2));
        let (feature_level, p4) = get_i16(buf, p3)?;
        assert(buf@.skip(p4 as int) =~= buf@.skip(p3 as int).skip(p4 - p3));
        let end = skip_tag_buffer(buf, p4)?;
        Ok((FeatureLevelRecord { frame_version, record_type, version, name, feature_level }, end))
    }

    /// Appends the value, with an empty tag buffer.
    pub fn serialize(&self, out: &mut Vec<u8>)
        ensures
            final(out)@ == old(out)@ + feature_level_record_bytes(self@),
    {
        put_i8(out, self.frame_version);
        put_i8(out, self.record_type);
        assert(out@ =~= old(out)@ + (i8_bytes(self@.frame_version) + i8_bytes(self@.record_type)));
        put_i8(out, self.version);
        assert(out@ =~= old(out)@ + (i8_bytes(self@.frame_version) + i8_bytes(self@.record_type) + i8_bytes(self@.version)));
        self.name.serialize(out);
        assert(out@ =~= old(out)@ + (i8_bytes(self@.frame_version) + i8_bytes(self@.record_type) + i8_bytes(self@.version) + compact_string_bytes(self@.name)));
        put_i16(out, self.feature_level);
        assert(out@ =~= old(out)@ + (i8_bytes(self@.frame_version) + i8_bytes(self@.record_type) + i8_bytes(self@.version) + compact_string_bytes(self@.name) + i16_bytes(self@.feature_level)));
        out.push(0u8);
        assert(final(out)@ =~= old(out)@ + feature_level_record_bytes(self@));
    }
}

/// A feature-level value reads back as written, whatever follows it.
#[verifier::rlimit(40)]
pub proof fn lemma_feature_level_record_round_trip(m: FeatureLevelRecordModel, rest: Seq<u8>)
    requires
        feature_level_record_fits(m),
    ensures
        parse_feature_level_record(feature_level_record_bytes(m) + rest) == Ok::<(FeatureLevelRecordModel, nat), CodecError>((m, feature_level_record_bytes(m).len())),
{
    reveal(parse_feature_level_record);
    let f0 = i8_bytes(m.frame_version);
    let f1 = i8_bytes(m.record_type);
    let f2 = i8_bytes(m.version);
    let f3 = compact_string_bytes(m.name);
    let f4 = i16_bytes(m.feature_level);
    let r5 = empty_tag_buffer() + rest;
    let r4 = f4 + r5;
    let r3 = f3 + r4;
    let r2 = f2 + r3;
    let r1 = f1 + r2;
    let r0 = f0 + r1;
    assert(feature_level_record_bytes(m) + rest =~= r0);
    lemma_int_lens(m.frame_version, 0, 0, 0, 0, 0);
    lemma_int_round_trips(m.frame_version, 0, 0, 0, r1);
    assert(r0.skip(f0.len() as int) =~= r1);
    lemma_int_lens(m.record_type, 0, 0, 0, 0, 0);
    lemma_int_round_trips(m.record_type, 0, 0, 0, r2);
    assert(r1.skip(f1.len() as int) =~= r2);
    lemma_int_lens(m.version, 0, 0, 0, 0, 0);
    lemma_int_round_trips(m.version, 0, 0, 0, r3);
    assert(r2.skip(f2.len() as int) =~= r3);
    lemma_compact_string_round_trip(m.name, r4);
    assert(r3.skip(f3.len() as int) =~= r4);
    lemma_int_lens(0, m.feature_level, 0, 0, 0, 0);
    lemma_int_round_trips(0, m.feature_level, 0, 0, r5);
    assert(r4.skip(f4.len() as int) =~= r5);
    lemma_empty_tag_buffer(rest);
}

/// What a record value holds.
pub enum RecordValueModel {
    Topic(TopicRecordModel),
    Partition(PartitionRecordModel),
    FeatureLevel(FeatureLevelRecordModel),
    RawBytes(Seq<u8>),
}

/// Bytes kept verbatim: the value of a record type not decoded here.
#[derive(Debug, Clone)]
pub struct RawBytesRecord {
    pub data: Vec<u8>,
}

/// A record value, decoded by its type.
#[derive(Debug, Clone)]
pub enum RecordType {
    Topic(TopicRecord),
    Partition(PartitionRecord),
    FeatureLevel(FeatureLevelRecord),
    RawBytes(RawBytesRecord),
}

impl View for RecordType {
    type V = RecordValueModel;

    open spec fn view(&self) -> RecordValueModel {
        match self {
            RecordType::Topic(t) => RecordValueModel::Topic(t@),
            RecordType::Partition(p) => RecordValueModel::Partition(p@),
            RecordType::FeatureLevel(f) => RecordValueModel::FeatureLevel(f@),
            RecordType::RawBytes(r) => RecordValueModel::RawBytes(r.data@),
        }
    }
}

/// Whether a value of `value_length` bytes starting with `s` has a type
/// decoded here: its second byte, the record type, is 2, 3 or 12.
pub open spec fn is_typed_value(s: Seq<u8>, value_length: i64) -> bool {
    value_length >= 2 && s.len() >= 2 && (s[1] == 2 || s[1] == 3 || s[1] == 12)
}

/// Reads the value of `value_length` bytes that `s` starts with. A typed
/// value must take exactly `value_length` bytes; any other value is kept raw,
/// and a length of zero or less stands for no bytes.
#[verifier::opaque]
pub open spec fn parse_record_value(s: Seq<u8>, value_length: i64) -> Result<(RecordValueModel, nat), CodecError> {
    if is_typed_value(s, value_length) {
        let p = if s[1] == 2 {
            match parse_topic_record(s) {
                Ok((t, n)) => Ok((RecordValueModel::Topic(t), n)),
                Err(e) => Err(e),
            }
        } else if s[1] == 3 {
            match parse_partition_record(s) {
                Ok((t, n)) => Ok((RecordValueModel::Partition(t), n)),
                Err(e) => Err(e),
            }
        } else {
            match parse_feature_level_record(s) {
                Ok((t, n)) => Ok((RecordValueModel::FeatureLevel(t), n)),
                Err(e) => Err(e),
            }
        };
        match p {
            Err(e) => Err(e),
            Ok((v, n)) => if n == value_length {
                Ok((v, n))
            } else {
                Err(CodecError::InvalidLength)
            },
        }
    } else if value_length <= 0 {
        Ok((RecordValueModel::RawBytes(Seq::empty()), 0))
    } else if s.len() < value_length {
        Err(CodecError::EndOfBuffer)
    } else {
        Ok((RecordValueModel::RawBytes(s.take(value_length as int)), value_length as nat))
    }
}

/// The bytes of a record value.
pub open spec fn record_value_bytes(v: RecordValueModel) -> Seq<u8> {
    match v {
        RecordValueModel::Topic(t) => topic_record_bytes(t),
        RecordValueModel::Partition(p) => partition_record_bytes(p),
        RecordValueModel::FeatureLevel(f) => feature_level_record_bytes(f),
        RecordValueModel::RawBytes(d) => d,
    }
}

/// A value of a decoded type whose record-type byte names that type and
/// whose fields fit their length prefixes.
pub open spec fn value_recognized(v: RecordValueModel) -> bool {
    match v {
        RecordValueModel::Topic(t) => t.record_type == TOPIC_RECORD_TYPE && topic_record_fits(t),
        RecordValueModel::Partition(p) => p.record_type == PARTITION_RECORD_TYPE && partition_record_fits(p),
        RecordValueModel::FeatureLevel(f) => f.record_type == FEATURE_LEVEL_RECORD_TYPE && feature_level_record_fits(f),
        RecordValueModel::RawBytes(_) => false,
    }
}

impl RecordType {
    /// Reads a value of `length` bytes at `pos`, decoding it by the record
    /// type in its second byte.
    pub fn new(buf: &[u8], pos: usize, length: i64) -> (r: Result<(RecordType, usize), CodecError>)
        requires
            pos <= buf@.len(),
        ensures
            match r {
                Ok((v, p)) => pos <= p <= buf@.len() && parse_record_value(buf@.skip(pos as int), length) == Ok::<(RecordValueModel, nat), CodecError>((v@, (p - pos) as nat)),
                Err(e) => parse_record_value(buf@.skip(pos as int), length) == Err::<(RecordValueModel, nat), CodecError>(e),
            },
    {
        reveal(parse_record_value);
        let ghost s = buf@.skip(pos as int);
        if length >= 2 && buf.len() - pos >= 2 && (buf[pos + 1] == 2 || buf[pos + 1] == 3 || buf[pos + 1] == 12) {
            assert(s[1] == buf@[pos + 1]);
            let kind = buf[pos + 1];
            let (v, p) = if kind == 2 {
                let (t, p) = TopicRecord::deserialize(buf, pos)?;
                (RecordType::Topic(t), p)
            } else if kind == 3 {
                let (t, p) = PartitionRecord::deserialize(buf, pos)?;
                (RecordType::Partition(t), p)
            } else {
                let (t, p) = FeatureLevelRecord::deserialize(buf, pos)?;
                (RecordType::FeatureLevel(t), p)
            };
            if (p - pos) as u64 != length as u64 {
                return Err(CodecError::InvalidLength);
            }
            Ok((v, p))
        } else {
            if length >= 2 && buf.len() - pos >= 2 {
                assert(s[1] == buf@[pos + 1]);
            }
            if length <= 0 {
                return Ok((RecordType::RawBytes(RawBytesRecord { data: Vec::new() }), pos));
            }
            if ((buf.len() - pos) as u64) < length as u64 {
                return Err(CodecError::EndOfBuffer);
            }
            let (data, p) = get_bytes(buf, pos, length as usize)?;
            assert(data@ =~= s.take(length as int));
            Ok((RecordType::RawBytes(RawBytesRecord { data }), p))
        }
    }

    /// Appends the value.
    pub fn serialize(&self, out: &mut Vec<u8>)
        ensures
            final(out)@ == old(out)@ + record_value_bytes(self@),
    {
        match self {
            RecordType::Topic(t) => t.serialize(out),
            RecordType::Partition(p) => p.serialize(out),
            RecordType::FeatureLevel(f) => f.serialize(out),
            RecordType::RawBytes(r) => put_bytes(out, r.data.as_slice()),
        }
    }

    /// The topic value, if this is one.
    pub fn try_get_topic(&self) -> (r: Option<&TopicRecord>)
        ensures
            match self@ {
                RecordValueModel::Topic(t) => r matches Some(x) && x@ == t,
                _ => r is None,
            },
    {
        match self {
            RecordType::Topic(t) => Some(t),
            _ => None,
        }
    }

    /// The partition value, if this is one of the topic `topic_uuid`.
    pub fn try_get_topic_partition(&self, topic_uuid: &i128) -> (r: Option<&PartitionRecord>)
        ensures
            match self@ {
                RecordValueModel::Partition(p) => if p.topic_uuid == *topic_uuid {
                    r matches Some(x) && x@ == p
                } else {
                    r is None
                },
                _ => r is None,
            },
    {
        match self {
            RecordType::Partition(p) => {
                if p.topic_uuid == *topic_uuid {
                    Some(p)
                } else {
                    None
                }
            },
            _ => None,
        }
    }
}

/// A recognized value reads back as written, whatever follows it, when its
/// length is the length of its bytes.
pub proof fn lemma_record_value_round_trip(v: RecordValueModel, rest: Seq<u8>)
    requires
        value_recognized(v),
        record_value_bytes(v).len() <= 0x7fff_ffff_ffff_ffff,
    ensures
        parse_record_value(record_value_bytes(v) + rest, record_value_bytes(v).len() as i64)
            == Ok::<(RecordValueModel, nat), CodecError>((v, record_value_bytes(v).len())),
{
    reveal(parse_record_value);
    let b = record_value_bytes(v);
    let s = b + rest;
    match v {
        RecordValueModel::Topic(t) => {
            lemma_topic_record_round_trip(t, rest);
            lemma_int_lens(t.frame_version, 0, 0, 0, 0, 0);
            lemma_int_lens(t.record_type, 0, 0, 0, 0, 0);
            lemma_small_i8_bytes(t.record_type);
            assert(s[1] == b[1]);
            assert(b[1] == i8_bytes(t.record_type)[0]);
        },
        RecordValueModel::Partition(p) => {
            lemma_partition_record_round_trip(p, rest);
            lemma_int_lens(p.frame_version, 0, 0, 0, 0, 0);
            lemma_int_lens(p.record_type, 0, 0, 0, 0, 0);
            lemma_small_i8_bytes(p.record_type);
            assert(s[1] == b[1]);
            assert(b[1] == i8_bytes(p.record_type)[0]);
        },
        RecordValueModel::FeatureLevel(f) => {
            lemma_feature_level_record_round_trip(f, rest);
            lemma_int_lens(f.frame_version, 0, 0, 0, 0, 0);
            lemma_int_lens(f.record_type, 0, 0, 0, 0, 0);
            lemma_small_i8_bytes(f.record_type);
            assert(s[1] == b[1]);
            assert(b[1] == i8_bytes(f.record_type)[0]);
        },
        RecordValueModel::RawBytes(_) => {},
    }
}

/// A non-negative `INT8` is one byte of the same value.
pub proof fn lemma_small_i8_bytes(v: i8)
    requires
        v >= 0,
    ensures
        i8_bytes(v) == seq![v as u8],
{
    assert(crate::wire::be_bytes(v as nat / 256, 0) == Seq::<u8>::empty());
    assert(i8_bytes(v) =~= seq![v as u8]);
}

} // verus!
